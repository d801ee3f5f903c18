# Debian preseed installer builder

Makes an unattended Debian installer: takes a Debian DVD image, puts a preseed
configuration into its initial RAM disk, patches its boot menus so that the installation
starts by itself, and writes the result to a USB device.

## Layout

- `src/` is the library, written in Verus. It holds what is decided and computed: the
  order of the work (`plan`, `inject`), the overrides in a preseed configuration
  (`preseed`), the archive that is appended to the initial RAM disk (`initrd`), the boot
  menus (`boot`), the commands for `xorriso` (`xorriso`), the choice of the latest image
  on the mirror (`mirror`) and what is written to the device (`transfer`). Each function
  has a contract; what holds of several together is stated by the proof functions whose
  names start with `law_`.
- `app/` is the program around it: arguments, files, devices, downloads, and `xorriso`
  itself, which has to be installed.
- `tests/` runs the library.

## What is not proved

`src/initrd.rs` calls the crates `cpio` and `flate2`, and `src/text.rs` calls
`String::push`. What the library relies on there is written beside these calls.

## Usage

```text
debian_installer_builder --device /dev/sdX --preseed preseed.cfg

  -d, --device <DEVICE>      Target USB block device; it is overwritten
  -p, --preseed <PRESEED>    Path to the preseed file
  -u, --url <URL>            URL of the DVD image; without it, the latest stable one
  -i, --iso <ISO>            A DVD image that is there already; nothing is downloaded
      --username <USERNAME>  Override the user name in the preseed file
      --password <PASSWORD>  Override the password in the preseed file
      --hostname <HOSTNAME>  Override the host name in the preseed file
      --serial-console       Installer on the first serial port
```

Temporary files go where `TMPDIR` says; a DVD image and its copy need several gigabytes
there.
