//! The boot menus of an installer image, patched so that the installation starts by itself.

use crate::text::{
    clash, contains, law_first_match_gives_way, lemma_first_match, lemma_no_start,
    lemma_replaced_absent, lemma_replaced_after, lemma_replaced_all_preceded,
    lemma_replaced_nothing, lemma_replaced_unmarked, occurs_at, replace_all, replaced,
};
use vstd::prelude::*;

verus! {

/// In `isolinux.cfg`, a menu that waits for ever.
pub const WAIT_FOREVER: &'static str = "timeout 0";

/// In `isolinux.cfg`, a menu that waits for one second.
pub const WAIT_ONE_SECOND: &'static str = "timeout 10";

/// In `isolinux.cfg`, the graphical menu as what is booted.
pub const BOOT_MENU: &'static str = "default vesamenu.c32";

/// In `isolinux.cfg`, the installer as what is booted.
pub const BOOT_INSTALLER: &'static str = "default install";

/// What ends the kernel's arguments in a menu entry.
pub const ARGS_END: &'static str = "--- quiet";

/// Arguments for an unattended installation, before the end of the arguments.
pub const AUTO_ARGS: &'static str = "auto=true priority=critical --- quiet";

/// The same, with the installer on the first serial port.
pub const AUTO_SERIAL_ARGS: &'static str = "console=ttyS0,115200n8 auto=true priority=critical --- quiet";

/// The argument that puts the installer on the first serial port.
pub const SERIAL_ARG: &'static str = "console=ttyS0,115200n8 ";

/// What `grub.cfg` starts with: one second to wait, and the installer as what is booted.
pub const GRUB_HEADER: &'static str = "set timeout=1\nset default=\"Install\"\n";

/// What stands in a menu entry for `--- quiet`.
pub open spec fn kernel_args(serial_console: bool) -> Seq<char> {
    if serial_console {
        AUTO_SERIAL_ARGS@
    } else {
        AUTO_ARGS@
    }
}

/// `isolinux.cfg` patched.
pub open spec fn isolinux_patched(s: Seq<char>) -> Seq<char> {
    replaced(replaced(s, WAIT_FOREVER@, WAIT_ONE_SECOND@), BOOT_MENU@, BOOT_INSTALLER@)
}

/// `txt.cfg` patched.
pub open spec fn txt_patched(s: Seq<char>, serial_console: bool) -> Seq<char> {
    replaced(s, ARGS_END@, kernel_args(serial_console))
}

/// `grub.cfg` patched.
pub open spec fn grub_patched(s: Seq<char>, serial_console: bool) -> Seq<char> {
    replaced(GRUB_HEADER@ + s, ARGS_END@, kernel_args(serial_console))
}

/// The text that stands in a menu entry for `--- quiet`.
pub fn extra_kernel_args(serial_console: bool) -> (r: &'static str)
    ensures
        r@ == kernel_args(serial_console),
{
    if serial_console {
        AUTO_SERIAL_ARGS
    } else {
        AUTO_ARGS
    }
}

/// Patches `isolinux.cfg`: the menu waits for one second, then boots the installer.
pub fn patch_isolinux_cfg(cfg: &str) -> (r: String)
    ensures
        r@ == isolinux_patched(cfg@),
{
    proof {
        reveal_strlit("timeout 0");
        reveal_strlit("default vesamenu.c32");
    }
    let waiting = replace_all(cfg, WAIT_FOREVER, WAIT_ONE_SECOND);
    replace_all(waiting.as_str(), BOOT_MENU, BOOT_INSTALLER)
}

/// Patches `txt.cfg`: the entries install unattended.
pub fn patch_txt_cfg(cfg: &str, serial_console: bool) -> (r: String)
    ensures
        r@ == txt_patched(cfg@, serial_console),
{
    proof {
        reveal_strlit("--- quiet");
    }
    replace_all(cfg, ARGS_END, extra_kernel_args(serial_console))
}

/// Patches `grub.cfg`: the menu waits for one second, then boots the installer, and the
/// entries install unattended.
pub fn patch_grub_cfg(cfg: &str, serial_console: bool) -> (r: String)
    ensures
        r@ == grub_patched(cfg@, serial_console),
{
    proof {
        reveal_strlit("--- quiet");
    }
    let mut headed = String::new();
    headed.append(GRUB_HEADER);
    headed.append(cfg);
    assert(headed@ == GRUB_HEADER@ + cfg@);
    replace_all(headed.as_str(), ARGS_END, extra_kernel_args(serial_console))
}

/// A patched `isolinux.cfg` neither waits for ever nor boots the graphical menu.
pub proof fn law_isolinux_boots_by_itself(s: Seq<char>)
    ensures
        !contains(isolinux_patched(s), WAIT_FOREVER@),
        !contains(isolinux_patched(s), BOOT_MENU@),
{
    reveal_strlit("timeout 0");
    reveal_strlit("timeout 10");
    reveal_strlit("default vesamenu.c32");
    reveal_strlit("default install");
    let wait = WAIT_FOREVER@;
    let short = WAIT_ONE_SECOND@;
    let menu = BOOT_MENU@;
    let install = BOOT_INSTALLER@;
    assert forall|j: int| 0 <= j < wait.len() implies clash(#[trigger] wait.skip(j), short) by {
        let k = if j == 0 {
            8int
        } else if j == 6 {
            1int
        } else {
            0int
        };
        assert(wait.skip(j)[k] != short[k]);
    }
    assert forall|i: int| 0 <= i < short.len() implies clash(#[trigger] short.skip(i), wait) by {
        let k = if i == 0 {
            8int
        } else if i == 6 {
            1int
        } else {
            0int
        };
        assert(short.skip(i)[k] != wait[k]);
    }
    let once = replaced(s, wait, short);
    lemma_replaced_absent(s, wait, short, wait);

    assert forall|j: int| 0 <= j < wait.len() implies clash(#[trigger] wait.skip(j), install) by {
        assert(wait.skip(j)[0] != install[0]);
    }
    assert forall|i: int| 0 <= i < install.len() implies clash(
        #[trigger] install.skip(i),
        wait,
    ) by {
        let k = if i == 6 || i == 11 {
            1int
        } else {
            0int
        };
        assert(install.skip(i)[k] != wait[k]);
    }
    lemma_replaced_absent(once, menu, install, wait);

    assert forall|j: int| 0 <= j < menu.len() implies clash(#[trigger] menu.skip(j), install) by {
        let k = if j == 0 {
            8int
        } else {
            0int
        };
        assert(menu.skip(j)[k] != install[k]);
    }
    assert forall|i: int| 0 <= i < install.len() implies clash(
        #[trigger] install.skip(i),
        menu,
    ) by {
        let k = if i == 0 {
            8int
        } else {
            0int
        };
        assert(install.skip(i)[k] != menu[k]);
    }
    lemma_replaced_absent(once, menu, install, menu);
}

/// The arguments that stand before `--- quiet` in a patched entry.
pub open spec fn added_args(serial_console: bool) -> Seq<char> {
    if serial_console {
        "console=ttyS0,115200n8 auto=true priority=critical "@
    } else {
        "auto=true priority=critical "@
    }
}

/// Each `--- quiet` of a patched `txt.cfg` has the arguments of an unattended
/// installation before it.
pub proof fn law_entries_install_unattended(s: Seq<char>, serial_console: bool, i: int)
    requires
        occurs_at(txt_patched(s, serial_console), ARGS_END@, i),
    ensures
        i >= added_args(serial_console).len(),
        txt_patched(s, serial_console).subrange(i - added_args(serial_console).len(), i)
            == added_args(serial_console),
{
    reveal_strlit("--- quiet");
    reveal_strlit("auto=true priority=critical ");
    reveal_strlit("auto=true priority=critical --- quiet");
    reveal_strlit("console=ttyS0,115200n8 auto=true priority=critical ");
    reveal_strlit("console=ttyS0,115200n8 auto=true priority=critical --- quiet");
    let pre = added_args(serial_console);
    let pat = ARGS_END@;
    let with = pre + pat;
    assert(with =~= kernel_args(serial_console));
    assert forall|j: int| 0 <= j < pat.len() implies clash(#[trigger] pat.skip(j), with) by {
        assert(pat.skip(j)[0] != with[0]);
    }
    assert forall|j: int| 0 <= j < pre.len() + pat.len() && j != pre.len() implies clash(
        #[trigger] with.skip(j),
        pat,
    ) by {
        let k = if j == pre.len() + 1 {
            2int
        } else if j == pre.len() + 2 {
            1int
        } else {
            0int
        };
        assert(with.skip(j)[k] != pat[k]);
    }
    lemma_replaced_all_preceded(s, pre, pat, i);
}

/// A patched `grub.cfg` starts with the header, behind which its entries are patched as
/// those of `txt.cfg` are.
pub proof fn law_grub_starts_with_header(s: Seq<char>, serial_console: bool)
    ensures
        grub_patched(s, serial_console) == GRUB_HEADER@ + txt_patched(s, serial_console),
{
    reveal_strlit("--- quiet");
    reveal_strlit("set timeout=1\nset default=\"Install\"\n");
    let head = GRUB_HEADER@;
    assert forall|i: int| 0 <= i < head.len() implies clash(#[trigger] head.skip(i), ARGS_END@) by {
        assert(head.skip(i)[0] != ARGS_END@[0]);
    }
    lemma_replaced_after(head, s, ARGS_END@, kernel_args(serial_console));
}

/// Each `--- quiet` of a patched `grub.cfg` has the arguments of an unattended
/// installation before it.
pub proof fn law_grub_entries_install_unattended(s: Seq<char>, serial_console: bool, i: int)
    requires
        occurs_at(grub_patched(s, serial_console), ARGS_END@, i),
    ensures
        i >= added_args(serial_console).len(),
        grub_patched(s, serial_console).subrange(i - added_args(serial_console).len(), i)
            == added_args(serial_console),
{
    reveal_strlit("--- quiet");
    reveal_strlit("set timeout=1\nset default=\"Install\"\n");
    law_grub_starts_with_header(s, serial_console);
    let txt = txt_patched(s, serial_console);
    let grub = grub_patched(s, serial_console);
    let head = GRUB_HEADER@;
    let pre = added_args(serial_console);
    let r = i - head.len();
    assert(grub.subrange(i, i + ARGS_END@.len())[0] == grub[i]);
    assert(i >= head.len()) by {
        assert forall|k: int| 0 <= k < head.len() implies head[k] != '-' by {}
    }
    assert(txt.subrange(r, r + ARGS_END@.len()) == grub.subrange(i, i + ARGS_END@.len()));
    law_entries_install_unattended(s, serial_console, r);
    assert(grub.subrange(i - pre.len(), i) == txt.subrange(r - pre.len(), r));
}

/// Unless a serial console was asked for, no menu gets one.
pub proof fn law_serial_console_is_opt_in(s: Seq<char>)
    requires
        !contains(s, "console=ttyS0"@),
    ensures
        !contains(txt_patched(s, false), "console=ttyS0"@),
        !contains(grub_patched(s, false), "console=ttyS0"@),
{
    reveal_strlit("console=ttyS0");
    reveal_strlit("auto=true priority=critical --- quiet");
    reveal_strlit("--- quiet");
    reveal_strlit("set timeout=1\nset default=\"Install\"\n");
    let q = "console=ttyS0"@;
    let with = AUTO_ARGS@;
    assert forall|j: int| 0 <= j < q.len() implies clash(#[trigger] q.skip(j), with) by {
        assert(q.skip(j)[0] != with[0]);
    }
    assert forall|i: int| 0 <= i < with.len() implies clash(#[trigger] with.skip(i), q) by {
        let k = if with[i] == 'c' {
            1int
        } else {
            0int
        };
        assert(with.skip(i)[k] != q[k]);
    }
    lemma_replaced_absent(s, ARGS_END@, with, q);
    law_grub_starts_with_header(s, false);
    let txt = txt_patched(s, false);
    let grub = grub_patched(s, false);
    let head = GRUB_HEADER@;
    if contains(grub, q) {
        let i = choose|i: int| occurs_at(grub, q, i);
        assert(grub.subrange(i, i + q.len())[0] == grub[i]);
        if i < head.len() {
            assert(head[i] != 'c');
        } else {
            assert(txt.subrange(i - head.len(), i - head.len() + q.len()) == grub.subrange(
                i,
                i + q.len(),
            ));
            assert(occurs_at(txt, q, i - head.len()));
        }
    }
}

/// A serial console adds its argument to the entries and changes nothing else: without
/// that argument the menus are as they are without a serial console.
pub proof fn law_serial_console_adds_its_argument_alone(s: Seq<char>)
    requires
        !contains(s, SERIAL_ARG@),
    ensures
        replaced(txt_patched(s, true), SERIAL_ARG@, Seq::empty()) == txt_patched(s, false),
        replaced(grub_patched(s, true), SERIAL_ARG@, Seq::empty()) == grub_patched(s, false),
{
    reveal_strlit("--- quiet");
    reveal_strlit("auto=true priority=critical --- quiet");
    reveal_strlit("console=ttyS0,115200n8 ");
    reveal_strlit("console=ttyS0,115200n8 auto=true priority=critical --- quiet");
    reveal_strlit("set timeout=1\nset default=\"Install\"\n");
    let mark = SERIAL_ARG@;
    let with = AUTO_ARGS@;
    let head = GRUB_HEADER@;
    assert(AUTO_SERIAL_ARGS@ =~= mark + with);
    let later = mark.skip(1);
    assert forall|j: int| 0 <= j < later.len() implies clash(#[trigger] later.skip(j), mark + with) by {
        assert(later.skip(j)[0] != (mark + with)[0]);
    }
    assert forall|i: int| 0 <= i < with.len() implies clash(#[trigger] with.skip(i), mark) by {
        let k = if with[i] == 'c' {
            1int
        } else {
            0int
        };
        assert(with.skip(i)[k] != mark[k]);
    }
    lemma_replaced_unmarked(s, ARGS_END@, mark, with);
    law_grub_starts_with_header(s, true);
    law_grub_starts_with_header(s, false);
    assert forall|i: int| 0 <= i < head.len() implies clash(#[trigger] head.skip(i), mark) by {
        assert(head.skip(i)[0] != mark[0]);
    }
    lemma_replaced_after(head, txt_patched(s, true), mark, Seq::empty());
}

/// Menus in which there is nothing to patch stay as they are; `grub.cfg` gets its header.
pub proof fn law_other_menus_stay(s: Seq<char>, serial_console: bool)
    ensures
        !contains(s, WAIT_FOREVER@) && !contains(s, BOOT_MENU@) ==> isolinux_patched(s) == s,
        !contains(s, ARGS_END@) ==> txt_patched(s, serial_console) == s,
        !contains(s, ARGS_END@) ==> grub_patched(s, serial_console) == GRUB_HEADER@ + s,
{
    if !contains(s, WAIT_FOREVER@) && !contains(s, BOOT_MENU@) {
        lemma_replaced_nothing(s, WAIT_FOREVER@, WAIT_ONE_SECOND@);
        lemma_replaced_nothing(s, BOOT_MENU@, BOOT_INSTALLER@);
    }
    if !contains(s, ARGS_END@) {
        lemma_replaced_nothing(s, ARGS_END@, kernel_args(serial_console));
        law_grub_starts_with_header(s, serial_console);
    }
}

/// Of `txt.cfg`, each `--- quiet` gets the arguments of an unattended installation before
/// it, those of a serial console only where one was asked for, and all else stays.
///
/// Here `a` is what stands before the first `--- quiet`, and `b` what stands behind it.
pub proof fn law_txt_changes_at_each_end_of_arguments(a: Seq<char>, b: Seq<char>)
    requires
        !contains(a, "--- quiet"@),
    ensures
        txt_patched(a, false) == a,
        txt_patched(a, true) == a,
        txt_patched(a + "--- quiet"@ + b, false) == a + "auto=true priority=critical --- quiet"@
            + txt_patched(b, false),
        txt_patched(a + "--- quiet"@ + b, true) == a
            + "console=ttyS0,115200n8 auto=true priority=critical --- quiet"@ + txt_patched(b, true),
{
    reveal_strlit("--- quiet");
    let pat = "--- quiet"@;
    assert forall|j: int| 0 < j < pat.len() implies clash(#[trigger] pat.skip(j), pat) by {
        let k = if j == 1 {
            2int
        } else if j == 2 {
            1int
        } else {
            0int
        };
        assert(pat.skip(j)[k] != pat[k]);
    }
    assert forall|i: int| 0 <= i < a.len() implies #[trigger] (a + pat).subrange(
        i,
        i + pat.len(),
    ) != pat by {
        lemma_first_match(a, pat, i);
    }
    lemma_replaced_nothing(a, pat, kernel_args(false));
    lemma_replaced_nothing(a, pat, kernel_args(true));
    law_first_match_gives_way(a, pat, b, kernel_args(false));
    law_first_match_gives_way(a, pat, b, kernel_args(true));
}

/// `grub.cfg` gets one second to wait and the installer as what is booted put before it,
/// and is else treated as `txt.cfg` is.
pub proof fn law_grub_changes_as_txt_behind_its_header(s: Seq<char>, serial_console: bool)
    ensures
        grub_patched(s, serial_console) == "set timeout=1\nset default=\"Install\"\n"@ + txt_patched(
            s,
            serial_console,
        ),
{
    law_grub_starts_with_header(s, serial_console);
}

/// Of `isolinux.cfg`, each endless wait becomes one of a second, each boot of the graphical
/// menu one of the installer, and all else stays.
///
/// Here `a` is what stands before the first of these, and `b` what stands behind it.
pub proof fn law_isolinux_changes_at_each_wait_and_default(a: Seq<char>, b: Seq<char>)
    requires
        !contains(a, "timeout 0"@),
        !contains(a, "default vesamenu.c32"@),
    ensures
        isolinux_patched(a) == a,
        isolinux_patched(a + "timeout 0"@ + b) == a + "timeout 10"@ + isolinux_patched(b),
        isolinux_patched(a + "default vesamenu.c32"@ + b) == a + "default install"@
            + isolinux_patched(b),
{
    reveal_strlit("timeout 0");
    reveal_strlit("timeout 10");
    reveal_strlit("default vesamenu.c32");
    let wait = "timeout 0"@;
    let short = "timeout 10"@;
    let menu = "default vesamenu.c32"@;
    let install = "default install"@;
    lemma_replaced_nothing(a, wait, short);
    lemma_replaced_nothing(a, menu, install);

    assert forall|j: int| 0 < j < wait.len() implies clash(#[trigger] wait.skip(j), wait) by {
        let k = if j == 6 {
            1int
        } else {
            0int
        };
        assert(wait.skip(j)[k] != wait[k]);
    }
    assert forall|j: int| 0 < j < menu.len() implies clash(#[trigger] menu.skip(j), menu) by {
        assert(menu.skip(j)[0] != menu[0]);
    }
    assert forall|i: int| 0 <= i < a.len() implies #[trigger] (a + wait).subrange(
        i,
        i + wait.len(),
    ) != wait by {
        lemma_first_match(a, wait, i);
    }
    assert forall|i: int| 0 <= i < a.len() implies #[trigger] (a + menu).subrange(
        i,
        i + menu.len(),
    ) != menu by {
        lemma_first_match(a, menu, i);
    }

    assert forall|j: int| 0 <= j < menu.len() implies clash(#[trigger] menu.skip(j), short) by {
        let k = if j == 6 {
            1int
        } else {
            0int
        };
        assert(menu.skip(j)[k] != short[k]);
    }
    assert forall|i: int| 0 <= i < short.len() implies clash(#[trigger] short.skip(i), menu) by {
        assert(short.skip(i)[0] != menu[0]);
    }
    let tail = replaced(b, wait, short);
    law_first_match_gives_way(a, wait, b, short);
    lemma_no_start(a, menu, short);
    lemma_replaced_after(a + short, tail, menu, install);

    assert forall|j: int| 0 <= j < wait.len() implies clash(#[trigger] wait.skip(j), menu) by {
        assert(wait.skip(j)[0] != menu[0]);
    }
    assert forall|i: int| 0 <= i < menu.len() implies clash(#[trigger] menu.skip(i), wait) by {
        let k = if i == 6 {
            1int
        } else {
            0int
        };
        assert(menu.skip(i)[k] != wait[k]);
    }
    lemma_no_start(a, wait, menu);
    lemma_replaced_after(a + menu, b, wait, short);
    law_first_match_gives_way(a, menu, tail, install);
}

} // verus!
