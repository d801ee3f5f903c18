//! Building a preseeded, unattended Debian installer.
//!
//! The library holds what is decided and computed on the way: what is done in which order
//! ([`plan`]), which image is the latest ([`mirror`]), how an image is changed
//! ([`inject`], with the commands of [`xorriso`]): its preseed configuration
//! ([`preseed`]), its initial RAM disk ([`initrd`]) and its boot menus ([`boot`]), and
//! what goes to the device ([`transfer`]). The program around it reads and writes files,
//! runs other programs and talks to the mirror.

pub mod boot;
pub mod error;
pub mod initrd;
pub mod inject;
pub mod mirror;
pub mod plan;
pub mod preseed;
pub mod text;
pub mod transfer;
pub mod xorriso;
