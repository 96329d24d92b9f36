//! Boot-source protocol for network recovery boot: wire messages, the
//! firmware table of contents, the network mailbox models and the
//! decision logic of the boot-source application and the ROM image provider.

pub mod boot_app;
pub mod dhcp6;
pub mod emu_mailbox;
pub mod lwip;
pub mod mailbox;
pub mod messages;
pub mod network;
pub mod provider;
pub mod rom_selftest;
pub mod timers;
pub mod toc;
pub mod wire;
