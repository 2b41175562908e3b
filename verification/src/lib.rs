//! Declarative initramfs and microcode archive generation.

pub mod cli;
pub mod config;
pub mod elf;
pub mod encoder;
pub mod initramfs;
pub mod kmod;
pub mod microcode;
pub mod newc;
pub mod order;
pub mod path;
pub mod search;
pub mod systemd;
pub mod sys;
pub mod text;
pub mod vfs;
