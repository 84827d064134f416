//! The logic of a small x86_64 kernel: its shell, text editor, RAM file system, user setup,
//! task scheduler, VGA text screen and ATA sector layout.
pub mod text;
pub mod setup;
pub mod shell;
pub mod task;
pub mod vga;
pub mod fs;
pub mod editor;
pub mod ata;
pub mod keyboard;
pub mod memory;
