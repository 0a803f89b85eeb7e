pub mod elf;
pub mod process;
