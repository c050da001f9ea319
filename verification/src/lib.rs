use vstd::prelude::*;

pub mod util;
pub mod memory;
pub mod elf;
pub mod storage;
pub mod env;
pub mod queue;
pub mod keyboard;
pub mod font;
pub mod console;
pub mod terminal;
pub mod io;
pub mod thread;
pub mod process;
pub mod scheduler;
pub mod services;
pub mod bootstrap;
pub mod task;
pub mod arch;
pub mod pci;
pub mod syscall;
pub mod power;

verus! {
} // verus!
