use vstd::prelude::*;

pub mod reg;
pub mod ram;
pub mod qemu;
pub mod cpu;
