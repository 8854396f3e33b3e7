//! The emulator's GDB remote stub, its audio-queue host functions and its
//! app picker bookkeeping, with their behaviour stated and proved.
pub mod gdb;
pub mod mem;
pub mod environment;
pub mod frameworks;
