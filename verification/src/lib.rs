use vstd::prelude::*;

pub mod demo;
pub mod io;
pub mod page_alloc;
pub mod panic_screen;
pub mod tty;
pub mod vga;

verus! {

} // verus!
