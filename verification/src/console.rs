//! The input mode of a Windows console.
use vstd::prelude::*;

verus! {

/// The mode bit that has the console translate keys to terminal byte sequences.
pub const VIRTUAL_TERMINAL_INPUT: u32 = 0x0200;

/// The input mode under which the console translates keys to terminal byte sequences; in
/// every other respect it is the mode that the console has.
pub fn virtual_terminal_mode(original_mode: u32) -> (mode: u32)
    ensures
        mode == original_mode | VIRTUAL_TERMINAL_INPUT,
        mode & VIRTUAL_TERMINAL_INPUT == VIRTUAL_TERMINAL_INPUT,
        mode & !VIRTUAL_TERMINAL_INPUT == original_mode & !VIRTUAL_TERMINAL_INPUT,
{
    let mode: u32 = original_mode | VIRTUAL_TERMINAL_INPUT;
    proof {
        assert((original_mode | 0x0200u32) & 0x0200u32 == 0x0200u32) by (bit_vector);
        assert((original_mode | 0x0200u32) & !0x0200u32 == original_mode & !0x0200u32)
            by (bit_vector);
    }
    mode
}

} // verus!
