//! The source alphabet.

use vstd::prelude::*;

verus! {

/// One token of the operation stream.
#[derive(Clone, Copy, Debug, PartialEq, Eq, Structural)]
pub enum Op {
    /// `>`: move the pointer one cell up.
    Right,
    /// `<`: move the pointer one cell down.
    Left,
    /// `+`: add one to the current cell.
    Inc,
    /// `-`: subtract one from the current cell.
    Dec,
    /// `[`: begin a loop.
    Open,
    /// `]`: end the innermost open loop.
    Close,
    /// `.`: write the current cell to the output.
    Output,
    /// `,`: read one byte of input into the current cell.
    Input,
    /// Any other byte: a comment, which does nothing.
    Skip,
}

/// The token that a byte of the stream stands for.
pub open spec fn op_of(b: u8) -> Op {
    if b == 0x3e {
        Op::Right
    } else if b == 0x3c {
        Op::Left
    } else if b == 0x2b {
        Op::Inc
    } else if b == 0x2d {
        Op::Dec
    } else if b == 0x5b {
        Op::Open
    } else if b == 0x5d {
        Op::Close
    } else if b == 0x2e {
        Op::Output
    } else if b == 0x2c {
        Op::Input
    } else {
        Op::Skip
    }
}

/// Decodes one byte of the stream.
pub fn decode(b: u8) -> (op: Op)
    ensures
        op == op_of(b),
{
    if b == 0x3e {
        Op::Right
    } else if b == 0x3c {
        Op::Left
    } else if b == 0x2b {
        Op::Inc
    } else if b == 0x2d {
        Op::Dec
    } else if b == 0x5b {
        Op::Open
    } else if b == 0x5d {
        Op::Close
    } else if b == 0x2e {
        Op::Output
    } else if b == 0x2c {
        Op::Input
    } else {
        Op::Skip
    }
}

} // verus!
