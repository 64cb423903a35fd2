use crate::errors::BfError;
use crate::errors::BfStateResult;
use crate::tape::GrowableVect;
use crate::tape::tape_read;
use crate::tape::tape_write;
use vstd::prelude::*;

verus! {

/// The byte `b + 1` with wrap-around: `255 + 1` is `0`.
pub open spec fn byte_inc(b: u8) -> u8 {
    if b == 255 {
        0
    } else {
        (b + 1) as u8
    }
}

/// The byte `b - 1` with wrap-around: `0 - 1` is `255`.
pub open spec fn byte_dec(b: u8) -> u8 {
    if b == 0 {
        255
    } else {
        (b - 1) as u8
    }
}

/// The state one program execution runs against: a tape and a single data
/// pointer identifying the current cell. The pointer is a plain index; it
/// is never decremented below zero (that attempt is a `Segfault`), and the
/// machine word bounds how far it can move right.
pub struct BfState {
    /// The memory tape.
    pub memory: GrowableVect,
    /// The index of the current cell.
    pub pointer: usize,
}

impl BfState {
    /// A fresh state: empty tape, pointer at cell zero.
    pub fn new() -> (s: BfState)
        ensures
            s.memory@ == Seq::<u8>::empty(),
            s.pointer == 0,
    {
        BfState { memory: GrowableVect::new(), pointer: 0 }
    }

    /// The byte in the current cell.
    pub fn curr(&self) -> (b: u8)
        ensures
            b == tape_read(self.memory@, self.pointer as int),
    {
        self.memory.read(self.pointer)
    }

    /// Stores `value` in the current cell, growing the tape if needed.
    pub fn set_curr(&mut self, value: u8)
        requires
            old(self).pointer < usize::MAX,
        ensures
            final(self).pointer == old(self).pointer,
            final(self).memory@ == tape_write(
                old(self).memory@,
                old(self).pointer as int,
                value,
            ),
    {
        let p = self.pointer;
        self.memory.write(p, value);
    }

    /// Increments the current cell with wrap-around semantics.
    pub fn inc(&mut self)
        requires
            old(self).pointer < usize::MAX,
        ensures
            final(self).pointer == old(self).pointer,
            final(self).memory@ == tape_write(
                old(self).memory@,
                old(self).pointer as int,
                byte_inc(tape_read(old(self).memory@, old(self).pointer as int)),
            ),
    {
        let c = self.curr();
        let v: u8 = if c == 255 {
            0
        } else {
            c + 1
        };
        self.set_curr(v);
    }

    /// Decrements the current cell with wrap-around semantics.
    pub fn dec(&mut self)
        requires
            old(self).pointer < usize::MAX,
        ensures
            final(self).pointer == old(self).pointer,
            final(self).memory@ == tape_write(
                old(self).memory@,
                old(self).pointer as int,
                byte_dec(tape_read(old(self).memory@, old(self).pointer as int)),
            ),
    {
        let c = self.curr();
        let v: u8 = if c == 0 {
            255
        } else {
            c - 1
        };
        self.set_curr(v);
    }

    /// Moves the pointer one cell to the left. When the pointer already
    /// stands at cell zero this fails with `Segfault` and leaves the state
    /// untouched; from any positive pointer it succeeds and decrements the
    /// pointer by exactly one.
    pub fn left(&mut self) -> (r: BfStateResult)
        ensures
            final(self).memory@ == old(self).memory@,
            old(self).pointer == 0 ==> r == Err::<(), BfError>(BfError::Segfault)
                && final(self).pointer == 0,
            old(self).pointer > 0 ==> r == Ok::<(), BfError>(())
                && final(self).pointer == old(self).pointer - 1,
    {
        if self.pointer == 0 {
            return Err(BfError::Segfault);
        }
        self.pointer -= 1;
        Ok(())
    }

    /// Moves the pointer one cell to the right. The bound is the machine's
    /// addressable range, not the materialized tape: growth happens lazily
    /// on the next write.
    pub fn right(&mut self)
        requires
            old(self).pointer < usize::MAX,
        ensures
            final(self).memory@ == old(self).memory@,
            final(self).pointer == old(self).pointer + 1,
    {
        self.pointer += 1;
    }
}

} // verus!
