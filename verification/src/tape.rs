use vstd::prelude::*;

verus! {

/// What a read of index `i` returns on a tape whose materialized cells are
/// `mem`: the stored byte inside the materialized range, and the default
/// byte `0` beyond it.
pub open spec fn tape_read(mem: Seq<u8>, i: int) -> u8 {
    if 0 <= i < mem.len() {
        mem[i]
    } else {
        0
    }
}

/// What a write of `v` at index `i` leaves on the tape: the materialized
/// range grows just far enough to hold index `i`, newly exposed cells hold
/// the default byte, and every index other than `i` reads as before.
pub open spec fn tape_write(mem: Seq<u8>, i: int, v: u8) -> Seq<u8>
    recommends
        0 <= i,
{
    Seq::new(
        if i + 1 > mem.len() {
            (i + 1) as nat
        } else {
            mem.len()
        },
        |j: int| if j == i { v } else { tape_read(mem, j) },
    )
}

/// Law: a write followed immediately by a read of the same index returns
/// exactly the byte written.
pub proof fn lemma_tape_round_trip(mem: Seq<u8>, i: int, v: u8)
    requires
        0 <= i,
    ensures
        tape_read(tape_write(mem, i, v), i) == v,
{
}

/// Law: a write never disturbs any other index; in particular, writing to
/// a larger index than previously touched leaves every previously written
/// lower index as it was.
pub proof fn lemma_tape_write_preserves(mem: Seq<u8>, i: int, j: int, v: u8)
    requires
        0 <= i,
        0 <= j,
        i != j,
    ensures
        tape_read(tape_write(mem, i, v), j) == tape_read(mem, j),
{
}

/// Law: on a fresh tape every index reads as the default byte `0`; together
/// with the preservation law, an index that no write ever touched keeps
/// reading `0`.
pub proof fn lemma_tape_fresh_default(i: int)
    ensures
        tape_read(Seq::<u8>::empty(), i) == 0,
{
}

/// An unbounded, lazily growing sequence of byte cells. Reading any index
/// is always possible (indices beyond the materialized range read as `0`),
/// and writing any index below `usize::MAX` grows the backing storage as
/// needed, filling newly exposed cells with `0`.
pub struct GrowableVect {
    arr: Vec<u8>,
}

impl View for GrowableVect {
    type V = Seq<u8>;

    closed spec fn view(&self) -> Seq<u8> {
        self.arr@
    }
}

impl GrowableVect {
    /// An empty tape: nothing is materialized, so every index reads `0`.
    pub fn new() -> (t: GrowableVect)
        ensures
            t@ == Seq::<u8>::empty(),
    {
        let arr: Vec<u8> = Vec::new();
        GrowableVect { arr }
    }

    /// The byte stored at `index`, or `0` when `index` lies beyond the
    /// materialized range. Never fails.
    pub fn read(&self, index: usize) -> (b: u8)
        ensures
            b == tape_read(self@, index as int),
    {
        if index >= self.arr.len() {
            return 0;
        }
        self.arr[index]
    }

    /// Stores `value` at `index`, first growing the materialized range up
    /// to and including `index` (new cells read `0`) when `index` lies
    /// beyond it. The bound on `index` is the machine's: the backing
    /// storage must be able to hold `index + 1` cells.
    pub fn write(&mut self, index: usize, value: u8)
        requires
            index < usize::MAX,
        ensures
            final(self)@ == tape_write(old(self)@, index as int, value),
    {
        let ghost mem0: Seq<u8> = self.arr@;
        while self.arr.len() <= index
            invariant
                index < usize::MAX,
                mem0.len() <= self.arr@.len(),
                self.arr@.len() <= if mem0.len() > index {
                    mem0.len() as int
                } else {
                    index + 1
                },
                forall|j: int| 0 <= j < self.arr@.len() ==> self.arr@[j] == tape_read(mem0, j),
            decreases index + 1 - self.arr@.len(),
        {
            self.arr.push(0);
        }
        self.arr[index] = value;
        proof {
            assert(self.arr@ =~= tape_write(mem0, index as int, value));
        }
    }
}

} // verus!
