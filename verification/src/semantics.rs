use crate::errors::BfError;
use crate::state::BfState;
use crate::state::byte_dec;
use crate::state::byte_inc;
use crate::tape::tape_read;
use crate::tape::tape_write;
use vstd::prelude::*;

verus! {

// ---------------------------------------------------------------------------
// Bracket pairing
// ---------------------------------------------------------------------------
/// One left-to-right scan step over the program text, carrying the stack of
/// pending open-bracket offsets and the pairing map built so far. The map
/// holds every matched pair in both directions: open offset to close offset
/// and close offset to open offset. A close with no pending open, or a
/// leftover pending open at the end, makes the program invalid (`None`).
pub open spec fn pair_scan(
    prog: Seq<char>,
    i: int,
    stack: Seq<int>,
    pm: Map<int, int>,
) -> Option<Map<int, int>>
    recommends
        0 <= i <= prog.len(),
    decreases prog.len() - i,
{
    if i < 0 || i >= prog.len() {
        if stack.len() == 0 {
            Some(pm)
        } else {
            None
        }
    } else if prog[i] == '[' {
        pair_scan(prog, i + 1, stack.push(i), pm)
    } else if prog[i] == ']' {
        if stack.len() == 0 {
            None
        } else {
            pair_scan(
                prog,
                i + 1,
                stack.drop_last(),
                pm.insert(stack.last(), i).insert(i, stack.last()),
            )
        }
    } else {
        pair_scan(prog, i + 1, stack, pm)
    }
}

/// The complete pairing map of the program, or `None` when its loop
/// delimiters are not well formed.
pub open spec fn bracket_map(prog: Seq<char>) -> Option<Map<int, int>> {
    pair_scan(prog, 0, Seq::<int>::empty(), Map::<int, int>::empty())
}

/// Whether every loop-open instruction has exactly one matching loop-close
/// instruction, stack-discipline matched.
pub open spec fn well_bracketed(prog: Seq<char>) -> bool {
    bracket_map(prog) is Some
}

/// The offset paired with bracket offset `i` in a well-bracketed program.
pub open spec fn partner(prog: Seq<char>, i: int) -> int {
    (bracket_map(prog)->0)[i]
}

// ---------------------------------------------------------------------------
// The small-step machine
// ---------------------------------------------------------------------------
/// A machine configuration: the materialized tape cells, the data pointer,
/// the program counter, how many input bytes were consumed, and the output
/// emitted so far.
pub ghost struct Machine {
    /// The materialized tape cells; indices beyond them read as `0`.
    pub mem: Seq<u8>,
    /// The data pointer.
    pub ptr: nat,
    /// The program counter: an offset into the program text.
    pub pc: nat,
    /// How many bytes of the input stream were consumed.
    pub in_pos: nat,
    /// Every byte emitted so far, oldest first.
    pub out: Seq<u8>,
}

/// What one dispatch step produces, and what a bounded run ends in.
pub ghost enum Outcome {
    /// The program counter reached the end of the instruction stream.
    Halted(Machine),
    /// An instruction failed; the machine is as it was just before it.
    Failed(BfError, Machine),
    /// Execution goes on from this configuration.
    Running(Machine),
}

/// The machine configuration a run starts from: the caller's state, the
/// program counter at offset zero, no input consumed, and the output
/// stream as the caller handed it over.
pub open spec fn start_machine(s: BfState, out: Seq<u8>) -> Machine {
    Machine { mem: s.memory@, ptr: s.pointer as nat, pc: 0, in_pos: 0, out }
}

/// Whether the visible parts of a machine configuration are exactly the
/// given execution state and output stream.
pub open spec fn agrees(m: Machine, s: BfState, out: Seq<u8>) -> bool {
    &&& m.mem == s.memory@
    &&& m.ptr == s.pointer as nat
    &&& m.out == out
}

/// One dispatch step of the machine on a well-bracketed program, with the
/// program counter inside the instruction stream. Each instruction symbol
/// has its transition rule; any other character is a no-op. The pointer
/// and the tape are bounded by the machine word: an instruction that would
/// move the pointer past `usize::MAX`, or write a cell at `usize::MAX`,
/// fails with `Segfault`, exactly as the executable engine must.
pub open spec fn step(prog: Seq<char>, input: Seq<u8>, m: Machine) -> Outcome
    recommends
        m.pc < prog.len(),
        well_bracketed(prog),
{
    let sym = prog[m.pc as int];
    if sym == '+' {
        if m.ptr >= usize::MAX {
            Outcome::Failed(BfError::Segfault, m)
        } else {
            Outcome::Running(
                Machine {
                    mem: tape_write(
                        m.mem,
                        m.ptr as int,
                        byte_inc(tape_read(m.mem, m.ptr as int)),
                    ),
                    pc: m.pc + 1,
                    ..m
                },
            )
        }
    } else if sym == '-' {
        if m.ptr >= usize::MAX {
            Outcome::Failed(BfError::Segfault, m)
        } else {
            Outcome::Running(
                Machine {
                    mem: tape_write(
                        m.mem,
                        m.ptr as int,
                        byte_dec(tape_read(m.mem, m.ptr as int)),
                    ),
                    pc: m.pc + 1,
                    ..m
                },
            )
        }
    } else if sym == '>' {
        if m.ptr >= usize::MAX {
            Outcome::Failed(BfError::Segfault, m)
        } else {
            Outcome::Running(Machine { ptr: m.ptr + 1, pc: m.pc + 1, ..m })
        }
    } else if sym == '<' {
        if m.ptr == 0 {
            Outcome::Failed(BfError::Segfault, m)
        } else {
            Outcome::Running(Machine { ptr: (m.ptr - 1) as nat, pc: m.pc + 1, ..m })
        }
    } else if sym == ',' {
        if m.in_pos >= input.len() {
            Outcome::Failed(BfError::EndOfInput, m)
        } else if m.ptr >= usize::MAX {
            Outcome::Failed(BfError::Segfault, m)
        } else {
            Outcome::Running(
                Machine {
                    mem: tape_write(m.mem, m.ptr as int, input[m.in_pos as int]),
                    in_pos: m.in_pos + 1,
                    pc: m.pc + 1,
                    ..m
                },
            )
        }
    } else if sym == '.' {
        Outcome::Running(
            Machine { out: m.out.push(tape_read(m.mem, m.ptr as int)), pc: m.pc + 1, ..m },
        )
    } else if sym == '[' {
        if tape_read(m.mem, m.ptr as int) == 0 {
            Outcome::Running(Machine { pc: (partner(prog, m.pc as int) + 1) as nat, ..m })
        } else {
            Outcome::Running(Machine { pc: m.pc + 1, ..m })
        }
    } else if sym == ']' {
        Outcome::Running(Machine { pc: partner(prog, m.pc as int) as nat, ..m })
    } else {
        Outcome::Running(Machine { pc: m.pc + 1, ..m })
    }
}

/// Runs the machine for at most `fuel` dispatch steps. The run halts when
/// the program counter reaches the end of the instruction stream, stops
/// with the failing configuration when a step fails, and is still
/// `Running` when the fuel is spent first.
pub open spec fn run_fuel(prog: Seq<char>, input: Seq<u8>, m: Machine, fuel: nat) -> Outcome
    decreases fuel,
{
    if m.pc >= prog.len() {
        Outcome::Halted(m)
    } else if fuel == 0 {
        Outcome::Running(m)
    } else {
        match step(prog, input, m) {
            Outcome::Running(m2) => run_fuel(prog, input, m2, (fuel - 1) as nat),
            other => other,
        }
    }
}

/// A successful dispatch step extends the run by one: whatever `fuel + 1`
/// steps reach is whatever `fuel` further steps reach from the successor.
pub proof fn lemma_run_fuel_advance(
    prog: Seq<char>,
    input: Seq<u8>,
    m: Machine,
    m2: Machine,
    fuel: nat,
)
    requires
        m.pc < prog.len(),
        fuel > 0,
        step(prog, input, m) == Outcome::Running(m2),
    ensures
        run_fuel(prog, input, m, fuel) == run_fuel(prog, input, m2, (fuel - 1) as nat),
{
}

/// A failing dispatch step ends the run at once, whatever fuel remains.
pub proof fn lemma_run_fuel_fail(
    prog: Seq<char>,
    input: Seq<u8>,
    m: Machine,
    e: BfError,
    m2: Machine,
    fuel: nat,
)
    requires
        m.pc < prog.len(),
        fuel > 0,
        step(prog, input, m) == Outcome::Failed(e, m2),
    ensures
        run_fuel(prog, input, m, fuel) == Outcome::Failed(e, m2),
{
}

} // verus!
