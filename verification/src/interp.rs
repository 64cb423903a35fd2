use crate::errors::BfError;
use crate::errors::BfStateResult;
use crate::semantics::Machine;
use crate::semantics::Outcome;
use crate::semantics::agrees;
use crate::semantics::bracket_map;
use crate::semantics::lemma_run_fuel_advance;
use crate::semantics::lemma_run_fuel_fail;
use crate::semantics::pair_scan;
use crate::semantics::partner;
use crate::semantics::run_fuel;
use crate::semantics::start_machine;
use crate::semantics::step;
use crate::semantics::well_bracketed;
use crate::state::BfState;
use crate::state::byte_dec;
use crate::state::byte_inc;
use crate::tape::tape_read;
use crate::tape::tape_write;
use vstd::pervasive::unreached;
use vstd::prelude::*;
use vstd::string::StrSliceExecFns;

verus! {

/// One entry of an executable pairing table, checked against the program's
/// pairing map: the entry holds the character offsets of a matched
/// loop-open / loop-close pair.
pub open spec fn pair_entry_valid(prog: Seq<char>, e: (usize, usize)) -> bool {
    &&& (e.0 as int) < (e.1 as int) < prog.len()
    &&& prog[e.0 as int] == '['
    &&& prog[e.1 as int] == ']'
    &&& well_bracketed(prog)
    &&& (bracket_map(prog)->0).dom().contains(e.0 as int)
    &&& (bracket_map(prog)->0).dom().contains(e.1 as int)
    &&& partner(prog, e.0 as int) == e.1 as int
    &&& partner(prog, e.1 as int) == e.0 as int
}

/// The entries of `pairs` from position `from` on form the complete
/// pairing table of `prog`: every entry is a matched pair, every bracket
/// offset of the program appears in one, and the entries are ordered by
/// their close offsets.
pub open spec fn pair_table_valid(prog: Seq<char>, pairs: Seq<(usize, usize)>, from: int) -> bool {
    &&& 0 <= from <= pairs.len()
    &&& forall|k: int| from <= k < pairs.len() ==> pair_entry_valid(prog, #[trigger] pairs[k])
    &&& forall|p: int|
        0 <= p < prog.len() && (#[trigger] prog[p]) == '[' ==> exists|k: int|
            from <= k < pairs.len() && (#[trigger] pairs[k]).0 as int == p
    &&& forall|p: int|
        0 <= p < prog.len() && (#[trigger] prog[p]) == ']' ==> exists|k: int|
            from <= k < pairs.len() && (#[trigger] pairs[k]).1 as int == p
    &&& forall|k1: int, k2: int|
        from <= k1 < k2 < pairs.len() ==> (#[trigger] pairs[k1]).1 < (#[trigger] pairs[k2]).1
}

/// One entry as the scan's partial pairing map records it, every offset
/// below `bound`.
spec fn entry_in_map(prog: Seq<char>, pm: Map<int, int>, bound: int, e: (usize, usize)) -> bool {
    &&& (e.0 as int) < (e.1 as int) < bound
    &&& prog[e.0 as int] == '['
    &&& prog[e.1 as int] == ']'
    &&& pm.dom().contains(e.0 as int) && pm[e.0 as int] == e.1 as int
    &&& pm.dom().contains(e.1 as int) && pm[e.1 as int] == e.0 as int
}

/// The program text as a vector of characters, one per character offset.
fn chars_of(s: &str) -> (v: Vec<char>)
    ensures
        v@ == s@,
{
    let n = s.unicode_len();
    let mut v: Vec<char> = Vec::new();
    let mut i: usize = 0;
    while i < n
        invariant
            i <= n,
            n as nat == s@.len(),
            v@.len() == i as nat,
            forall|j: int| 0 <= j < i ==> v@[j] == s@[j],
        decreases n - i,
    {
        let c = s.get_char(i);
        v.push(c);
        i += 1;
    }
    proof {
        assert(v@ =~= s@);
    }
    v
}

/// Scans the program text left to right and records, for every matched
/// loop-open / loop-close pair, the pair of their character offsets.
/// Succeeds exactly on well-bracketed programs and appends the complete
/// pairing table to `pc_pairs`; a close with no pending open, or an open
/// never closed, fails with `MismatchedBraces` before any instruction of
/// the program could run.
#[verifier::loop_isolation(false)]
pub fn build_pc_pairs(program: &str, pc_pairs: &mut Vec<(usize, usize)>) -> (r: BfStateResult)
    ensures
        final(pc_pairs)@.len() >= old(pc_pairs)@.len(),
        forall|j: int|
            0 <= j < old(pc_pairs)@.len() ==> #[trigger] final(pc_pairs)@[j] == old(pc_pairs)@[j],
        r is Ok <==> well_bracketed(program@),
        !(r is Ok) ==> r == Err::<(), BfError>(BfError::MismatchedBraces),
        r is Ok ==> pair_table_valid(program@, final(pc_pairs)@, old(pc_pairs)@.len() as int),
{
    let symbols = chars_of(program);
    let n = symbols.len();
    let ghost pairs0: Seq<(usize, usize)> = pc_pairs@;
    let mut pc_stack: Vec<usize> = Vec::new();
    let ghost mut gstk: Seq<int> = Seq::<int>::empty();
    let ghost mut pm: Map<int, int> = Map::<int, int>::empty();
    let mut index: usize = 0;
    while index < n
        invariant
            index <= n,
            n == symbols@.len(),
            symbols@ == program@,
            pair_scan(program@, index as int, gstk, pm) == bracket_map(program@),
            gstk.len() == pc_stack@.len(),
            forall|j: int| 0 <= j < gstk.len() ==> #[trigger] gstk[j] == pc_stack@[j] as int,
            forall|j: int|
                0 <= j < gstk.len() ==> 0 <= #[trigger] gstk[j] < index as int
                    && program@[gstk[j]] == '[' && !pm.dom().contains(gstk[j]),
            forall|j1: int, j2: int| 0 <= j1 < j2 < gstk.len() ==> gstk[j1] < gstk[j2],
            forall|q: int| #[trigger] pm.dom().contains(q) ==> 0 <= q < index as int,
            pc_pairs@.len() >= pairs0.len(),
            forall|j: int| 0 <= j < pairs0.len() ==> #[trigger] pc_pairs@[j] == pairs0[j],
            forall|k: int|
                pairs0.len() <= k < pc_pairs@.len() ==> entry_in_map(
                    program@,
                    pm,
                    index as int,
                    #[trigger] pc_pairs@[k],
                ),
            forall|p: int|
                0 <= p < index as int && (#[trigger] program@[p]) == '[' ==> (exists|k: int|
                    pairs0.len() <= k < pc_pairs@.len() && (#[trigger] pc_pairs@[k]).0 as int == p)
                    || gstk.contains(p),
            forall|p: int|
                0 <= p < index as int && (#[trigger] program@[p]) == ']' ==> exists|k: int|
                    pairs0.len() <= k < pc_pairs@.len() && (#[trigger] pc_pairs@[k]).1 as int == p,
            forall|k1: int, k2: int|
                pairs0.len() <= k1 < k2 < pc_pairs@.len() ==> (#[trigger] pc_pairs@[k1]).1
                    < (#[trigger] pc_pairs@[k2]).1,
        decreases n - index,
    {
        let sym = symbols[index];
        if sym == '[' {
            pc_stack.push(index);
            proof {
                assert(pair_scan(program@, index as int, gstk, pm) == pair_scan(
                    program@,
                    index as int + 1,
                    gstk.push(index as int),
                    pm,
                ));
                let g2 = gstk.push(index as int);
                assert(g2[gstk.len() as int] == index as int);
                assert(g2.contains(index as int));
                assert forall|p: int| gstk.contains(p) implies g2.contains(p) by {
                    let j = choose|j: int| 0 <= j < gstk.len() && gstk[j] == p;
                    assert(g2[j] == p);
                }
                gstk = g2;
            }
        } else if sym == ']' {
            match pc_stack.pop() {
                None => {
                    proof {
                        assert(gstk.len() == 0);
                        assert(pair_scan(program@, index as int, gstk, pm) is None);
                    }
                    return Err(BfError::MismatchedBraces);
                },
                Some(left_pc) => {
                    let ghost pp = pc_pairs@;
                    pc_pairs.push((left_pc, index));
                    proof {
                        let glast = gstk.last();
                        assert(glast == left_pc as int);
                        let pm2 = pm.insert(left_pc as int, index as int).insert(
                            index as int,
                            left_pc as int,
                        );
                        assert(pair_scan(program@, index as int, gstk, pm) == pair_scan(
                            program@,
                            index as int + 1,
                            gstk.drop_last(),
                            pm2,
                        ));
                        let kk = pp.len() as int;
                        assert(pc_pairs@ == pp.push((left_pc, index)));
                        assert(pc_pairs@[kk] == (left_pc, index));
                        assert forall|k: int| 0 <= k < kk implies #[trigger] pc_pairs@[k]
                            == pp[k] by {}
                        assert(entry_in_map(program@, pm2, index as int + 1, pc_pairs@[kk]));
                        // an offset still on the stack is neither of the two
                        // offsets just recorded, so its absence from the map
                        // is preserved
                        assert forall|j: int| 0 <= j < gstk.drop_last().len() implies 0 <= (
                        #[trigger] gstk.drop_last()[j]) < index as int
                            && program@[gstk.drop_last()[j]] == '[' && !pm2.dom().contains(
                            gstk.drop_last()[j],
                        ) by {
                            assert(gstk.drop_last()[j] == gstk[j]);
                            assert(gstk[j] < glast);
                        }
                        // recorded pairs stay recorded under the two fresh
                        // map keys
                        assert forall|k: int|
                            pairs0.len() <= k < kk implies entry_in_map(
                            program@,
                            pm2,
                            index as int + 1,
                            #[trigger] pc_pairs@[k],
                        ) by {
                            assert(entry_in_map(program@, pm, index as int, pp[k]));
                        }
                        // every open offset seen so far is recorded or still
                        // pending: the one just popped moved from the stack
                        // into the table
                        assert forall|p: int|
                            0 <= p < index as int + 1 && (#[trigger] program@[p])
                                == '[' implies (exists|k: int|
                            pairs0.len() <= k < pc_pairs@.len() && (#[trigger] pc_pairs@[k]).0 as int
                                == p) || gstk.drop_last().contains(p) by {
                            if p < index as int {
                                if exists|k: int|
                                    pairs0.len() <= k < pp.len() && (#[trigger] pp[k]).0 as int == p {
                                    let k = choose|k: int|
                                        pairs0.len() <= k < pp.len() && (#[trigger] pp[k]).0 as int
                                            == p;
                                    assert(pc_pairs@[k].0 as int == p);
                                } else {
                                    assert(gstk.contains(p));
                                    let j = choose|j: int| 0 <= j < gstk.len() && gstk[j] == p;
                                    if j == gstk.len() - 1 {
                                        assert(p == glast);
                                        assert(pc_pairs@[kk].0 as int == p);
                                    } else {
                                        assert(gstk.drop_last()[j] == p);
                                        assert(gstk.drop_last().contains(p));
                                    }
                                }
                            } else {
                                assert(program@[p] == ']');
                            }
                        }
                        // every close offset seen so far is recorded; the
                        // current one just was
                        assert forall|p: int|
                            0 <= p < index as int + 1 && (#[trigger] program@[p])
                                == ']' implies exists|k: int|
                            pairs0.len() <= k < pc_pairs@.len() && (#[trigger] pc_pairs@[k]).1 as int
                                == p by {
                            if p < index as int {
                                let k = choose|k: int|
                                    pairs0.len() <= k < pp.len() && (#[trigger] pp[k]).1 as int == p;
                                assert(pc_pairs@[k].1 as int == p);
                            } else {
                                assert(pc_pairs@[kk].1 as int == p);
                            }
                        }
                        gstk = gstk.drop_last();
                        pm = pm2;
                    }
                },
            }
        }
        index += 1;
    }
    if pc_stack.len() > 0 {
        proof {
            assert(gstk.len() > 0);
            assert(pair_scan(program@, index as int, gstk, pm) is None);
        }
        return Err(BfError::MismatchedBraces);
    }
    proof {
        assert(gstk.len() == 0);
        assert(pair_scan(program@, index as int, gstk, pm) == Some(pm));
        assert(bracket_map(program@) == Some(pm));
        assert forall|k: int|
            pairs0.len() <= k < pc_pairs@.len() implies pair_entry_valid(
            program@,
            #[trigger] pc_pairs@[k],
        ) by {
            assert(entry_in_map(program@, pm, n as int, pc_pairs@[k]));
        }
    }
    Ok(())
}

/// The close offset paired with open offset `left_pc`, looked up by a
/// linear scan over the pairing table; `None` when no entry opens there.
pub fn match_left_pc(pairs: &Vec<(usize, usize)>, left_pc: usize) -> (r: Option<usize>)
    ensures
        match r {
            Some(right) => exists|k: int|
                0 <= k < pairs@.len() && #[trigger] pairs@[k] == (left_pc, right),
            None => forall|k: int| 0 <= k < pairs@.len() ==> (#[trigger] pairs@[k]).0 != left_pc,
        },
{
    let n = pairs.len();
    let mut i: usize = 0;
    while i < n
        invariant
            i <= n,
            n == pairs@.len(),
            forall|k: int| 0 <= k < i ==> (#[trigger] pairs@[k]).0 != left_pc,
        decreases n - i,
    {
        let pair = pairs[i];
        if pair.0 == left_pc {
            proof {
                assert(pairs@[i as int] == (left_pc, pair.1));
            }
            return Some(pair.1);
        }
        i += 1;
    }
    None
}

/// The open offset paired with close offset `right_pc`, looked up by a
/// linear scan over the pairing table; `None` when no entry closes there.
pub fn match_right_pc(pairs: &Vec<(usize, usize)>, right_pc: usize) -> (r: Option<usize>)
    ensures
        match r {
            Some(left) => exists|k: int|
                0 <= k < pairs@.len() && #[trigger] pairs@[k] == (left, right_pc),
            None => forall|k: int| 0 <= k < pairs@.len() ==> (#[trigger] pairs@[k]).1 != right_pc,
        },
{
    let n = pairs.len();
    let mut i: usize = 0;
    while i < n
        invariant
            i <= n,
            n == pairs@.len(),
            forall|k: int| 0 <= k < i ==> (#[trigger] pairs@[k]).1 != right_pc,
        decreases n - i,
    {
        let pair = pairs[i];
        if pair.1 == right_pc {
            proof {
                assert(pairs@[i as int] == (pair.0, right_pc));
            }
            return Some(pair.0);
        }
        i += 1;
    }
    None
}

/// Executes the program against `state` for at most `fuel` dispatch steps,
/// taking the bytes for read instructions from `input` and appending the
/// bytes of write instructions to `output`.
///
/// The result is exactly what the machine model assigns to the program: a
/// malformed program is rejected with `MismatchedBraces` before any
/// instruction runs; otherwise the run ends `Ok` when the program counter
/// leaves the instruction stream, with the error of the first failing
/// instruction, or with `StepLimit` when the budget is spent first — and
/// in every case the state and the output are those of the model's final
/// configuration.
#[verifier::loop_isolation(false)]
pub fn run_io(
    program: &str,
    state: &mut BfState,
    input: &Vec<u8>,
    output: &mut Vec<u8>,
    fuel: u64,
) -> (r: BfStateResult)
    ensures
        !well_bracketed(program@) ==> r == Err::<(), BfError>(BfError::MismatchedBraces)
            && final(state).memory@ == old(state).memory@ && final(state).pointer == old(
            state,
        ).pointer && final(output)@ == old(output)@,
        well_bracketed(program@) ==> (match run_fuel(
            program@,
            input@,
            start_machine(*old(state), old(output)@),
            fuel as nat,
        ) {
            Outcome::Halted(m) => r == Ok::<(), BfError>(()) && agrees(
                m,
                *final(state),
                final(output)@,
            ),
            Outcome::Failed(e, m) => r == Err::<(), BfError>(e) && agrees(
                m,
                *final(state),
                final(output)@,
            ),
            Outcome::Running(m) => r == Err::<(), BfError>(BfError::StepLimit) && agrees(
                m,
                *final(state),
                final(output)@,
            ),
        }),
{
    let ghost m0 = start_machine(*state, output@);
    let mut pc_pairs: Vec<(usize, usize)> = Vec::new();
    let build_result = build_pc_pairs(program, &mut pc_pairs);
    if build_result.is_err() {
        return Err(BfError::MismatchedBraces);
    }
    let symbols = chars_of(program);
    let n = symbols.len();
    let mut pc: usize = 0;
    let mut in_pos: usize = 0;
    let mut fuel_left: u64 = fuel;
    let ghost mut cur: Machine = m0;
    while pc < n
        invariant
            n == symbols@.len(),
            symbols@ == program@,
            well_bracketed(program@),
            pair_table_valid(program@, pc_pairs@, 0),
            cur.mem == state.memory@,
            cur.ptr == state.pointer as nat,
            cur.pc == pc as nat,
            cur.in_pos == in_pos as nat,
            cur.out == output@,
            in_pos <= input@.len(),
            run_fuel(program@, input@, m0, fuel as nat) == run_fuel(
                program@,
                input@,
                cur,
                fuel_left as nat,
            ),
        decreases fuel_left,
    {
        if fuel_left == 0 {
            proof {
                assert(run_fuel(program@, input@, cur, 0) == Outcome::Running(cur));
            }
            return Err(BfError::StepLimit);
        }
        let ghost prev = cur;
        let ghost fl = fuel_left as nat;
        fuel_left = fuel_left - 1;
        let sym = symbols[pc];
        match sym {
            '+' => {
                if state.pointer == usize::MAX {
                    proof {
                        lemma_run_fuel_fail(program@, input@, prev, BfError::Segfault, prev, fl);
                    }
                    return Err(BfError::Segfault);
                }
                state.inc();
                pc = pc + 1;
                proof {
                    let next = Machine {
                        mem: tape_write(
                            prev.mem,
                            prev.ptr as int,
                            byte_inc(tape_read(prev.mem, prev.ptr as int)),
                        ),
                        pc: prev.pc + 1,
                        ..prev
                    };
                    assert(step(program@, input@, prev) == Outcome::Running(next));
                    lemma_run_fuel_advance(program@, input@, prev, next, fl);
                    cur = next;
                }
            },
            '-' => {
                if state.pointer == usize::MAX {
                    proof {
                        lemma_run_fuel_fail(program@, input@, prev, BfError::Segfault, prev, fl);
                    }
                    return Err(BfError::Segfault);
                }
                state.dec();
                pc = pc + 1;
                proof {
                    let next = Machine {
                        mem: tape_write(
                            prev.mem,
                            prev.ptr as int,
                            byte_dec(tape_read(prev.mem, prev.ptr as int)),
                        ),
                        pc: prev.pc + 1,
                        ..prev
                    };
                    assert(step(program@, input@, prev) == Outcome::Running(next));
                    lemma_run_fuel_advance(program@, input@, prev, next, fl);
                    cur = next;
                }
            },
            '>' => {
                if state.pointer == usize::MAX {
                    proof {
                        lemma_run_fuel_fail(program@, input@, prev, BfError::Segfault, prev, fl);
                    }
                    return Err(BfError::Segfault);
                }
                state.right();
                pc = pc + 1;
                proof {
                    let next = Machine { ptr: prev.ptr + 1, pc: prev.pc + 1, ..prev };
                    assert(step(program@, input@, prev) == Outcome::Running(next));
                    lemma_run_fuel_advance(program@, input@, prev, next, fl);
                    cur = next;
                }
            },
            '<' => {
                let move_result = state.left();
                if move_result.is_err() {
                    proof {
                        lemma_run_fuel_fail(program@, input@, prev, BfError::Segfault, prev, fl);
                    }
                    return Err(BfError::Segfault);
                }
                pc = pc + 1;
                proof {
                    let next = Machine { ptr: (prev.ptr - 1) as nat, pc: prev.pc + 1, ..prev };
                    assert(step(program@, input@, prev) == Outcome::Running(next));
                    lemma_run_fuel_advance(program@, input@, prev, next, fl);
                    cur = next;
                }
            },
            ',' => {
                if in_pos >= input.len() {
                    proof {
                        lemma_run_fuel_fail(program@, input@, prev, BfError::EndOfInput, prev, fl);
                    }
                    return Err(BfError::EndOfInput);
                }
                if state.pointer == usize::MAX {
                    proof {
                        lemma_run_fuel_fail(program@, input@, prev, BfError::Segfault, prev, fl);
                    }
                    return Err(BfError::Segfault);
                }
                let b = input[in_pos];
                state.set_curr(b);
                in_pos = in_pos + 1;
                pc = pc + 1;
                proof {
                    let next = Machine {
                        mem: tape_write(prev.mem, prev.ptr as int, input@[prev.in_pos as int]),
                        in_pos: prev.in_pos + 1,
                        pc: prev.pc + 1,
                        ..prev
                    };
                    assert(step(program@, input@, prev) == Outcome::Running(next));
                    lemma_run_fuel_advance(program@, input@, prev, next, fl);
                    cur = next;
                }
            },
            '.' => {
                let b = state.curr();
                output.push(b);
                pc = pc + 1;
                proof {
                    let next = Machine {
                        out: prev.out.push(tape_read(prev.mem, prev.ptr as int)),
                        pc: prev.pc + 1,
                        ..prev
                    };
                    assert(step(program@, input@, prev) == Outcome::Running(next));
                    lemma_run_fuel_advance(program@, input@, prev, next, fl);
                    cur = next;
                }
            },
            '[' => {
                let c = state.curr();
                if c == 0 {
                    match match_left_pc(&pc_pairs, pc) {
                        Some(close_pc) => {
                            proof {
                                let k = choose|k: int|
                                    0 <= k < pc_pairs@.len() && pc_pairs@[k] == (pc, close_pc);
                                assert(pair_entry_valid(program@, pc_pairs@[k]));
                                assert(partner(program@, prev.pc as int) == close_pc as int);
                                assert(close_pc < n);
                            }
                            pc = close_pc + 1;
                            proof {
                                let next = Machine {
                                    pc: (partner(program@, prev.pc as int) + 1) as nat,
                                    ..prev
                                };
                                assert(step(program@, input@, prev) == Outcome::Running(next));
                                lemma_run_fuel_advance(program@, input@, prev, next, fl);
                                cur = next;
                            }
                        },
                        None => {
                            proof {
                                assert(program@[pc as int] == '[');
                                let k = choose|k: int|
                                    0 <= k < pc_pairs@.len() && (#[trigger] pc_pairs@[k]).0 as int
                                        == pc as int;
                                assert(pc_pairs@[k].0 == pc);
                                assert(false);
                            }
                            unreached()
                        },
                    }
                } else {
                    pc = pc + 1;
                    proof {
                        let next = Machine { pc: prev.pc + 1, ..prev };
                        assert(step(program@, input@, prev) == Outcome::Running(next));
                        lemma_run_fuel_advance(program@, input@, prev, next, fl);
                        cur = next;
                    }
                }
            },
            ']' => {
                match match_right_pc(&pc_pairs, pc) {
                    Some(open_pc) => {
                        proof {
                            let k = choose|k: int|
                                0 <= k < pc_pairs@.len() && pc_pairs@[k] == (open_pc, pc);
                            assert(pair_entry_valid(program@, pc_pairs@[k]));
                            assert(partner(program@, prev.pc as int) == open_pc as int);
                        }
                        pc = open_pc;
                        proof {
                            let next = Machine {
                                pc: partner(program@, prev.pc as int) as nat,
                                ..prev
                            };
                            assert(step(program@, input@, prev) == Outcome::Running(next));
                            lemma_run_fuel_advance(program@, input@, prev, next, fl);
                            cur = next;
                        }
                    },
                    None => {
                        proof {
                            assert(program@[pc as int] == ']');
                            let k = choose|k: int|
                                0 <= k < pc_pairs@.len() && (#[trigger] pc_pairs@[k]).1 as int
                                    == pc as int;
                            assert(pc_pairs@[k].1 == pc);
                            assert(false);
                        }
                        unreached()
                    },
                }
            },
            _ => {
                pc = pc + 1;
                proof {
                    let next = Machine { pc: prev.pc + 1, ..prev };
                    assert(step(program@, input@, prev) == Outcome::Running(next));
                    lemma_run_fuel_advance(program@, input@, prev, next, fl);
                    cur = next;
                }
            },
        }
    }
    proof {
        assert(run_fuel(program@, input@, cur, fuel_left as nat) == Outcome::Halted(cur));
    }
    Ok(())
}

/// Executes the program against `state` with an empty input stream, a
/// discarded output stream, and the largest step budget. The result and
/// the final state are exactly those the machine model assigns to the
/// program under those streams.
pub fn run(program: &str, state: &mut BfState) -> (r: BfStateResult)
    ensures
        !well_bracketed(program@) ==> r == Err::<(), BfError>(BfError::MismatchedBraces)
            && final(state).memory@ == old(state).memory@ && final(state).pointer == old(
            state,
        ).pointer,
        well_bracketed(program@) ==> (match run_fuel(
            program@,
            Seq::<u8>::empty(),
            start_machine(*old(state), Seq::<u8>::empty()),
            u64::MAX as nat,
        ) {
            Outcome::Halted(m) => r == Ok::<(), BfError>(()) && m.mem == final(state).memory@
                && m.ptr == final(state).pointer as nat,
            Outcome::Failed(e, m) => r == Err::<(), BfError>(e) && m.mem == final(state).memory@
                && m.ptr == final(state).pointer as nat,
            Outcome::Running(m) => r == Err::<(), BfError>(BfError::StepLimit)
                && m.mem == final(state).memory@ && m.ptr == final(state).pointer as nat,
        }),
{
    let empty_input: Vec<u8> = Vec::new();
    let mut sink: Vec<u8> = Vec::new();
    run_io(program, state, &empty_input, &mut sink, u64::MAX)
}

} // verus!
