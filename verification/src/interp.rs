//! The reference interpreter: the meaning of the operation stream itself.

use vstd::prelude::*;
use crate::ops::{decode, op_of, Op};
use crate::tape::{Effect, Fault, Machine, Outcome, RunResult, Status, Tape};
use crate::brackets::{
    balanced, closer, lemma_closed_stays_closed, lemma_closer_pairs, lemma_opener_pairs,
    lemma_opens_none_stays, lemma_opens_sorted, lemma_stray_unique,
    lemma_structure_ok, opener, opens, pairs, stray_at, structure, StructuralError,
};

verus! {

/// A point of an interpretation: the token that comes next, and the state.
pub struct Point {
    pub pos: nat,
    pub m: Machine,
}

/// What one token leads to.
pub enum Advance {
    /// The interpretation goes on from this point.
    Go(Point),
    /// The end of the stream was reached.
    Halt,
    /// The token cannot be carried out.
    Stop(Fault),
}

/// The point after the token at `c.pos`, with state `e`.
pub open spec fn after(c: Point, e: Effect) -> Advance {
    match e {
        Effect::Next(m) => Advance::Go(Point { pos: c.pos + 1, m }),
        Effect::Stop(f) => Advance::Stop(f),
    }
}

/// One token of `s` at point `c`. A `[` on a zero cell goes to the token
/// after its `]`; a `]` on a nonzero cell goes to the token after its `[`.
pub open spec fn token(s: Seq<u8>, c: Point) -> Advance {
    if c.pos >= s.len() {
        Advance::Halt
    } else {
        match op_of(s[c.pos as int]) {
            Op::Right => after(c, Effect::Next(c.m.moved(1))),
            Op::Left => after(c, Effect::Next(c.m.moved(-1))),
            Op::Inc => after(c, c.m.added(1)),
            Op::Dec => after(c, c.m.added(-1)),
            Op::Output => after(c, c.m.written()),
            Op::Input => after(c, c.m.read()),
            Op::Skip => after(c, Effect::Next(c.m)),
            Op::Open => if !c.m.on_tape() {
                Advance::Stop(Fault::OutOfTape)
            } else if c.m.cell() == 0 {
                Advance::Go(Point { pos: closer(s, c.pos) + 1, m: c.m })
            } else {
                Advance::Go(Point { pos: c.pos + 1, m: c.m })
            },
            Op::Close => if !c.m.on_tape() {
                Advance::Stop(Fault::OutOfTape)
            } else if c.m.cell() != 0 {
                Advance::Go(Point { pos: opener(s, c.pos) + 1, m: c.m })
            } else {
                Advance::Go(Point { pos: c.pos + 1, m: c.m })
            },
        }
    }
}

/// The interpretation of `s` from `c` that carries out at most `fuel` tokens.
pub open spec fn interpretation(s: Seq<u8>, c: Point, fuel: nat) -> Outcome
    decreases fuel,
{
    match token(s, c) {
        Advance::Halt => Outcome::Halted(c.m),
        Advance::Stop(f) => Outcome::Faulted(f, c.m),
        Advance::Go(next) => if fuel == 0 {
            Outcome::Unfinished(c.m)
        } else {
            interpretation(s, next, (fuel - 1) as nat)
        },
    }
}

/// The point at which every interpretation starts.
pub open spec fn origin(input: Seq<u8>) -> Point {
    Point { pos: 0, m: Machine::start(input) }
}

/// The open positions as mathematical values.
pub open spec fn positions(stack: Seq<usize>) -> Seq<nat> {
    Seq::new(stack.len(), |k: int| stack[k] as nat)
}

/// For each bracket of a well-structured stream the position of its partner,
/// and zero for every other token; for a malformed stream, what is wrong
/// with it.
pub fn jump_table(stream: &[u8]) -> (r: Result<Vec<usize>, StructuralError>)
    ensures
        match r {
            Ok(t) => {
                &&& balanced(stream@)
                &&& t.len() == stream.len()
                &&& forall|i: nat, j: nat| #[trigger]
                    pairs(stream@, i, j) ==> i < j && t[i as int] == j && t[j as int] == i
                &&& forall|k: int|
                    0 <= k < t.len() && op_of(stream@[k]) != Op::Open && op_of(stream@[k])
                        != Op::Close ==> #[trigger] t[k] == 0
            },
            Err(e) => structure(stream@) == Err::<(), StructuralError>(e),
        },
{
    let mut table: Vec<usize> = Vec::new();
    let mut k: usize = 0;
    while k < stream.len()
        invariant
            k <= stream.len(),
            table.len() == k,
            forall|q: int| 0 <= q < k ==> table[q] == 0,
        decreases stream.len() - k,
    {
        table.push(0);
        k = k + 1;
    }
    let mut stack: Vec<usize> = Vec::new();
    let mut n: usize = 0;
    assert(positions(stack@) =~= Seq::<nat>::empty());
    while n < stream.len()
        invariant
            n <= stream.len(),
            table.len() == stream.len(),
            opens(stream@, n as nat) == Some(positions(stack@)),
            forall|i: nat, j: nat| #[trigger]
                pairs(stream@, i, j) && j < n ==> i < j && table[i as int] == j && table[j as int]
                    == i,
            forall|k: int|
                0 <= k < table.len() && op_of(stream@[k]) != Op::Open && op_of(stream@[k])
                    != Op::Close ==> #[trigger] table[k] == 0,
        decreases stream.len() - n,
    {
        let op = decode(stream[n]);
        let ghost before = positions(stack@);
        proof {
            lemma_opens_sorted(stream@, n as nat);
        }
        match op {
            Op::Open => {
                stack.push(n);
                assert(positions(stack@) =~= before.push(n as nat));
            },
            Op::Close => {
                if stack.len() == 0 {
                    proof {
                        assert(stray_at(stream@, n as nat));
                        let c = choose|c: nat| stray_at(stream@, c);
                        lemma_stray_unique(stream@, c, n as nat);
                    }
                    return Err(StructuralError::StrayClose { at: n });
                }
                let i = stack.pop().unwrap();
                assert(positions(stack@) =~= before.drop_last());
                assert(before[before.len() - 1] == i);
                assert(pairs(stream@, i as nat, n as nat));
                let ghost old_table = table@;
                table.set(n, i);
                table.set(i, n);
                proof {
                    assert forall|i2: nat, j2: nat| #[trigger]
                        pairs(stream@, i2, j2) && j2 < n + 1 implies i2 < j2 && table[i2 as int]
                        == j2 && table[j2 as int] == i2 by {
                        lemma_opens_sorted(stream@, j2);
                        let st = opens(stream@, j2).unwrap();
                        assert(st[st.len() - 1] < j2);
                        if j2 < n {
                            lemma_closed_stays_closed(stream@, i2, j2, n as nat);
                            assert(before[before.len() - 1] < i2 || before[before.len() - 1] > j2);
                            assert(old_table[i2 as int] == j2);
                        } else {
                            assert(i2 == i);
                        }
                    }
                }
            },
            _ => {
                assert(positions(stack@) =~= before);
            },
        }
        n = n + 1;
    }
    proof {
        assert forall|c: nat| !stray_at(stream@, c) by {
            if stray_at(stream@, c) {
                lemma_opens_none_stays(stream@, c + 1, stream@.len());
            }
        }
        lemma_structure_ok(stream@);
    }
    if stack.len() > 0 {
        let first = stack[0];
        assert(positions(stack@)[0] == first);
        return Err(StructuralError::UnclosedOpen { at: first });
    }
    proof {
        assert(positions(stack@) =~= Seq::<nat>::empty());
    }
    Ok(table)
}

/// Interprets `stream` on `input`, carrying out at most `fuel` tokens. A
/// malformed stream is not interpreted.
pub fn interpret(stream: &[u8], input: Vec<u8>, fuel: u64) -> (r: Result<RunResult, StructuralError>)
    ensures
        match r {
            Ok(res) => structure(stream@) is Ok && res.tape.inv() && res@ == interpretation(
                stream@,
                origin(input@),
                fuel as nat,
            ),
            Err(e) => structure(stream@) == Err::<(), StructuralError>(e),
        },
{
    let table = match jump_table(stream) {
        Ok(t) => t,
        Err(e) => {
            return Err(e);
        },
    };
    proof {
        lemma_structure_ok(stream@);
    }
    let mut tape = Tape::allocate(input);
    let mut pos: usize = 0;
    let mut left: u64 = fuel;
    loop
        invariant
            tape.inv(),
            balanced(stream@),
            structure(stream@) is Ok,
            pos <= stream.len(),
            table.len() == stream.len(),
            forall|i: nat, j: nat| #[trigger]
                pairs(stream@, i, j) ==> i < j && table[i as int] == j && table[j as int] == i,
            interpretation(stream@, origin(input@), fuel as nat) == interpretation(
                stream@,
                Point { pos: pos as nat, m: tape@ },
                left as nat,
            ),
        decreases left,
    {
        if pos >= stream.len() {
            return Ok(RunResult { status: Status::Halted, tape });
        }
        let op = decode(stream[pos]);
        if left == 0 {
            let blocked = match op {
                Op::Right => None,
                Op::Left => None,
                Op::Skip => None,
                Op::Input => tape.input_fault(),
                _ => tape.cell_fault(),
            };
            let status = match blocked {
                Some(f) => Status::Faulted(f),
                None => Status::OutOfFuel,
            };
            return Ok(RunResult { status, tape });
        }
        let mut next = pos + 1;
        let r = match op {
            Op::Right => {
                tape.move_pointer(1);
                Ok(())
            },
            Op::Left => {
                tape.move_pointer(-1);
                Ok(())
            },
            Op::Inc => tape.add_to_cell(1),
            Op::Dec => tape.add_to_cell(-1),
            Op::Output => tape.output_cell(),
            Op::Input => tape.input_cell(),
            Op::Skip => Ok(()),
            Op::Open => match tape.read_cell() {
                None => Err(Fault::OutOfTape),
                Some(v) => {
                    if v == 0 {
                        proof {
                            lemma_closer_pairs(stream@, pos as nat);
                        }
                        next = table[pos] + 1;
                    }
                    Ok(())
                },
            },
            Op::Close => match tape.read_cell() {
                None => Err(Fault::OutOfTape),
                Some(v) => {
                    if v != 0 {
                        proof {
                            lemma_opener_pairs(stream@, pos as nat);
                        }
                        next = table[pos] + 1;
                    }
                    Ok(())
                },
            },
        };
        match r {
            Err(f) => {
                return Ok(RunResult { status: Status::Faulted(f), tape });
            },
            Ok(_) => {},
        }
        left = left - 1;
        pos = next;
    }
}

} // verus!
