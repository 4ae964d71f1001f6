//! What the translator guarantees: a translated program means what its
//! stream means.

use vstd::prelude::*;
use crate::brackets::{
    balanced, closer, lemma_closer_pairs, lemma_opener_pairs, lemma_opens_some_before,
    lemma_structure_ok, opener, opens, pairs, structure,
};
use crate::interp::{interpretation, token, Advance, Point};
use crate::ir::StepModel;
use crate::layout::{frame_ok, lemma_scan_grows, lemma_scan_ok};
use crate::ops::{op_of, Op};
use crate::runner::{run, step, Config, Progress};
use crate::tape::{wrap32, Effect, Fault, Machine, Outcome};
use crate::translate::{lemma_scan_opens, scan, translation, Layout};

verus! {

/// The point of the translated program that stands for the point before
/// token `n` of the stream: the end of the current block, as the scan has
/// laid it out after `n` tokens.
pub open spec fn place(s: Seq<u8>, n: nat, m: Machine) -> Config {
    let l = scan(s, n).unwrap();
    Config { block: l.cur, offset: l.blocks[l.cur as int].len(), m }
}

/// The number of steps that the translation of one token takes.
pub open spec fn cost(op: Op) -> nat {
    match op {
        Op::Skip => 0,
        Op::Open => 2,
        Op::Close => 2,
        _ => 1,
    }
}

/// A run that has ended is not changed by more fuel.
pub proof fn lemma_run_more_fuel(p: Seq<Seq<StepModel>>, c: Config, f1: nat, f2: nat)
    requires
        !(run(p, c, f1) is Unfinished),
        f1 <= f2,
    ensures
        run(p, c, f2) == run(p, c, f1),
    decreases f1,
{
    match step(p, c) {
        Progress::Go(next) => {
            lemma_run_more_fuel(p, next, (f1 - 1) as nat, (f2 - 1) as nat);
        },
        _ => {},
    }
}

/// The scan of a balanced stream has a value at every point.
pub proof fn lemma_balanced_scans(s: Seq<u8>, n: nat)
    requires
        balanced(s),
        n <= s.len(),
    ensures
        scan(s, n).is_some(),
        opens(s, n).is_some(),
        scan(s, s.len()).is_some(),
        translation(s) == Ok::<Seq<Seq<StepModel>>, crate::brackets::StructuralError>(
            scan(s, s.len()).unwrap().blocks,
        ),
{
    lemma_opens_some_before(s, n, s.len());
    lemma_scan_opens(s, n);
    lemma_scan_opens(s, s.len());
    lemma_structure_ok(s);
}

/// What the scan has laid out after `n` tokens is part of the translation.
pub proof fn lemma_laid_out_stays(s: Seq<u8>, n: nat, b: int, o: int)
    requires
        balanced(s),
        n <= s.len(),
        0 <= b < scan(s, n).unwrap().blocks.len(),
        0 <= o < scan(s, n).unwrap().blocks[b].len(),
    ensures
        b < translation(s).unwrap().len(),
        o < translation(s).unwrap()[b].len(),
        translation(s).unwrap()[b][o] == scan(s, n).unwrap().blocks[b][o],
{
    lemma_balanced_scans(s, n);
    lemma_scan_grows(s, n, s.len());
    let a = scan(s, n).unwrap().blocks;
    let p = scan(s, s.len()).unwrap().blocks;
    assert(a[b].is_prefix_of(p[b]));
}

/// One token of the stream and the steps that stand for it lead to
/// corresponding points, or end in the same way.
pub proof fn lemma_token_simulated(s: Seq<u8>, c: Point, fuel: nat)
    requires
        balanced(s),
        c.pos <= s.len(),
    ensures
        match token(s, c) {
            Advance::Halt => run(translation(s).unwrap(), place(s, c.pos, c.m), fuel)
                == Outcome::Halted(c.m),
            Advance::Stop(f) => run(translation(s).unwrap(), place(s, c.pos, c.m), fuel + 1)
                == Outcome::Faulted(f, c.m),
            Advance::Go(next) => next.pos <= s.len() && run(
                translation(s).unwrap(),
                place(s, c.pos, c.m),
                fuel + cost(op_of(s[c.pos as int])),
            ) == run(translation(s).unwrap(), place(s, next.pos, next.m), fuel),
        },
{
    let p = translation(s).unwrap();
    let n = c.pos;
    lemma_balanced_scans(s, n);
    lemma_scan_ok(s, n);
    lemma_scan_grows(s, n, s.len());
    let l = scan(s, n).unwrap();
    let here = place(s, n, c.m);
    if n == s.len() {
        assert(step(p, here) == Progress::Halt);
    } else {
        let op = op_of(s[n as int]);
        lemma_balanced_scans(s, n + 1);
        lemma_scan_ok(s, n + 1);
        let l1 = scan(s, n + 1).unwrap();
        assert(Some(l1) == l.advance(n, op));
        let b = l.cur as int;
        let o = l.blocks[b].len() as int;
        match op {
            Op::Skip => {},
            Op::Open => {
                let h = l.blocks.len();
                lemma_laid_out_stays(s, n + 1, b, o);
                lemma_laid_out_stays(s, n + 1, h as int, 0);
                assert(p[b][o] == StepModel::Jump(h));
                assert(p[h as int][0] == StepModel::BranchIfZero(h + 1));
                let at_head = Config { block: h, offset: 0, m: c.m };
                assert(step(p, here) == Progress::Go(at_head));
                if !c.m.on_tape() {
                    assert(step(p, at_head) == Progress::Stop(Fault::OutOfTape));
                    assert(run(p, at_head, fuel) == Outcome::Faulted(Fault::OutOfTape, c.m));
                } else if c.m.cell() == 0 {
                    let j = closer(s, n);
                    lemma_closer_pairs(s, n);
                    lemma_balanced_scans(s, j);
                    lemma_balanced_scans(s, j + 1);
                    lemma_scan_ok(s, j);
                    lemma_scan_opens(s, j);
                    let lj = scan(s, j).unwrap();
                    let top = lj.stack[lj.stack.len() - 1];
                    assert(top.open_at == n);
                    assert(frame_ok(s, lj, top));
                    assert(scan(s, j + 1) == lj.advance(j, Op::Close));
                    let at_exit = Config { block: h + 1, offset: 0, m: c.m };
                    assert(place(s, j + 1, c.m) == at_exit);
                    assert(step(p, at_head) == Progress::Go(at_exit));
                    assert(run(p, here, fuel + 2) == run(p, at_head, fuel + 1));
                    assert(run(p, at_head, fuel + 1) == run(p, at_exit, fuel));
                } else {
                    let inside = Config { block: h, offset: 1, m: c.m };
                    assert(place(s, n + 1, c.m) == inside);
                    assert(step(p, at_head) == Progress::Go(inside));
                    assert(run(p, here, fuel + 2) == run(p, at_head, fuel + 1));
                    assert(run(p, at_head, fuel + 1) == run(p, inside, fuel));
                }
            },
            Op::Close => {
                let top = l.stack[l.stack.len() - 1];
                assert(frame_ok(s, l, top));
                lemma_laid_out_stays(s, n + 1, b, o);
                lemma_laid_out_stays(s, n, top.head as int, 0);
                assert(p[b][o] == StepModel::Jump(top.head));
                assert(p[top.head as int][0] == StepModel::BranchIfZero(top.exit));
                let at_head = Config { block: top.head, offset: 0, m: c.m };
                assert(step(p, here) == Progress::Go(at_head));
                if !c.m.on_tape() {
                    assert(step(p, at_head) == Progress::Stop(Fault::OutOfTape));
                    assert(run(p, at_head, fuel) == Outcome::Faulted(Fault::OutOfTape, c.m));
                } else if c.m.cell() != 0 {
                    let i = opener(s, n);
                    lemma_opener_pairs(s, n);
                    lemma_scan_opens(s, n);
                    assert(top.open_at == i);
                    lemma_balanced_scans(s, i);
                    lemma_balanced_scans(s, i + 1);
                    lemma_scan_ok(s, i);
                    let li = scan(s, i).unwrap();
                    assert(scan(s, i + 1) == li.advance(i, Op::Open));
                    let inside = Config { block: top.head, offset: 1, m: c.m };
                    assert(place(s, i + 1, c.m) == inside);
                    assert(step(p, at_head) == Progress::Go(inside));
                    assert(run(p, here, fuel + 2) == run(p, at_head, fuel + 1));
                    assert(run(p, at_head, fuel + 1) == run(p, inside, fuel));
                } else {
                    let at_exit = Config { block: top.exit, offset: 0, m: c.m };
                    assert(place(s, n + 1, c.m) == at_exit);
                    assert(step(p, at_head) == Progress::Go(at_exit));
                    assert(run(p, here, fuel + 2) == run(p, at_head, fuel + 1));
                    assert(run(p, at_head, fuel + 1) == run(p, at_exit, fuel));
                }
            },
            _ => {
                lemma_laid_out_stays(s, n + 1, b, o);
            },
        }
    }
}

/// An interpretation that ends, started at any point of a balanced stream,
/// is matched by the run of the translated program that starts at the
/// corresponding point.
pub proof fn lemma_simulation(s: Seq<u8>, c: Point, fuel: nat)
    requires
        balanced(s),
        c.pos <= s.len(),
        !(interpretation(s, c, fuel) is Unfinished),
    ensures
        run(translation(s).unwrap(), place(s, c.pos, c.m), 2 * fuel + 1) == interpretation(
            s,
            c,
            fuel,
        ),
    decreases fuel,
{
    let p = translation(s).unwrap();
    match token(s, c) {
        Advance::Halt => {
            lemma_token_simulated(s, c, 2 * fuel + 1);
        },
        Advance::Stop(f) => {
            lemma_token_simulated(s, c, 2 * fuel);
        },
        Advance::Go(next) => {
            let k = cost(op_of(s[c.pos as int]));
            let rest = (2 * fuel + 1 - k) as nat;
            lemma_token_simulated(s, c, rest);
            lemma_simulation(s, next, (fuel - 1) as nat);
            lemma_run_more_fuel(
                p,
                place(s, next.pos, next.m),
                (2 * (fuel - 1) + 1) as nat,
                rest,
            );
        },
    }
}

/// The translation preserves meaning. For every well-structured stream and
/// every state to start from: if the interpretation of the stream ends
/// within `fuel` tokens, by reaching the end of the stream or by a fault,
/// then the run of the translated program ends within `2 * fuel + 1` steps
/// in the same way and in the same state: pointer, every cell of the tape,
/// the input that is left and the output.
pub proof fn law_translation_preserves_meaning(s: Seq<u8>, m: Machine, fuel: nat)
    requires
        structure(s) is Ok,
        !(interpretation(s, Point { pos: 0, m }, fuel) is Unfinished),
    ensures
        translation(s) is Ok,
        run(translation(s).unwrap(), Config { block: 0, offset: 0, m }, 2 * fuel + 1)
            == interpretation(s, Point { pos: 0, m }, fuel),
{
    lemma_structure_ok(s);
    lemma_balanced_scans(s, 0);
    lemma_simulation(s, Point { pos: 0, m }, fuel);
    assert(place(s, 0, m) == Config { block: 0, offset: 0, m });
}

/// Whether the stream holds nothing but `+`, `-`, `[` and `]`.
pub open spec fn only_arithmetic_and_loops(s: Seq<u8>) -> bool {
    forall|i: int|
        0 <= i < s.len() ==> {
            let op = op_of(#[trigger] s[i]);
            op == Op::Inc || op == Op::Dec || op == Op::Open || op == Op::Close
        }
}

/// For a balanced stream of `+`, `-`, `[` and `]` and every state to start
/// from: where the interpretation reaches the end of the stream, the run of
/// the translated program halts in the same state, so with the same tape,
/// cell for cell.
pub proof fn law_arithmetic_and_loops_agree(s: Seq<u8>, start: Machine, fuel: nat, m: Machine)
    requires
        only_arithmetic_and_loops(s),
        balanced(s),
        interpretation(s, Point { pos: 0, m: start }, fuel) == Outcome::Halted(m),
    ensures
        translation(s) is Ok,
        run(translation(s).unwrap(), Config { block: 0, offset: 0, m: start }, 2 * fuel + 1)
            == Outcome::Halted(m),
        forall|i: int|
            0 <= i < m.tape.len() ==> run(
                translation(s).unwrap(),
                Config { block: 0, offset: 0, m: start },
                2 * fuel + 1,
            )->Halted_0.tape[i] == m.tape[i],
{
    lemma_structure_ok(s);
    law_translation_preserves_meaning(s, start, fuel);
}

/// A loop whose cell is zero when its `[` is reached is not entered: after
/// the jump to the head block and the test, the run stands behind the
/// loop's `]` in the state it had, and no step of the body has run.
pub proof fn law_zero_cell_skips_loop(s: Seq<u8>, i: nat, m: Machine, fuel: nat)
    requires
        balanced(s),
        i < s.len(),
        op_of(s[i as int]) == Op::Open,
        m.on_tape(),
        m.cell() == 0,
    ensures
        i < closer(s, i) < s.len(),
        pairs(s, i, closer(s, i)),
        run(translation(s).unwrap(), place(s, i, m), fuel + 2) == run(
            translation(s).unwrap(),
            place(s, closer(s, i) + 1, m),
            fuel,
        ),
{
    lemma_closer_pairs(s, i);
    lemma_token_simulated(s, Point { pos: i, m }, fuel);
}

/// A `,` followed at once by a `.` echoes the byte that the input primitive
/// supplies: after the two steps the output is longer by exactly that byte,
/// which also stands in the current cell, and one more byte of input is
/// consumed.
pub proof fn law_input_then_output_echoes(s: Seq<u8>, i: nat, m: Machine, fuel: nat)
    requires
        balanced(s),
        i + 1 < s.len(),
        op_of(s[i as int]) == Op::Input,
        op_of(s[i as int + 1]) == Op::Output,
        m.wf(),
        m.on_tape(),
        m.consumed < m.input.len(),
    ensures
        run(translation(s).unwrap(), place(s, i, m), fuel + 2) == run(
            translation(s).unwrap(),
            place(
                s,
                i + 2,
                Machine {
                    ptr: m.ptr,
                    tape: m.tape.update(m.ptr, m.input[m.consumed as int]),
                    input: m.input,
                    consumed: m.consumed + 1,
                    output: m.output.push(m.input[m.consumed as int]),
                },
            ),
            fuel,
        ),
{
    let stored = Machine {
        tape: m.tape.update(m.ptr, m.input[m.consumed as int]),
        consumed: m.consumed + 1,
        ..m
    };
    lemma_token_simulated(s, Point { pos: i, m }, fuel + 1);
    assert(m.read() == Effect::Next(stored));
    assert(stored.cell() == m.input[m.consumed as int]);
    lemma_token_simulated(s, Point { pos: i + 1, m: stored }, fuel);
}

/// Whether the stream holds nothing but `>` and `<`.
pub open spec fn only_moves(s: Seq<u8>) -> bool {
    forall|i: int|
        0 <= i < s.len() ==> op_of(#[trigger] s[i]) == Op::Right || op_of(s[i]) == Op::Left
}

/// What a token adds to the pointer.
pub open spec fn shift(b: u8) -> int {
    if op_of(b) == Op::Right {
        1
    } else if op_of(b) == Op::Left {
        -1
    } else {
        0
    }
}

/// The net sum of the moves among the first `n` tokens.
pub open spec fn net(s: Seq<u8>, n: nat) -> int
    decreases n,
{
    if n == 0 {
        0
    } else {
        net(s, (n - 1) as nat) + shift(s[n - 1])
    }
}

/// The pointer after the first `n` tokens of a stream of moves, in 32 bits,
/// where it was `start` before the first.
pub open spec fn walked(s: Seq<u8>, n: nat, start: int) -> int
    decreases n,
{
    if n == 0 {
        start
    } else {
        wrap32(walked(s, (n - 1) as nat, start) + shift(s[n - 1]))
    }
}

/// The translation of a stream of moves: one block, one move for each token.
pub open spec fn moves(s: Seq<u8>, n: nat) -> Seq<StepModel> {
    Seq::new(n, |i: int| StepModel::Move(shift(s[i])))
}

/// The 32-bit pointer differs from the start plus the net sum by a multiple
/// of 2^32.
pub proof fn lemma_walked_congruent(s: Seq<u8>, n: nat, start: int) -> (k: int)
    requires
        n <= s.len(),
        i32::MIN <= start <= i32::MAX,
    ensures
        walked(s, n, start) == start + net(s, n) + k * 0x1_0000_0000,
        i32::MIN <= walked(s, n, start) <= i32::MAX,
    decreases n,
{
    if n == 0 {
        0
    } else {
        let k0 = lemma_walked_congruent(s, (n - 1) as nat, start);
        let t = walked(s, (n - 1) as nat, start) + shift(s[n - 1]);
        if t > i32::MAX {
            k0 - 1
        } else if t < i32::MIN {
            k0 + 1
        } else {
            k0
        }
    }
}

/// The scan of a stream of moves lays out one block of moves and opens no loop.
pub proof fn lemma_moves_layout(s: Seq<u8>, n: nat)
    requires
        only_moves(s),
        n <= s.len(),
    ensures
        opens(s, n) == Some(Seq::<nat>::empty()),
        scan(s, n) == Some(Layout { blocks: seq![moves(s, n)], cur: 0, stack: Seq::empty() }),
    decreases n,
{
    if n == 0 {
        assert(moves(s, 0) =~= Seq::<StepModel>::empty());
    } else {
        let m = (n - 1) as nat;
        lemma_moves_layout(s, m);
        let l0 = Layout { blocks: seq![moves(s, m)], cur: 0, stack: Seq::empty() };
        let l = scan(s, n).unwrap();
        assert(op_of(s[m as int]) == Op::Right || op_of(s[m as int]) == Op::Left);
        assert(Some(l) == l0.advance(m, op_of(s[m as int])));
        assert(l.blocks[0] =~= moves(s, n));
        assert(l.blocks =~= seq![moves(s, n)]);
    }
}

/// The run of a block of moves from its `n`-th step.
pub proof fn lemma_moves_run(s: Seq<u8>, m: Machine, n: nat)
    requires
        n <= s.len(),
    ensures
        run(
            seq![moves(s, s.len())],
            Config { block: 0, offset: n, m: Machine { ptr: walked(s, n, m.ptr), ..m } },
            (s.len() - n) as nat,
        ) == Outcome::Halted(Machine { ptr: walked(s, s.len(), m.ptr), ..m }),
    decreases s.len() - n,
{
    let p = seq![moves(s, s.len())];
    let c = Config { block: 0, offset: n, m: Machine { ptr: walked(s, n, m.ptr), ..m } };
    if n < s.len() {
        assert(p[0][n as int] == StepModel::Move(shift(s[n as int])));
        let next = Config {
            block: 0,
            offset: n + 1,
            m: Machine { ptr: walked(s, n + 1, m.ptr), ..m },
        };
        assert(step(p, c) == Progress::Go(next));
        lemma_moves_run(s, m, n + 1);
    } else {
        assert(step(p, c) == Progress::Halt);
    }
}

/// A stream of `>` and `<` is translated into moves alone, one for each
/// token, all in one block: no step of the translation reads or writes a
/// cell, calls a primitive or leaves the block. Run from any state, it halts
/// after as many steps as the stream has tokens, with tape, input and output
/// as they were and the pointer moved by the net sum of the moves, wherever
/// that is: nothing clamps it to the tape. The pointer has 32 bits: the sum
/// is required to fit.
pub proof fn law_moves_only(s: Seq<u8>, m: Machine)
    requires
        only_moves(s),
        m.wf(),
        i32::MIN <= m.ptr + net(s, s.len()) <= i32::MAX,
    ensures
        translation(s) == Ok::<Seq<Seq<StepModel>>, crate::brackets::StructuralError>(
            seq![moves(s, s.len())],
        ),
        run(translation(s).unwrap(), Config { block: 0, offset: 0, m }, s.len())
            == Outcome::Halted(Machine { ptr: m.ptr + net(s, s.len()), ..m }),
{
    lemma_moves_layout(s, s.len());
    lemma_balanced_scans(s, s.len());
    lemma_moves_run(s, m, 0);
    let k = lemma_walked_congruent(s, s.len(), m.ptr);
    assert(k == 0);
    assert((Machine { ptr: walked(s, 0, m.ptr), ..m }) == m);
}

/// The stream `[-]`.
pub open spec fn clear_loop() -> Seq<u8> {
    seq![0x5bu8, 0x2du8, 0x5du8]
}

/// The translation of `[-]`.
pub open spec fn clear_loop_program() -> Seq<Seq<StepModel>> {
    seq![
        seq![StepModel::Jump(1)],
        seq![StepModel::BranchIfZero(2), StepModel::Add(-1), StepModel::Jump(1)],
        Seq::<StepModel>::empty(),
    ]
}

/// The run of the translation of `[-]` from the head of the loop.
pub proof fn lemma_clear_from_head(m: Machine)
    requires
        m.wf(),
        m.on_tape(),
    ensures
        run(
            clear_loop_program(),
            Config { block: 1, offset: 0, m },
            (3 * m.cell() + 1) as nat,
        ) == Outcome::Halted(Machine { tape: m.tape.update(m.ptr, 0), ..m }),
    decreases m.cell(),
{
    let p = clear_loop_program();
    let c = Config { block: 1, offset: 0, m };
    assert(p[1][0] == StepModel::BranchIfZero(2));
    assert(p[1][1] == StepModel::Add(-1));
    assert(p[1][2] == StepModel::Jump(1));
    if m.cell() == 0 {
        let out = Config { block: 2, offset: 0, m };
        assert(step(p, c) == Progress::Go(out));
        assert(step(p, out) == Progress::Halt);
        assert(run(p, out, 0) == Outcome::Halted(m));
        assert(m.tape.update(m.ptr, 0) =~= m.tape);
    } else {
        let less = Machine { tape: m.tape.update(m.ptr, (m.cell() - 1) as u8), ..m };
        let c1 = Config { block: 1, offset: 1, m };
        let c2 = Config { block: 1, offset: 2, m: less };
        let c3 = Config { block: 1, offset: 0, m: less };
        assert(step(p, c) == Progress::Go(c1));
        assert(m.added(-1) == Effect::Next(less));
        assert(step(p, c1) == Progress::Go(c2));
        assert(step(p, c2) == Progress::Go(c3));
        let f = (3 * m.cell() + 1) as nat;
        assert(run(p, c, f) == run(p, c1, (f - 1) as nat));
        assert(run(p, c1, (f - 1) as nat) == run(p, c2, (f - 2) as nat));
        assert(run(p, c2, (f - 2) as nat) == run(p, c3, (f - 3) as nat));
        lemma_clear_from_head(less);
        assert(less.tape.update(less.ptr, 0) =~= m.tape.update(m.ptr, 0));
    }
}

/// The translation of `[-]`, run from any state with the pointer on the
/// tape, halts with the current cell at zero, every other cell as it was,
/// and pointer, input and output unchanged.
pub proof fn law_clear_loop(m: Machine)
    requires
        m.wf(),
        m.on_tape(),
    ensures
        translation(clear_loop()) == Ok::<Seq<Seq<StepModel>>, crate::brackets::StructuralError>(
            clear_loop_program(),
        ),
        run(
            translation(clear_loop()).unwrap(),
            Config { block: 0, offset: 0, m },
            (3 * m.cell() + 2) as nat,
        ) == Outcome::Halted(Machine { tape: m.tape.update(m.ptr, 0), ..m }),
{
    let s = clear_loop();
    let p = clear_loop_program();
    assert(balanced(s)) by {
        reveal_with_fuel(opens, 4);
        assert(opens(s, 3).unwrap() =~= Seq::<nat>::empty());
    }
    lemma_balanced_scans(s, 3);
    assert(scan(s, 3).unwrap().blocks == p) by {
        reveal_with_fuel(scan, 4);
        let q = scan(s, 3).unwrap().blocks;
        assert(q.len() == 3);
        assert(q[0] =~= p[0]);
        assert(q[1] =~= p[1]);
        assert(q[2] =~= p[2]);
        assert(q =~= p);
    }
    let c = Config { block: 0, offset: 0, m };
    assert(p[0][0] == StepModel::Jump(1));
    assert(step(p, c) == Progress::Go(Config { block: 1, offset: 0, m }));
    lemma_clear_from_head(m);
}

} // verus!
