//! How loops are threaded, at any depth of nesting.

use vstd::prelude::*;
use crate::brackets::{
    balanced, closer, law_pairs_unique, lemma_closer_pairs, opens, pairs,
};
use crate::ir::StepModel;
use crate::laws::{lemma_balanced_scans, lemma_laid_out_stays, place};
use crate::layout::{frame_ok, lemma_scan_grows, lemma_scan_ok};
use crate::ops::{op_of, Op};
use crate::runner::Config;
use crate::tape::Machine;
use crate::translate::{lemma_scan_opens, plain_step, scan, translation, Layout};

verus! {

/// The number of the head block of the loop that the `[` at `i` opens: the
/// first number that is free when the `[` is read.
pub open spec fn head_of(s: Seq<u8>, i: nat) -> nat {
    scan(s, i).unwrap().blocks.len()
}

/// Every loop of a balanced stream is threaded in the same way, whatever
/// stands around it or inside it. With `h` the head block of the loop opened
/// at `i` and closed at `j`: the step laid out for the `[` jumps to `h`;
/// block `h` starts with the test that leaves for block `h + 1` on zero;
/// the body is laid out from the second step of block `h`; the step laid out
/// for the `]` is the back edge, a jump to `h`; and what follows the loop is
/// laid out from the start of block `h + 1`.
pub proof fn law_loop_threading(s: Seq<u8>, i: nat, m: Machine)
    requires
        balanced(s),
        i < s.len(),
        op_of(s[i as int]) == Op::Open,
    ensures
        i < closer(s, i) < s.len(),
        pairs(s, i, closer(s, i)),
        translation(s) is Ok,
        ({
            let p = translation(s).unwrap();
            let j = closer(s, i);
            let h = head_of(s, i);
            let at_open = place(s, i, m);
            let at_close = place(s, j, m);
            &&& h + 1 < p.len()
            &&& at_open.block < p.len()
            &&& at_open.offset < p[at_open.block as int].len()
            &&& p[at_open.block as int][at_open.offset as int] == StepModel::Jump(h)
            &&& p[h as int].len() >= 1
            &&& p[h as int][0] == StepModel::BranchIfZero(h + 1)
            &&& place(s, i + 1, m) == Config { block: h, offset: 1, m }
            &&& at_close.block < p.len()
            &&& at_close.offset < p[at_close.block as int].len()
            &&& p[at_close.block as int][at_close.offset as int] == StepModel::Jump(h)
            &&& place(s, j + 1, m) == Config { block: h + 1, offset: 0, m }
        }),
{
    let p = translation(s).unwrap();
    let j = closer(s, i);
    let h = head_of(s, i);
    lemma_closer_pairs(s, i);
    lemma_balanced_scans(s, i);
    lemma_balanced_scans(s, i + 1);
    lemma_balanced_scans(s, j);
    lemma_balanced_scans(s, j + 1);
    lemma_scan_ok(s, i);
    lemma_scan_ok(s, j);
    lemma_scan_opens(s, j);
    let li = scan(s, i).unwrap();
    let lj = scan(s, j).unwrap();
    assert(scan(s, i + 1) == li.advance(i, Op::Open));
    assert(scan(s, j + 1) == lj.advance(j, Op::Close));
    let top = lj.stack[lj.stack.len() - 1];
    assert(top.open_at == i);
    assert(frame_ok(s, lj, top));
    lemma_laid_out_stays(s, i + 1, li.cur as int, li.blocks[li.cur as int].len() as int);
    lemma_laid_out_stays(s, i + 1, h as int, 0);
    lemma_scan_grows(s, i + 1, s.len());
    lemma_laid_out_stays(s, j + 1, lj.cur as int, lj.blocks[lj.cur as int].len() as int);
}

/// The number of tokens `op` among the first `n` tokens of `s`.
pub open spec fn tokens(s: Seq<u8>, n: nat, op: Op) -> nat
    decreases n,
{
    if n == 0 {
        0
    } else {
        tokens(s, (n - 1) as nat, op) + if op_of(s[n - 1]) == op {
            1nat
        } else {
            0nat
        }
    }
}

/// The number of steps equal to `step` in a block.
pub open spec fn occurrences_in(block: Seq<StepModel>, step: StepModel) -> nat
    decreases block.len(),
{
    if block.len() == 0 {
        0
    } else {
        occurrences_in(block.drop_last(), step) + if block.last() == step {
            1nat
        } else {
            0nat
        }
    }
}

/// The number of steps equal to `step` in a program.
pub open spec fn occurrences(blocks: Seq<Seq<StepModel>>, step: StepModel) -> nat
    decreases blocks.len(),
{
    if blocks.len() == 0 {
        0
    } else {
        occurrences(blocks.drop_last(), step) + occurrences_in(blocks.last(), step)
    }
}

/// One more step at the end of a block is one more occurrence, or none.
pub proof fn lemma_occurrences_push(
    blocks: Seq<Seq<StepModel>>,
    i: int,
    x: StepModel,
    step: StepModel,
)
    requires
        0 <= i < blocks.len(),
    ensures
        occurrences(blocks.update(i, blocks[i].push(x)), step) == occurrences(blocks, step) + if x
            == step {
            1nat
        } else {
            0nat
        },
    decreases blocks.len(),
{
    let after = blocks.update(i, blocks[i].push(x));
    if i == blocks.len() - 1 {
        assert(after.drop_last() =~= blocks.drop_last());
        assert(blocks[i].push(x).drop_last() =~= blocks[i]);
    } else {
        assert(after.drop_last() =~= blocks.drop_last().update(i, blocks.drop_last()[i].push(x)));
        lemma_occurrences_push(blocks.drop_last(), i, x, step);
    }
}

/// One more block adds its occurrences.
pub proof fn lemma_occurrences_block(
    blocks: Seq<Seq<StepModel>>,
    block: Seq<StepModel>,
    step: StepModel,
)
    ensures
        occurrences(blocks.push(block), step) == occurrences(blocks, step) + occurrences_in(
            block,
            step,
        ),
{
    assert(blocks.push(block).drop_last() =~= blocks);
}

/// The scan lays out one step for each plain token and two blocks for each `[`.
pub proof fn lemma_scan_counts(s: Seq<u8>, n: nat, op: Op)
    requires
        n <= s.len(),
        scan(s, n).is_some(),
        plain_step(op).is_some(),
    ensures
        scan(s, n).unwrap().blocks.len() == 1 + 2 * tokens(s, n, Op::Open),
        occurrences(scan(s, n).unwrap().blocks, plain_step(op).unwrap()) == tokens(s, n, op),
    decreases n,
{
    let step = plain_step(op).unwrap();
    if n == 0 {
        let first = Layout::initial().blocks;
        assert(first.drop_last() =~= Seq::<Seq<StepModel>>::empty());
        assert(occurrences(first.drop_last(), step) == 0);
        assert(occurrences_in(first.last(), step) == 0);
    } else {
        let m = (n - 1) as nat;
        lemma_scan_counts(s, m, op);
        lemma_scan_ok(s, m);
        let l0 = scan(s, m).unwrap();
        let l = scan(s, n).unwrap();
        let read = op_of(s[m as int]);
        assert(Some(l) == l0.advance(m, read));
        let cur = l0.cur as int;
        match read {
            Op::Skip => {},
            Op::Open => {
                let head = l0.blocks.len();
                let jumped = l0.emit(StepModel::Jump(head)).blocks;
                let test = seq![StepModel::BranchIfZero(head + 1)];
                lemma_occurrences_push(l0.blocks, cur, StepModel::Jump(head), step);
                lemma_occurrences_block(jumped, test, step);
                lemma_occurrences_block(jumped.push(test), Seq::empty(), step);
                assert(test.drop_last() =~= Seq::<StepModel>::empty());
                assert(occurrences_in(test.drop_last(), step) == 0);
                assert(occurrences_in(test, step) == 0);
                assert(occurrences_in(Seq::<StepModel>::empty(), step) == 0);
            },
            Op::Close => {
                let top = l0.stack[l0.stack.len() - 1];
                lemma_occurrences_push(l0.blocks, cur, StepModel::Jump(top.head), step);
            },
            _ => {
                lemma_occurrences_push(l0.blocks, cur, plain_step(read).unwrap(), step);
            },
        }
    }
}

/// In the translation of a well-structured stream each plain token stands
/// exactly once: there are as many steps of its kind as tokens of its kind,
/// and there are two blocks for each loop besides the entry block.
pub proof fn law_one_step_for_each_token(s: Seq<u8>, op: Op)
    requires
        balanced(s),
        plain_step(op).is_some(),
    ensures
        translation(s) is Ok,
        translation(s).unwrap().len() == 1 + 2 * tokens(s, s.len(), Op::Open),
        occurrences(translation(s).unwrap(), plain_step(op).unwrap()) == tokens(s, s.len(), op),
{
    lemma_balanced_scans(s, s.len());
    lemma_scan_counts(s, s.len(), op);
}

/// The stream of `depth` nested loops around one `+`.
pub open spec fn nested(depth: nat) -> Seq<u8> {
    Seq::new(
        2 * depth + 1,
        |i: int|
            if i < depth {
                0x5bu8
            } else if i == depth {
                0x2bu8
            } else {
                0x5du8
            },
    )
}

/// The loops that are open after `j` tokens of `nested(depth)`.
pub open spec fn nested_open(depth: nat, j: nat) -> Seq<nat> {
    Seq::new(
        if j <= depth {
            j
        } else {
            (2 * depth + 1 - j) as nat
        },
        |k: int| k as nat,
    )
}

/// What the first `j` tokens of `nested(depth)` hold.
pub proof fn lemma_nested_prefix(depth: nat, j: nat)
    requires
        j <= 2 * depth + 1,
    ensures
        opens(nested(depth), j) == Some(nested_open(depth, j)),
        tokens(nested(depth), j, Op::Open) == if j <= depth {
            j
        } else {
            depth
        },
        tokens(nested(depth), j, Op::Inc) == if j <= depth {
            0nat
        } else {
            1nat
        },
    decreases j,
{
    let s = nested(depth);
    if j == 0 {
        assert(nested_open(depth, 0) =~= Seq::<nat>::empty());
    } else {
        let i = (j - 1) as nat;
        lemma_nested_prefix(depth, i);
        let before = nested_open(depth, i);
        if i < depth {
            assert(op_of(s[i as int]) == Op::Open);
            assert(before.push(i) =~= nested_open(depth, j));
        } else if i == depth {
            assert(op_of(s[i as int]) == Op::Inc);
            assert(before =~= nested_open(depth, j));
        } else {
            assert(op_of(s[i as int]) == Op::Close);
            assert(before.drop_last() =~= nested_open(depth, j));
        }
    }
}

/// Loops nest to any depth. For every `depth`, the stream of `depth` nested
/// loops around one `+` has a translation; it has two blocks for each loop
/// besides the entry block; the increment stands in it exactly once, where
/// the body of the innermost loop is laid out. How each of the loops is
/// threaded, and that it has exactly its own edges, is what
/// `law_loop_threading` and `law_loop_edges` say of every loop.
pub proof fn law_nesting_is_unbounded(depth: nat, m: Machine)
    ensures
        balanced(nested(depth)),
        translation(nested(depth)) is Ok,
        translation(nested(depth)).unwrap().len() == 2 * depth + 1,
        occurrences(translation(nested(depth)).unwrap(), StepModel::Add(1)) == 1,
        ({
            let p = translation(nested(depth)).unwrap();
            let at = place(nested(depth), depth, m);
            &&& at.block < p.len()
            &&& at.offset < p[at.block as int].len()
            &&& p[at.block as int][at.offset as int] == StepModel::Add(1)
        }),
{
    let s = nested(depth);
    lemma_nested_prefix(depth, 2 * depth + 1);
    assert(nested_open(depth, 2 * depth + 1) =~= Seq::<nat>::empty());
    law_one_step_for_each_token(s, Op::Inc);
    lemma_balanced_scans(s, depth);
    lemma_balanced_scans(s, depth + 1);
    lemma_scan_ok(s, depth);
    let l = scan(s, depth).unwrap();
    assert(op_of(s[depth as int]) == Op::Inc);
    assert(scan(s, depth + 1) == l.advance(depth, Op::Inc));
    lemma_laid_out_stays(s, depth + 1, l.cur as int, l.blocks[l.cur as int].len() as int);
}

/// Among more tokens there are not fewer of a kind.
pub proof fn lemma_tokens_grow(s: Seq<u8>, i: nat, j: nat, op: Op)
    requires
        i <= j,
    ensures
        tokens(s, i, op) <= tokens(s, j, op),
    decreases j,
{
    if i < j {
        lemma_tokens_grow(s, i, (j - 1) as nat, op);
    }
}

/// A later token finds more blocks than a `[` before it found: the head
/// blocks of two loops differ, and every head block has an odd number.
pub proof fn lemma_heads_differ(s: Seq<u8>, i: nat, j: nat)
    requires
        balanced(s),
        i < j <= s.len(),
        op_of(s[i as int]) == Op::Open,
    ensures
        head_of(s, i) + 2 <= head_of(s, j),
        head_of(s, i) == 1 + 2 * tokens(s, i, Op::Open),
        head_of(s, j) == 1 + 2 * tokens(s, j, Op::Open),
{
    lemma_balanced_scans(s, i);
    lemma_balanced_scans(s, j);
    lemma_scan_counts(s, i, Op::Inc);
    lemma_scan_counts(s, j, Op::Inc);
    lemma_tokens_grow(s, i + 1, j, Op::Open);
}

/// How often the head and the exit of one loop are targets among what the
/// scan has laid out after `n` tokens.
pub proof fn lemma_edges_count(s: Seq<u8>, i0: nat, n: nat)
    requires
        balanced(s),
        i0 < s.len(),
        op_of(s[i0 as int]) == Op::Open,
        n <= s.len(),
    ensures
        scan(s, n).is_some(),
        occurrences(scan(s, n).unwrap().blocks, StepModel::Jump(head_of(s, i0))) == (if i0 < n {
            1nat
        } else {
            0nat
        }) + (if closer(s, i0) < n {
            1nat
        } else {
            0nat
        }),
        occurrences(scan(s, n).unwrap().blocks, StepModel::BranchIfZero(head_of(s, i0) + 1)) == (
        if i0 < n {
            1nat
        } else {
            0nat
        }),
        occurrences(scan(s, n).unwrap().blocks, StepModel::Jump(head_of(s, i0) + 1)) == 0,
        occurrences(scan(s, n).unwrap().blocks, StepModel::BranchIfZero(head_of(s, i0))) == 0,
    decreases n,
{
    let h = head_of(s, i0);
    let jump = StepModel::Jump(h);
    let test = StepModel::BranchIfZero(h + 1);
    let wrong_jump = StepModel::Jump(h + 1);
    let wrong_test = StepModel::BranchIfZero(h);
    lemma_balanced_scans(s, n);
    lemma_balanced_scans(s, i0);
    lemma_scan_counts(s, i0, Op::Inc);
    lemma_closer_pairs(s, i0);
    if n == 0 {
        let first = Layout::initial().blocks;
        assert(first.drop_last() =~= Seq::<Seq<StepModel>>::empty());
        assert(occurrences(first.drop_last(), jump) == 0);
        assert(occurrences(first.drop_last(), test) == 0);
        assert(occurrences(first.drop_last(), wrong_jump) == 0);
        assert(occurrences(first.drop_last(), wrong_test) == 0);
    } else {
        let m = (n - 1) as nat;
        lemma_edges_count(s, i0, m);
        lemma_scan_ok(s, m);
        lemma_scan_counts(s, m, Op::Inc);
        lemma_scan_opens(s, m);
        let l0 = scan(s, m).unwrap();
        let l = scan(s, n).unwrap();
        let read = op_of(s[m as int]);
        assert(Some(l) == l0.advance(m, read));
        let cur = l0.cur as int;
        match read {
            Op::Skip => {},
            Op::Open => {
                let head = l0.blocks.len();
                if m < i0 {
                    lemma_heads_differ(s, m, i0);
                } else if i0 < m {
                    lemma_heads_differ(s, i0, m);
                }
                let jumped = l0.emit(StepModel::Jump(head)).blocks;
                let block = seq![StepModel::BranchIfZero(head + 1)];
                assert(block.drop_last() =~= Seq::<StepModel>::empty());
                lemma_occurrences_push(l0.blocks, cur, StepModel::Jump(head), jump);
                lemma_occurrences_block(jumped, block, jump);
                lemma_occurrences_block(jumped.push(block), Seq::empty(), jump);
                lemma_occurrences_push(l0.blocks, cur, StepModel::Jump(head), test);
                lemma_occurrences_block(jumped, block, test);
                lemma_occurrences_block(jumped.push(block), Seq::empty(), test);
                lemma_occurrences_push(l0.blocks, cur, StepModel::Jump(head), wrong_jump);
                lemma_occurrences_block(jumped, block, wrong_jump);
                lemma_occurrences_block(jumped.push(block), Seq::empty(), wrong_jump);
                lemma_occurrences_push(l0.blocks, cur, StepModel::Jump(head), wrong_test);
                lemma_occurrences_block(jumped, block, wrong_test);
                lemma_occurrences_block(jumped.push(block), Seq::empty(), wrong_test);
                assert(occurrences_in(block.drop_last(), jump) == 0);
                assert(occurrences_in(block.drop_last(), test) == 0);
                assert(occurrences_in(block.drop_last(), wrong_jump) == 0);
                assert(occurrences_in(block.drop_last(), wrong_test) == 0);
                assert(occurrences_in(Seq::<StepModel>::empty(), jump) == 0);
                assert(occurrences_in(Seq::<StepModel>::empty(), test) == 0);
                assert(occurrences_in(Seq::<StepModel>::empty(), wrong_jump) == 0);
                assert(occurrences_in(Seq::<StepModel>::empty(), wrong_test) == 0);
            },
            Op::Close => {
                let top = l0.stack[l0.stack.len() - 1];
                assert(frame_ok(s, l0, top));
                assert(pairs(s, top.open_at, m));
                lemma_balanced_scans(s, top.open_at);
                lemma_scan_counts(s, top.open_at, Op::Inc);
                if top.open_at == i0 {
                    law_pairs_unique(s, i0, m, closer(s, i0));
                } else {
                    if top.open_at < i0 {
                        lemma_heads_differ(s, top.open_at, i0);
                    } else {
                        lemma_heads_differ(s, i0, top.open_at);
                    }
                }
                lemma_occurrences_push(l0.blocks, cur, StepModel::Jump(top.head), jump);
                lemma_occurrences_push(l0.blocks, cur, StepModel::Jump(top.head), test);
                lemma_occurrences_push(l0.blocks, cur, StepModel::Jump(top.head), wrong_jump);
                lemma_occurrences_push(l0.blocks, cur, StepModel::Jump(top.head), wrong_test);
            },
            _ => {
                let step = plain_step(read).unwrap();
                lemma_occurrences_push(l0.blocks, cur, step, jump);
                lemma_occurrences_push(l0.blocks, cur, step, test);
                lemma_occurrences_push(l0.blocks, cur, step, wrong_jump);
                lemma_occurrences_push(l0.blocks, cur, step, wrong_test);
            },
        }
    }
}

/// Every loop of a balanced stream has exactly its own edges. With `h` the
/// head block of the loop opened at `i`: exactly two jumps of the whole
/// translation go to `h`, the entry and the back edge; exactly one branch on
/// zero goes to `h + 1`, the test at the head; no jump goes to the exit
/// block, and no branch on zero goes to the head block.
pub proof fn law_loop_edges(s: Seq<u8>, i: nat)
    requires
        balanced(s),
        i < s.len(),
        op_of(s[i as int]) == Op::Open,
    ensures
        translation(s) is Ok,
        occurrences(translation(s).unwrap(), StepModel::Jump(head_of(s, i))) == 2,
        occurrences(translation(s).unwrap(), StepModel::BranchIfZero(head_of(s, i) + 1)) == 1,
        occurrences(translation(s).unwrap(), StepModel::Jump(head_of(s, i) + 1)) == 0,
        occurrences(translation(s).unwrap(), StepModel::BranchIfZero(head_of(s, i))) == 0,
{
    lemma_balanced_scans(s, s.len());
    lemma_closer_pairs(s, i);
    lemma_edges_count(s, i, s.len());
}

} // verus!
