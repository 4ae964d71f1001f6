//! What holds of the layout at every point of the scan.

use vstd::prelude::*;
use crate::ir::StepModel;
use crate::ops::{op_of, Op};
use crate::translate::{scan, Frame, Layout};

verus! {

/// An open loop is in order: its `[` is where the frame says, its head block
/// was the first free number when the `[` was read, its exit block follows
/// the head, is still empty and is not being written to, and its head block
/// starts with the test that leaves for the exit block.
pub open spec fn frame_ok(s: Seq<u8>, l: Layout, f: Frame) -> bool {
    &&& f.open_at < s.len()
    &&& op_of(s[f.open_at as int]) == Op::Open
    &&& scan(s, f.open_at).is_some()
    &&& f.head == scan(s, f.open_at).unwrap().blocks.len()
    &&& f.exit == f.head + 1
    &&& f.exit < l.blocks.len()
    &&& l.blocks[f.exit as int].len() == 0
    &&& f.exit != l.cur
    &&& l.blocks[f.head as int].len() >= 1
    &&& l.blocks[f.head as int][0] == StepModel::BranchIfZero(f.exit)
}

/// A layout after `n` tokens is in order: the current block exists, every
/// open loop is in order and was opened among the `n` tokens, and the blocks
/// of an inner loop have higher numbers than those of the loops around it.
pub open spec fn layout_ok(s: Seq<u8>, n: nat, l: Layout) -> bool {
    &&& l.cur < l.blocks.len()
    &&& forall|k: int|
        0 <= k < l.stack.len() ==> frame_ok(s, l, #[trigger] l.stack[k]) && l.stack[k].open_at < n
    &&& forall|j: int, k: int|
        0 <= j < k < l.stack.len() ==> (#[trigger] l.stack[j]).exit < (#[trigger] l.stack[k]).head
}

/// Every layout that the scan reaches is in order.
pub proof fn lemma_scan_ok(s: Seq<u8>, n: nat)
    requires
        n <= s.len(),
        scan(s, n).is_some(),
    ensures
        layout_ok(s, n, scan(s, n).unwrap()),
    decreases n,
{
    if n > 0 {
        let m = (n - 1) as nat;
        lemma_scan_ok(s, m);
        let l0 = scan(s, m).unwrap();
        let l = scan(s, n).unwrap();
        let op = op_of(s[m as int]);
        assert(Some(l) == l0.advance(m, op));
        match op {
            Op::Skip => {},
            Op::Open => {
                let f = l.stack[l.stack.len() - 1];
                assert forall|k: int| 0 <= k < l.stack.len() implies frame_ok(
                    s,
                    l,
                    #[trigger] l.stack[k],
                ) && l.stack[k].open_at < n by {
                    if k < l0.stack.len() {
                        assert(l.stack[k] == l0.stack[k]);
                        assert(frame_ok(s, l0, l0.stack[k]));
                    }
                }
                assert forall|j: int, k: int| 0 <= j < k < l.stack.len() implies (
                #[trigger] l.stack[j]).exit < (#[trigger] l.stack[k]).head by {
                    assert(l.stack[j] == l0.stack[j]);
                    assert(frame_ok(s, l0, l0.stack[j]));
                    if k < l0.stack.len() {
                        assert(l.stack[k] == l0.stack[k]);
                    }
                }
            },
            Op::Close => {
                let top = l0.stack[l0.stack.len() - 1];
                assert(frame_ok(s, l0, top));
                assert forall|k: int| 0 <= k < l.stack.len() implies frame_ok(
                    s,
                    l,
                    #[trigger] l.stack[k],
                ) && l.stack[k].open_at < n by {
                    assert(l.stack[k] == l0.stack[k]);
                    assert(frame_ok(s, l0, l0.stack[k]));
                    assert(l0.stack[k].exit < top.head);
                }
                assert forall|j: int, k: int| 0 <= j < k < l.stack.len() implies (
                #[trigger] l.stack[j]).exit < (#[trigger] l.stack[k]).head by {
                    assert(l.stack[j] == l0.stack[j]);
                    assert(l.stack[k] == l0.stack[k]);
                }
            },
            _ => {
                assert forall|k: int| 0 <= k < l.stack.len() implies frame_ok(
                    s,
                    l,
                    #[trigger] l.stack[k],
                ) && l.stack[k].open_at < n by {
                    assert(frame_ok(s, l0, l0.stack[k]));
                }
            },
        }
    }
}

/// Every block of `a` is there in `b` and starts with the same steps.
pub open spec fn extends(a: Seq<Seq<StepModel>>, b: Seq<Seq<StepModel>>) -> bool {
    &&& a.len() <= b.len()
    &&& forall|i: int| 0 <= i < a.len() ==> (#[trigger] a[i]).is_prefix_of(b[i])
}

/// The scan only appends: what it has laid out after `n` tokens is still
/// there after more tokens.
pub proof fn lemma_scan_grows(s: Seq<u8>, n: nat, n2: nat)
    requires
        n <= n2 <= s.len(),
        scan(s, n2).is_some(),
    ensures
        scan(s, n).is_some(),
        extends(scan(s, n).unwrap().blocks, scan(s, n2).unwrap().blocks),
    decreases n2,
{
    if n < n2 {
        let m = (n2 - 1) as nat;
        lemma_scan_grows(s, n, m);
        lemma_scan_ok(s, m);
        let a = scan(s, n).unwrap().blocks;
        let l0 = scan(s, m).unwrap();
        let l = scan(s, n2).unwrap();
        assert(Some(l) == l0.advance(m, op_of(s[m as int])));
        assert forall|i: int| 0 <= i < a.len() implies (#[trigger] a[i]).is_prefix_of(
            l.blocks[i],
        ) by {
            assert(a[i].is_prefix_of(l0.blocks[i]));
            assert(l0.blocks[i].is_prefix_of(l.blocks[i]));
        }
    }
}

} // verus!
