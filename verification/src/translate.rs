//! The translator: one pass over the operation stream, left to right, that lays
//! the steps out in blocks and threads the loops.

use vstd::prelude::*;
use crate::brackets::{
    lemma_opens_none_stays, lemma_stray_unique, opens, stray_at, structure, StructuralError,
};
use crate::ops::{Op, op_of, decode};
use crate::ir::{Step, StepModel, Program, blocks_of, push_step, push_block};

verus! {

/// The step that stands for a token that is neither a bracket nor a comment.
pub open spec fn plain_step(op: Op) -> Option<StepModel> {
    match op {
        Op::Right => Some(StepModel::Move(1)),
        Op::Left => Some(StepModel::Move(-1)),
        Op::Inc => Some(StepModel::Add(1)),
        Op::Dec => Some(StepModel::Add(-1)),
        Op::Output => Some(StepModel::Output),
        Op::Input => Some(StepModel::Input),
        _ => None,
    }
}

/// A loop that has been opened and not yet closed.
pub struct Frame {
    /// Position of its `[` in the stream.
    pub open_at: nat,
    /// The block that tests the cell and holds the loop body.
    pub head: nat,
    /// The block in which translation goes on after the loop.
    pub exit: nat,
}

/// What the translator has laid out after some prefix of the stream.
pub struct Layout {
    /// The blocks so far.
    pub blocks: Seq<Seq<StepModel>>,
    /// The block that the next step goes to.
    pub cur: nat,
    /// The open loops, innermost last.
    pub stack: Seq<Frame>,
}

impl Layout {
    /// Before the first token: one empty block, no open loop.
    pub open spec fn initial() -> Layout {
        Layout { blocks: seq![Seq::<StepModel>::empty()], cur: 0, stack: Seq::empty() }
    }

    /// The layout with one more step at the end of the current block.
    pub open spec fn emit(self, step: StepModel) -> Layout {
        Layout {
            blocks: self.blocks.update(self.cur as int, self.blocks[self.cur as int].push(step)),
            ..self
        }
    }

    /// The layout after a `[` at position `at`: the current block jumps to a new
    /// head block, which leaves for a new, empty exit block when the cell is
    /// zero and otherwise goes on; the next step goes to the head block.
    pub open spec fn open_loop(self, at: nat) -> Layout {
        let head = self.blocks.len();
        let exit = head + 1;
        Layout {
            blocks: self.emit(StepModel::Jump(head)).blocks.push(
                seq![StepModel::BranchIfZero(exit)],
            ).push(Seq::empty()),
            cur: head,
            stack: self.stack.push(Frame { open_at: at, head, exit }),
        }
    }

    /// The layout after the `]` of the innermost open loop: the current block
    /// jumps back to the head, and the next step goes to the exit block.
    pub open spec fn close_loop(self) -> Layout
        recommends
            self.stack.len() > 0,
    {
        let f = self.stack.last();
        Layout {
            blocks: self.emit(StepModel::Jump(f.head)).blocks,
            cur: f.exit,
            stack: self.stack.drop_last(),
        }
    }

    /// The layout after one more token, read at position `at`; `None` where
    /// the token is a `]` and no loop is open.
    pub open spec fn advance(self, at: nat, op: Op) -> Option<Layout> {
        match op {
            Op::Right => Some(self.emit(StepModel::Move(1))),
            Op::Left => Some(self.emit(StepModel::Move(-1))),
            Op::Inc => Some(self.emit(StepModel::Add(1))),
            Op::Dec => Some(self.emit(StepModel::Add(-1))),
            Op::Output => Some(self.emit(StepModel::Output)),
            Op::Input => Some(self.emit(StepModel::Input)),
            Op::Open => Some(self.open_loop(at)),
            Op::Close => if self.stack.len() > 0 {
                Some(self.close_loop())
            } else {
                None
            },
            Op::Skip => Some(self),
        }
    }
}

/// The layout after the first `n` tokens of `s`; `None` where one of them is a
/// `]` with no loop open.
pub open spec fn scan(s: Seq<u8>, n: nat) -> Option<Layout>
    decreases n,
{
    if n == 0 {
        Some(Layout::initial())
    } else {
        match scan(s, (n - 1) as nat) {
            Some(l) => l.advance((n - 1) as nat, op_of(s[n - 1])),
            None => None,
        }
    }
}

/// The translation of a stream, or what is wrong with its structure.
pub open spec fn translation(s: Seq<u8>) -> Result<Seq<Seq<StepModel>>, StructuralError> {
    match structure(s) {
        Err(e) => Err(e),
        Ok(_) => Ok(scan(s, s.len()).unwrap().blocks),
    }
}

/// The loops that the scan holds open are those that are open in the stream.
pub proof fn lemma_scan_opens(s: Seq<u8>, n: nat)
    ensures
        scan(s, n).is_some() == opens(s, n).is_some(),
        scan(s, n).is_some() ==> scan(s, n).unwrap().stack.len() == opens(s, n).unwrap().len(),
        scan(s, n).is_some() ==> forall|k: int|
            0 <= k < opens(s, n).unwrap().len() ==> (#[trigger] scan(s, n).unwrap().stack[k]).open_at
                == opens(s, n).unwrap()[k],
    decreases n,
{
    if n > 0 {
        lemma_scan_opens(s, (n - 1) as nat);
    }
}

/// An open loop as the translator keeps it.
#[derive(Clone, Copy, Debug)]
pub struct OpenLoop {
    pub open_at: usize,
    pub head: usize,
    pub exit: usize,
}

impl View for OpenLoop {
    type V = Frame;

    open spec fn view(&self) -> Frame {
        Frame { open_at: self.open_at as nat, head: self.head as nat, exit: self.exit as nat }
    }
}

/// The open loops as mathematical values.
pub open spec fn frames_of(stack: Seq<OpenLoop>) -> Seq<Frame> {
    Seq::new(stack.len(), |k: int| stack[k]@)
}

/// Translates a stream. The result is the translation of the stream, or the
/// reason it has none.
pub fn translate(stream: &[u8]) -> (r: Result<Program, StructuralError>)
    ensures
        match r {
            Ok(p) => translation(stream@) == Ok::<Seq<Seq<StepModel>>, StructuralError>(p@),
            Err(e) => translation(stream@) == Err::<Seq<Seq<StepModel>>, StructuralError>(e),
        },
{
    let mut blocks: Vec<Vec<Step>> = Vec::new();
    assert(blocks_of(blocks@) =~= Seq::<Seq<StepModel>>::empty());
    let mut cur: usize = push_block(&mut blocks);
    let mut stack: Vec<OpenLoop> = Vec::new();
    let mut i: usize = 0;
    proof {
        assert(blocks_of(blocks@) =~= Layout::initial().blocks);
        assert(frames_of(stack@) =~= Layout::initial().stack);
    }
    while i < stream.len()
        invariant
            i <= stream.len(),
            cur < blocks.len(),
            forall|k: int| 0 <= k < stack.len() ==> (#[trigger] stack[k]).exit < blocks.len(),
            scan(stream@, i as nat) == Some(
                Layout { blocks: blocks_of(blocks@), cur: cur as nat, stack: frames_of(stack@) },
            ),
            opens(stream@, i as nat).is_some(),
        decreases stream.len() - i,
    {
        let ghost before = Layout {
            blocks: blocks_of(blocks@),
            cur: cur as nat,
            stack: frames_of(stack@),
        };
        let op = decode(stream[i]);
        assert(scan(stream@, (i + 1) as nat) == before.advance(i as nat, op));
        proof {
            lemma_scan_opens(stream@, i as nat);
            lemma_scan_opens(stream@, (i + 1) as nat);
        }
        match op {
            Op::Right => {
                push_step(&mut blocks, cur, Step::Move(1));
            },
            Op::Left => {
                push_step(&mut blocks, cur, Step::Move(-1));
            },
            Op::Inc => {
                push_step(&mut blocks, cur, Step::Add(1));
            },
            Op::Dec => {
                push_step(&mut blocks, cur, Step::Add(-1));
            },
            Op::Output => {
                push_step(&mut blocks, cur, Step::Output);
            },
            Op::Input => {
                push_step(&mut blocks, cur, Step::Input);
            },
            Op::Open => {
                let head = push_block(&mut blocks);
                let exit = push_block(&mut blocks);
                push_step(&mut blocks, cur, Step::Jump(head));
                push_step(&mut blocks, head, Step::BranchIfZero(exit));
                stack.push(OpenLoop { open_at: i, head, exit });
                cur = head;
                proof {
                    let want = before.open_loop(i as nat);
                    assert(blocks_of(blocks@) =~= want.blocks);
                    assert(frames_of(stack@) =~= want.stack);
                }
            },
            Op::Close => {
                if stack.len() == 0 {
                    proof {
                        assert(stray_at(stream@, i as nat));
                        let c = choose|k: nat| stray_at(stream@, k);
                        lemma_stray_unique(stream@, c, i as nat);
                    }
                    return Err(StructuralError::StrayClose { at: i });
                }
                let ghost old_stack = stack@;
                let top = stack.pop().unwrap();
                push_step(&mut blocks, cur, Step::Jump(top.head));
                cur = top.exit;
                proof {
                    let want = before.close_loop();
                    assert(frames_of(old_stack).last() == top@);
                    assert(frames_of(stack@) =~= want.stack);
                }
            },
            Op::Skip => {},
        }
        i = i + 1;
    }
    proof {
        assert forall|k: nat| !stray_at(stream@, k) by {
            if stray_at(stream@, k) {
                lemma_opens_none_stays(stream@, k + 1, stream@.len());
            }
        }
        lemma_scan_opens(stream@, stream@.len());
    }
    if stack.len() > 0 {
        let first = stack[0];
        assert(frames_of(stack@)[0] == first@);
        return Err(StructuralError::UnclosedOpen { at: first.open_at });
    }
    Ok(Program { blocks })
}

} // verus!
