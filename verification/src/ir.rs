//! The translated form: numbered blocks of steps.

use vstd::prelude::*;

verus! {

/// One step of a block, as the translator writes it.
#[derive(Clone, Copy, Debug, PartialEq, Eq, Structural)]
pub enum Step {
    /// Add the number to the pointer.
    Move(i32),
    /// Add the number to the cell under the pointer.
    Add(i8),
    /// Hand the cell under the pointer to the output primitive.
    Output,
    /// Store the result of the input primitive in the cell under the pointer.
    Input,
    /// Go to the start of the block with this number.
    Jump(usize),
    /// Go to the start of the block with this number if the cell under the
    /// pointer is zero; otherwise go on with the next step.
    BranchIfZero(usize),
}

/// A step as a mathematical value.
pub enum StepModel {
    Move(int),
    Add(int),
    Output,
    Input,
    Jump(nat),
    BranchIfZero(nat),
}

impl View for Step {
    type V = StepModel;

    open spec fn view(&self) -> StepModel {
        match *self {
            Step::Move(d) => StepModel::Move(d as int),
            Step::Add(d) => StepModel::Add(d as int),
            Step::Output => StepModel::Output,
            Step::Input => StepModel::Input,
            Step::Jump(t) => StepModel::Jump(t as nat),
            Step::BranchIfZero(t) => StepModel::BranchIfZero(t as nat),
        }
    }
}

/// The steps of one block as mathematical values.
pub open spec fn steps_of(block: Seq<Step>) -> Seq<StepModel> {
    Seq::new(block.len(), |j: int| block[j]@)
}

/// The blocks of a program as mathematical values.
pub open spec fn blocks_of(blocks: Seq<Vec<Step>>) -> Seq<Seq<StepModel>> {
    Seq::new(blocks.len(), |i: int| steps_of(blocks[i]@))
}

/// A translated program. Block 0 is where a run starts; a run ends where it
/// reaches the end of a block.
pub struct Program {
    pub blocks: Vec<Vec<Step>>,
}

impl View for Program {
    type V = Seq<Seq<StepModel>>;

    open spec fn view(&self) -> Seq<Seq<StepModel>> {
        blocks_of(self.blocks@)
    }
}

/// Appends a step to block `b`.
pub fn push_step(blocks: &mut Vec<Vec<Step>>, b: usize, step: Step)
    requires
        b < old(blocks).len(),
    ensures
        final(blocks).len() == old(blocks).len(),
        blocks_of(final(blocks)@) == blocks_of(old(blocks)@).update(
            b as int,
            blocks_of(old(blocks)@)[b as int].push(step@),
        ),
{
    blocks[b].push(step);
    proof {
        let pre = blocks_of(old(blocks)@);
        let post = blocks_of(blocks@);
        assert(post.len() == pre.len());
        assert forall|i: int| 0 <= i < post.len() implies post[i] == pre.update(
            b as int,
            pre[b as int].push(step@),
        )[i] by {
            if i == b {
                assert(post[i] =~= pre[b as int].push(step@));
            } else {
                assert(post[i] =~= pre[i]);
            }
        }
        assert(post =~= pre.update(b as int, pre[b as int].push(step@)));
    }
}

/// Appends an empty block and returns its number.
pub fn push_block(blocks: &mut Vec<Vec<Step>>) -> (b: usize)
    ensures
        b == old(blocks).len(),
        final(blocks).len() == old(blocks).len() + 1,
        blocks_of(final(blocks)@) == blocks_of(old(blocks)@).push(Seq::empty()),
{
    let b = blocks.len();
    blocks.push(Vec::new());
    proof {
        let pre = blocks_of(old(blocks)@);
        let post = blocks_of(blocks@);
        assert forall|i: int| 0 <= i < post.len() implies post[i] == pre.push(Seq::empty())[i] by {
            if i < pre.len() {
                assert(post[i] =~= pre[i]);
            } else {
                assert(post[i] =~= Seq::<StepModel>::empty());
            }
        }
        assert(post =~= pre.push(Seq::empty()));
    }
    b
}

} // verus!
