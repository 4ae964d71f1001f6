//! The meaning of a translated program: a run, step by step.

use vstd::prelude::*;
use crate::ir::{Step, StepModel, Program};
use crate::tape::{Machine, Effect, Fault, Outcome, Status, RunResult, Tape};

verus! {

/// A point of a run: the step that comes next, and the state.
pub struct Config {
    pub block: nat,
    pub offset: nat,
    pub m: Machine,
}

/// What one step leads to.
pub enum Progress {
    /// The run goes on from this point.
    Go(Config),
    /// The end of a block was reached: the run is over.
    Halt,
    /// The step cannot be carried out.
    Stop(Fault),
}

/// The point reached from `c` with state `e`, one step further in the block.
pub open spec fn onward(c: Config, e: Effect) -> Progress {
    match e {
        Effect::Next(m) => Progress::Go(Config { block: c.block, offset: c.offset + 1, m }),
        Effect::Stop(f) => Progress::Stop(f),
    }
}

/// One step of program `p` at point `c`.
pub open spec fn step(p: Seq<Seq<StepModel>>, c: Config) -> Progress {
    if c.block >= p.len() {
        Progress::Stop(Fault::NoSuchBlock)
    } else if c.offset >= p[c.block as int].len() {
        Progress::Halt
    } else {
        match p[c.block as int][c.offset as int] {
            StepModel::Move(d) => onward(c, Effect::Next(c.m.moved(d))),
            StepModel::Add(d) => onward(c, c.m.added(d)),
            StepModel::Output => onward(c, c.m.written()),
            StepModel::Input => onward(c, c.m.read()),
            StepModel::Jump(t) => Progress::Go(Config { block: t, offset: 0, m: c.m }),
            StepModel::BranchIfZero(t) => if !c.m.on_tape() {
                Progress::Stop(Fault::OutOfTape)
            } else if c.m.cell() == 0 {
                Progress::Go(Config { block: t, offset: 0, m: c.m })
            } else {
                Progress::Go(Config { block: c.block, offset: c.offset + 1, m: c.m })
            },
        }
    }
}

/// The run of `p` from `c` that takes at most `fuel` steps.
pub open spec fn run(p: Seq<Seq<StepModel>>, c: Config, fuel: nat) -> Outcome
    decreases fuel,
{
    match step(p, c) {
        Progress::Halt => Outcome::Halted(c.m),
        Progress::Stop(f) => Outcome::Faulted(f, c.m),
        Progress::Go(next) => if fuel == 0 {
            Outcome::Unfinished(c.m)
        } else {
            run(p, next, (fuel - 1) as nat)
        },
    }
}

/// The point at which every run starts.
pub open spec fn entry(input: Seq<u8>) -> Config {
    Config { block: 0, offset: 0, m: Machine::start(input) }
}

/// Runs `program` on `input` for at most `fuel` steps.
pub fn execute(program: &Program, input: Vec<u8>, fuel: u64) -> (r: RunResult)
    ensures
        r.tape.inv(),
        r@ == run(program@, entry(input@), fuel as nat),
{
    let mut tape = Tape::allocate(input);
    let mut block: usize = 0;
    let mut offset: usize = 0;
    let mut left: u64 = fuel;
    loop
        invariant
            tape.inv(),
            run(program@, entry(input@), fuel as nat) == run(
                program@,
                Config { block: block as nat, offset: offset as nat, m: tape@ },
                left as nat,
            ),
        decreases left,
    {
        let ghost c = Config { block: block as nat, offset: offset as nat, m: tape@ };
        if block >= program.blocks.len() {
            return RunResult { status: Status::Faulted(Fault::NoSuchBlock), tape };
        }
        if offset >= program.blocks[block].len() {
            return RunResult { status: Status::Halted, tape };
        }
        let s = program.blocks[block][offset];
        assert(program@[block as int][offset as int] == s@);
        if left == 0 {
            let blocked = match s {
                Step::Move(_) => None,
                Step::Jump(_) => None,
                Step::Input => tape.input_fault(),
                _ => tape.cell_fault(),
            };
            let status = match blocked {
                Some(f) => Status::Faulted(f),
                None => Status::OutOfFuel,
            };
            return RunResult { status, tape };
        }
        let mut next_block = block;
        let mut next_offset = offset + 1;
        let r = match s {
            Step::Move(d) => {
                tape.move_pointer(d);
                Ok(())
            },
            Step::Add(d) => tape.add_to_cell(d),
            Step::Output => tape.output_cell(),
            Step::Input => tape.input_cell(),
            Step::Jump(t) => {
                next_block = t;
                next_offset = 0;
                Ok(())
            },
            Step::BranchIfZero(t) => match tape.read_cell() {
                None => Err(Fault::OutOfTape),
                Some(v) => {
                    if v == 0 {
                        next_block = t;
                        next_offset = 0;
                    }
                    Ok(())
                },
            },
        };
        match r {
            Err(f) => {
                return RunResult { status: Status::Faulted(f), tape };
            },
            Ok(_) => {},
        }
        left = left - 1;
        block = next_block;
        offset = next_offset;
    }
}

} // verus!
