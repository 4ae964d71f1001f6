//! The tape and pointer model: a fixed tape of bytes, a 32-bit pointer into it,
//! and the input and output streams of a run.

use vstd::prelude::*;

verus! {

/// Number of cells on the tape.
pub const TAPE_LEN: usize = 30000;

/// Why a run stopped before its program ended.
#[derive(Clone, Copy, Debug, PartialEq, Eq, Structural)]
pub enum Fault {
    /// A cell was read or written while the pointer was outside the tape.
    /// This is where the library's promises end: the emitted code checks
    /// no bound, so what it does on such a run is undefined, and the model
    /// stops instead of guessing.
    OutOfTape,
    /// Input was asked for after the last input byte had been consumed.
    EndOfInput,
    /// Control was sent to a block that the program does not have.
    NoSuchBlock,
}

/// The mathematical state of a run.
pub struct Machine {
    /// The pointer, a 32-bit two's complement number.
    pub ptr: int,
    /// The tape, `TAPE_LEN` cells.
    pub tape: Seq<u8>,
    /// The input bytes, those consumed and those to come.
    pub input: Seq<u8>,
    /// The number of input bytes consumed so far.
    pub consumed: nat,
    /// The bytes written so far.
    pub output: Seq<u8>,
}

/// The result of one primitive: the next state, or the reason there is none.
pub enum Effect {
    Next(Machine),
    Stop(Fault),
}

/// Brings a sum that left the 32-bit two's complement range by less than one
/// period back into it.
pub open spec fn wrap32(x: int) -> int {
    if x > i32::MAX {
        x - 0x1_0000_0000
    } else if x < i32::MIN {
        x + 0x1_0000_0000
    } else {
        x
    }
}

/// Brings a sum that left the range of a byte by less than one period back
/// into it.
pub open spec fn wrap8(x: int) -> u8 {
    if x > 255 {
        (x - 256) as u8
    } else if x < 0 {
        (x + 256) as u8
    } else {
        x as u8
    }
}

/// The address of a cell relative to the start of the tape: the pointer,
/// zero-extended from 32 bits. A negative pointer becomes a large offset.
pub open spec fn offset_of(ptr: int) -> int {
    if ptr < 0 {
        ptr + 0x1_0000_0000
    } else {
        ptr
    }
}

impl Machine {
    /// A state is well formed when the tape has its full length and the pointer
    /// fits in 32 bits.
    pub open spec fn wf(self) -> bool {
        &&& self.tape.len() == TAPE_LEN
        &&& -0x8000_0000 <= self.ptr < 0x8000_0000
        &&& self.consumed <= self.input.len()
    }

    /// The start of a run: pointer and every cell zero, nothing written.
    pub open spec fn start(input: Seq<u8>) -> Machine {
        Machine {
            ptr: 0,
            tape: Seq::new(TAPE_LEN as nat, |i: int| 0u8),
            input,
            consumed: 0,
            output: Seq::empty(),
        }
    }

    /// Whether the pointer designates a cell of the tape.
    pub open spec fn on_tape(self) -> bool {
        0 <= self.ptr < TAPE_LEN
    }

    /// The cell under the pointer.
    pub open spec fn cell(self) -> u8
        recommends
            self.on_tape(),
    {
        self.tape[self.ptr]
    }

    /// Moves the pointer by `delta`, wrapping at 32 bits; no cell is touched.
    pub open spec fn moved(self, delta: int) -> Machine {
        Machine { ptr: wrap32(self.ptr + delta), ..self }
    }

    /// Adds `delta` to the cell under the pointer, modulo 256.
    pub open spec fn added(self, delta: int) -> Effect {
        if self.on_tape() {
            Effect::Next(
                Machine { tape: self.tape.update(self.ptr, wrap8(self.cell() + delta)), ..self },
            )
        } else {
            Effect::Stop(Fault::OutOfTape)
        }
    }

    /// Appends the cell under the pointer to the output.
    pub open spec fn written(self) -> Effect {
        if self.on_tape() {
            Effect::Next(Machine { output: self.output.push(self.cell()), ..self })
        } else {
            Effect::Stop(Fault::OutOfTape)
        }
    }

    /// Takes the next input byte and stores it in the cell under the pointer.
    /// The input primitive is called before the cell is addressed.
    pub open spec fn read(self) -> Effect {
        if self.consumed >= self.input.len() {
            Effect::Stop(Fault::EndOfInput)
        } else if self.on_tape() {
            Effect::Next(
                Machine {
                    tape: self.tape.update(self.ptr, self.input[self.consumed as int]),
                    consumed: self.consumed + 1,
                    ..self
                },
            )
        } else {
            Effect::Stop(Fault::OutOfTape)
        }
    }
}

/// The state of a run as the interpreters keep it.
pub struct Tape {
    pub ptr: i32,
    pub cells: Vec<u8>,
    pub input: Vec<u8>,
    pub consumed: usize,
    pub output: Vec<u8>,
}

impl View for Tape {
    type V = Machine;

    open spec fn view(&self) -> Machine {
        Machine {
            ptr: self.ptr as int,
            tape: self.cells@,
            input: self.input@,
            consumed: self.consumed as nat,
            output: self.output@,
        }
    }
}

impl Tape {
    /// The tape has its full length, and no more input was consumed than there is.
    pub open spec fn inv(&self) -> bool {
        &&& self.cells.len() == TAPE_LEN
        &&& self.consumed <= self.input.len()
    }

    /// A zeroed tape with the pointer on its first cell.
    pub fn allocate(input: Vec<u8>) -> (t: Tape)
        ensures
            t.inv(),
            t@ == Machine::start(input@),
    {
        let mut cells: Vec<u8> = Vec::new();
        let mut i: usize = 0;
        while i < TAPE_LEN
            invariant
                i <= TAPE_LEN,
                cells.len() == i,
                forall|k: int| 0 <= k < i ==> cells[k] == 0u8,
            decreases TAPE_LEN - i,
        {
            cells.push(0u8);
            i = i + 1;
        }
        let t = Tape { ptr: 0, cells, input, consumed: 0, output: Vec::new() };
        proof {
            assert(t@.tape =~= Machine::start(input@).tape);
            assert(t@.output =~= Seq::<u8>::empty());
        }
        t
    }

    /// The offset of the current cell from the start of the tape. It is
    /// below `TAPE_LEN` exactly when the pointer is on the tape.
    pub fn cell_address(&self) -> (a: u64)
        ensures
            a == offset_of(self.ptr as int),
            a < TAPE_LEN <==> self@.on_tape(),
    {
        if self.ptr >= 0 {
            self.ptr as u64
        } else {
            (self.ptr as i64 + 0x1_0000_0000) as u64
        }
    }

    /// The cell under the pointer, if the pointer is on the tape.
    pub fn read_cell(&self) -> (r: Option<u8>)
        requires
            self.inv(),
        ensures
            r == if self@.on_tape() {
                Some(self@.cell())
            } else {
                None
            },
    {
        let a = self.cell_address();
        if a < TAPE_LEN as u64 {
            Some(self.cells[a as usize])
        } else {
            None
        }
    }

    /// Stores `v` in the cell under the pointer; `false`, and nothing
    /// changed, if the pointer is outside the tape.
    pub fn write_cell(&mut self, v: u8) -> (done: bool)
        requires
            old(self).inv(),
        ensures
            final(self).inv(),
            done == old(self)@.on_tape(),
            done ==> final(self)@ == (Machine {
                tape: old(self)@.tape.update(old(self)@.ptr, v),
                ..old(self)@
            }),
            !done ==> *final(self) == *old(self),
    {
        let a = self.cell_address();
        if a < TAPE_LEN as u64 {
            self.cells.set(a as usize, v);
            true
        } else {
            false
        }
    }

    /// Moves the pointer by `delta`, wrapping at 32 bits.
    pub fn move_pointer(&mut self, delta: i32)
        requires
            old(self).inv(),
        ensures
            final(self).inv(),
            final(self)@ == old(self)@.moved(delta as int),
    {
        self.ptr = self.ptr.wrapping_add(delta);
    }

    /// Adds `delta` to the cell under the pointer, modulo 256.
    pub fn add_to_cell(&mut self, delta: i8) -> (r: Result<(), Fault>)
        requires
            old(self).inv(),
        ensures
            final(self).inv(),
            match r {
                Ok(_) => old(self)@.added(delta as int) == Effect::Next(final(self)@),
                Err(f) => old(self)@.added(delta as int) == Effect::Stop(f) && *final(self) == *old(
                    self,
                ),
            },
    {
        match self.read_cell() {
            Some(c) => {
                let done = self.write_cell(c.wrapping_add_signed(delta));
                Ok(())
            },
            None => Err(Fault::OutOfTape),
        }
    }

    /// Appends the cell under the pointer to the output.
    pub fn output_cell(&mut self) -> (r: Result<(), Fault>)
        requires
            old(self).inv(),
        ensures
            final(self).inv(),
            match r {
                Ok(_) => old(self)@.written() == Effect::Next(final(self)@),
                Err(f) => old(self)@.written() == Effect::Stop(f) && *final(self) == *old(self),
            },
    {
        match self.read_cell() {
            Some(c) => {
                self.output.push(c);
                Ok(())
            },
            None => Err(Fault::OutOfTape),
        }
    }

    /// Why the cell under the pointer cannot be read or written, if it cannot.
    pub fn cell_fault(&self) -> (r: Option<Fault>)
        requires
            self.inv(),
        ensures
            r == if self@.on_tape() {
                None::<Fault>
            } else {
                Some(Fault::OutOfTape)
            },
    {
        match self.read_cell() {
            Some(_) => None,
            None => Some(Fault::OutOfTape),
        }
    }

    /// Why no input byte can be stored in the cell under the pointer, if
    /// none can.
    pub fn input_fault(&self) -> (r: Option<Fault>)
        requires
            self.inv(),
        ensures
            match r {
                Some(f) => self@.read() == Effect::Stop(f),
                None => self@.read() is Next,
            },
    {
        if self.consumed >= self.input.len() {
            Some(Fault::EndOfInput)
        } else {
            self.cell_fault()
        }
    }

    /// Consumes the next input byte and stores it in the cell under the pointer.
    pub fn input_cell(&mut self) -> (r: Result<(), Fault>)
        requires
            old(self).inv(),
        ensures
            final(self).inv(),
            match r {
                Ok(_) => old(self)@.read() == Effect::Next(final(self)@),
                Err(f) => old(self)@.read() == Effect::Stop(f) && *final(self) == *old(self),
            },
    {
        if self.consumed >= self.input.len() {
            return Err(Fault::EndOfInput);
        }
        let b = self.input[self.consumed];
        if self.write_cell(b) {
            self.consumed = self.consumed + 1;
            Ok(())
        } else {
            Err(Fault::OutOfTape)
        }
    }
}

/// How a run ended, as a mathematical value.
pub enum Outcome {
    /// The program ended; the state at its end.
    Halted(Machine),
    /// A primitive could not be carried out; the state before it.
    Faulted(Fault, Machine),
    /// The step budget was used up before either happened; the state in
    /// which the next step would have begun.
    Unfinished(Machine),
}

/// How a run ended.
#[derive(Clone, Copy, Debug, PartialEq, Eq, Structural)]
pub enum Status {
    Halted,
    Faulted(Fault),
    OutOfFuel,
}

/// What a run leaves behind.
pub struct RunResult {
    pub status: Status,
    pub tape: Tape,
}

impl View for RunResult {
    type V = Outcome;

    open spec fn view(&self) -> Outcome {
        match self.status {
            Status::Halted => Outcome::Halted(self.tape@),
            Status::Faulted(f) => Outcome::Faulted(f, self.tape@),
            Status::OutOfFuel => Outcome::Unfinished(self.tape@),
        }
    }
}

} // verus!
