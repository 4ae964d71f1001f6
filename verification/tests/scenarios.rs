use bf_cranelift::brackets::StructuralError;
use bf_cranelift::interp::{interpret, jump_table};
use bf_cranelift::ir::Step;
use bf_cranelift::ops::{decode, Op};
use bf_cranelift::runner::execute;
use bf_cranelift::tape::{Fault, Status, Tape, TAPE_LEN};
use bf_cranelift::translate::translate;

const HELLO: &str = "+[-[<<[+[--->]-[<<<]]]>>>-]>-.---.>..>.<<<<-.<+.>>>>>.>.<<.<-.";

fn nested(depth: usize) -> Vec<u8> {
    let mut stream = vec![b'['; depth];
    stream.push(b'+');
    stream.extend(vec![b']'; depth]);
    stream
}

#[test]
fn hello_world_runs_after_translation() {
    let program = translate(HELLO.as_bytes()).unwrap();
    let result = execute(&program, Vec::new(), 10_000_000);
    assert_eq!(result.status, Status::Halted);
    assert_eq!(result.tape.output, b"hello world".to_vec());
}

#[test]
fn hello_world_agrees_with_the_reference_interpreter() {
    let reference = interpret(HELLO.as_bytes(), Vec::new(), 10_623).unwrap();
    assert_eq!(reference.status, Status::Halted);
    let program = translate(HELLO.as_bytes()).unwrap();
    let result = execute(&program, Vec::new(), 2 * 10_623 + 1);
    assert_eq!(result.status, Status::Halted);
    assert_eq!(result.tape.output, reference.tape.output);
    assert_eq!(result.tape.cells, reference.tape.cells);
    assert_eq!(result.tape.ptr, reference.tape.ptr);
}

#[test]
fn hello_world_needs_all_its_fuel() {
    let short = interpret(HELLO.as_bytes(), Vec::new(), 10_622).unwrap();
    assert_eq!(short.status, Status::OutOfFuel);
}

#[test]
fn moves_emit_no_memory_access() {
    let program = translate(b">><>").unwrap();
    assert_eq!(program.blocks.len(), 1);
    assert_eq!(
        program.blocks[0],
        vec![Step::Move(1), Step::Move(1), Step::Move(-1), Step::Move(1)]
    );
    let result = execute(&program, Vec::new(), 4);
    assert_eq!(result.status, Status::Halted);
    assert_eq!(result.tape.ptr, 2);
    assert_eq!(result.tape.cells, vec![0u8; TAPE_LEN]);
}

#[test]
fn moves_are_not_clamped_at_zero() {
    let program = translate(b"<<<").unwrap();
    let result = execute(&program, Vec::new(), 3);
    assert_eq!(result.status, Status::Halted);
    assert_eq!(result.tape.ptr, -3);
}

#[test]
fn arithmetic_and_loops_agree_with_the_reference_interpreter() {
    let stream = b"+++[-]++[[-]+-]+++++[-[-]]--";
    let reference = interpret(stream, Vec::new(), 1000).unwrap();
    let program = translate(stream).unwrap();
    let result = execute(&program, Vec::new(), 2001);
    assert_eq!(reference.status, Status::Halted);
    assert_eq!(result.status, Status::Halted);
    assert_eq!(result.tape.cells, reference.tape.cells);
    assert_eq!(result.tape.cells[0], 254);
}

#[test]
fn clear_loop_zeroes_the_cell_and_nothing_else() {
    let program = translate(b"+++>+++++>++<[-]").unwrap();
    let result = execute(&program, Vec::new(), 1000);
    assert_eq!(result.status, Status::Halted);
    assert_eq!(result.tape.cells[0], 3);
    assert_eq!(result.tape.cells[1], 0);
    assert_eq!(result.tape.cells[2], 2);
    assert_eq!(result.tape.ptr, 1);
    assert!(result.tape.cells[3..].iter().all(|c| *c == 0));
}

#[test]
fn clear_loop_takes_three_steps_for_each_count() {
    let program = translate(b"[-]").unwrap();
    assert_eq!(
        program.blocks,
        vec![
            vec![Step::Jump(1)],
            vec![Step::BranchIfZero(2), Step::Add(-1), Step::Jump(1)],
            vec![],
        ]
    );
    let program = translate(b"+++++[-]").unwrap();
    assert_eq!(execute(&program, Vec::new(), 5 + 3 * 5 + 2).status, Status::Halted);
    assert_eq!(execute(&program, Vec::new(), 5 + 3 * 5 + 1).status, Status::OutOfFuel);
}

#[test]
fn loop_on_a_zero_cell_is_skipped() {
    let program = translate(b"[+]").unwrap();
    let result = execute(&program, Vec::new(), 2);
    assert_eq!(result.status, Status::Halted);
    assert_eq!(result.tape.cells, vec![0u8; TAPE_LEN]);
    let reference = interpret(b"[+]", Vec::new(), 1).unwrap();
    assert_eq!(reference.status, Status::Halted);
    assert_eq!(reference.tape.cells[0], 0);
}

#[test]
fn input_then_output_echoes_every_byte() {
    let program = translate(b",.").unwrap();
    for byte in 0..=255u8 {
        let result = execute(&program, vec![byte, 7], 2);
        assert_eq!(result.status, Status::Halted);
        assert_eq!(result.tape.output, vec![byte]);
        assert_eq!(result.tape.cells[0], byte);
        assert_eq!(result.tape.consumed, 1);
    }
}

#[test]
fn input_overwrites_the_cell() {
    let program = translate(b"+++,").unwrap();
    let result = execute(&program, vec![9], 10);
    assert_eq!(result.tape.cells[0], 9);
}

#[test]
fn three_hundred_nested_loops_translate() {
    let stream = nested(300);
    let program = translate(&stream).unwrap();
    assert_eq!(program.blocks.len(), 601);
    let increments = program
        .blocks
        .iter()
        .flatten()
        .filter(|s| **s == Step::Add(1))
        .count();
    assert_eq!(increments, 1);
    assert_eq!(program.blocks[599], vec![Step::BranchIfZero(600), Step::Add(1), Step::Jump(599)]);
    for k in 1..300 {
        assert_eq!(
            program.blocks[2 * k - 1],
            vec![Step::BranchIfZero(2 * k), Step::Jump(2 * k + 1)]
        );
    }
    for k in 2..=300 {
        assert_eq!(program.blocks[2 * k], vec![Step::Jump(2 * k - 3)]);
    }
    assert_eq!(program.blocks[0], vec![Step::Jump(1)]);
    assert_eq!(program.blocks[2], vec![]);
    let result = execute(&program, Vec::new(), 10);
    assert_eq!(result.status, Status::Halted);
    assert_eq!(result.tape.cells[0], 0);
}

#[test]
fn nested_loops_apply_the_increment_once() {
    let mut stream = vec![b'-'];
    stream.extend(nested(300));
    let program = translate(&stream).unwrap();
    let result = execute(&program, Vec::new(), 100_000);
    assert_eq!(result.status, Status::Halted);
    assert_eq!(result.tape.cells[0], 0);
    let reference = interpret(&stream, Vec::new(), 100_000).unwrap();
    assert_eq!(reference.status, Status::Halted);
    assert_eq!(reference.tape.cells, result.tape.cells);
}

#[test]
fn empty_loop_on_a_nonzero_cell_never_ends() {
    let program = translate(b"+[]").unwrap();
    assert_eq!(
        program.blocks,
        vec![
            vec![Step::Add(1), Step::Jump(1)],
            vec![Step::BranchIfZero(2), Step::Jump(1)],
            vec![],
        ]
    );
    assert_eq!(execute(&program, Vec::new(), 100_000).status, Status::OutOfFuel);
    assert_eq!(interpret(b"+[]", Vec::new(), 100_000).unwrap().status, Status::OutOfFuel);
}

#[test]
fn other_characters_are_comments() {
    let program = translate(b"a+ b\n+c").unwrap();
    assert_eq!(program.blocks, vec![vec![Step::Add(1), Step::Add(1)]]);
    let text = "é+";
    assert_eq!(translate(text.as_bytes()).unwrap().blocks, vec![vec![Step::Add(1)]]);
}

#[test]
fn empty_stream_translates_to_one_empty_block() {
    let program = translate(b"").unwrap();
    assert_eq!(program.blocks, vec![Vec::<Step>::new()]);
    assert_eq!(execute(&program, Vec::new(), 0).status, Status::Halted);
}

#[test]
fn stray_close_is_reported_with_its_position() {
    assert_eq!(translate(b"+]").err(), Some(StructuralError::StrayClose { at: 1 }));
    assert_eq!(translate(b"[]][").err(), Some(StructuralError::StrayClose { at: 2 }));
    assert_eq!(interpret(b"[]][", Vec::new(), 10).err(), Some(StructuralError::StrayClose { at: 2 }));
}

#[test]
fn unclosed_open_is_reported_with_the_outermost_position() {
    assert_eq!(translate(b"+[").err(), Some(StructuralError::UnclosedOpen { at: 1 }));
    assert_eq!(translate(b"[][[+]").err(), Some(StructuralError::UnclosedOpen { at: 2 }));
    assert_eq!(translate(b"+[[").err(), Some(StructuralError::UnclosedOpen { at: 1 }));
    assert_eq!(jump_table(b"+[[").err(), Some(StructuralError::UnclosedOpen { at: 1 }));
}

#[test]
fn jump_table_pairs_the_brackets() {
    assert_eq!(jump_table(b"[[]+[]]").unwrap(), vec![6, 2, 1, 0, 5, 4, 0]);
}

#[test]
fn cell_outside_the_tape_is_a_fault() {
    let program = translate(b"<+").unwrap();
    let result = execute(&program, Vec::new(), 10);
    assert_eq!(result.status, Status::Faulted(Fault::OutOfTape));
    assert_eq!(result.tape.ptr, -1);
    let reference = interpret(b"<+", Vec::new(), 10).unwrap();
    assert_eq!(reference.status, Status::Faulted(Fault::OutOfTape));
}

#[test]
fn input_after_the_last_byte_is_a_fault() {
    let program = translate(b",,").unwrap();
    let result = execute(&program, vec![1], 10);
    assert_eq!(result.status, Status::Faulted(Fault::EndOfInput));
    assert_eq!(result.tape.cells[0], 1);
}

#[test]
fn jump_to_a_missing_block_is_a_fault() {
    let program = bf_cranelift::ir::Program { blocks: vec![vec![Step::Jump(5)]] };
    assert_eq!(execute(&program, Vec::new(), 10).status, Status::Faulted(Fault::NoSuchBlock));
}

#[test]
fn cells_wrap_modulo_256() {
    let mut tape = Tape::allocate(Vec::new());
    assert_eq!(tape.add_to_cell(-1), Ok(()));
    assert_eq!(tape.read_cell(), Some(255));
    assert_eq!(tape.add_to_cell(1), Ok(()));
    assert_eq!(tape.read_cell(), Some(0));
    assert_eq!(tape.add_to_cell(127), Ok(()));
    assert_eq!(tape.add_to_cell(127), Ok(()));
    assert_eq!(tape.add_to_cell(3), Ok(()));
    assert_eq!(tape.read_cell(), Some(1));
}

#[test]
fn pointer_wraps_at_32_bits() {
    let mut tape = Tape::allocate(Vec::new());
    tape.move_pointer(i32::MAX);
    tape.move_pointer(1);
    assert_eq!(tape.ptr, i32::MIN);
    tape.move_pointer(-1);
    assert_eq!(tape.ptr, i32::MAX);
}

#[test]
fn cell_address_zero_extends_the_pointer() {
    let mut tape = Tape::allocate(Vec::new());
    assert_eq!(tape.cell_address(), 0);
    tape.move_pointer(29_999);
    assert_eq!(tape.cell_address(), 29_999);
    assert_eq!(tape.read_cell(), Some(0));
    tape.move_pointer(1);
    assert_eq!(tape.read_cell(), None);
    assert!(!tape.write_cell(1));
    tape.move_pointer(-30_001);
    assert_eq!(tape.ptr, -1);
    assert_eq!(tape.cell_address(), 4_294_967_295);
    assert_eq!(tape.read_cell(), None);
    assert_eq!(tape.output_cell(), Err(Fault::OutOfTape));
}

#[test]
fn tape_has_thirty_thousand_zeroed_cells() {
    let tape = Tape::allocate(vec![1, 2]);
    assert_eq!(TAPE_LEN, 30000);
    assert_eq!(tape.cells, vec![0u8; 30000]);
    assert_eq!(tape.ptr, 0);
    assert_eq!(tape.consumed, 0);
}

#[test]
fn decode_knows_the_eight_tokens() {
    assert_eq!(decode(b'>'), Op::Right);
    assert_eq!(decode(b'<'), Op::Left);
    assert_eq!(decode(b'+'), Op::Inc);
    assert_eq!(decode(b'-'), Op::Dec);
    assert_eq!(decode(b'['), Op::Open);
    assert_eq!(decode(b']'), Op::Close);
    assert_eq!(decode(b'.'), Op::Output);
    assert_eq!(decode(b','), Op::Input);
    assert_eq!(decode(b' '), Op::Skip);
    assert_eq!(decode(0), Op::Skip);
    assert_eq!(decode(255), Op::Skip);
}

#[test]
fn a_run_out_of_fuel_keeps_the_state_before_the_next_step() {
    let program = translate(b"+++").unwrap();
    let result = execute(&program, Vec::new(), 1);
    assert_eq!(result.status, Status::OutOfFuel);
    assert_eq!(result.tape.cells[0], 1);
    let reference = interpret(b"+++", Vec::new(), 2).unwrap();
    assert_eq!(reference.status, Status::OutOfFuel);
    assert_eq!(reference.tape.cells[0], 2);
}

#[test]
fn a_fault_is_seen_even_without_fuel() {
    let program = translate(b"<+").unwrap();
    assert_eq!(execute(&program, Vec::new(), 1).status, Status::Faulted(Fault::OutOfTape));
    let program = translate(b",").unwrap();
    assert_eq!(execute(&program, Vec::new(), 0).status, Status::Faulted(Fault::EndOfInput));
    assert_eq!(execute(&program, vec![1], 0).status, Status::OutOfFuel);
}

#[test]
fn faults_are_told_before_they_happen() {
    let mut tape = Tape::allocate(vec![5]);
    assert_eq!(tape.cell_fault(), None);
    assert_eq!(tape.input_fault(), None);
    assert_eq!(tape.input_cell(), Ok(()));
    assert_eq!(tape.input_fault(), Some(Fault::EndOfInput));
    tape.move_pointer(-1);
    assert_eq!(tape.cell_fault(), Some(Fault::OutOfTape));
}
