use bf_cranelift::emit::{begin, emit, emit_return, holds_input, EmitError};
use bf_cranelift::brackets::StructuralError;
use cranelift_codegen::entity::EntityRef;
use cranelift_codegen::ir::types::{I32, I8};
use cranelift_codegen::ir::{AbiParam, ExtFuncData, ExternalName, Function, Signature};
use cranelift_codegen::isa::CallConv;
use cranelift_codegen::settings;
use cranelift_codegen::verifier::verify_function;
use cranelift_frontend::{FunctionBuilder, FunctionBuilderContext, Variable};

/// Builds the function `main` around the emitted stream, as a driver would,
/// and returns it with the emitter's verdict.
fn build(stream: &[u8]) -> (Function, Result<(), EmitError>) {
    build_with(stream, true)
}

/// The same, with an input primitive that returns a byte or returns nothing.
fn build_with(stream: &[u8], input_returns: bool) -> (Function, Result<(), EmitError>) {
    let mut signature = Signature::new(CallConv::SystemV);
    signature.returns.push(AbiParam::new(I32));
    let mut function = Function::with_name_signature(ExternalName::user(0, 0), signature);
    let mut context = FunctionBuilderContext::new();
    let verdict;
    {
        let mut builder = FunctionBuilder::new(&mut function, &mut context);
        let mut putchar_signature = Signature::new(CallConv::SystemV);
        putchar_signature.params.push(AbiParam::new(I8));
        let putchar_sigref = builder.import_signature(putchar_signature);
        let putchar = builder.import_function(ExtFuncData {
            name: ExternalName::user(0, 1),
            signature: putchar_sigref,
            colocated: false,
        });
        let mut getchar_signature = Signature::new(CallConv::SystemV);
        if input_returns {
            getchar_signature.returns.push(AbiParam::new(I8));
        }
        let getchar_sigref = builder.import_signature(getchar_signature);
        let getchar = builder.import_function(ExtFuncData {
            name: ExternalName::user(0, 2),
            signature: getchar_sigref,
            colocated: false,
        });
        let pointer = Variable::new(0);
        let base = begin(&mut builder, pointer);
        verdict = emit(&mut builder, stream, pointer, base, putchar, getchar);
        if verdict.is_ok() {
            emit_return(&mut builder, pointer, base);
            builder.seal_all_blocks();
            builder.finalize();
        }
    }
    (function, verdict)
}

#[test]
fn emitted_text_of_a_small_stream() {
    let (function, verdict) = build(b"+[-]>,.");
    assert_eq!(verdict, Ok(()));
    let expected = [
        "function u0:0() -> i32 system_v {",
        "    ss0 = explicit_slot 30000",
        "    sig0 = (i8) system_v",
        "    sig1 = () -> i8 system_v",
        "    fn0 = u0:1 sig0",
        "    fn1 = u0:2 sig1",
        "",
        "ebb0:",
        "    v0 = stack_addr.i64 ss0",
        "    v1 = iconst.i32 0x7530",
        "    jump ebb1(v1)",
        "",
        "ebb1(v2: i32):",
        "    brz v2, ebb2",
        "    v3 = iconst.i32 -1",
        "    v4 = iadd v2, v3",
        "    v5 = uextend.i64 v4",
        "    v6 = iadd.i64 v0, v5",
        "    v7 = iconst.i8 0",
        "    store notrap aligned v7, v6",
        "    jump ebb1(v4)",
        "",
        "ebb2:",
        "    v8 = iconst.i32 0",
        "    v14 -> v8",
        "    v24 -> v8",
        "    v9 = uextend.i64 v8",
        "    v10 = iadd.i64 v0, v9",
        "    v11 = load.i8 notrap aligned v10",
        "    v12 = iconst.i8 1",
        "    v13 = iadd v11, v12",
        "    store notrap aligned v13, v10",
        "    jump ebb3",
        "",
        "ebb3:",
        "    v15 = uextend.i64 v14",
        "    v16 = iadd.i64 v0, v15",
        "    v17 = load.i8 notrap aligned v16",
        "    v18 = sextend.i32 v17",
        "    brz v18, ebb4",
        "    v19 = uextend.i64 v14",
        "    v20 = iadd.i64 v0, v19",
        "    v21 = load.i8 notrap aligned v20",
        "    v22 = iconst.i8 -1",
        "    v23 = iadd v21, v22",
        "    store notrap aligned v23, v20",
        "    jump ebb3",
        "",
        "ebb4:",
        "    v25 = iconst.i32 1",
        "    v26 = iadd.i32 v24, v25",
        "    v27 = call fn1()",
        "    v28 = uextend.i64 v26",
        "    v29 = iadd.i64 v0, v28",
        "    store notrap aligned v27, v29",
        "    v30 = uextend.i64 v26",
        "    v31 = iadd.i64 v0, v30",
        "    v32 = load.i8 notrap aligned v31",
        "    call fn0(v32)",
        "    return v26",
        "}",
    ]
    .join("\n")
        + "\n";
    assert_eq!(function.display(None).to_string(), expected);
}

#[test]
fn hello_world_passes_the_cranelift_verifier() {
    let (function, verdict) = build(
        b"+[-[<<[+[--->]-[<<<]]]>>>-]>-.---.>..>.<<<<-.<+.>>>>>.>.<<.<-.",
    );
    assert_eq!(verdict, Ok(()));
    let flags = settings::Flags::new(settings::builder());
    assert!(verify_function(&function, &flags).is_ok());
}

#[test]
fn malformed_stream_emits_nothing() {
    let (function, verdict) = build(b"+[");
    assert_eq!(verdict, Err(EmitError::Structure(StructuralError::UnclosedOpen { at: 1 })));
    let (reference, _) = build(b"]");
    assert_eq!(function.display(None).to_string(), reference.display(None).to_string());
}

#[test]
fn input_primitive_without_result_is_refused() {
    let (function, verdict) = build_with(b"+,", false);
    assert_eq!(verdict, Err(EmitError::InputWithoutResult));
    let (untouched, _) = build_with(b"]", false);
    assert_eq!(function.display(None).to_string(), untouched.display(None).to_string());
    let (_, verdict) = build_with(b"+.[-]", false);
    assert_eq!(verdict, Ok(()));
}

#[test]
fn stray_close_emits_nothing() {
    let (function, verdict) = build(b">>]<");
    assert_eq!(verdict, Err(EmitError::Structure(StructuralError::StrayClose { at: 2 })));
    assert_eq!(function.dfg.num_ebbs(), 3);
    assert_eq!(function.dfg.num_insts(), 12);
}

#[test]
fn each_loop_makes_two_blocks() {
    let (function, verdict) = build(b"[[][]]+[]");
    assert_eq!(verdict, Ok(()));
    assert_eq!(function.dfg.num_ebbs(), 3 + 2 * 4);
    let flags = settings::Flags::new(settings::builder());
    assert!(verify_function(&function, &flags).is_ok());
}

#[test]
fn deeply_nested_loops_pass_the_cranelift_verifier() {
    let mut stream = vec![b'['; 300];
    stream.push(b'+');
    stream.extend(vec![b']'; 300]);
    let (function, verdict) = build(&stream);
    assert_eq!(verdict, Ok(()));
    assert_eq!(function.dfg.num_ebbs(), 603);
    let flags = settings::Flags::new(settings::builder());
    assert!(verify_function(&function, &flags).is_ok());
}

#[test]
fn moves_emit_no_load_and_no_store() {
    let (function, verdict) = build(b"><>>");
    assert_eq!(verdict, Ok(()));
    let text = function.display(None).to_string();
    let after_tape = text.split("ebb2:").nth(1).unwrap();
    assert!(!after_tape.contains("load"));
    assert!(!after_tape.contains("store"));
    assert!(!after_tape.contains("call"));
    assert!(!after_tape.contains("jump"));
    assert_eq!(after_tape.matches("iadd").count(), 4);
}

#[test]
fn the_tape_is_reserved_and_zeroed_before_the_first_token() {
    let (function, verdict) = build(b"");
    assert_eq!(verdict, Ok(()));
    let expected = [
        "function u0:0() -> i32 system_v {",
        "    ss0 = explicit_slot 30000",
        "    sig0 = (i8) system_v",
        "    sig1 = () -> i8 system_v",
        "    fn0 = u0:1 sig0",
        "    fn1 = u0:2 sig1",
        "",
        "ebb0:",
        "    v0 = stack_addr.i64 ss0",
        "    v1 = iconst.i32 0x7530",
        "    jump ebb1(v1)",
        "",
        "ebb1(v2: i32):",
        "    brz v2, ebb2",
        "    v3 = iconst.i32 -1",
        "    v4 = iadd v2, v3",
        "    v5 = uextend.i64 v4",
        "    v6 = iadd.i64 v0, v5",
        "    v7 = iconst.i8 0",
        "    store notrap aligned v7, v6",
        "    jump ebb1(v4)",
        "",
        "ebb2:",
        "    v8 = iconst.i32 0",
        "    return v8",
        "}",
    ]
    .join("\n")
        + "\n";
    assert_eq!(function.display(None).to_string(), expected);
    let flags = settings::Flags::new(settings::builder());
    assert!(verify_function(&function, &flags).is_ok());
}

#[test]
fn holds_input_finds_a_comma() {
    assert!(holds_input(b"+[-],"));
    assert!(holds_input(b","));
    assert!(!holds_input(b"+[-]."));
    assert!(!holds_input(b""));
}

#[test]
fn input_primitive_with_a_result_is_stored() {
    let (function, verdict) = build(b",");
    assert_eq!(verdict, Ok(()));
    let text = function.display(None).to_string();
    let after_tape = text.split("ebb2:").nth(1).unwrap();
    assert!(after_tape.contains("v9 = call fn1()"));
    assert!(after_tape.contains("store notrap aligned v9, v11"));
}
