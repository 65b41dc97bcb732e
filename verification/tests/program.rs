use lejit::jit::{Jit, JitError, JitFunction, JitOp, JitReg};

fn build_three_function_program() -> Jit {
    let mut jit = Jit::new();
    let add_four = JitFunction::new("add_four".to_string())
        .op(JitOp::Movrr(JitReg::R1, JitReg::R2))
        .op(JitOp::Addri(JitReg::R1, 4))
        .op(JitOp::Call("sub_four".to_string()))
        .end();
    jit.build_function(add_four).unwrap();
    let sub_four = JitFunction::new("sub_four".to_string())
        .op(JitOp::Movrr(JitReg::R1, JitReg::R2))
        .op(JitOp::Subri(JitReg::R1, 4))
        .op(JitOp::Call("random_stuff".to_string()))
        .end();
    jit.build_function(sub_four).unwrap();
    let random_stuff = JitFunction::new("random_stuff".to_string())
        .op(JitOp::Subri(JitReg::R1, 7))
        .op(JitOp::Addri(JitReg::R1, 1000000000))
        .op(JitOp::Subri(JitReg::R1, 500000000))
        .op(JitOp::Movri(JitReg::R1, 1))
        .op(JitOp::Movri(JitReg::R1, 10000))
        .op(JitOp::Movri(JitReg::R1, 1000000000000))
        .end();
    jit.build_function(random_stuff).unwrap();
    jit
}

#[test]
fn builder_tracks_predicted_length() {
    let f = JitFunction::new("f".to_string())
        .op(JitOp::Movrr(JitReg::R1, JitReg::R2))
        .op(JitOp::Addri(JitReg::R1, 4))
        .op(JitOp::Call("g".to_string()))
        .end();
    // 3 (mov) + 4 (add) + 5 (call) + 1 (ret)
    assert_eq!(f.len(), 13);
    assert_eq!(f.ops.len(), 4);
    assert!(f.supported);
}

#[test]
fn layout_assigns_consecutive_base_offsets() {
    let jit = build_three_function_program();
    let add = jit.find_function(&"add_four".to_string()).unwrap();
    let sub = jit.find_function(&"sub_four".to_string()).unwrap();
    let rand = jit.find_function(&"random_stuff".to_string()).unwrap();
    assert_eq!(add.label.pos, 0);
    assert_eq!(add.len(), 13);
    assert_eq!(sub.label.pos, 13);
    assert_eq!(sub.len(), 13);
    assert_eq!(rand.label.pos, 26);
    assert_eq!(rand.len(), 39);
    assert_eq!(sub.label.pos, add.label.pos + add.len());
    assert_eq!(rand.label.pos, sub.label.pos + sub.len());
}

#[test]
fn find_function_is_exact_match() {
    let jit = build_three_function_program();
    assert!(jit.find_function(&"add_four".to_string()).is_some());
    assert!(jit.find_function(&"add_fou".to_string()).is_none());
    assert!(jit.find_function(&"add_four ".to_string()).is_none());
    assert!(jit.find_function(&"".to_string()).is_none());
}

#[test]
fn compile_three_function_scenario_bytes() {
    let jit = build_three_function_program();
    let code = jit.compile().unwrap();
    let expected: Vec<u8> = vec![
        // add_four, base 0
        0x48, 0x89, 0xf8, // mov rax <- rdi
        0x48, 0x83, 0xc0, 0x04, // add rax, 4
        0xe8, 0x01, 0x00, 0x00, 0x00, // call sub_four (13 - (7 + 5))
        0xc3, // ret
        // sub_four, base 13
        0x48, 0x89, 0xf8, // mov rax <- rdi
        0x48, 0x83, 0xe8, 0x04, // sub rax, 4
        0xe8, 0x01, 0x00, 0x00, 0x00, // call random_stuff (26 - (20 + 5))
        0xc3, // ret
        // random_stuff, base 26
        0x48, 0x83, 0xe8, 0x07, // sub rax, 7
        0x48, 0x81, 0xc0, 0x00, 0xca, 0x9a, 0x3b, // add rax, 1000000000
        0x48, 0x81, 0xe8, 0x00, 0x65, 0xcd, 0x1d, // sub rax, 500000000
        0xb8, 0x01, 0x00, 0x00, 0x00, // mov rax <- 1
        0xb8, 0x10, 0x27, 0x00, 0x00, // mov rax <- 10000
        0x48, 0xb8, 0x00, 0x10, 0xa5, 0xd4, 0xe8, 0x00, 0x00, 0x00, // mov rax <- 10^12
        0xc3, // ret
    ];
    assert_eq!(code.len(), 65);
    assert_eq!(code, expected);
}

#[test]
fn compiled_buffer_length_equals_layout_total() {
    let jit = build_three_function_program();
    let code = jit.compile().unwrap();
    let last = jit.find_function(&"random_stuff".to_string()).unwrap();
    assert_eq!(code.len(), last.label.pos + last.len());
}

#[test]
fn backward_call_gets_no_adjustment() {
    // A knowingly kept asymmetry: only forward references subtract the
    // call instruction's own five bytes.
    let mut jit = Jit::new();
    let first = JitFunction::new("first".to_string())
        .op(JitOp::Movri(JitReg::R1, 1))
        .end();
    jit.build_function(first).unwrap();
    let second = JitFunction::new("second".to_string())
        .op(JitOp::Call("first".to_string()))
        .end();
    jit.build_function(second).unwrap();
    let code = jit.compile().unwrap();
    let expected: Vec<u8> = vec![
        0xb8, 0x01, 0x00, 0x00, 0x00, // mov rax <- 1
        0xc3, // ret
        // second, base 6; displacement 0 - 6 = -6, two's complement
        0xe8, 0xfa, 0xff, 0xff, 0xff, // call first
        0xc3, // ret
    ];
    assert_eq!(code, expected);
}

#[test]
fn layout_handles_variable_length_synthesized_sequences() {
    let mut jit = Jit::new();
    let scaled = JitFunction::new("scaled".to_string())
        .op(JitOp::Mulri(JitReg::R3, 300))
        .end();
    jit.build_function(scaled).unwrap();
    let driver = JitFunction::new("driver".to_string())
        .op(JitOp::Call("scaled".to_string()))
        .op(JitOp::Divri(JitReg::R1, 7))
        .end();
    jit.build_function(driver).unwrap();
    assert_eq!(jit.find_function(&"scaled".to_string()).unwrap().len(), 24);
    assert_eq!(jit.find_function(&"driver".to_string()).unwrap().label.pos, 24);
    let code = jit.compile().unwrap();
    let expected: Vec<u8> = vec![
        // scaled, base 0: multiply rsi by an immediate via the scratch spill
        0x51, 0xb9, 0x2c, 0x01, 0x00, 0x00, 0x50, 0x48, 0x89, 0xf0, 0x56, 0x48, 0x89, 0xce,
        0x48, 0xf7, 0xe6, 0x5e, 0x48, 0x89, 0xc6, 0x58, 0x59, 0xc3,
        // driver, base 24: backward call (displacement -24), then divide
        0xe8, 0xe8, 0xff, 0xff, 0xff, 0x56, 0xbe, 0x07, 0x00, 0x00, 0x00, 0x48, 0xf7, 0xf6,
        0x5e, 0xc3,
    ];
    assert_eq!(code, expected);
}

#[test]
fn unresolved_call_target_yields_error_and_no_bytes() {
    let mut jit = Jit::new();
    let f = JitFunction::new("caller".to_string())
        .op(JitOp::Movri(JitReg::R1, 1))
        .op(JitOp::Call("missing".to_string()))
        .end();
    jit.build_function(f).unwrap();
    let r = jit.compile();
    assert_eq!(r, Err(JitError::UnresolvedCallTarget));
}

#[test]
fn unsupported_wide_immediate_rejected_before_layout() {
    let mut jit = Jit::new();
    let f = JitFunction::new("wide".to_string())
        .op(JitOp::Addri(JitReg::R1, 4294967296))
        .end();
    assert!(!f.supported);
    let r = jit.build_function(f);
    assert_eq!(r, Err(JitError::UnsupportedImmediateWidth));
    // Nothing was inserted: the name stays unknown.
    assert!(jit.find_function(&"wide".to_string()).is_none());
}

#[test]
fn empty_program_compiles_to_no_bytes() {
    let jit = Jit::new();
    assert_eq!(jit.compile().unwrap(), Vec::<u8>::new());
}

#[test]
fn sublabels_record_operation_indices() {
    let mut f = JitFunction::new("f".to_string());
    f.label("start".to_string());
    let jo = f.op(JitOp::Movri(JitReg::R1, 1));
    let mut f = jo.end();
    f.label("after".to_string());
    assert_eq!(f.sublabels.len(), 2);
    assert_eq!(f.sublabels[0].name, "start");
    assert_eq!(f.sublabels[0].pos, 0);
    assert_eq!(f.sublabels[1].name, "after");
    assert_eq!(f.sublabels[1].pos, 2);
}
