use lejit::jit::{Jit, JitError, JitFunction, JitOp, JitReg};
use lejit::region::{BufferRegion, MemoryRegion};

#[test]
fn allocate_writable_zeroed() {
    let r = BufferRegion::allocate_writable(8);
    assert_eq!(r.buf, vec![0u8; 8]);
    assert!(!r.executable);
}

#[test]
fn copy_fills_prefix_and_keeps_rest() {
    let mut r = BufferRegion::allocate_writable(6);
    assert!(r.copy(&[1, 2, 3]));
    assert_eq!(r.buf, vec![1, 2, 3, 0, 0, 0]);
    assert!(!r.executable);
}

#[test]
fn copy_refuses_oversized_data() {
    let mut r = BufferRegion::allocate_writable(2);
    assert!(!r.copy(&[1, 2, 3]));
    assert_eq!(r.buf, vec![0, 0]);
}

#[test]
fn protect_flips_to_executable() {
    let mut r = BufferRegion::allocate_writable(1);
    assert!(!r.protect());
    assert!(r.executable);
}

#[test]
fn region_loads_compiled_bytes_and_protects() {
    let mut jit = Jit::new();
    let f = JitFunction::new("f".to_string())
        .op(JitOp::Movri(JitReg::R1, 7))
        .end();
    jit.build_function(f).unwrap();
    let code = jit.compile().unwrap();
    let mut region = BufferRegion::allocate_writable(code.len());
    jit.region(&mut region).unwrap();
    assert_eq!(region.buf, code);
    assert!(region.executable);
}

#[test]
fn region_too_small_is_a_mapping_failure() {
    let mut jit = Jit::new();
    let f = JitFunction::new("f".to_string())
        .op(JitOp::Movri(JitReg::R1, 7))
        .end();
    jit.build_function(f).unwrap();
    let mut region = BufferRegion::allocate_writable(2);
    assert_eq!(jit.region(&mut region), Err(JitError::MemoryMappingFailure));
    assert_eq!(region.buf, vec![0, 0]);
    assert!(!region.executable);
}

#[test]
fn region_unresolved_call_leaves_region_untouched() {
    let mut jit = Jit::new();
    let f = JitFunction::new("f".to_string())
        .op(JitOp::Call("ghostly".to_string()))
        .end();
    jit.build_function(f).unwrap();
    let mut region = BufferRegion::allocate_writable(16);
    assert_eq!(jit.region(&mut region), Err(JitError::UnresolvedCallTarget));
    assert_eq!(region.buf, vec![0u8; 16]);
    assert!(!region.executable);
}
