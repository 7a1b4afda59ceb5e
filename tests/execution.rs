use lightbeam::error::TranslateError;
use lightbeam::machine::ExecError;
use lightbeam::{execute_wat, translate, RunError};

/// A module with one function `(param i32 i32) (result i32)` whose body is
/// the instruction bytes `body`, final `end` included.
fn module(body: &[u8]) -> Vec<u8> {
    let mut m = vec![0x00, 0x61, 0x73, 0x6d, 0x01, 0x00, 0x00, 0x00];
    m.extend_from_slice(&[0x01, 0x07, 0x01, 0x60, 0x02, 0x7f, 0x7f, 0x01, 0x7f]);
    m.extend_from_slice(&[0x03, 0x02, 0x01, 0x00]);
    let entry_len = body.len() + 1;
    m.extend_from_slice(&[0x0a, (entry_len + 2) as u8, 0x01, entry_len as u8, 0x00]);
    m.extend_from_slice(body);
    m
}

fn run_body(body: &[u8], a: usize, b: usize) -> usize {
    execute_wat(&module(body), a, b).unwrap()
}

// (func (param i32) (param i32) (result i32) (i32.add (get_local 0) (get_local 1)))
const ADD: &[u8] = &[0x20, 0x00, 0x20, 0x01, 0x6a, 0x0b];

// (func (param i32) (param i32) (result i32) (i32.eq (get_local 0) (get_local 1)))
const EQ: &[u8] = &[0x20, 0x00, 0x20, 0x01, 0x46, 0x0b];

// (if (result i32) (i32.eq (get_local 0) (get_local 1)) (then (get_local 0)) (else (get_local 1)))
const SELECT: &[u8] = &[0x20, 0x00, 0x20, 0x01, 0x46, 0x04, 0x7f, 0x20, 0x00, 0x05, 0x20, 0x01, 0x0b, 0x0b];

#[test]
fn adds() {
    let cases: &[(usize, usize, usize)] = &[(5, 3, 8), (0, 228, 228), (usize::max_value(), 1, 0)];
    for (a, b, expected) in cases {
        assert_eq!(run_body(ADD, *a, *b), *expected);
    }
}

#[test]
fn relop_eq() {
    let cases: &[(usize, usize, usize)] = &[(0, 0, 1), (0, 1, 0), (1, 0, 0), (1, 1, 1), (1312, 1, 0), (1312, 1312, 1)];
    for (a, b, expected) in cases {
        assert_eq!(run_body(EQ, *a, *b), *expected);
    }
}

#[test]
fn block() {
    // (block (result i32) get_local 0)
    let body = [0x02, 0x7f, 0x20, 0x00, 0x0b, 0x0b];
    assert_eq!(run_body(&body, 10, 20), 10);
}

#[test]
fn if_then_else() {
    let cases: &[(usize, usize, usize)] = &[(0, 1, 1), (0, 0, 0), (1, 0, 0), (1, 1, 1), (1312, 1, 1), (1312, 1312, 1312)];
    for (a, b, expected) in cases {
        assert_eq!(run_body(SELECT, *a, *b), *expected, "{}, {}", a, b);
    }
}

#[test]
fn if_without_result() {
    // (if (i32.eq (get_local 0) (get_local 1)) (then (unreachable))) (get_local 0)
    let body = [0x20, 0x00, 0x20, 0x01, 0x46, 0x04, 0x40, 0x00, 0x0b, 0x20, 0x00, 0x0b];
    assert_eq!(run_body(&body, 2, 3), 2);
}

#[test]
fn br_block() {
    // get_local 1 (block (result i32) get_local 0 get_local 0 br 0 unreachable) i32.add
    let body = [0x20, 0x01, 0x02, 0x7f, 0x20, 0x00, 0x20, 0x00, 0x0c, 0x00, 0x00, 0x0b, 0x6a, 0x0b];
    assert_eq!(run_body(&body, 5, 7), 12);
}

#[test]
fn brif_block() {
    // get_local 1 (block (result i32) get_local 0 get_local 0 br_if 0 unreachable) i32.add
    let body = [0x20, 0x01, 0x02, 0x7f, 0x20, 0x00, 0x20, 0x00, 0x0d, 0x00, 0x00, 0x0b, 0x6a, 0x0b];
    assert_eq!(run_body(&body, 5, 7), 12);
}

#[test]
fn brif_block_passthru() {
    // (block (result i32) get_local 1 get_local 0 br_if 0 get_local 1 i32.add)
    let body = [0x02, 0x7f, 0x20, 0x01, 0x20, 0x00, 0x0d, 0x00, 0x20, 0x01, 0x6a, 0x0b, 0x0b];
    assert_eq!(run_body(&body, 0, 3), 6);
}

#[test]
fn add_wraps_at_word_width() {
    assert_eq!(run_body(ADD, usize::MAX, usize::MAX), usize::MAX - 1);
    assert_eq!(run_body(ADD, usize::MAX - 5, 10), 4);
}

#[test]
fn select_on_large_values() {
    assert_eq!(run_body(SELECT, usize::MAX, usize::MAX), usize::MAX);
    assert_eq!(run_body(SELECT, 7, 9), 9);
}

#[test]
fn translating_twice_gives_the_same_results() {
    let wasm = module(SELECT);
    let first = translate(&wasm).unwrap();
    let second = translate(&wasm).unwrap();
    for (a, b) in [(0usize, 0usize), (4, 4), (4, 5), (1312, 1)] {
        assert_eq!(first.execute_func(0, a, b), second.execute_func(0, a, b));
    }
}

#[test]
fn branch_if_taken_carries_value() {
    // With a nonzero condition the passthrough block yields local 1 alone.
    let body = [0x02, 0x7f, 0x20, 0x01, 0x20, 0x00, 0x0d, 0x00, 0x20, 0x01, 0x6a, 0x0b, 0x0b];
    assert_eq!(run_body(&body, 1, 3), 3);
}

#[test]
fn branch_if_moves_carried_value() {
    // get_local 1 (block (result i32) get_local 0 get_local 1 get_local 0 br_if 0 i32.add) i32.add
    let body = [
        0x20, 0x01, 0x02, 0x7f, 0x20, 0x00, 0x20, 0x01, 0x20, 0x00, 0x0d, 0x00, 0x6a, 0x0b, 0x6a, 0x0b,
    ];
    assert_eq!(run_body(&body, 2, 5), 10);
    assert_eq!(run_body(&body, 0, 5), 10);
}

#[test]
fn multi_byte_local_index() {
    // get_local with index 1 written in two LEB128 bytes.
    let body = [0x20, 0x81, 0x00, 0x0b];
    assert_eq!(run_body(&body, 4, 9), 9);
}

#[test]
fn unreachable_traps() {
    let body = [0x00, 0x20, 0x00, 0x0b];
    assert_eq!(execute_wat(&module(&body), 1, 2), Err(RunError::Exec(ExecError::Trap)));
}

#[test]
fn guarded_unreachable_traps_when_taken() {
    let body = [0x20, 0x00, 0x20, 0x01, 0x46, 0x04, 0x40, 0x00, 0x0b, 0x20, 0x00, 0x0b];
    assert_eq!(execute_wat(&module(&body), 3, 3), Err(RunError::Exec(ExecError::Trap)));
}

#[test]
fn missing_function_index() {
    let t = translate(&module(ADD)).unwrap();
    assert_eq!(t.execute_func(1, 1, 2), Err(ExecError::InvalidFunctionIndex));
}

#[test]
fn signature_mismatch() {
    // (func (param i32) (result i32) get_local 0)
    let wasm = vec![
        0x00, 0x61, 0x73, 0x6d, 0x01, 0x00, 0x00, 0x00, 0x01, 0x06, 0x01, 0x60, 0x01, 0x7f, 0x01, 0x7f, 0x03, 0x02,
        0x01, 0x00, 0x0a, 0x06, 0x01, 0x04, 0x00, 0x20, 0x00, 0x0b,
    ];
    let t = translate(&wasm).unwrap();
    assert_eq!(t.execute_func(0, 1, 2), Err(ExecError::SignatureMismatch));
}

#[test]
fn declared_locals_start_at_zero() {
    // (func (param i32 i32) (result i32) (local i32) get_local 2)
    let wasm = vec![
        0x00, 0x61, 0x73, 0x6d, 0x01, 0x00, 0x00, 0x00, 0x01, 0x07, 0x01, 0x60, 0x02, 0x7f, 0x7f, 0x01, 0x7f, 0x03,
        0x02, 0x01, 0x00, 0x0a, 0x08, 0x01, 0x06, 0x01, 0x01, 0x7f, 0x20, 0x02, 0x0b,
    ];
    assert_eq!(execute_wat(&wasm, 8, 9), Ok(0));
}

#[test]
fn bad_header_is_malformed() {
    assert!(matches!(translate(&[0x00, 0x61, 0x73]), Err(TranslateError::MalformedInput)));
    let mut wasm = module(ADD);
    wasm[1] = 0x62;
    assert!(matches!(translate(&wasm), Err(TranslateError::MalformedInput)));
}

#[test]
fn truncated_section_is_malformed() {
    let wasm = module(ADD);
    assert!(matches!(translate(&wasm[..wasm.len() - 1]), Err(TranslateError::MalformedInput)));
}

#[test]
fn unknown_opcode_is_rejected() {
    // i32.sub
    let body = [0x20, 0x00, 0x20, 0x01, 0x6b, 0x0b];
    assert_eq!(execute_wat(&module(&body), 1, 2), Err(RunError::Translate(TranslateError::UnsupportedOpcode)));
}

#[test]
fn missing_operand_is_underflow() {
    let body = [0x20, 0x00, 0x6a, 0x0b];
    assert_eq!(execute_wat(&module(&body), 1, 2), Err(RunError::Translate(TranslateError::StackUnderflow)));
}

#[test]
fn export_section_is_unsupported() {
    let mut wasm = module(ADD);
    wasm.extend_from_slice(&[0x07, 0x05, 0x01, 0x01, 0x66, 0x00, 0x00]);
    assert!(matches!(translate(&wasm), Err(TranslateError::UnsupportedFeature)));
}

#[test]
fn i64_block_type_is_unsupported() {
    let body = [0x02, 0x7e, 0x20, 0x00, 0x0b, 0x0b];
    assert_eq!(execute_wat(&module(&body), 1, 2), Err(RunError::Translate(TranslateError::UnsupportedFeature)));
}

#[test]
fn unterminated_body_is_malformed() {
    let body = [0x20, 0x00];
    assert_eq!(execute_wat(&module(&body), 1, 2), Err(RunError::Translate(TranslateError::MalformedInput)));
}

#[test]
fn branch_sum_wraps() {
    let body = [0x20, 0x01, 0x02, 0x7f, 0x20, 0x00, 0x20, 0x00, 0x0c, 0x00, 0x00, 0x0b, 0x6a, 0x0b];
    assert_eq!(run_body(&body, usize::MAX, 1), 0);
    assert_eq!(run_body(&body, 0, 0), 0);
}

#[test]
fn block_ignores_second_parameter() {
    let body = [0x02, 0x7f, 0x20, 0x00, 0x0b, 0x0b];
    assert_eq!(run_body(&body, 0, usize::MAX), 0);
    assert_eq!(run_body(&body, 77, 1), 77);
}

#[test]
fn call_is_unsupported_feature() {
    // call 0
    let body = [0x10, 0x00, 0x0b];
    assert_eq!(execute_wat(&module(&body), 1, 2), Err(RunError::Translate(TranslateError::UnsupportedFeature)));
}

#[test]
fn branch_if_fall_through_traps() {
    // get_local 1 (block (result i32) get_local 0 get_local 0 br_if 0 unreachable) i32.add
    let body = [0x20, 0x01, 0x02, 0x7f, 0x20, 0x00, 0x20, 0x00, 0x0d, 0x00, 0x00, 0x0b, 0x6a, 0x0b];
    assert_eq!(execute_wat(&module(&body), 0, 7), Err(RunError::Exec(ExecError::Trap)));
}

#[test]
fn first_failing_function_decides_the_error() {
    // Two functions of the same signature: the first underflows, the
    // second branches to a missing label.
    let wasm = vec![
        0x00, 0x61, 0x73, 0x6d, 0x01, 0x00, 0x00, 0x00, 0x01, 0x07, 0x01, 0x60, 0x02, 0x7f, 0x7f, 0x01, 0x7f, 0x03,
        0x03, 0x02, 0x00, 0x00, 0x0a, 0x0c, 0x02, 0x05, 0x00, 0x20, 0x00, 0x6a, 0x0b, 0x04, 0x00, 0x0c, 0x05, 0x0b,
    ];
    assert!(matches!(translate(&wasm), Err(TranslateError::StackUnderflow)));
}
