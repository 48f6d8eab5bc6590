use rvm_front::assembler::{
    assemble, AsmError, ABORT, DEBUG, END, FUN, ILOAD, SLOAD, STORE,
};

#[test]
fn iload_two_byte_big_endian() {
    let out = assemble(b"iload 300\n").expect("assembly should succeed");
    assert_eq!(out, vec![ILOAD, 2, 0x01, 0x2c]);
}

#[test]
fn abort_end_no_separators() {
    let out = assemble(b"abort\nend\n").expect("assembly should succeed");
    assert_eq!(out, vec![ABORT, END]);
}

#[test]
fn sload_takes_rest_of_line_verbatim() {
    let out = assemble(b"sload hello world\n").expect("assembly should succeed");
    let mut expected = vec![SLOAD, 0, 0, 0, 0, 0, 0, 0, 11];
    expected.extend(b"hello world");
    assert_eq!(out, expected);
}

#[test]
fn iload_zero_is_one_zero_byte() {
    let out = assemble(b"iload 0\n").expect("assembly should succeed");
    assert_eq!(out, vec![ILOAD, 1, 0x00]);
}

#[test]
fn iload_negative_two_complement() {
    let out = assemble(b"iload -1\n").expect("assembly should succeed");
    assert_eq!(out, vec![ILOAD, 1, 0xff]);
    let out = assemble(b"iload -129\n").expect("assembly should succeed");
    assert_eq!(out, vec![ILOAD, 2, 0xff, 0x7f]);
}

#[test]
fn iload_accepts_underscores() {
    let out = assemble(b"iload 1_000\n").expect("assembly should succeed");
    assert_eq!(out, vec![ILOAD, 2, 0x03, 0xe8]);
}

#[test]
fn iload_sign_prefix() {
    let out = assemble(b"iload +127\n").expect("assembly should succeed");
    assert_eq!(out, vec![ILOAD, 1, 0x7f]);
    let out = assemble(b"iload -128\n").expect("assembly should succeed");
    assert_eq!(out, vec![ILOAD, 1, 0x80]);
}

#[test]
fn store_has_length_prefix_fun_has_none() {
    let out = assemble(b"store x\nfun f\n").expect("assembly should succeed");
    assert_eq!(out, vec![STORE, 1, b'x', FUN, b'f']);
}

#[test]
fn debug_is_bare_opcode() {
    let out = assemble(b"debug\n").expect("assembly should succeed");
    assert_eq!(out, vec![DEBUG]);
}

#[test]
fn blank_lines_produce_nothing() {
    let out = assemble(b"\n   \nabort\n\t\n").expect("assembly should succeed");
    assert_eq!(out, vec![ABORT]);
}

#[test]
fn final_newline_is_optional() {
    let out = assemble(b"end").expect("assembly should succeed");
    assert_eq!(out, vec![END]);
}

#[test]
fn carriage_returns_are_stripped() {
    let out = assemble(b"abort\r\nend\r\n").expect("assembly should succeed");
    assert_eq!(out, vec![ABORT, END]);
}

#[test]
fn unknown_instruction_is_fatal() {
    assert_eq!(assemble(b"bogus\n"), Err(AsmError::UnknownInstruction));
    assert_eq!(assemble(b"abort now\n"), Err(AsmError::UnknownInstruction));
    assert_eq!(assemble(b"iload 1 2\n"), Err(AsmError::UnknownInstruction));
}

#[test]
fn sload_without_space_is_fatal() {
    assert_eq!(assemble(b"sload"), Err(AsmError::MissingOperand));
}

#[test]
fn sload_after_leading_whitespace_splits_at_first_space() {
    // The payload is everything after the first space byte of the raw line,
    // so an indented sload swallows its own mnemonic text.
    let out = assemble(b" sload x\n").expect("assembly should succeed");
    let mut expected = vec![SLOAD, 0, 0, 0, 0, 0, 0, 0, 7];
    expected.extend(b"sload x");
    assert_eq!(out, expected);
}

#[test]
fn iload_rejects_non_numbers() {
    assert_eq!(assemble(b"iload x\n"), Err(AsmError::InvalidNumber));
    assert_eq!(assemble(b"iload -\n"), Err(AsmError::InvalidNumber));
    assert_eq!(assemble(b"iload _1\n"), Err(AsmError::InvalidNumber));
    assert_eq!(assemble(b"iload 1x\n"), Err(AsmError::InvalidNumber));
}

#[test]
fn iload_operand_over_255_bytes_is_fatal() {
    let mut src = b"iload 1".to_vec();
    src.extend(std::iter::repeat(b'0').take(700));
    src.push(b'\n');
    assert_eq!(assemble(&src), Err(AsmError::OperandTooLong));
}

#[test]
fn store_name_over_255_bytes_is_fatal() {
    let mut src = b"store ".to_vec();
    src.extend(std::iter::repeat(b'n').take(256));
    src.push(b'\n');
    assert_eq!(assemble(&src), Err(AsmError::OperandTooLong));
}

#[test]
fn error_aborts_whole_assembly() {
    assert_eq!(assemble(b"abort\nbogus\nend\n"), Err(AsmError::UnknownInstruction));
}

#[test]
fn program_of_mixed_instructions() {
    let out = assemble(b"fun main\niload 5\nstore v\nend\n").expect("assembly should succeed");
    let mut expected = vec![FUN];
    expected.extend(b"main");
    expected.extend([ILOAD, 1, 5, STORE, 1, b'v', END]);
    assert_eq!(out, expected);
}
