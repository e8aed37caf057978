use corewar::assembler::read_champion;
use corewar::compiler::{compile_champion, CompileError};
use corewar::header::Header;
use corewar::{CHAMP_MAX_SIZE, HEADER_SIZE};

fn compile_source(src: &str) -> Result<Vec<u8>, CompileError> {
    let champ = read_champion(src).expect("champion should assemble");
    compile_champion(&champ)
}

#[test]
fn compiled_header_carries_name_comment_and_size() {
    // live %1 takes 5 bytes, zjmp %5 takes 3: the code section is 8 bytes
    let bytes = compile_source(".name \"zealot\"\n.comment \"charge\"\nlive %1\nzjmp %5\n")
        .expect("should compile");
    assert_eq!(bytes.len(), HEADER_SIZE + 8);
    // magic, big-endian
    assert_eq!(&bytes[0..4], &[0x00, 0xEA, 0x83, 0xF3]);
    // null-padded name
    assert_eq!(&bytes[4..10], b"zealot");
    assert_eq!(bytes[10], 0);
    assert_eq!(bytes[132], 0);
    // code size, big-endian
    assert_eq!(&bytes[133..137], &[0, 0, 0, 8]);
    // null-padded comment
    assert_eq!(&bytes[137..143], b"charge");
    assert_eq!(bytes[143], 0);
    // the code itself
    assert_eq!(&bytes[HEADER_SIZE..], &[1, 0, 0, 0, 1, 9, 0, 5]);
}

#[test]
fn encodes_operand_type_byte_and_operands() {
    // ld %7, r3: opcode 2, operand-type byte 10 01 00 00, 4-byte direct, register
    let bytes = compile_source(".name \"n\"\n.comment \"c\"\nld %7, r3\n").expect("should compile");
    assert_eq!(&bytes[HEADER_SIZE..], &[2, 0b1001_0000, 0, 0, 0, 7, 3]);
}

#[test]
fn resolves_forward_and_backward_labels() {
    // zjmp sits at 0, target sits at 3 (after the 3-byte zjmp): delta +3;
    // the final zjmp sits at 6 and refers back to 0: delta -6
    let bytes = compile_source(
        ".name \"n\"\n.comment \"c\"\nstart: zjmp %:after\nafter: aff r1\nzjmp %:start\n",
    )
    .expect("should compile");
    assert_eq!(
        &bytes[HEADER_SIZE..],
        &[9, 0, 3, 16, 0b0100_0000, 1, 9, 0xFF, 0xFA]
    );
}

#[test]
fn duplicate_label_is_reported() {
    assert!(matches!(
        compile_source(".name \"n\"\n.comment \"c\"\nhere:\nhere:\n"),
        Err(CompileError::DuplicateLabel(l)) if l == "here"
    ));
}

#[test]
fn missing_label_is_reported() {
    assert!(matches!(
        compile_source(".name \"n\"\n.comment \"c\"\nlive %:nowhere\n"),
        Err(CompileError::MissingLabel(l)) if l == "nowhere"
    ));
}

#[test]
fn over_long_name_is_reported() {
    let src = format!(".name \"{}\"\n.comment \"c\"\n", "a".repeat(129));
    assert!(matches!(
        compile_source(&src),
        Err(CompileError::ProgramNameTooLong(129))
    ));
}

#[test]
fn over_long_comment_is_reported() {
    let src = format!(".name \"n\"\n.comment \"{}\"\n", "b".repeat(2049));
    assert!(matches!(
        compile_source(&src),
        Err(CompileError::ProgramCommentTooLong(2049))
    ));
}

#[test]
fn over_long_program_is_reported() {
    let mut src = String::from(".name \"n\"\n.comment \"c\"\n.code");
    for _ in 0..(CHAMP_MAX_SIZE + 1) {
        src.push_str(" 1");
    }
    src.push('\n');
    assert!(matches!(
        compile_source(&src),
        Err(CompileError::ProgramTooLong(x)) if x == CHAMP_MAX_SIZE + 1
    ));
}

#[test]
fn header_bytes_round_trip() {
    let bytes = compile_source(".name \"echo\"\n.comment \"back\"\nlive %1\n")
        .expect("should compile");
    let header = Header::from_bytes(&bytes);
    assert_eq!(header.magic, 0x00EA_83F3);
    assert_eq!(header.prog_size, 5);
    assert_eq!(header.name(), "echo");
    assert_eq!(header.comment(), "back");
}

#[test]
fn multibyte_text_survives_the_header() {
    let bytes = compile_source(".name \"h\u{e9}ros\"\n.comment \"\u{e9}p\u{e9}e\"\nlive %1\n")
        .expect("should compile");
    let header = Header::from_bytes(&bytes);
    assert_eq!(header.name(), "h\u{e9}ros");
    assert_eq!(header.comment(), "\u{e9}p\u{e9}e");
}

#[test]
fn negative_direct_encodes_two_complement() {
    // live's direct is 4 bytes wide
    let bytes =
        compile_source(".name \"n\"\n.comment \"c\"\nlive %-2\n").expect("should compile");
    assert_eq!(&bytes[HEADER_SIZE..], &[1, 0xFF, 0xFF, 0xFF, 0xFE]);
}
