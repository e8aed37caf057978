use corewar::lexer::Term::{DirectChar, Ident, LabelUse, QuotedString};
use corewar::parser::{
    parse_line,
    ParseError::{
        self, ExpectedButGot, ExpectedButGotEof, ExpectedOneOf, InvalidOpMnemonic,
        InvalidRegisterCount, InvalidRegisterPrefix, RemainingInput, Unexpected,
    },
    ParsedLine::{
        self, ChampionComment, ChampionName, Code, Empty, Label, LabelAndOp, Op,
    },
};
use corewar::types::{
    Direct, Indirect, Register,
    Op::{
        Add, Aff, And, Fork, Ld, Ldi, Lfork, Live, Lld, Lldi, Or, St, Sti, Sub, Xor, Zjmp,
    },
};

fn parse_ok(input: &str) -> ParsedLine {
    parse_line(input).expect("Failed to parse")
}

fn parse_expect_err(input: &str, err: ParseError) {
    assert_eq!(parse_line(input), Err(err))
}

fn parse_test(input: &str, expected: ParsedLine) {
    assert_eq!(parse_ok(input), expected)
}

#[test]
fn parser_empty() {
    parse_test("# nothing to see here", Empty)
}

#[test]
fn champion_name() {
    parse_test(
        r#".name "John Cena" # nice"#,
        ChampionName("John Cena".into()),
    )
}

#[test]
fn champion_comment() {
    parse_test(r#".comment "Amazin""#, ChampionComment("Amazin".into()))
}

#[test]
fn raw_code() {
    parse_test(".code 0x42 13 0d37", Code([0x42, 13, 37].to_vec()))
}

#[test]
fn live() {
    parse_test("live %42", Op(Live(42.into())))
}

#[test]
fn ld() {
    parse_test(
        "ld   %:here,  r6",
        Op(Ld(Direct::Label("here".into()).into(), Register(6))),
    );
    parse_test(
        "ld   :there,  r12",
        Op(Ld(Indirect::Label("there".into()).into(), Register(12))),
    );
}

#[test]
fn st() {
    parse_test("st   r7,  r1", Op(St(Register(7), Register(1).into())));
    parse_test(
        "st   r3,  :nice",
        Op(St(Register(3), Indirect::Label("nice".into()).into())),
    );
}

#[test]
fn add() {
    parse_test("add r3, r6, r10", Op(Add(Register(3), Register(6), Register(10))))
}

#[test]
fn sub() {
    parse_test("sub r2, r1, r13", Op(Sub(Register(2), Register(1), Register(13))))
}

#[test]
fn and() {
    parse_test(
        "and r5, r2, r8",
        Op(And(Register(5).into(), Register(2).into(), Register(8))),
    );
    parse_test(
        "and r3, %1337, r7",
        Op(And(Register(3).into(), Direct::Numeric(1337).into(), Register(7))),
    );
    parse_test(
        "and r14, 13, r11",
        Op(And(Register(14).into(), Indirect::Numeric(13).into(), Register(11))),
    );
    parse_test(
        "and %42, 13, r14",
        Op(And(Direct::Numeric(42).into(), Indirect::Numeric(13).into(), Register(14))),
    );
    parse_test(
        "and %1337, %:foo, r8",
        Op(And(
            Direct::Numeric(1337).into(),
            Direct::Label("foo".into()).into(),
            Register(8),
        )),
    );
    parse_test(
        "and %:bar,:baz,r5",
        Op(And(
            Direct::Label("bar".into()).into(),
            Indirect::Label("baz".into()).into(),
            Register(5),
        )),
    );
    parse_test(
        "and :bar,r1,r8",
        Op(And(
            Indirect::Label("bar".into()).into(),
            Register(1).into(),
            Register(8),
        )),
    );
    parse_test(
        "and 7,%1337,r11",
        Op(And(
            Indirect::Numeric(7).into(),
            Direct::Numeric(1337).into(),
            Register(11),
        )),
    );
    parse_test(
        "and 42,666 ,r12",
        Op(And(
            Indirect::Numeric(42).into(),
            Indirect::Numeric(666).into(),
            Register(12),
        )),
    );
}

#[test]
fn or() {
    parse_test(
        "or r5, r2, r8",
        Op(Or(Register(5).into(), Register(2).into(), Register(8))),
    );
    parse_test(
        "or r3, %1337, r7",
        Op(Or(Register(3).into(), Direct::Numeric(1337).into(), Register(7))),
    );
    parse_test(
        "or r14, 13, r11",
        Op(Or(Register(14).into(), Indirect::Numeric(13).into(), Register(11))),
    );
    parse_test(
        "or %42, 13, r14",
        Op(Or(Direct::Numeric(42).into(), Indirect::Numeric(13).into(), Register(14))),
    );
    parse_test(
        "or %1337, %:foo, r8",
        Op(Or(
            Direct::Numeric(1337).into(),
            Direct::Label("foo".into()).into(),
            Register(8),
        )),
    );
    parse_test(
        "or %:bar,:baz,r5",
        Op(Or(
            Direct::Label("bar".into()).into(),
            Indirect::Label("baz".into()).into(),
            Register(5),
        )),
    );
    parse_test(
        "or :bar,r1,r8",
        Op(Or(
            Indirect::Label("bar".into()).into(),
            Register(1).into(),
            Register(8),
        )),
    );
    parse_test(
        "or 7,%1337,r11",
        Op(Or(
            Indirect::Numeric(7).into(),
            Direct::Numeric(1337).into(),
            Register(11),
        )),
    );
    parse_test(
        "or 42,666 ,r12",
        Op(Or(
            Indirect::Numeric(42).into(),
            Indirect::Numeric(666).into(),
            Register(12),
        )),
    );
}

#[test]
fn xor() {
    parse_test(
        "xor r5, r2, r8",
        Op(Xor(Register(5).into(), Register(2).into(), Register(8))),
    );
    parse_test(
        "xor r3, %1337, r7",
        Op(Xor(Register(3).into(), Direct::Numeric(1337).into(), Register(7))),
    );
    parse_test(
        "xor r14, 13, r11",
        Op(Xor(Register(14).into(), Indirect::Numeric(13).into(), Register(11))),
    );
    parse_test(
        "xor %42, 13, r14",
        Op(Xor(Direct::Numeric(42).into(), Indirect::Numeric(13).into(), Register(14))),
    );
    parse_test(
        "xor %1337, %:foo, r8",
        Op(Xor(
            Direct::Numeric(1337).into(),
            Direct::Label("foo".into()).into(),
            Register(8),
        )),
    );
    parse_test(
        "xor %:bar,:baz,r5",
        Op(Xor(
            Direct::Label("bar".into()).into(),
            Indirect::Label("baz".into()).into(),
            Register(5),
        )),
    );
    parse_test(
        "xor :bar,r1,r8",
        Op(Xor(
            Indirect::Label("bar".into()).into(),
            Register(1).into(),
            Register(8),
        )),
    );
    parse_test(
        "xor 7,%1337,r11",
        Op(Xor(
            Indirect::Numeric(7).into(),
            Direct::Numeric(1337).into(),
            Register(11),
        )),
    );
    parse_test(
        "xor 42,666 ,r12",
        Op(Xor(
            Indirect::Numeric(42).into(),
            Indirect::Numeric(666).into(),
            Register(12),
        )),
    );
}

#[test]
fn zjmp() {
    parse_test("zjmp %10", Op(Zjmp(Direct::Numeric(10))))
}

#[test]
fn ldi() {
    parse_test(
        "ldi r1, r2, r3",
        Op(Ldi(Register(1).into(), Register(2).into(), Register(3))),
    );
    parse_test(
        "ldi r2, %1, r4",
        Op(Ldi(Register(2).into(), Direct::Numeric(1).into(), Register(4))),
    );
    parse_test(
        "ldi %-1, r2, r5",
        Op(Ldi(Direct::Numeric(-1).into(), Register(2).into(), Register(5))),
    );
    parse_test(
        "ldi %42, %42, r6",
        Op(Ldi(Direct::Numeric(42).into(), Direct::Numeric(42).into(), Register(6))),
    );
    parse_test(
        "ldi :foo, r2, r7",
        Op(Ldi(Indirect::Label("foo".into()).into(), Register(2).into(), Register(7))),
    );
    parse_test(
        "ldi 6, %1337, r8",
        Op(Ldi(Indirect::Numeric(6).into(), Direct::Numeric(1337).into(), Register(8))),
    );
}

#[test]
fn sti() {
    parse_test(
        "sti r3, r1, r2",
        Op(Sti(Register(3), Register(1).into(), Register(2).into())),
    );
    parse_test(
        "sti r4, r2, %1",
        Op(Sti(Register(4), Register(2).into(), Direct::Numeric(1).into())),
    );
    parse_test(
        "sti r5, %-1, r2",
        Op(Sti(Register(5), Direct::Numeric(-1).into(), Register(2).into())),
    );
    parse_test(
        "sti r6, %42, %42",
        Op(Sti(Register(6), Direct::Numeric(42).into(), Direct::Numeric(42).into())),
    );
    parse_test(
        "sti r7, :foo, r2",
        Op(Sti(Register(7), Indirect::Label("foo".into()).into(), Register(2).into())),
    );
    parse_test(
        "sti r8, 6, %1337",
        Op(Sti(Register(8), Indirect::Numeric(6).into(), Direct::Numeric(1337).into())),
    );
}

#[test]
fn fork() {
    parse_test("fork %:start", Op(Fork(Direct::Label("start".into()))))
}

#[test]
fn lld() {
    parse_test(
        "lld   %:here,  r6",
        Op(Lld(Direct::Label("here".into()).into(), Register(6))),
    );
    parse_test(
        "lld   :there,  r12",
        Op(Lld(Indirect::Label("there".into()).into(), Register(12))),
    );
}

#[test]
fn lldi() {
    parse_test(
        "lldi r1, r2, r3",
        Op(Lldi(Register(1).into(), Register(2).into(), Register(3))),
    );
    parse_test(
        "lldi r2, %1, r4",
        Op(Lldi(Register(2).into(), Direct::Numeric(1).into(), Register(4))),
    );
    parse_test(
        "lldi %-1, r2, r5",
        Op(Lldi(Direct::Numeric(-1).into(), Register(2).into(), Register(5))),
    );
    parse_test(
        "lldi %42, %42, r6",
        Op(Lldi(Direct::Numeric(42).into(), Direct::Numeric(42).into(), Register(6))),
    );
    parse_test(
        "lldi :foo, r2, r7",
        Op(Lldi(Indirect::Label("foo".into()).into(), Register(2).into(), Register(7))),
    );
    parse_test(
        "lldi 6, %1337, r8",
        Op(Lldi(Indirect::Numeric(6).into(), Direct::Numeric(1337).into(), Register(8))),
    );
}

#[test]
fn lfork() {
    parse_test("lfork %666", Op(Lfork(666.into())))
}

#[test]
fn aff() {
    parse_test("aff r12", Op(Aff(Register(12))))
}

#[test]
fn label() {
    parse_test("loop:", Label("loop".into()))
}

#[test]
fn label_and_op() {
    parse_test(
        "loop: xor r2, r2, r2",
        LabelAndOp(
            "loop".into(),
            Xor(Register(2).into(), Register(2).into(), Register(2)),
        ),
    )
}

#[test]
fn remaining_input() {
    parse_expect_err("live %1 woops", RemainingInput(Ident.at(8..13)))
}

#[test]
fn unexpected() {
    parse_expect_err(":loop", Unexpected(LabelUse.at(0..5)))
}

#[test]
fn expected_but_got() {
    parse_expect_err("live wat", ExpectedButGot(DirectChar, Ident.at(5..8)))
}

#[test]
fn expected_but_got_eof() {
    parse_expect_err(".name ", ExpectedButGotEof(QuotedString))
}

#[test]
fn expected_one_of() {
    parse_expect_err(
        "ldi r1, :start, r1",
        ExpectedOneOf(vec![
            ExpectedButGot(Ident, LabelUse.at(8..14)),
            ExpectedButGot(DirectChar, LabelUse.at(8..14)),
        ]),
    )
}

#[test]
fn invalid_register_count() {
    parse_expect_err("aff r18", InvalidRegisterCount(18, Ident.at(4..7)))
}

#[test]
fn invalid_register_prefix() {
    parse_expect_err("aff g18", InvalidRegisterPrefix('g', Ident.at(4..7)))
}

#[test]
fn invalid_op_mnemonic() {
    parse_expect_err(
        "loop: wat 42",
        InvalidOpMnemonic("wat".into(), Ident.at(6..9)),
    )
}

#[test]
fn number_out_of_range() {
    // the overflow surfaces from the choice between a label and a number
    let err = parse_line("live %99999999999999999999").expect_err("should not parse");
    assert!(matches!(
        &err,
        ParseError::ExpectedOneOf(subs)
            if subs.iter().any(|e| matches!(e, ParseError::NumberOutOfRange(_)))
    ));
}
