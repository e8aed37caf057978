use corewar::assembler::{
    read_champion,
    AssembleError::{CommentAlreadySet, MissingComment, MissingName, NameAlreadySet},
    ReadError::AssembleError,
};

#[test]
fn empty_champion() {
    assert!(read_champion("").is_err());
}

#[test]
fn missing_name() {
    assert!(matches!(
        read_champion(".comment \"only a comment\"\nlive %1\n"),
        Err(AssembleError(MissingName))
    ));
}

#[test]
fn missing_comment() {
    assert!(matches!(
        read_champion(".name \"only a name\"\nlive %1\n"),
        Err(AssembleError(MissingComment))
    ));
}

#[test]
fn duplicate_name() {
    assert!(matches!(
        read_champion(".name \"first\"\n.name \"second\"\n"),
        Err(AssembleError(NameAlreadySet(_)))
    ));
}

#[test]
fn duplicate_comment() {
    assert!(matches!(
        read_champion(".name \"n\"\n.comment \"first\"\n.comment \"second\"\n"),
        Err(AssembleError(CommentAlreadySet(_)))
    ));
}

#[test]
fn builder_keeps_instructions_in_order() {
    let champ = read_champion(
        ".name \"order\"\n.comment \"c\"\nstart: live %1\nzjmp %:start\n.code 1 2 3\n",
    )
    .expect("champion should assemble");
    assert_eq!(champ.name, "order");
    assert_eq!(champ.comment, "c");
    assert_eq!(champ.instructions.len(), 4);
}
