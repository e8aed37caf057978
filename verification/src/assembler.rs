//! Accumulating parsed lines into a champion: the `.name` and `.comment`
//! directives may each appear once and must both appear; labels,
//! operations and raw code form the ordered instruction list.

use vstd::prelude::*;
use vstd::utf8::{decode_utf8, encode_utf8, valid_utf8};
use crate::parser::{parse_line, parse_line_rel, ParseError, ParsedLine};
use crate::types::Op;

verus! {

/// A fully assembled champion, ready to compile.
#[derive(Debug)]
pub struct Champion {
    pub name: String,
    pub comment: String,
    pub instructions: Vec<ParsedInstruction>,
}

/// One entry of a champion's instruction list.
#[derive(Debug)]
pub enum ParsedInstruction {
    Label(String),
    Op(Op),
    RawCode(Vec<u8>),
}

#[derive(Debug)]
pub enum AssembleError {
    /// A second `.name`; carries the name already set.
    NameAlreadySet(String),
    /// A second `.comment`; carries the comment already set.
    CommentAlreadySet(String),
    MissingName,
    MissingComment,
}

pub type AssembleResult<T> = Result<T, AssembleError>;

/// Errors of reading a champion from source text: a parse failure with its
/// one-based line number, or a directive rule broken while assembling.
#[derive(Debug)]
pub enum ReadError {
    ParseError(ParseError, usize),
    AssembleError(AssembleError),
}

pub struct ChampionBuilder {
    pub name: Option<String>,
    pub comment: Option<String>,
    pub instructions: Vec<ParsedInstruction>,
}

/// How one parsed line moves the builder from `b0` to `b1` with outcome
/// `r`: each directive sets its field once and is refused (clearing the
/// field) the second time; labels, operations and raw code append to the
/// instruction list; everything else is untouched.
pub open spec fn builder_step(
    b0: ChampionBuilder,
    pl: ParsedLine,
    b1: ChampionBuilder,
    r: AssembleResult<()>,
) -> bool {
    match pl {
        ParsedLine::ChampionName(name) => {
            &&& b1.comment == b0.comment
            &&& b1.instructions == b0.instructions
            &&& match b0.name {
                Some(prev) => {
                    &&& r matches Err(AssembleError::NameAlreadySet(p)) && p == prev
                    &&& b1.name is None
                },
                None => r is Ok && b1.name == Some(name),
            }
        },
        ParsedLine::ChampionComment(comment) => {
            &&& b1.name == b0.name
            &&& b1.instructions == b0.instructions
            &&& match b0.comment {
                Some(prev) => {
                    &&& r matches Err(AssembleError::CommentAlreadySet(p)) && p == prev
                    &&& b1.comment is None
                },
                None => r is Ok && b1.comment == Some(comment),
            }
        },
        ParsedLine::Code(bytes) => {
            &&& r is Ok
            &&& b1.instructions@ == b0.instructions@.push(ParsedInstruction::RawCode(bytes))
            &&& b1.name == b0.name
            &&& b1.comment == b0.comment
        },
        ParsedLine::Op(op) => {
            &&& r is Ok
            &&& b1.instructions@ == b0.instructions@.push(ParsedInstruction::Op(op))
            &&& b1.name == b0.name
            &&& b1.comment == b0.comment
        },
        ParsedLine::Label(l) => {
            &&& r is Ok
            &&& b1.instructions@ == b0.instructions@.push(ParsedInstruction::Label(l))
            &&& b1.name == b0.name
            &&& b1.comment == b0.comment
        },
        ParsedLine::LabelAndOp(l, op) => {
            &&& r is Ok
            &&& b1.instructions@ == b0.instructions@.push(ParsedInstruction::Label(l)).push(
                ParsedInstruction::Op(op),
            )
            &&& b1.name == b0.name
            &&& b1.comment == b0.comment
        },
        ParsedLine::Empty => {
            &&& r is Ok
            &&& b1.name == b0.name
            &&& b1.comment == b0.comment
            &&& b1.instructions == b0.instructions
        },
    }
}

/// What closing the builder yields, as `read_champion` reports it: a
/// missing directive is the matching error, else the finished champion
/// carries both directives and the instruction list.
pub open spec fn finish_rel(b: ChampionBuilder, r: Result<Champion, ReadError>) -> bool {
    match b.name {
        None => r == Err::<Champion, ReadError>(
            ReadError::AssembleError(AssembleError::MissingName),
        ),
        Some(n) => match b.comment {
            None => r == Err::<Champion, ReadError>(
                ReadError::AssembleError(AssembleError::MissingComment),
            ),
            Some(c) => r matches Ok(champ) && champ.name == n && champ.comment == c
                && champ.instructions == b.instructions,
        },
    }
}

/// The parse of one line of raw bytes: the grammar relation holds of the
/// line's decoded text. Where the bytes are not well-formed text the
/// decoding is the reader's lossy one, of which only the grammar relation
/// on some text is promised.
pub open spec fn line_parse(lb: Seq<u8>, r: Result<ParsedLine, ParseError>) -> bool {
    exists|s: Seq<char>|
        #[trigger] parse_line_rel(crate::lexer::spec_tokens(encode_utf8(s), 0), encode_utf8(s), r)
            && (valid_utf8(lb) ==> s == decode_utf8(lb))
}

/// Where the line beginning at `from` ends: the first newline byte at or
/// after it, or the end of the input.
pub open spec fn line_end(bytes: Seq<u8>, from: int) -> int
    decreases bytes.len() - from,
    when 0 <= from <= bytes.len()
{
    if from >= bytes.len() {
        bytes.len() as int
    } else if bytes[from] == 10 {
        from
    } else {
        line_end(bytes, from + 1)
    }
}

/// A line runs from its start to its end, within the input.
pub proof fn lemma_line_end_bounds(bytes: Seq<u8>, from: int)
    requires
        0 <= from <= bytes.len(),
    ensures
        from <= line_end(bytes, from) <= bytes.len(),
    decreases bytes.len() - from,
{
    if from < bytes.len() && bytes[from] != 10 {
        lemma_line_end_bounds(bytes, from + 1);
    }
}

/// A stretch without newline bytes, closed by a newline or the input's
/// end, is exactly one line.
pub proof fn lemma_line_end_at(bytes: Seq<u8>, from: int, p: int)
    requires
        0 <= from <= p <= bytes.len(),
        forall|q: int| from <= q < p ==> bytes[q] != 10,
        p == bytes.len() || bytes[p] == 10,
    ensures
        line_end(bytes, from) == p,
    decreases p - from,
{
    if from < p {
        lemma_line_end_at(bytes, from + 1, p);
    }
}

/// Reading champion source from position `from` with the builder at `b`:
/// the current line is split off at the next newline and parsed; a parse
/// failure reports the current line number, a refused directive its
/// error; otherwise the builder takes the line and reading goes on past
/// the newline, closing with `finish_rel` after the last line.
pub open spec fn read_rel_from(
    bytes: Seq<u8>,
    from: int,
    line_no: usize,
    b: ChampionBuilder,
    r: Result<Champion, ReadError>,
) -> bool
    decreases bytes.len() - from,
    when 0 <= from <= bytes.len()
    via read_rel_from_decreases
{
    let end = line_end(bytes, from);
    let lb = bytes.subrange(from, end);
    exists|pr: Result<ParsedLine, ParseError>|
        #[trigger] line_parse(lb, pr) && match pr {
            Err(e) => r == Err::<Champion, ReadError>(ReadError::ParseError(e, line_no)),
            Ok(pl) => exists|b1: ChampionBuilder, ar: AssembleResult<()>|
                #[trigger] builder_step(b, pl, b1, ar) && match ar {
                    Err(ae) => r == Err::<Champion, ReadError>(ReadError::AssembleError(ae)),
                    Ok(_) => if end >= bytes.len() {
                        finish_rel(b1, r)
                    } else {
                        read_rel_from(
                            bytes,
                            end + 1,
                            if line_no < usize::MAX {
                                (line_no + 1) as usize
                            } else {
                                line_no
                            },
                            b1,
                            r,
                        )
                    },
                },
        }
}

#[via_fn]
proof fn read_rel_from_decreases(
    bytes: Seq<u8>,
    from: int,
    line_no: usize,
    b: ChampionBuilder,
    r: Result<Champion, ReadError>,
) {
    if 0 <= from <= bytes.len() {
        lemma_line_end_bounds(bytes, from);
    }
}

impl ChampionBuilder {
    pub fn new() -> (r: Self)
        ensures
            r.name is None,
            r.comment is None,
            r.instructions@.len() == 0,
    {
        ChampionBuilder { name: None, comment: None, instructions: Vec::new() }
    }

    /// Sets the champion's name; a second `.name` is an error.
    fn with_name(&mut self, name: String) -> (r: AssembleResult<()>)
        ensures
            match old(self).name {
                Some(prev) => {
                    &&& r matches Err(AssembleError::NameAlreadySet(p)) && p == prev
                    &&& final(self).name is None
                    &&& final(self).comment == old(self).comment
                    &&& final(self).instructions == old(self).instructions
                },
                None => {
                    &&& r is Ok
                    &&& final(self).name == Some(name)
                    &&& final(self).comment == old(self).comment
                    &&& final(self).instructions == old(self).instructions
                },
            },
    {
        let prev = self.name.take();
        match prev {
            Some(p) => Err(AssembleError::NameAlreadySet(p)),
            None => {
                self.name = Some(name);
                Ok(())
            },
        }
    }

    /// Sets the champion's comment; a second `.comment` is an error.
    fn with_comment(&mut self, comment: String) -> (r: AssembleResult<()>)
        ensures
            match old(self).comment {
                Some(prev) => {
                    &&& r matches Err(AssembleError::CommentAlreadySet(p)) && p == prev
                    &&& final(self).comment is None
                    &&& final(self).name == old(self).name
                    &&& final(self).instructions == old(self).instructions
                },
                None => {
                    &&& r is Ok
                    &&& final(self).comment == Some(comment)
                    &&& final(self).name == old(self).name
                    &&& final(self).instructions == old(self).instructions
                },
            },
    {
        let prev = self.comment.take();
        match prev {
            Some(p) => Err(AssembleError::CommentAlreadySet(p)),
            None => {
                self.comment = Some(comment);
                Ok(())
            },
        }
    }

    /// Folds one parsed line into the champion being built.
    pub fn assemble(&mut self, parsed_line: ParsedLine) -> (r: AssembleResult<()>)
        ensures
            builder_step(*old(self), parsed_line, *final(self), r),
    {
        match parsed_line {
            ParsedLine::ChampionName(name) => self.with_name(name),
            ParsedLine::ChampionComment(comment) => self.with_comment(comment),
            ParsedLine::Code(bytes) => {
                self.instructions.push(ParsedInstruction::RawCode(bytes));
                Ok(())
            },
            ParsedLine::Op(op) => {
                self.instructions.push(ParsedInstruction::Op(op));
                Ok(())
            },
            ParsedLine::Label(l) => {
                self.instructions.push(ParsedInstruction::Label(l));
                Ok(())
            },
            ParsedLine::LabelAndOp(l, op) => {
                self.instructions.push(ParsedInstruction::Label(l));
                self.instructions.push(ParsedInstruction::Op(op));
                Ok(())
            },
            ParsedLine::Empty => Ok(()),
        }
    }

    /// Closes the build: both directives must have appeared.
    pub fn finish(self) -> (r: AssembleResult<Champion>)
        ensures
            self.name is None ==> r matches Err(AssembleError::MissingName),
            self.name is Some && self.comment is None ==> r matches Err(
                AssembleError::MissingComment,
            ),
            self.name matches Some(n) ==> self.comment matches Some(c) ==> (r matches Ok(champ)
                && champ.name == n && champ.comment == c && champ.instructions
                == self.instructions),
    {
        match (self.name, self.comment) {
            (None, _) => Err(AssembleError::MissingName),
            (_, None) => Err(AssembleError::MissingComment),
            (Some(name), Some(comment)) => Ok(
                Champion { name, comment, instructions: self.instructions },
            ),
        }
    }
}

impl Default for ChampionBuilder {
    fn default() -> (r: Self)
        ensures
            r.name is None,
            r.comment is None,
            r.instructions@.len() == 0,
    {
        ChampionBuilder::new()
    }
}

/// Reads a whole champion from source text: each line is parsed and folded
/// into a builder; a parse failure carries its one-based line number.
pub fn read_champion(input: &str) -> (r: Result<Champion, ReadError>)
    ensures
        exists|b0: ChampionBuilder|
            b0.name is None && b0.comment is None && b0.instructions@.len() == 0
                && #[trigger] read_rel_from(encode_utf8(input@), 0, 1, b0, r),
        r matches Err(ReadError::ParseError(_, line)) ==> line >= 1,
{
    let bytes = input.as_bytes();
    let ghost gb = bytes@;
    let total = bytes.len();
    let mut builder = ChampionBuilder::new();
    let ghost b0 = builder;
    let mut line_no: usize = 1;
    let mut line_start: usize = 0;
    let mut i: usize = 0;
    while i < total
        invariant
            line_start <= i <= total,
            total == gb.len(),
            bytes@ == gb,
            gb == encode_utf8(input@),
            line_no >= 1,
            b0.name is None && b0.comment is None && b0.instructions@.len() == 0,
            forall|q: int| line_start <= q < i ==> gb[q] != 10,
            forall|r2: Result<Champion, ReadError>|
                #[trigger] read_rel_from(gb, line_start as int, line_no, builder, r2)
                    ==> read_rel_from(gb, 0, 1, b0, r2),
        decreases total - i,
    {
        if bytes[i] == 10 {
            proof {
                lemma_line_end_at(gb, line_start as int, i as int);
            }
            let ghost lb = gb.subrange(line_start as int, i as int);
            let line = crate::strings::string_from_bytes(
                vstd::slice::slice_subrange(bytes, line_start, i),
            );
            match parse_line(line.as_str()) {
                Err(e) => {
                    let res = Err(ReadError::ParseError(e, line_no));
                    proof {
                        let pr = Err::<ParsedLine, ParseError>(e);
                        assert(parse_line_rel(
                            crate::lexer::spec_tokens(encode_utf8(line@), 0),
                            encode_utf8(line@),
                            pr,
                        ) && (valid_utf8(lb) ==> line@ == decode_utf8(lb)));
                        assert(line_parse(lb, pr));
                        assert(read_rel_from(gb, line_start as int, line_no, builder, res));
                    }
                    return res;
                },
                Ok(pl) => {
                    let ghost gpl = pl;
                    let ghost b_pre = builder;
                    let ar = builder.assemble(pl);
                    proof {
                        let pr = Ok::<ParsedLine, ParseError>(gpl);
                        assert(parse_line_rel(
                            crate::lexer::spec_tokens(encode_utf8(line@), 0),
                            encode_utf8(line@),
                            pr,
                        ) && (valid_utf8(lb) ==> line@ == decode_utf8(lb)));
                        assert(line_parse(lb, pr));
                        assert(builder_step(b_pre, gpl, builder, ar));
                    }
                    match ar {
                        Err(e) => {
                            let res = Err(ReadError::AssembleError(e));
                            proof {
                                assert(read_rel_from(
                                    gb,
                                    line_start as int,
                                    line_no,
                                    b_pre,
                                    res,
                                ));
                            }
                            return res;
                        },
                        Ok(_) => {
                            proof {
                                let ln2: usize = if line_no < usize::MAX {
                                    (line_no + 1) as usize
                                } else {
                                    line_no
                                };
                                assert forall|r2: Result<Champion, ReadError>|
                                    #[trigger] read_rel_from(
                                        gb,
                                        i + 1,
                                        ln2,
                                        builder,
                                        r2,
                                    ) implies read_rel_from(gb, 0, 1, b0, r2) by {
                                    assert(read_rel_from(
                                        gb,
                                        line_start as int,
                                        line_no,
                                        b_pre,
                                        r2,
                                    ));
                                }
                            }
                        },
                    }
                },
            }
            if line_no < usize::MAX {
                line_no = line_no + 1;
            }
            line_start = i + 1;
        }
        i = i + 1;
    }
    proof {
        lemma_line_end_at(gb, line_start as int, total as int);
    }
    let ghost lb = gb.subrange(line_start as int, total as int);
    let last = crate::strings::string_from_bytes(
        vstd::slice::slice_subrange(bytes, line_start, total),
    );
    match parse_line(last.as_str()) {
        Err(e) => {
            let res = Err(ReadError::ParseError(e, line_no));
            proof {
                let pr = Err::<ParsedLine, ParseError>(e);
                assert(parse_line_rel(
                    crate::lexer::spec_tokens(encode_utf8(last@), 0),
                    encode_utf8(last@),
                    pr,
                ) && (valid_utf8(lb) ==> last@ == decode_utf8(lb)));
                assert(line_parse(lb, pr));
                assert(read_rel_from(gb, line_start as int, line_no, builder, res));
            }
            return res;
        },
        Ok(pl) => {
            let ghost gpl = pl;
            let ghost b_pre = builder;
            let ar = builder.assemble(pl);
            proof {
                let pr = Ok::<ParsedLine, ParseError>(gpl);
                assert(parse_line_rel(
                    crate::lexer::spec_tokens(encode_utf8(last@), 0),
                    encode_utf8(last@),
                    pr,
                ) && (valid_utf8(lb) ==> last@ == decode_utf8(lb)));
                assert(line_parse(lb, pr));
                assert(builder_step(b_pre, gpl, builder, ar));
            }
            match ar {
                Err(e) => {
                    let res = Err(ReadError::AssembleError(e));
                    proof {
                        assert(read_rel_from(gb, line_start as int, line_no, b_pre, res));
                    }
                    return res;
                },
                Ok(_) => {
                    let ghost b_fin = builder;
                    let res = match builder.finish() {
                        Err(e) => Err(ReadError::AssembleError(e)),
                        Ok(c) => Ok(c),
                    };
                    proof {
                        assert(finish_rel(b_fin, res));
                        assert(read_rel_from(gb, line_start as int, line_no, b_pre, res));
                    }
                    res
                },
            }
        },
    }
}

} // verus!
