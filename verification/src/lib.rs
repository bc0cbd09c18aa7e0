//! A compiler for a small C-like language: type checking, return checking, translation
//! to a three-address IR, IR passes, and QBE code generation.
pub mod text;
pub mod value;
pub mod typ;
pub mod ast;
pub mod node_id_assigner;
pub mod symbol_table;
pub mod jump_context;
pub mod type_check;
pub mod typed_nodes;
pub mod return_check;
pub mod ir;
pub mod translate;
pub mod jump_targets;
pub mod qbe;
pub mod goto_cleanup;
pub mod flatten;
pub mod function_renamer;
pub mod program_printer;
pub mod capture;
pub mod compiler;

use vstd::prelude::*;
use crate::text::{push_decimal, push_joined, push_str, chars_of};

verus! {

/// An error found in a program, at a byte offset of its source.
#[derive(Debug, Clone)]
pub struct Error {
    loc: usize,
    msg: String,
}

impl View for Error {
    type V = (usize, Seq<char>);

    closed spec fn view(&self) -> (usize, Seq<char>) {
        (self.loc, self.msg@)
    }
}

impl Error {
    pub fn new(loc: usize, msg: String) -> (r: Error)
        ensures
            r@ == (loc, msg@),
    {
        Error { loc, msg }
    }

    /// The byte offset of the error in the source.
    pub fn loc(&self) -> (r: usize)
        ensures
            r == self@.0,
    {
        self.loc
    }

    /// The message of the error.
    pub fn msg(&self) -> (r: &str)
        ensures
            r@ == self@.1,
    {
        self.msg.as_str()
    }
}

/// The number of bytes of the UTF-8 encoding of a character.
pub open spec fn utf8_len(c: char) -> nat {
    if (c as u32) < 0x80 {
        1
    } else if (c as u32) < 0x800 {
        2
    } else if (c as u32) < 0x10000 {
        3
    } else {
        4
    }
}

/// The number of bytes of the UTF-8 encoding of a character, by code point range.
fn char_len_utf8(c: char) -> (r: usize)
    ensures
        r == utf8_len(c),
{
    let x: u32 = c as u32;
    if x < 0x80 {
        1
    } else if x < 0x800 {
        2
    } else if x < 0x10000 {
        3
    } else {
        4
    }
}

/// Walks the characters from byte position `pos` on, counting lines and columns, and
/// stops at the character that starts at byte `offset` (or at the end).
pub open spec fn line_col_from(cs: Seq<char>, offset: nat, pos: nat, line: nat, col: nat) -> (nat, nat)
    decreases cs.len(),
{
    if cs.len() == 0 || pos == offset {
        (line, col)
    } else if cs[0] == '\n' {
        line_col_from(cs.drop_first(), offset, pos + utf8_len(cs[0]), line + 1, 1)
    } else {
        line_col_from(cs.drop_first(), offset, pos + utf8_len(cs[0]), line, col + 1)
    }
}

/// The (line, column), both counted from 1, of the character that starts at byte
/// `offset` of the source.
pub open spec fn spec_line_col(source: Seq<char>, offset: nat) -> (nat, nat) {
    line_col_from(source, offset, 0, 1, 1)
}

proof fn lemma_line_col_bound(cs: Seq<char>, offset: nat, pos: nat, line: nat, col: nat)
    ensures
        line <= line_col_from(cs, offset, pos, line, col).0 <= line + cs.len(),
        line_col_from(cs, offset, pos, line, col).1 <= col + cs.len(),
    decreases cs.len(),
{
    if cs.len() > 0 && pos != offset {
        let w = utf8_len(cs[0]);
        if cs[0] == '\n' {
            lemma_line_col_bound(cs.drop_first(), offset, pos + w, line + 1, 1);
        } else {
            lemma_line_col_bound(cs.drop_first(), offset, pos + w, line, col + 1);
        }
    }
}

/// The line and column (both from 1) of the character that starts at byte `offset`;
/// past the end, or inside a character, the position after the last character.
pub fn get_line_col(source: &str, offset: usize) -> (r: (usize, usize))
    requires
        source@.len() < usize::MAX,
    ensures
        r.0 == spec_line_col(source@, offset as nat).0,
        r.1 == spec_line_col(source@, offset as nat).1,
{
    let cs = chars_of(source);
    let mut line: usize = 1;
    let mut col: usize = 1;
    let mut pos: usize = 0;
    let mut passed = false;
    let ghost gpos: nat = 0;
    let mut i: usize = 0;
    assert(cs@.skip(0) == cs@);
    while i < cs.len() && (passed || pos != offset)
        invariant
            cs@ == source@,
            cs@.len() < usize::MAX,
            i <= cs.len(),
            1 <= line <= 1 + i,
            1 <= col <= 1 + i,
            passed ==> gpos > offset,
            !passed ==> pos == gpos,
            spec_line_col(source@, offset as nat) == line_col_from(cs@.skip(i as int), offset as nat, gpos, line as nat, col as nat),
        decreases cs.len() - i,
    {
        assert(cs@.skip(i as int).len() > 0);
        let c = cs[i];
        let w = char_len_utf8(c);
        proof {
            assert(cs@.skip(i as int).drop_first() == cs@.skip(i + 1));
            assert(cs@.skip(i as int)[0] == c);
            gpos = (gpos + w) as nat;
        }
        if !passed {
            match pos.checked_add(w) {
                Some(p) => {
                    pos = p;
                    if pos > offset {
                        passed = true;
                    }
                },
                None => {
                    passed = true;
                },
            }
        }
        if c == '\n' {
            line += 1;
            col = 1;
        } else {
            col += 1;
        }
        i += 1;
    }
    assert(i == cs.len() ==> cs@.skip(i as int).len() == 0);
    assert(!passed && pos == offset ==> gpos == offset);
    (line, col)
}

/// The lines that report an error: where it is, then its message.
pub open spec fn error_report_lines(source: Seq<char>, err: (usize, Seq<char>)) -> Seq<Seq<char>> {
    let (line, col) = spec_line_col(source, err.0 as nat);
    seq!["Error at line "@ + text::decimal(line) + ", column "@ + text::decimal(col), err.1]
}

/// The lines that report an error, as the compiler prints them.
pub fn error_report(source: &str, err: &Error) -> (r: Vec<String>)
    requires
        source@.len() < usize::MAX,
    ensures
        r@.map_values(|s: String| s@) == error_report_lines(source@, err@),
{
    let (line, col) = get_line_col(source, err.loc);
    let mut first = String::new();
    push_str(&mut first, "Error at line ");
    push_decimal(&mut first, line);
    push_str(&mut first, ", column ");
    push_decimal(&mut first, col);
    let mut r: Vec<String> = Vec::new();
    r.push(first);
    r.push(err.msg.clone());
    assert(r@.map_values(|s: String| s@) =~= error_report_lines(source@, err@));
    r
}

/// A syntax error, as the parser reports it: tokens are given by their printed form.
pub enum SyntaxError {
    InvalidToken { location: usize },
    ExtraToken { start: usize, token: String },
    UnrecognizedToken { start: usize, token: String, expected: Vec<String> },
    UnrecognizedEof { location: usize, expected: Vec<String> },
    User { error: Error },
}

pub open spec fn views_of(v: Seq<String>) -> Seq<Seq<char>> {
    v.map_values(|s: String| s@)
}

pub open spec fn syntax_header(source: Seq<char>, at: usize) -> Seq<char> {
    let (line, col) = spec_line_col(source, at as nat);
    "Syntax error at line "@ + text::decimal(line) + ", column "@ + text::decimal(col) + "."@
}

/// The lines that report a syntax error.
pub open spec fn syntax_report_lines(source: Seq<char>, err: SyntaxError) -> Seq<Seq<char>> {
    match err {
        SyntaxError::InvalidToken { location } => seq![syntax_header(source, location), "Found invalid token."@],
        SyntaxError::ExtraToken { start, token } => seq![
            syntax_header(source, start),
            "Found extra token "@ + token@,
        ],
        SyntaxError::UnrecognizedToken { start, token, expected } => seq![
            syntax_header(source, start),
            "Unexpected token "@ + token@ + ". Expected the following."@,
            text::join(views_of(expected@), ","@),
        ],
        SyntaxError::UnrecognizedEof { location, expected } => seq![
            syntax_header(source, location),
            "Unexpected EOF. Expected the following."@,
            text::join(views_of(expected@), ","@),
        ],
        SyntaxError::User { error } => seq![syntax_header(source, error@.0), error@.1],
    }
}

fn syntax_header_text(source: &str, at: usize) -> (r: String)
    requires
        source@.len() < usize::MAX,
    ensures
        r@ == syntax_header(source@, at),
{
    let (line, col) = get_line_col(source, at);
    let mut s = String::new();
    push_str(&mut s, "Syntax error at line ");
    push_decimal(&mut s, line);
    push_str(&mut s, ", column ");
    push_decimal(&mut s, col);
    push_str(&mut s, ".");
    s
}

/// The lines that report a syntax error, as the compiler prints them.
pub fn syntax_report(source: &str, err: &SyntaxError) -> (r: Vec<String>)
    requires
        source@.len() < usize::MAX,
    ensures
        views_of(r@) == syntax_report_lines(source@, *err),
{
    let mut r: Vec<String> = Vec::new();
    match err {
        SyntaxError::InvalidToken { location } => {
            r.push(syntax_header_text(source, *location));
            r.push(text::text_of("Found invalid token."));
        },
        SyntaxError::ExtraToken { start, token } => {
            r.push(syntax_header_text(source, *start));
            let mut s = text::text_of("Found extra token ");
            push_str(&mut s, token.as_str());
            r.push(s);
        },
        SyntaxError::UnrecognizedToken { start, token, expected } => {
            r.push(syntax_header_text(source, *start));
            let mut s = text::text_of("Unexpected token ");
            push_str(&mut s, token.as_str());
            push_str(&mut s, ". Expected the following.");
            r.push(s);
            let mut j = String::new();
            push_joined(&mut j, expected, ",");
            r.push(j);
        },
        SyntaxError::UnrecognizedEof { location, expected } => {
            r.push(syntax_header_text(source, *location));
            r.push(text::text_of("Unexpected EOF. Expected the following."));
            let mut j = String::new();
            push_joined(&mut j, expected, ",");
            r.push(j);
        },
        SyntaxError::User { error } => {
            r.push(syntax_header_text(source, error.loc));
            r.push(error.msg.clone());
        },
    }
    assert(views_of(r@) =~= syntax_report_lines(source@, *err));
    r
}

} // verus!
