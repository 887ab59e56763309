//! Error rendering.  Every failing stage formats its position through one
//! presentation contract — `<line>:<column> : <line text>` — and each
//! category has a fixed spec-level text, so a fixed input and a fixed failure
//! point always render to the same string.

use crate::grammar::{failure_wf, ParseFailure};
use crate::loader::DataError;
use crate::source_index::{line_end, line_number, line_start, locate};
use crate::text::{dec_spec, push_chars, push_str_chars, subrange_chars, to_decimal};
use vstd::prelude::*;

verus! {

/// A terminal error of the stages after preprocessing.
pub enum AsmError {
    /// A label was referenced but never defined.
    Undefined { offset: usize, name: Vec<char> },
    /// No code label named `start` exists.
    NoEntry,
    /// The data segment loader failed; an internal invariant violation.
    Data(DataError),
}

/// Offsets carried by an error point into the buffer `s`.
pub open spec fn error_wf(e: &AsmError, s: Seq<char>) -> bool {
    match e {
        AsmError::Undefined { offset, .. } => *offset <= s.len(),
        _ => true,
    }
}

/// `<line>:<column> : <line text>` for the line holding `off`.
pub open spec fn position_spec(s: Seq<char>, off: int) -> Seq<char> {
    dec_spec(line_number(s, off)) + ":"@ + dec_spec((off - line_start(s, off)) as nat) + " : "@
        + s.subrange(line_start(s, off), line_end(s, off))
}

pub open spec fn syntax_custom_spec(s: Seq<char>, off: int, msg: Seq<char>) -> Seq<char> {
    "Syntax Error at "@ + position_spec(s, off) + " :\n"@ + msg
}

pub open spec fn unexpected_token_spec(s: Seq<char>, off: int, tok: Seq<char>) -> Seq<char> {
    "Syntax Error at "@ + position_spec(s, off) + " :\nUnexpected Token : "@ + tok
}

pub open spec fn syntax_other_spec(text: Seq<char>) -> Seq<char> {
    "Syntax Error :\n"@ + text
}

pub open spec fn undefined_label_spec(s: Seq<char>, off: int, name: Seq<char>) -> Seq<char> {
    "Label "@ + name + " used but not defined at "@ + position_spec(s, off)
}

pub open spec fn no_entry_spec() -> Seq<char> {
    "Error : necessary label 'start' is not found in code"@
}

pub open spec fn internal_spec(e: &DataError) -> Seq<char> {
    "Internal Error :\n"@ + match e {
        DataError::Unparsable { .. } => "data directive failed to parse"@,
        DataError::OutOfMemory { .. } => "data segment exceeds memory"@,
    }
}

/// How the preprocessing engine's single error channel is read back: an
/// empty token text marks a piggybacked domain error, reported with the
/// first "expected" entry as its message; a non-empty token is a genuine
/// unrecognized token; anything else is reported by its default text.
pub open spec fn translate_spec(s: Seq<char>, f: &ParseFailure) -> Seq<char> {
    match f {
        ParseFailure::Unrecognized { start, token, expected } => {
            if token@.len() == 0 {
                syntax_custom_spec(s, *start as int, expected@[0]@)
            } else {
                unexpected_token_spec(s, *start as int, token@)
            }
        },
        ParseFailure::Other { text } => syntax_other_spec(text@),
    }
}

/// What a specification-level failure of the pass renders to: the same
/// disambiguation as `translate_spec`, over the failure's view.
pub open spec fn translate_v(s: Seq<char>, sf: crate::grammar::SpecFailureV) -> Seq<char> {
    if sf.token.len() == 0 {
        syntax_custom_spec(s, sf.start as int, sf.expected[0])
    } else {
        unexpected_token_spec(s, sf.start as int, sf.token)
    }
}

/// What an error of the later stages renders to.
pub open spec fn render_spec(s: Seq<char>, e: &AsmError) -> Seq<char> {
    match e {
        AsmError::Undefined { offset, name } => undefined_label_spec(s, *offset as int, name@),
        AsmError::NoEntry => no_entry_spec(),
        AsmError::Data(d) => internal_spec(d),
    }
}

/// Formats the position of `off`.
pub fn format_position(buf: &Vec<char>, off: usize) -> (out: Vec<char>)
    requires
        off <= buf@.len(),
        buf@.len() < usize::MAX,
    ensures
        out@ == position_spec(buf@, off as int),
{
    let r = locate(buf, off);
    let mut out = to_decimal(r.0);
    push_str_chars(&mut out, ":");
    let col = to_decimal(off - r.1);
    push_chars(&mut out, &col);
    push_str_chars(&mut out, " : ");
    let lt = subrange_chars(buf, r.1, r.2);
    push_chars(&mut out, &lt);
    out
}

/// Renders a failure of the preprocessing engine, applying the sentinel
/// disambiguation exactly once, here.
pub fn translate_parse_error(buf: &Vec<char>, f: &ParseFailure) -> (out: Vec<char>)
    requires
        failure_wf(f, buf@),
        buf@.len() < usize::MAX,
    ensures
        out@ == translate_spec(buf@, f),
{
    match f {
        ParseFailure::Unrecognized { start, token, expected } => {
            let mut out: Vec<char> = Vec::new();
            push_str_chars(&mut out, "Syntax Error at ");
            let pos = format_position(buf, *start);
            push_chars(&mut out, &pos);
            if token.len() == 0 {
                push_str_chars(&mut out, " :\n");
                push_chars(&mut out, &expected[0]);
            } else {
                push_str_chars(&mut out, " :\nUnexpected Token : ");
                push_chars(&mut out, token);
            }
            out
        },
        ParseFailure::Other { text } => {
            let mut out: Vec<char> = Vec::new();
            push_str_chars(&mut out, "Syntax Error :\n");
            push_chars(&mut out, text);
            out
        },
    }
}

/// Renders a terminal error of the later stages.
pub fn render_asm_error(buf: &Vec<char>, e: &AsmError) -> (out: Vec<char>)
    requires
        error_wf(e, buf@),
        buf@.len() < usize::MAX,
    ensures
        out@ == render_spec(buf@, e),
{
    match e {
        AsmError::Undefined { offset, name } => {
            let mut out: Vec<char> = Vec::new();
            push_str_chars(&mut out, "Label ");
            push_chars(&mut out, name);
            push_str_chars(&mut out, " used but not defined at ");
            let pos = format_position(buf, *offset);
            push_chars(&mut out, &pos);
            out
        },
        AsmError::NoEntry => {
            let mut out: Vec<char> = Vec::new();
            push_str_chars(&mut out, "Error : necessary label 'start' is not found in code");
            out
        },
        AsmError::Data(d) => {
            let mut out: Vec<char> = Vec::new();
            push_str_chars(&mut out, "Internal Error :\n");
            match d {
                DataError::Unparsable { .. } => {
                    push_str_chars(&mut out, "data directive failed to parse");
                },
                DataError::OutOfMemory { .. } => {
                    push_str_chars(&mut out, "data segment exceeds memory");
                },
            }
            out
        },
    }
}

} // verus!
