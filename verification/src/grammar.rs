//! The preprocessing pass: a line-oriented grammar over the stripped buffer.
//!
//! Each line holds an optional label definition (`name:`) followed by either
//! an instruction (a mnemonic and operands) or a data directive (`db` with
//! decimal byte values).  An identifier operand is a label reference,
//! recorded for deferred resolution; a label defined in front of a data
//! directive is a data label, any other is a code label.
//!
//! The pass has a single error channel, shaped like a generic
//! unrecognized-token error.  Domain errors are piggybacked on it by a
//! sentinel convention: an empty token text together with the message as the
//! first "expected" entry.  The translation back into a user-facing message
//! lives in `errors`.

use crate::labels::{Label, LabelKind, LabelRef, LabelTable};
use crate::loader::{directive_spec, is_digit, parse_directive, sum_sizes};
use crate::source_index::line_end;
use crate::text::{copy_chars, push_chars, push_str_chars, subrange_chars};
use vstd::prelude::*;

verus! {

/// Symbol bookkeeping accumulated during parsing.  The function table is
/// part of the context the execution engine receives; this grammar has no
/// function productions, so the pass leaves it empty, and says so in its
/// contract.
pub struct PreprocessorContext {
    pub label_table: LabelTable,
    pub undefined_refs: Vec<LabelRef>,
    pub data_counter: usize,
    pub fn_table: Vec<Label>,
}

/// The ordered output of the pass: instruction texts, data directive texts,
/// and the position map from code index to source offset.
pub struct PreprocessorOutput {
    pub code: Vec<Vec<char>>,
    pub data: Vec<Vec<char>>,
    pub source_map: Vec<usize>,
}

/// The grammar's single error channel.
pub enum ParseFailure {
    /// A token the grammar does not recognize — or, when `token` is empty, a
    /// domain error whose message is the first `expected` entry.
    Unrecognized { start: usize, token: Vec<char>, expected: Vec<Vec<char>> },
    /// Any other grammar-stage failure, reported by its text alone.
    Other { text: Vec<char> },
}

/// What the pass guarantees of its artifacts over the buffer `s`: the
/// position map covers exactly the code sequence and points into `s`, every
/// recorded reference points into `s`, label names are unique and code
/// targets lie within the code sequence, every stored data directive parses,
/// and the data counter equals the total size of the stored directives.
pub open spec fn artifacts_wf(
    ctx: &PreprocessorContext,
    out: &PreprocessorOutput,
    s: Seq<char>,
) -> bool {
    &&& out.source_map@.len() == out.code@.len()
    &&& forall|i: int|
        0 <= i < out.source_map@.len() ==> #[trigger] out.source_map@[i] <= s.len()
    &&& ctx.label_table.wf()
    &&& forall|i: int|
        0 <= i < ctx.label_table.entries@.len() ==> ((#[trigger] ctx.label_table.entries@[i]).kind
            == LabelKind::Code ==> ctx.label_table.entries@[i].target <= out.code@.len())
    &&& forall|i: int|
        0 <= i < ctx.undefined_refs@.len() ==> (#[trigger] ctx.undefined_refs@[i]).offset
            <= s.len()
    &&& forall|i: int|
        0 <= i < out.data@.len() ==> directive_spec((#[trigger] out.data@[i])@) is Some
    &&& ctx.data_counter == sum_sizes(out.data@)
}

/// What the pass guarantees of a failure: the span starts inside the buffer,
/// and the sentinel form carries its message.
pub open spec fn failure_wf(f: &ParseFailure, s: Seq<char>) -> bool {
    match f {
        ParseFailure::Unrecognized { start, token, expected } => {
            &&& *start <= s.len()
            &&& (token@.len() == 0 ==> expected@.len() >= 1)
        },
        ParseFailure::Other { .. } => true,
    }
}

/// A token: its surface text and the offset at which it starts.
pub struct Tok {
    pub text: Vec<char>,
    pub start: usize,
}

pub open spec fn toks_wf(toks: Seq<Tok>, limit: nat) -> bool {
    forall|i: int|
        0 <= i < toks.len() ==> (#[trigger] toks[i]).text@.len() >= 1 && toks[i].start
            + toks[i].text@.len() <= limit
}

pub open spec fn is_sep(c: char) -> bool {
    c == ' ' || c == '\t' || c == ',' || c == '\r'
}

fn ch_is_sep(c: char) -> (r: bool)
    ensures
        r == is_sep(c),
{
    c == ' ' || c == '\t' || c == ',' || c == '\r'
}

/// Splits the line `[lstart, lend)` into tokens: maximal runs of
/// non-separator characters.
pub fn tokenize_line(buf: &Vec<char>, lstart: usize, lend: usize) -> (toks: Vec<Tok>)
    requires
        lstart <= lend <= buf@.len(),
    ensures
        toks_wf(toks@, lend as nat),
        toks_view(toks@) == tokens_from(buf@, lstart as int, lend as int),
{
    let mut toks: Vec<Tok> = Vec::new();
    let mut p: usize = lstart;
    while p < lend
        invariant
            lstart <= p <= lend <= buf@.len(),
            toks_wf(toks@, lend as nat),
            toks_view(toks@) + tokens_from(buf@, p as int, lend as int) == tokens_from(
                buf@,
                lstart as int,
                lend as int,
            ),
        decreases lend - p,
    {
        if ch_is_sep(buf[p]) {
            p = p + 1;
        } else {
            let start = p;
            let mut text: Vec<char> = Vec::new();
            text.push(buf[p]);
            p = p + 1;
            proof {
                assert(text@ =~= buf@.subrange(start as int, p as int));
            }
            while p < lend && !ch_is_sep(buf[p])
                invariant
                    start < p <= lend <= buf@.len(),
                    text@.len() == p - start,
                    text@ == buf@.subrange(start as int, p as int),
                    token_end(buf@, start + 1, lend as int) == token_end(
                        buf@,
                        p as int,
                        lend as int,
                    ),
                decreases lend - p,
            {
                text.push(buf[p]);
                proof {
                    assert(text@ =~= buf@.subrange(start as int, p + 1));
                }
                p = p + 1;
            }
            proof {
                assert(token_end(buf@, p as int, lend as int) == p);
                let old_view = toks_view(toks@);
                let st = SpecTok { start: start as nat, text: text@ };
                assert(toks_view(toks@.push(Tok { text, start })) =~= old_view.push(st));
                assert(tokens_from(buf@, start as int, lend as int) == seq![st] + tokens_from(
                    buf@,
                    p as int,
                    lend as int,
                ));
                assert(old_view.push(st) + tokens_from(buf@, p as int, lend as int) =~= old_view + (
                seq![st] + tokens_from(buf@, p as int, lend as int)));
            }
            toks.push(Tok { text, start });
        }
    }
    proof {
        assert(toks_view(toks@) + tokens_from(buf@, lend as int, lend as int) =~= toks_view(
            toks@,
        ));
    }
    toks
}

pub open spec fn is_alpha(c: char) -> bool {
    (65 <= c as int <= 90) || (97 <= c as int <= 122) || c == '_'
}

pub open spec fn is_ident_char(c: char) -> bool {
    is_alpha(c) || is_digit(c)
}

/// An identifier: a letter or underscore, then letters, digits or
/// underscores.
pub open spec fn is_ident_seq(t: Seq<char>) -> bool {
    t.len() >= 1 && is_alpha(t[0]) && forall|k: int| 0 <= k < t.len() ==> is_ident_char(#[trigger] t[k])
}

/// A run of decimal digits.
pub open spec fn is_digits_seq(t: Seq<char>) -> bool {
    t.len() >= 1 && forall|k: int| 0 <= k < t.len() ==> is_digit(#[trigger] t[k])
}

/// A numeric literal: digits, with an optional leading minus sign.
pub open spec fn is_number_seq(t: Seq<char>) -> bool {
    is_digits_seq(t) || (t.len() >= 2 && t[0] == '-' && forall|k: int|
        1 <= k < t.len() ==> is_digit(#[trigger] t[k]))
}

/// A register operand: `r` or `R`, then digits.
pub open spec fn is_register_seq(t: Seq<char>) -> bool {
    t.len() >= 2 && (t[0] == 'r' || t[0] == 'R') && forall|k: int|
        1 <= k < t.len() ==> is_digit(#[trigger] t[k])
}

fn ch_is_alpha(c: char) -> (r: bool)
    ensures
        r == is_alpha(c),
{
    let v = c as u32;
    (65 <= v && v <= 90) || (97 <= v && v <= 122) || c == '_'
}

fn ch_is_digit(c: char) -> (r: bool)
    ensures
        r == is_digit(c),
{
    let v = c as u32;
    48 <= v && v <= 57
}

fn seq_is_ident(t: &Vec<char>) -> (r: bool)
    ensures
        r == is_ident_seq(t@),
{
    if t.len() == 0 || !ch_is_alpha(t[0]) {
        return false;
    }
    let mut k: usize = 1;
    while k < t.len()
        invariant
            1 <= k <= t@.len(),
            is_alpha(t@[0]),
            forall|j: int| 0 <= j < k ==> is_ident_char(#[trigger] t@[j]),
        decreases t@.len() - k,
    {
        if !ch_is_alpha(t[k]) && !ch_is_digit(t[k]) {
            return false;
        }
        k = k + 1;
    }
    true
}

fn seq_is_digits_from(t: &Vec<char>, from: usize) -> (r: bool)
    requires
        from <= t@.len(),
    ensures
        r == forall|k: int| from <= k < t@.len() ==> is_digit(#[trigger] t@[k]),
{
    let mut k: usize = from;
    while k < t.len()
        invariant
            from <= k <= t@.len(),
            forall|j: int| from <= j < k ==> is_digit(#[trigger] t@[j]),
        decreases t@.len() - k,
    {
        if !ch_is_digit(t[k]) {
            return false;
        }
        k = k + 1;
    }
    true
}

fn seq_is_digits(t: &Vec<char>) -> (r: bool)
    ensures
        r == is_digits_seq(t@),
{
    t.len() >= 1 && seq_is_digits_from(t, 0)
}

fn seq_is_number(t: &Vec<char>) -> (r: bool)
    ensures
        r == is_number_seq(t@),
{
    if t.len() == 0 {
        return false;
    }
    if t[0] == '-' {
        t.len() >= 2 && seq_is_digits_from(t, 1)
    } else {
        seq_is_digits_from(t, 0)
    }
}

fn seq_is_register(t: &Vec<char>) -> (r: bool)
    ensures
        r == is_register_seq(t@),
{
    if t.len() < 2 {
        return false;
    }
    (t[0] == 'r' || t[0] == 'R') && seq_is_digits_from(t, 1)
}

/// Whether a token is the data keyword `db`.
pub open spec fn is_db_seq(t: Seq<char>) -> bool {
    t.len() == 2 && t[0] == 'd' && t[1] == 'b'
}

fn seq_is_db(t: &Vec<char>) -> (r: bool)
    ensures
        r == is_db_seq(t@),
{
    t.len() == 2 && t[0] == 'd' && t[1] == 'b'
}

// ---------------------------------------------------------------------------
// The specification of the pass: a mathematical line machine.  The executable
// pass below is proved to compute exactly `parse_spec` of its buffer.
// ---------------------------------------------------------------------------

/// A token, at the specification level.
#[verifier::ext_equal]
pub ghost struct SpecTok {
    pub start: nat,
    pub text: Seq<char>,
}

/// Index of the first separator at or after `p`, or the line end.
pub open spec fn token_end(s: Seq<char>, p: int, lend: int) -> int
    decreases lend - p,
    when 0 <= p <= lend <= s.len()
{
    if p >= lend {
        lend
    } else if is_sep(s[p]) {
        p
    } else {
        token_end(s, p + 1, lend)
    }
}

pub proof fn lemma_token_end(s: Seq<char>, p: int, lend: int)
    requires
        0 <= p <= lend <= s.len(),
    ensures
        p <= token_end(s, p, lend) <= lend,
    decreases lend - p,
{
    if p < lend && !is_sep(s[p]) {
        lemma_token_end(s, p + 1, lend);
    }
}

/// The tokens of `s[p, lend)`: maximal runs of non-separator characters,
/// each with the offset at which it starts.
pub open spec fn tokens_from(s: Seq<char>, p: int, lend: int) -> Seq<SpecTok>
    decreases lend - p,
    when 0 <= p <= lend <= s.len()
    via tokens_from_dec
{
    if p >= lend {
        Seq::empty()
    } else if is_sep(s[p]) {
        tokens_from(s, p + 1, lend)
    } else {
        let e = token_end(s, p + 1, lend);
        seq![SpecTok { start: p as nat, text: s.subrange(p, e) }] + tokens_from(s, e, lend)
    }
}

#[via_fn]
proof fn tokens_from_dec(s: Seq<char>, p: int, lend: int) {
    if 0 <= p < lend && !is_sep(s[p]) {
        lemma_token_end(s, p + 1, lend);
    }
}

pub open spec fn toks_view(toks: Seq<Tok>) -> Seq<SpecTok> {
    Seq::new(toks.len(), |i: int| SpecTok { start: toks[i].start as nat, text: toks[i].text@ })
}

/// A label, at the specification level.
#[verifier::ext_equal]
pub ghost struct SpecLabel {
    pub name: Seq<char>,
    pub kind: LabelKind,
    pub target: nat,
}

/// A recorded reference, at the specification level.
#[verifier::ext_equal]
pub ghost struct SpecRef {
    pub offset: nat,
    pub name: Seq<char>,
}

/// The bookkeeping the pass accumulates, at the specification level.
#[verifier::ext_equal]
pub ghost struct SpecState {
    pub labels: Seq<SpecLabel>,
    pub refs: Seq<SpecRef>,
    pub code: Seq<Seq<char>>,
    pub data: Seq<Seq<char>>,
    pub smap: Seq<nat>,
    pub counter: nat,
}

/// A failure of the single error channel, at the specification level; the
/// pass only raises the unrecognized-token shape.
#[verifier::ext_equal]
pub ghost struct SpecFailureV {
    pub start: nat,
    pub token: Seq<char>,
    pub expected: Seq<Seq<char>>,
}

pub open spec fn unrec_v(start: nat, token: Seq<char>) -> SpecFailureV {
    SpecFailureV { start, token, expected: Seq::empty() }
}

pub open spec fn custom_v(start: nat, msg: Seq<char>) -> SpecFailureV {
    SpecFailureV { start, token: Seq::empty(), expected: seq![msg] }
}

pub open spec fn table_view(t: &LabelTable) -> Seq<SpecLabel> {
    Seq::new(
        t.entries@.len(),
        |i: int|
            SpecLabel {
                name: t.entries@[i].name@,
                kind: t.entries@[i].kind,
                target: t.entries@[i].target as nat,
            },
    )
}

pub open spec fn refs_view(rs: Seq<LabelRef>) -> Seq<SpecRef> {
    Seq::new(rs.len(), |i: int| SpecRef { offset: rs[i].offset as nat, name: rs[i].name@ })
}

pub open spec fn texts_view(vs: Seq<Vec<char>>) -> Seq<Seq<char>> {
    Seq::new(vs.len(), |i: int| vs[i]@)
}

pub open spec fn smap_view(ms: Seq<usize>) -> Seq<nat> {
    Seq::new(ms.len(), |i: int| ms[i] as nat)
}

pub open spec fn mk_state(
    table: &LabelTable,
    refs: Seq<LabelRef>,
    code: Seq<Vec<char>>,
    data: Seq<Vec<char>>,
    smap: Seq<usize>,
    counter: nat,
) -> SpecState {
    SpecState {
        labels: table_view(table),
        refs: refs_view(refs),
        code: texts_view(code),
        data: texts_view(data),
        smap: smap_view(smap),
        counter,
    }
}

pub open spec fn labels_contain(labels: Seq<SpecLabel>, n: Seq<char>) -> bool {
    exists|i: int| 0 <= i < labels.len() && labels[i].name == n
}

pub open spec fn redefined_msg(name: Seq<char>) -> Seq<char> {
    "Label "@ + name + " is defined more than once"@
}

pub open spec fn range_msg() -> Seq<char> {
    "data value out of range"@
}

pub open spec fn too_large_msg() -> Seq<char> {
    "data segment too large"@
}

/// The texts of tokens `[k, m)` joined with single spaces.
pub open spec fn join_texts(toks: Seq<SpecTok>, k: int, m: int) -> Seq<char>
    decreases m,
    when 0 <= k < m <= toks.len()
{
    if m == k + 1 {
        toks[k].text
    } else {
        join_texts(toks, k, m - 1) + seq![' '] + toks[m - 1].text
    }
}

/// Index of the first operand from `m` on that is neither a register, a
/// number, nor an identifier; the length when all are well-formed.
pub open spec fn first_bad_operand(toks: Seq<SpecTok>, m: int) -> int
    decreases toks.len() - m,
    when 0 <= m <= toks.len()
{
    if m >= toks.len() {
        toks.len() as int
    } else if is_register_seq(toks[m].text) || is_number_seq(toks[m].text) || is_ident_seq(
        toks[m].text,
    ) {
        first_bad_operand(toks, m + 1)
    } else {
        m
    }
}

/// The references recorded for the operands from `m` on: every identifier
/// operand that is not a register and not a number, in order.
pub open spec fn operand_refs(toks: Seq<SpecTok>, m: int) -> Seq<SpecRef>
    decreases toks.len() - m,
    when 0 <= m <= toks.len()
{
    if m >= toks.len() {
        Seq::empty()
    } else if is_register_seq(toks[m].text) || is_number_seq(toks[m].text) {
        operand_refs(toks, m + 1)
    } else if is_ident_seq(toks[m].text) {
        seq![SpecRef { offset: toks[m].start, name: toks[m].text }] + operand_refs(toks, m + 1)
    } else {
        operand_refs(toks, m + 1)
    }
}

/// Index of the first token from `m` on that is not a digit run.
pub open spec fn first_nondigits(toks: Seq<SpecTok>, m: int) -> int
    decreases toks.len() - m,
    when 0 <= m <= toks.len()
{
    if m >= toks.len() {
        toks.len() as int
    } else if is_digits_seq(toks[m].text) {
        first_nondigits(toks, m + 1)
    } else {
        m
    }
}

/// What the statement `toks[k..]` does to the state: nothing when empty, a
/// data directive when it opens with `db`, else an instruction.
pub open spec fn statement_step(st: SpecState, toks: Seq<SpecTok>, k: int) -> Result<
    SpecState,
    SpecFailureV,
>
    recommends
        0 <= k <= toks.len(),
{
    if k >= toks.len() {
        Ok(st)
    } else if is_db_seq(toks[k].text) {
        let b = first_nondigits(toks, k + 1);
        if b < toks.len() {
            Err(unrec_v(toks[b].start, toks[b].text))
        } else {
            let text = join_texts(toks, k, toks.len() as int);
            match directive_spec(text) {
                None => Err(custom_v(toks[k].start, range_msg())),
                Some(bytes) => {
                    if st.counter + bytes.len() > usize::MAX {
                        Err(custom_v(toks[k].start, too_large_msg()))
                    } else {
                        Ok(
                            SpecState {
                                data: st.data.push(text),
                                counter: st.counter + bytes.len(),
                                ..st
                            },
                        )
                    }
                },
            }
        }
    } else if !is_ident_seq(toks[k].text) {
        Err(unrec_v(toks[k].start, toks[k].text))
    } else {
        let b = first_bad_operand(toks, k + 1);
        if b < toks.len() {
            Err(unrec_v(toks[b].start, toks[b].text))
        } else {
            Ok(
                SpecState {
                    refs: st.refs + operand_refs(toks, k + 1),
                    code: st.code.push(join_texts(toks, k, toks.len() as int)),
                    smap: st.smap.push(toks[k].start),
                    ..st
                },
            )
        }
    }
}

/// What one line's tokens do to the state: an optional label definition,
/// classified data when a `db` directive follows, then the statement.
pub open spec fn line_step(st: SpecState, toks: Seq<SpecTok>) -> Result<SpecState, SpecFailureV> {
    if toks.len() == 0 {
        Ok(st)
    } else {
        let t0 = toks[0];
        if t0.text.len() >= 1 && t0.text[t0.text.len() - 1] == ':' {
            let name = t0.text.subrange(0, t0.text.len() - 1);
            if !is_ident_seq(name) {
                Err(unrec_v(t0.start, t0.text))
            } else if labels_contain(st.labels, name) {
                Err(custom_v(t0.start, redefined_msg(name)))
            } else {
                let is_data = toks.len() >= 2 && is_db_seq(toks[1].text);
                let lbl = SpecLabel {
                    name,
                    kind: if is_data {
                        LabelKind::Data
                    } else {
                        LabelKind::Code
                    },
                    target: if is_data {
                        st.counter
                    } else {
                        st.code.len()
                    },
                };
                statement_step(SpecState { labels: st.labels.push(lbl), ..st }, toks, 1)
            }
        } else {
            statement_step(st, toks, 0)
        }
    }
}

/// Runs the line machine from position `i` to the end of the buffer.
pub open spec fn run_lines(st: SpecState, s: Seq<char>, i: int) -> Result<SpecState, SpecFailureV>
    decreases s.len() - i,
    when 0 <= i <= s.len()
    via run_lines_dec
{
    if i >= s.len() {
        Ok(st)
    } else {
        let lend = line_end(s, i);
        match line_step(st, tokens_from(s, i, lend)) {
            Err(f) => Err(f),
            Ok(st2) => run_lines(
                st2,
                s,
                if lend < s.len() {
                    lend + 1
                } else {
                    lend
                },
            ),
        }
    }
}

#[via_fn]
proof fn run_lines_dec(st: SpecState, s: Seq<char>, i: int) {
    if 0 <= i < s.len() {
        crate::source_index::lemma_line_end_bounds(s, i);
    }
}

pub open spec fn init_state() -> SpecState {
    SpecState {
        labels: Seq::empty(),
        refs: Seq::empty(),
        code: Seq::empty(),
        data: Seq::empty(),
        smap: Seq::empty(),
        counter: 0,
    }
}

/// What the pass computes on a whole buffer.
pub open spec fn parse_spec(s: Seq<char>) -> Result<SpecState, SpecFailureV> {
    run_lines(init_state(), s, 0)
}

/// A domain error disguised per the sentinel convention: empty token text,
/// message first among the expected entries.
fn custom_failure(start: usize, msg: Vec<char>) -> (f: ParseFailure)
    ensures
        match f {
            ParseFailure::Unrecognized { start: st, token, expected } => st == start && token@.len()
                == 0 && expected@.len() == 1 && expected@[0] == msg,
            _ => false,
        },
{
    let mut expected: Vec<Vec<char>> = Vec::new();
    expected.push(msg);
    ParseFailure::Unrecognized { start, token: Vec::new(), expected }
}

/// Membership in the table and in its specification view agree.
pub proof fn lemma_contains_view(t: &LabelTable, n: Seq<char>)
    ensures
        t.spec_contains(n) == labels_contain(table_view(t), n),
{
    if t.spec_contains(n) {
        let i = choose|i: int| 0 <= i < t.entries@.len() && t.entries@[i].name@ == n;
        assert(table_view(t)[i].name == n);
    }
    if labels_contain(table_view(t), n) {
        let i = choose|i: int| 0 <= i < table_view(t).len() && table_view(t)[i].name == n;
        assert(t.entries@[i].name@ == n);
    }
}

/// The bookkeeping invariant threaded through the pass, line by line.
pub open spec fn state_wf(
    table: &LabelTable,
    refs: Seq<LabelRef>,
    code: Seq<Vec<char>>,
    data: Seq<Vec<char>>,
    smap: Seq<usize>,
    data_counter: nat,
    s: Seq<char>,
) -> bool {
    &&& smap.len() == code.len()
    &&& forall|i: int| 0 <= i < smap.len() ==> #[trigger] smap[i] <= s.len()
    &&& table.wf()
    &&& forall|i: int|
        0 <= i < table.entries@.len() ==> ((#[trigger] table.entries@[i]).kind == LabelKind::Code
            ==> table.entries@[i].target <= code.len())
    &&& forall|i: int| 0 <= i < refs.len() ==> (#[trigger] refs[i]).offset <= s.len()
    &&& forall|i: int| 0 <= i < data.len() ==> directive_spec((#[trigger] data[i])@) is Some
    &&& data_counter == sum_sizes(data)
}

/// The specification view of a failure of the single error channel.
pub open spec fn failure_v(f: &ParseFailure) -> SpecFailureV
    recommends
        f is Unrecognized,
{
    match f {
        ParseFailure::Unrecognized { start, token, expected } => SpecFailureV {
            start: *start as nat,
            token: token@,
            expected: texts_view(expected@),
        },
        ParseFailure::Other { .. } => SpecFailureV {
            start: 0,
            token: Seq::empty(),
            expected: Seq::empty(),
        },
    }
}

/// Processes the tokens of one line: an optional label definition, then an
/// instruction or a data directive.  Computes exactly one `line_step` of the
/// line machine over the state views.
#[verifier::loop_isolation(false)]
fn process_line(
    clean: &Vec<char>,
    toks: &Vec<Tok>,
    table: &mut LabelTable,
    refs: &mut Vec<LabelRef>,
    code: &mut Vec<Vec<char>>,
    data: &mut Vec<Vec<char>>,
    smap: &mut Vec<usize>,
    data_counter: &mut usize,
) -> (r: Result<(), ParseFailure>)
    requires
        state_wf(
            old(table),
            old(refs)@,
            old(code)@,
            old(data)@,
            old(smap)@,
            *old(data_counter) as nat,
            clean@,
        ),
        toks_wf(toks@, clean@.len() as nat),
    ensures
        match r {
            Ok(()) => {
                &&& state_wf(
                    final(table),
                    final(refs)@,
                    final(code)@,
                    final(data)@,
                    final(smap)@,
                    *final(data_counter) as nat,
                    clean@,
                )
                &&& line_step(
                    mk_state(
                        old(table),
                        old(refs)@,
                        old(code)@,
                        old(data)@,
                        old(smap)@,
                        *old(data_counter) as nat,
                    ),
                    toks_view(toks@),
                ) == Ok::<SpecState, SpecFailureV>(
                    mk_state(
                        final(table),
                        final(refs)@,
                        final(code)@,
                        final(data)@,
                        final(smap)@,
                        *final(data_counter) as nat,
                    ),
                )
            },
            Err(f) => {
                &&& failure_wf(&f, clean@)
                &&& f is Unrecognized
                &&& line_step(
                    mk_state(
                        old(table),
                        old(refs)@,
                        old(code)@,
                        old(data)@,
                        old(smap)@,
                        *old(data_counter) as nat,
                    ),
                    toks_view(toks@),
                ) == Err::<SpecState, SpecFailureV>(failure_v(&f))
            },
        },
{
    let ghost st0 = mk_state(
        &*table,
        refs@,
        code@,
        data@,
        smap@,
        *data_counter as nat,
    );
    let ghost toksv = toks_view(toks@);
    if toks.len() == 0 {
        return Ok(());
    }
    proof {
        assert(toks@[0].text@.len() >= 1 && toks@[0].start + toks@[0].text@.len() <= clean@.len());
    }
    let mut k: usize = 0;
    let ghost mut st_mid = st0;
    let flen = toks[0].text.len();
    if toks[0].text[flen - 1] == ':' {
        let name = subrange_chars(&toks[0].text, 0, flen - 1);
        if !seq_is_ident(&name) {
            let token = copy_chars(&toks[0].text);
            let f = ParseFailure::Unrecognized {
                start: toks[0].start,
                token,
                expected: Vec::new(),
            };
            proof {
                assert(failure_v(&f) =~= unrec_v(toksv[0].start, toksv[0].text));
                assert(line_step(st0, toksv) == Err::<SpecState, SpecFailureV>(failure_v(&f)));
            }
            return Err(f);
        }
        let is_data = toks.len() >= 2 && seq_is_db(&toks[1].text);
        let target = if is_data {
            *data_counter
        } else {
            code.len()
        };
        let kind = if is_data {
            LabelKind::Data
        } else {
            LabelKind::Code
        };
        let name_copy = copy_chars(&name);
        proof {
            lemma_contains_view(&*table, name_copy@);
        }
        let fresh = table.define(Label { name, kind, target });
        if !fresh {
            let mut msg: Vec<char> = Vec::new();
            push_str_chars(&mut msg, "Label ");
            push_chars(&mut msg, &name_copy);
            push_str_chars(&mut msg, " is defined more than once");
            proof {
                assert(msg@ == redefined_msg(name_copy@));
            }
            let f = custom_failure(toks[0].start, msg);
            proof {
                assert(failure_v(&f) =~= custom_v(toksv[0].start, redefined_msg(name_copy@)));
                assert(line_step(st0, toksv) == Err::<SpecState, SpecFailureV>(failure_v(&f)));
            }
            return Err(f);
        }
        proof {
            let lbl = SpecLabel {
                name: name_copy@,
                kind,
                target: if is_data {
                    st0.counter
                } else {
                    st0.code.len()
                },
            };
            assert(table_view(&*table) =~= st0.labels.push(lbl));
            st_mid = SpecState { labels: st0.labels.push(lbl), ..st0 };
            assert(mk_state(&*table, refs@, code@, data@, smap@, *data_counter as nat)
                =~= st_mid);
            assert(line_step(st0, toksv) == statement_step(st_mid, toksv, 1));
        }
        k = 1;
    } else {
        proof {
            assert(line_step(st0, toksv) == statement_step(st0, toksv, 0));
        }
    }
    if k >= toks.len() {
        proof {
            assert(statement_step(st_mid, toksv, k as int) == Ok::<SpecState, SpecFailureV>(
                st_mid,
            ));
        }
        return Ok(());
    }
    if seq_is_db(&toks[k].text) {
        let mut text: Vec<char> = Vec::new();
        text.push('d');
        text.push('b');
        proof {
            assert(toksv[k as int].text =~= seq!['d', 'b']);
            assert(text@ =~= toksv[k as int].text);
        }
        let mut m: usize = k + 1;
        while m < toks.len()
            invariant
                k < m <= toks@.len(),
                toks_wf(toks@, clean@.len() as nat),
                toksv == toks_view(toks@),
                first_nondigits(toksv, k + 1) == first_nondigits(toksv, m as int),
                text@ == join_texts(toksv, k as int, m as int),
            decreases toks@.len() - m,
        {
            if !seq_is_digits(&toks[m].text) {
                let token = copy_chars(&toks[m].text);
                let f = ParseFailure::Unrecognized {
                    start: toks[m].start,
                    token,
                    expected: Vec::new(),
                };
                proof {
                    assert(failure_v(&f) =~= unrec_v(toksv[m as int].start, toksv[m as int].text));
                    assert(statement_step(st_mid, toksv, k as int) == Err::<
                        SpecState,
                        SpecFailureV,
                    >(failure_v(&f)));
                }
                return Err(f);
            }
            text.push(' ');
            push_chars(&mut text, &toks[m].text);
            proof {
                assert(text@ =~= join_texts(toksv, k as int, m as int) + seq![' ']
                    + toksv[m as int].text);
            }
            m = m + 1;
        }
        match parse_directive(&text) {
            Some(b) => {
                if b.len() > usize::MAX - *data_counter {
                    let mut msg: Vec<char> = Vec::new();
                    push_str_chars(&mut msg, "data segment too large");
                    let f = custom_failure(toks[k].start, msg);
                    proof {
                        assert(failure_v(&f) =~= custom_v(toksv[k as int].start, too_large_msg()));
                        assert(statement_step(st_mid, toksv, k as int) == Err::<
                            SpecState,
                            SpecFailureV,
                        >(failure_v(&f)));
                    }
                    return Err(f);
                }
                *data_counter = *data_counter + b.len();
                let ghost prev_data = data@;
                data.push(text);
                proof {
                    assert(data@.drop_last() =~= prev_data);
                    assert(sum_sizes(data@) == sum_sizes(prev_data) + b@.len());
                    assert(texts_view(data@) =~= st_mid.data.push(
                        join_texts(toksv, k as int, toksv.len() as int),
                    ));
                    assert(mk_state(&*table, refs@, code@, data@, smap@, *data_counter as nat)
                        =~= (SpecState {
                        data: st_mid.data.push(join_texts(toksv, k as int, toksv.len() as int)),
                        counter: st_mid.counter + b@.len(),
                        ..st_mid
                    }));
                    assert(statement_step(st_mid, toksv, k as int) == Ok::<
                        SpecState,
                        SpecFailureV,
                    >(mk_state(&*table, refs@, code@, data@, smap@, *data_counter as nat)));
                }
            },
            None => {
                let mut msg: Vec<char> = Vec::new();
                push_str_chars(&mut msg, "data value out of range");
                let f = custom_failure(toks[k].start, msg);
                proof {
                    assert(failure_v(&f) =~= custom_v(toksv[k as int].start, range_msg()));
                    assert(statement_step(st_mid, toksv, k as int) == Err::<
                        SpecState,
                        SpecFailureV,
                    >(failure_v(&f)));
                }
                return Err(f);
            },
        }
    } else {
        if !seq_is_ident(&toks[k].text) {
            let token = copy_chars(&toks[k].text);
            let f = ParseFailure::Unrecognized {
                start: toks[k].start,
                token,
                expected: Vec::new(),
            };
            proof {
                assert(failure_v(&f) =~= unrec_v(toksv[k as int].start, toksv[k as int].text));
                assert(statement_step(st_mid, toksv, k as int) == Err::<SpecState, SpecFailureV>(
                    failure_v(&f),
                ));
            }
            return Err(f);
        }
        let mut m: usize = k + 1;
        while m < toks.len()
            invariant
                k < m <= toks@.len(),
                toks_wf(toks@, clean@.len() as nat),
                toksv == toks_view(toks@),
                first_bad_operand(toksv, k + 1) == first_bad_operand(toksv, m as int),
                refs_view(refs@) + operand_refs(toksv, m as int) == refs_view(old(refs)@)
                    + operand_refs(toksv, k + 1),
                forall|i: int| 0 <= i < refs@.len() ==> (#[trigger] refs@[i]).offset <= clean@.len(),
            decreases toks@.len() - m,
        {
            let is_plain = seq_is_register(&toks[m].text) || seq_is_number(&toks[m].text);
            if is_plain {
            } else if seq_is_ident(&toks[m].text) {
                let ghost prev = refs@;
                refs.push(LabelRef { offset: toks[m].start, name: copy_chars(&toks[m].text) });
                proof {
                    let x = SpecRef { offset: toksv[m as int].start, name: toksv[m as int].text };
                    assert(refs_view(refs@) =~= refs_view(prev).push(x));
                    assert(operand_refs(toksv, m as int) == seq![x] + operand_refs(toksv, m + 1));
                    assert(refs_view(prev).push(x) + operand_refs(toksv, m + 1) =~= refs_view(prev)
                        + (seq![x] + operand_refs(toksv, m + 1)));
                }
            } else {
                let token = copy_chars(&toks[m].text);
                let f = ParseFailure::Unrecognized {
                    start: toks[m].start,
                    token,
                    expected: Vec::new(),
                };
                proof {
                    assert(first_bad_operand(toksv, k + 1) == m);
                    assert(failure_v(&f) =~= unrec_v(toksv[m as int].start, toksv[m as int].text));
                    assert(statement_step(st_mid, toksv, k as int) == Err::<
                        SpecState,
                        SpecFailureV,
                    >(failure_v(&f)));
                }
                return Err(f);
            }
            m = m + 1;
        }
        proof {
            assert(refs_view(refs@) + operand_refs(toksv, toksv.len() as int) =~= refs_view(
                refs@,
            ));
            assert(refs_view(refs@) =~= st_mid.refs + operand_refs(toksv, k + 1));
        }
        let mut text: Vec<char> = Vec::new();
        push_chars(&mut text, &toks[k].text);
        proof {
            assert(text@ =~= toksv[k as int].text);
        }
        let mut q: usize = k + 1;
        while q < toks.len()
            invariant
                k < q <= toks@.len(),
                toks_wf(toks@, clean@.len() as nat),
                toksv == toks_view(toks@),
                text@ == join_texts(toksv, k as int, q as int),
            decreases toks@.len() - q,
        {
            text.push(' ');
            push_chars(&mut text, &toks[q].text);
            proof {
                assert(text@ =~= join_texts(toksv, k as int, q as int) + seq![' ']
                    + toksv[q as int].text);
            }
            q = q + 1;
        }
        smap.push(toks[k].start);
        code.push(text);
        proof {
            assert(texts_view(code@) =~= st_mid.code.push(
                join_texts(toksv, k as int, toksv.len() as int),
            ));
            assert(smap_view(smap@) =~= st_mid.smap.push(toksv[k as int].start));
            assert(mk_state(&*table, refs@, code@, data@, smap@, *data_counter as nat)
                =~= (SpecState {
                refs: st_mid.refs + operand_refs(toksv, k + 1),
                code: st_mid.code.push(join_texts(toksv, k as int, toksv.len() as int)),
                smap: st_mid.smap.push(toksv[k as int].start),
                ..st_mid
            }));
            assert(statement_step(st_mid, toksv, k as int) == Ok::<SpecState, SpecFailureV>(
                mk_state(&*table, refs@, code@, data@, smap@, *data_counter as nat),
            ));
        }
    }
    Ok(())
}
/// Runs the preprocessing pass over the stripped buffer.
#[verifier::loop_isolation(false)]
pub fn parse_source(clean: &Vec<char>) -> (r: Result<
    (PreprocessorContext, PreprocessorOutput),
    ParseFailure,
>)
    ensures
        match r {
            Ok(a) => {
                &&& artifacts_wf(&a.0, &a.1, clean@)
                &&& parse_spec(clean@) == Ok::<SpecState, SpecFailureV>(
                    mk_state(
                        &a.0.label_table,
                        a.0.undefined_refs@,
                        a.1.code@,
                        a.1.data@,
                        a.1.source_map@,
                        a.0.data_counter as nat,
                    ),
                )
                &&& a.0.fn_table@.len() == 0
            },
            Err(f) => {
                &&& failure_wf(&f, clean@)
                &&& f is Unrecognized
                &&& parse_spec(clean@) == Err::<SpecState, SpecFailureV>(failure_v(&f))
            },
        },
{
    let mut table = LabelTable::new();
    let mut refs: Vec<LabelRef> = Vec::new();
    let mut code: Vec<Vec<char>> = Vec::new();
    let mut data: Vec<Vec<char>> = Vec::new();
    let mut smap: Vec<usize> = Vec::new();
    let mut data_counter: usize = 0;
    let mut i: usize = 0;
    proof {
        assert(mk_state(&table, refs@, code@, data@, smap@, data_counter as nat)
            =~= init_state());
    }
    while i < clean.len()
        invariant
            i <= clean@.len(),
            state_wf(&table, refs@, code@, data@, smap@, data_counter as nat, clean@),
            run_lines(
                mk_state(&table, refs@, code@, data@, smap@, data_counter as nat),
                clean@,
                i as int,
            ) == parse_spec(clean@),
        decreases clean@.len() - i,
    {
        let mut lend: usize = i;
        while lend < clean.len() && clean[lend] != '\n'
            invariant
                i <= lend <= clean@.len(),
                line_end(clean@, i as int) == line_end(clean@, lend as int),
            decreases clean@.len() - lend,
        {
            lend = lend + 1;
        }
        proof {
            assert(line_end(clean@, lend as int) == lend);
        }
        let toks = tokenize_line(clean, i, lend);
        proof {
            assert(toks_wf(toks@, clean@.len() as nat));
        }
        match process_line(
            clean,
            &toks,
            &mut table,
            &mut refs,
            &mut code,
            &mut data,
            &mut smap,
            &mut data_counter,
        ) {
            Ok(()) => {},
            Err(f) => {
                return Err(f);
            },
        }
        if lend < clean.len() {
            i = lend + 1;
        } else {
            i = lend;
        }
    }
    let ctx = PreprocessorContext {
        label_table: table,
        undefined_refs: refs,
        data_counter,
        fn_table: Vec::new(),
    };
    let out = PreprocessorOutput { code, data, source_map: smap };
    Ok((ctx, out))
}

} // verus!
