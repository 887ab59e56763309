//! Comment stripping: an end-of-line comment runs from a `;` to the end of
//! its line.  Stripping replaces each comment, together with the line
//! terminator that closes it (when there is one), by a single `'\n'`, so a
//! comment that reaches the end of the input still closes its line in the
//! output.  Line structure is preserved exactly: later position reporting
//! indexes into the stripped buffer.

use vstd::prelude::*;

verus! {

/// One left-to-right pass from position `i`; `inc` says whether the scan
/// currently stands inside a comment.
pub open spec fn strip_rec(s: Seq<char>, i: int, inc: bool) -> Seq<char>
    decreases s.len() - i,
    when 0 <= i
{
    if i >= s.len() {
        if inc {
            seq!['\n']
        } else {
            Seq::empty()
        }
    } else if inc {
        if s[i] == '\n' {
            seq!['\n'] + strip_rec(s, i + 1, false)
        } else {
            strip_rec(s, i + 1, true)
        }
    } else {
        if s[i] == ';' {
            strip_rec(s, i + 1, true)
        } else {
            seq![s[i]] + strip_rec(s, i + 1, false)
        }
    }
}

/// What stripping returns on a whole buffer.
pub open spec fn strip_spec(s: Seq<char>) -> Seq<char> {
    strip_rec(s, 0, false)
}

/// Number of `'\n'` characters in `s` from position `i` on.
pub open spec fn newlines_from(s: Seq<char>, i: int) -> nat
    decreases s.len() - i,
    when 0 <= i
{
    if i >= s.len() {
        0
    } else {
        (if s[i] == '\n' {
            1nat
        } else {
            0nat
        }) + newlines_from(s, i + 1)
    }
}

/// Number of `'\n'` characters in `s`.
pub open spec fn count_newlines(s: Seq<char>) -> nat {
    newlines_from(s, 0)
}

/// Number of lines of `s`: every `'\n'` closes a line, and trailing
/// characters after the last `'\n'` form one more line.
pub open spec fn count_lines(s: Seq<char>) -> nat {
    count_newlines(s) + (if s.len() > 0 && s[s.len() - 1] != '\n' {
        1nat
    } else {
        0nat
    })
}

/// Whether the scan from position `i` with comment flag `inc` ends inside a
/// comment that no `'\n'` closes.
pub open spec fn tail_open(s: Seq<char>, i: int, inc: bool) -> bool
    decreases s.len() - i,
    when 0 <= i
{
    if i >= s.len() {
        inc
    } else if inc {
        if s[i] == '\n' {
            tail_open(s, i + 1, false)
        } else {
            tail_open(s, i + 1, true)
        }
    } else {
        if s[i] == ';' {
            tail_open(s, i + 1, true)
        } else {
            tail_open(s, i + 1, false)
        }
    }
}

/// How the scan's output relates to the newlines of the remaining input: the
/// output has the remaining newlines, plus one when the input ends inside an
/// unterminated comment; it is empty only when nothing remains; and it ends
/// with `'\n'` exactly when the remaining input does, or ends inside a
/// comment.
proof fn lemma_strip_rec_lines(s: Seq<char>, i: int, inc: bool)
    requires
        0 <= i <= s.len(),
    ensures
        count_newlines(strip_rec(s, i, inc)) == newlines_from(s, i) + (if tail_open(s, i, inc) {
            1nat
        } else {
            0nat
        }),
        strip_rec(s, i, inc).len() == 0 <==> (i == s.len() && !inc),
        strip_rec(s, i, inc).len() > 0 ==> (strip_rec(s, i, inc).last() == '\n' <==> (tail_open(
            s,
            i,
            inc,
        ) || (i < s.len() && s[s.len() - 1] == '\n'))),
        tail_open(s, i, inc) && i < s.len() ==> s[s.len() - 1] != '\n',
    decreases s.len() - i,
{
    if i == s.len() {
        if inc {
            assert(strip_rec(s, i, inc) == seq!['\n']);
            assert(newlines_from(seq!['\n'], 1) == 0);
            assert(count_newlines(seq!['\n']) == 1);
        } else {
            assert(count_newlines(Seq::<char>::empty()) == 0);
        }
    } else {
        let inc2 = if inc {
            s[i] != '\n'
        } else {
            s[i] == ';'
        };
        lemma_strip_rec_lines(s, i + 1, inc2);
        let rest = strip_rec(s, i + 1, inc2);
        assert(newlines_from(s, i) == (if s[i] == '\n' {
            1nat
        } else {
            0nat
        }) + newlines_from(s, i + 1));
        assert(tail_open(s, i, inc) == tail_open(s, i + 1, inc2));
        if (inc && s[i] == '\n') || (!inc && s[i] != ';') {
            let c = if inc {
                '\n'
            } else {
                s[i]
            };
            assert(strip_rec(s, i, inc) == seq![c] + rest);
            assert((seq![c] + rest).skip(1) =~= rest);
            assert((seq![c] + rest)[0] == c);
            assert(count_newlines(seq![c] + rest) == (if c == '\n' {
                1nat
            } else {
                0nat
            }) + count_newlines(rest)) by {
                assert(newlines_from(seq![c] + rest, 0) == (if (seq![c] + rest)[0] == '\n' {
                    1nat
                } else {
                    0nat
                }) + newlines_from(seq![c] + rest, 1));
                lemma_newlines_shift(seq![c] + rest, rest, 1);
            }
            if rest.len() > 0 {
                assert((seq![c] + rest).last() == rest.last());
            } else {
                assert(i + 1 == s.len() && !inc2);
                assert((seq![c] + rest).last() == c);
                if inc {
                    assert(s[s.len() - 1] == '\n');
                }
            }
            if i + 1 == s.len() && s[i] == '\n' {
                assert(!tail_open(s, i, inc));
            }
        } else {
            assert(strip_rec(s, i, inc) == rest);
        }
    }
}

/// Counting newlines from position `d` of `b` equals counting them in the
/// sequence `r` that `b` matches from `d` on.
proof fn lemma_newlines_shift(b: Seq<char>, r: Seq<char>, d: int)
    requires
        0 <= d <= b.len(),
        r =~= b.skip(d),
    ensures
        newlines_from(b, d) == newlines_from(r, 0),
    decreases b.len() - d,
{
    if d < b.len() {
        lemma_newlines_shift(b, r.skip(1), d + 1);
        assert(r.skip(1) =~= b.skip(d + 1));
        assert(newlines_from(r, 0) == (if r[0] == '\n' {
            1nat
        } else {
            0nat
        }) + newlines_from(r, 1));
        lemma_newlines_shift(r, r.skip(1), 1);
    }
}

/// Stripping preserves the line count.
pub proof fn lemma_strip_preserves_line_count(s: Seq<char>)
    ensures
        count_lines(strip_spec(s)) == count_lines(s),
{
    lemma_strip_rec_lines(s, 0, false);
    let t = strip_spec(s);
    if tail_open(s, 0, false) {
        assert(s.len() > 0);
        assert(s[s.len() - 1] != '\n');
        assert(t.len() > 0 && t.last() == '\n');
        assert(count_lines(t) == count_newlines(s) + 1);
        assert(count_lines(s) == count_newlines(s) + 1);
    } else {
        if s.len() == 0 {
            assert(t.len() == 0);
        } else {
            assert(t.len() > 0);
            assert(t.last() == '\n' <==> s[s.len() - 1] == '\n');
        }
    }
}

/// The scan's output never holds a `;`.
proof fn lemma_strip_rec_no_semi(s: Seq<char>, i: int, inc: bool)
    requires
        0 <= i <= s.len(),
    ensures
        forall|k: int| 0 <= k < strip_rec(s, i, inc).len() ==> strip_rec(s, i, inc)[k] != ';',
    decreases s.len() - i,
{
    if i < s.len() {
        let inc2 = if inc {
            s[i] != '\n'
        } else {
            s[i] == ';'
        };
        lemma_strip_rec_no_semi(s, i + 1, inc2);
        let rest = strip_rec(s, i + 1, inc2);
        if (inc && s[i] == '\n') || (!inc && s[i] != ';') {
            let c = if inc {
                '\n'
            } else {
                s[i]
            };
            assert(strip_rec(s, i, inc) == seq![c] + rest);
            assert forall|k: int| 0 <= k < (seq![c] + rest).len() implies (seq![c] + rest)[k]
                != ';' by {
                if k == 0 {
                    assert((seq![c] + rest)[0] == c);
                } else {
                    assert((seq![c] + rest)[k] == rest[k - 1]);
                }
            }
        }
    }
}

/// On input without `;` from position `i` on, the scan copies the input.
proof fn lemma_strip_rec_id(s: Seq<char>, i: int)
    requires
        0 <= i <= s.len(),
        forall|k: int| i <= k < s.len() ==> s[k] != ';',
    ensures
        strip_rec(s, i, false) =~= s.skip(i),
    decreases s.len() - i,
{
    if i < s.len() {
        lemma_strip_rec_id(s, i + 1);
    }
}

/// Stripping is idempotent.
pub proof fn lemma_strip_idempotent(s: Seq<char>)
    ensures
        strip_spec(strip_spec(s)) == strip_spec(s),
{
    let t = strip_spec(s);
    lemma_strip_rec_no_semi(s, 0, false);
    lemma_strip_rec_id(t, 0);
    assert(t.skip(0) =~= t);
}

/// Stripping never lengthens the input: each comment, `;` included, becomes
/// one `'\n'`.
pub proof fn lemma_strip_len(s: Seq<char>)
    ensures
        strip_spec(s).len() <= s.len(),
{
    lemma_strip_rec_len(s, 0, false);
}

proof fn lemma_strip_rec_len(s: Seq<char>, i: int, inc: bool)
    requires
        0 <= i <= s.len(),
    ensures
        strip_rec(s, i, inc).len() <= s.len() - i + if inc {
            1int
        } else {
            0int
        },
    decreases s.len() - i,
{
    if i < s.len() {
        lemma_strip_rec_len(s, i + 1, if inc { s[i] != '\n' } else { s[i] == ';' });
    }
}

/// Removes end-of-line comments, replacing each by a single `'\n'`.
pub fn strip_comments(input: &Vec<char>) -> (out: Vec<char>)
    ensures
        out@ == strip_spec(input@),
{
    let mut out: Vec<char> = Vec::new();
    let mut in_comment: bool = false;
    let mut i: usize = 0;
    while i < input.len()
        invariant
            i <= input@.len(),
            strip_spec(input@) == out@ + strip_rec(input@, i as int, in_comment),
        decreases input@.len() - i,
    {
        let c = input[i];
        if in_comment {
            if c == '\n' {
                out.push('\n');
                in_comment = false;
                proof {
                    assert(out@ + strip_rec(input@, i + 1, false) =~= out@.drop_last() + (
                    seq!['\n'] + strip_rec(input@, i + 1, false)));
                }
            }
        } else {
            if c == ';' {
                in_comment = true;
            } else {
                out.push(c);
                proof {
                    assert(out@ + strip_rec(input@, i + 1, false) =~= out@.drop_last() + (
                    seq![input@[i as int]] + strip_rec(input@, i + 1, false)));
                }
            }
        }
        i = i + 1;
    }
    if in_comment {
        out.push('\n');
        proof {
            assert(out@ =~= out@.drop_last() + strip_rec(input@, input@.len() as int, true));
        }
    }
    proof {
        assert(out@ + strip_rec(input@, input@.len() as int, false) =~= out@);
    }
    out
}

} // verus!
