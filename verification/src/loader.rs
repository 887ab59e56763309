//! Data directives and the data segment loader.  A directive has the form
//! `db` followed by decimal byte values, each preceded by one space.  The
//! loader walks the directives in source order, parses each, and writes its
//! bytes into the memory image at a forward-only allocation counter.
//!
//! Directive syntax was already validated during preprocessing, so a parse
//! failure here is an internal invariant violation, not a user error.

use crate::vm::{mem_written, MEM_SIZE, VM};
use vstd::prelude::*;

verus! {

pub open spec fn is_digit(c: char) -> bool {
    48 <= c as int <= 57
}

pub open spec fn digit_val(c: char) -> nat
    recommends
        is_digit(c),
{
    ((c as int) - 48) as nat
}

/// Index of the first non-digit character at or after `i`, or the length.
pub open spec fn digits_end(s: Seq<char>, i: int) -> int
    decreases s.len() - i,
    when 0 <= i <= s.len()
{
    if i >= s.len() {
        s.len() as int
    } else if !is_digit(s[i]) {
        i
    } else {
        digits_end(s, i + 1)
    }
}

pub proof fn lemma_digits_end(s: Seq<char>, i: int)
    requires
        0 <= i <= s.len(),
    ensures
        i <= digits_end(s, i) <= s.len(),
    decreases s.len() - i,
{
    if i < s.len() && is_digit(s[i]) {
        lemma_digits_end(s, i + 1);
    }
}

/// Value of the decimal digit run `s[i..j)`.
pub open spec fn num_val(s: Seq<char>, i: int, j: int) -> nat
    decreases j - i,
    when i <= j
{
    if j <= i {
        0
    } else {
        num_val(s, i, j - 1) * 10 + digit_val(s[j - 1])
    }
}

/// The byte values encoded after the `db` keyword, starting at `i`: each is
/// one space, then a run of digits with value at most 255.
pub open spec fn parse_vals(s: Seq<char>, i: int) -> Option<Seq<u8>>
    decreases s.len() - i,
    when 0 <= i <= s.len()
    via parse_vals_dec
{
    if i >= s.len() {
        Some(Seq::empty())
    } else if s[i] == ' ' {
        let j = digits_end(s, i + 1);
        if j == i + 1 {
            None
        } else if num_val(s, i + 1, j) > 255 {
            None
        } else {
            match parse_vals(s, j) {
                None => None,
                Some(rest) => Some(seq![num_val(s, i + 1, j) as u8] + rest),
            }
        }
    } else {
        None
    }
}

#[via_fn]
proof fn parse_vals_dec(s: Seq<char>, i: int) {
    if 0 <= i < s.len() {
        lemma_digits_end(s, i + 1);
    }
}

/// What a data directive denotes: its byte values, or nothing when it is
/// malformed.
pub open spec fn directive_spec(s: Seq<char>) -> Option<Seq<u8>> {
    if s.len() >= 2 && s[0] == 'd' && s[1] == 'b' {
        parse_vals(s, 2)
    } else {
        None
    }
}

/// Number of bytes a directive occupies; zero for a malformed one.
pub open spec fn directive_size(s: Seq<char>) -> nat {
    match directive_spec(s) {
        Some(b) => b.len(),
        None => 0,
    }
}

/// Total size occupied by the directives, in order.
pub open spec fn sum_sizes(ds: Seq<Vec<char>>) -> nat
    decreases ds.len(),
{
    if ds.len() == 0 {
        0
    } else {
        sum_sizes(ds.drop_last()) + directive_size(ds.last()@)
    }
}

/// Across a run of the loader the allocation counter never decreases: the
/// space taken by any prefix of the directives is at most the space taken by
/// a longer prefix.
pub proof fn lemma_alloc_monotonic(ds: Seq<Vec<char>>, i: int, j: int)
    requires
        0 <= i <= j <= ds.len(),
    ensures
        sum_sizes(ds.take(i)) <= sum_sizes(ds.take(j)),
    decreases j,
{
    if i < j {
        lemma_alloc_monotonic(ds, i, j - 1);
        assert(ds.take(j).drop_last() =~= ds.take(j - 1));
        assert(sum_sizes(ds.take(j)) == sum_sizes(ds.take(j - 1)) + directive_size(
            ds.take(j).last()@,
        ));
    }
}

pub open spec fn all_parse(ds: Seq<Vec<char>>) -> bool {
    forall|k: int| 0 <= k < ds.len() ==> directive_spec(#[trigger] ds[k]@) is Some
}

fn ch_is_digit(c: char) -> (r: bool)
    ensures
        r == is_digit(c),
{
    let v = c as u32;
    48 <= v && v <= 57
}

/// Parses one data directive into its byte values.
pub fn parse_directive(d: &Vec<char>) -> (r: Option<Vec<u8>>)
    ensures
        match r {
            Some(v) => directive_spec(d@) == Some(v@),
            None => directive_spec(d@) is None,
        },
{
    if d.len() < 2 || d[0] != 'd' || d[1] != 'b' {
        return None;
    }
    let mut out: Vec<u8> = Vec::new();
    let mut i: usize = 2;
    proof {
        if parse_vals(d@, 2) is Some {
            assert(out@ + parse_vals(d@, 2).unwrap() =~= parse_vals(d@, 2).unwrap());
        }
    }
    while i < d.len()
        invariant
            2 <= i <= d@.len(),
            match parse_vals(d@, i as int) {
                Some(rest) => directive_spec(d@) == Some(out@ + rest),
                None => directive_spec(d@) is None,
            },
        decreases d@.len() - i,
    {
        if d[i] != ' ' {
            return None;
        }
        let start = i + 1;
        let mut j: usize = start;
        let mut v: u32 = 0;
        while j < d.len() && ch_is_digit(d[j])
            invariant
                start <= j <= d@.len(),
                start <= d@.len(),
                digits_end(d@, start as int) == digits_end(d@, j as int),
                v <= 256,
                (v <= 255 && v == num_val(d@, start as int, j as int)) || (v == 256 && num_val(
                    d@,
                    start as int,
                    j as int,
                ) > 255),
            decreases d@.len() - j,
        {
            let dv = (d[j] as u32) - 48;
            proof {
                assert(num_val(d@, start as int, j + 1) == num_val(d@, start as int, j as int) * 10
                    + digit_val(d@[j as int]));
            }
            if v > 255 {
                v = 256;
            } else {
                let nv = v * 10 + dv;
                if nv > 255 {
                    v = 256;
                } else {
                    v = nv;
                }
            }
            j = j + 1;
        }
        proof {
            assert(digits_end(d@, j as int) == j);
        }
        if j == start {
            return None;
        }
        if v > 255 {
            return None;
        }
        out.push(v as u8);
        proof {
            let jj = j as int;
            let nv = num_val(d@, start as int, jj);
            assert(parse_vals(d@, i as int) == (match parse_vals(d@, jj) {
                None => None::<Seq<u8>>,
                Some(rest) => Some(seq![nv as u8] + rest),
            }));
            if parse_vals(d@, jj) is Some {
                let rest = parse_vals(d@, jj).unwrap();
                assert(out@ + rest =~= out@.drop_last() + (seq![nv as u8] + rest));
            }
        }
        i = j;
    }
    proof {
        assert(parse_vals(d@, d@.len() as int) == Some(Seq::<u8>::empty()));
        assert(out@ + Seq::<u8>::empty() =~= out@);
    }
    Some(out)
}

/// The memory image after loading directives `i` and on at offset `at`.
pub open spec fn load_image(mem: Seq<u8>, at: int, ds: Seq<Vec<char>>, i: int) -> Seq<u8>
    decreases ds.len() - i,
    when 0 <= i <= ds.len()
{
    if i >= ds.len() {
        mem
    } else {
        match directive_spec(ds[i]@) {
            None => mem,
            Some(b) => load_image(mem_written(mem, at, b), at + b.len(), ds, i + 1),
        }
    }
}

/// A failure of the loader: never a user error, since preprocessing already
/// validated directive syntax.
pub enum DataError {
    /// A directive failed to parse here after preprocessing accepted it.
    Unparsable { index: usize },
    /// A directive would run past the end of the memory image.
    OutOfMemory { index: usize },
}

/// Walks the directives in order, writing each into the image at the current
/// allocation counter and advancing the counter by exactly the number of
/// bytes the directive occupies.
pub fn load_data(vm: &mut VM, ctr: &mut usize, directives: &Vec<Vec<char>>) -> (r: Result<
    (),
    DataError,
>)
    requires
        old(vm).wf(),
        *old(ctr) <= MEM_SIZE,
    ensures
        final(vm).wf(),
        match r {
            Ok(()) => {
                &&& all_parse(directives@)
                &&& *old(ctr) + sum_sizes(directives@) <= MEM_SIZE
                &&& *final(ctr) == *old(ctr) + sum_sizes(directives@)
                &&& final(vm).mem@ == load_image(
                    old(vm).mem@,
                    *old(ctr) as int,
                    directives@,
                    0,
                )
            },
            Err(DataError::Unparsable { index }) => {
                &&& 0 <= index < directives@.len()
                &&& directive_spec(directives@[index as int]@) is None
                &&& forall|k: int|
                    0 <= k < index ==> directive_spec(#[trigger] directives@[k]@) is Some
                &&& *final(ctr) == *old(ctr) + sum_sizes(directives@.take(index as int))
            },
            Err(DataError::OutOfMemory { index }) => {
                &&& 0 <= index < directives@.len()
                &&& directive_spec(directives@[index as int]@) is Some
                &&& forall|k: int|
                    0 <= k <= index ==> directive_spec(#[trigger] directives@[k]@) is Some
                &&& *old(ctr) + sum_sizes(directives@.take(index + 1)) > MEM_SIZE
                &&& *old(ctr) + sum_sizes(directives@) > MEM_SIZE
                &&& *final(ctr) == *old(ctr) + sum_sizes(directives@.take(index as int))
            },
        },
{
    let ghost ds = directives@;
    let mut i: usize = 0;
    while i < directives.len()
        invariant
            ds == directives@,
            old(vm).wf(),
            vm.wf(),
            i <= ds.len(),
            *ctr == *old(ctr) + sum_sizes(ds.take(i as int)),
            *ctr <= MEM_SIZE,
            forall|k: int| 0 <= k < i ==> directive_spec(#[trigger] ds[k]@) is Some,
            load_image(vm.mem@, *ctr as int, ds, i as int) == load_image(
                old(vm).mem@,
                *old(ctr) as int,
                ds,
                0,
            ),
        decreases ds.len() - i,
    {
        let bytes = match parse_directive(&directives[i]) {
            Some(b) => b,
            None => {
                return Err(DataError::Unparsable { index: i });
            },
        };
        proof {
            assert(ds.take(i + 1).drop_last() =~= ds.take(i as int));
            assert(ds.take(i + 1).last() == ds[i as int]);
        }
        let at = *ctr;
        if !vm.store_bytes(at, &bytes) {
            proof {
                lemma_alloc_monotonic(ds, i + 1, ds.len() as int);
                assert(ds.take(ds.len() as int) =~= ds);
            }
            return Err(DataError::OutOfMemory { index: i });
        }
        *ctr = at + bytes.len();
        i = i + 1;
    }
    proof {
        assert(ds.take(ds.len() as int) =~= ds);
    }
    Ok(())
}

} // verus!
