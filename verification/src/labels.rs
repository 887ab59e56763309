//! The label table and its validator.  A label names either an instruction
//! position (code) or a data allocation offset (data).  References may
//! precede definitions: the preprocessing pass records every reference, and
//! after it completes each recorded name must resolve in the table, and a
//! code label named `start` must exist.

use crate::text::{copy_chars, eq_chars, push_str_chars};
use vstd::prelude::*;

verus! {

#[derive(Clone, Copy, PartialEq, Eq, Structural)]
pub enum LabelKind {
    Code,
    Data,
}

/// A named symbolic reference to an instruction index (code) or an
/// allocation offset (data).
pub struct Label {
    pub name: Vec<char>,
    pub kind: LabelKind,
    pub target: usize,
}

/// A label referenced before its definition was known to be valid.
pub struct LabelRef {
    pub offset: usize,
    pub name: Vec<char>,
}

/// The resolved symbol table: labels unique by name.
pub struct LabelTable {
    pub entries: Vec<Label>,
}

impl LabelTable {
    /// Names are unique.
    pub open spec fn wf(&self) -> bool {
        forall|i: int, j: int|
            0 <= i < j < self.entries@.len() ==> self.entries@[i].name@ != self.entries@[j].name@
    }

    pub open spec fn spec_contains(&self, n: Seq<char>) -> bool {
        exists|i: int| 0 <= i < self.entries@.len() && self.entries@[i].name@ == n
    }

    /// The entry under name `n`, when one exists.
    pub open spec fn spec_get(&self, n: Seq<char>) -> Label {
        self.entries@[choose|i: int| 0 <= i < self.entries@.len() && self.entries@[i].name@ == n]
    }

    pub fn new() -> (r: LabelTable)
        ensures
            r.wf(),
            r.entries@.len() == 0,
    {
        LabelTable { entries: Vec::new() }
    }

    /// Looks a name up.
    pub fn get<'a>(&'a self, name: &Vec<char>) -> (r: Option<&'a Label>)
        requires
            self.wf(),
        ensures
            match r {
                Some(l) => self.spec_contains(name@) && *l == self.spec_get(name@)
                    && l.name@ == name@,
                None => !self.spec_contains(name@),
            },
    {
        let mut i: usize = 0;
        while i < self.entries.len()
            invariant
                self.wf(),
                i <= self.entries@.len(),
                forall|k: int| 0 <= k < i ==> self.entries@[k].name@ != name@,
            decreases self.entries@.len() - i,
        {
            if eq_chars(&self.entries[i].name, name) {
                proof {
                    let w = choose|k: int|
                        0 <= k < self.entries@.len() && self.entries@[k].name@ == name@;
                    assert(w == i);
                }
                return Some(&self.entries[i]);
            }
            i = i + 1;
        }
        None
    }

    /// Adds a label; refused when the name is already bound.
    pub fn define(&mut self, l: Label) -> (r: bool)
        requires
            old(self).wf(),
        ensures
            final(self).wf(),
            r == !old(self).spec_contains(l.name@),
            r ==> final(self).entries@ == old(self).entries@.push(l),
            !r ==> final(self).entries@ == old(self).entries@,
    {
        let present = match self.get(&l.name) {
            Some(_) => true,
            None => false,
        };
        if present {
            false
        } else {
            self.entries.push(l);
            true
        }
    }
}

/// Every recorded reference resolves in the table.
pub open spec fn refs_closed(table: &LabelTable, refs: Seq<LabelRef>) -> bool {
    forall|i: int| 0 <= i < refs.len() ==> table.spec_contains(#[trigger] refs[i].name@)
}

/// Index of the first reference that does not resolve, scanning from `i`;
/// the length when all resolve.
pub open spec fn first_open_ref(table: &LabelTable, refs: Seq<LabelRef>, i: int) -> int
    decreases refs.len() - i,
    when 0 <= i <= refs.len()
{
    if i >= refs.len() {
        refs.len() as int
    } else if !table.spec_contains(refs[i].name@) {
        i
    } else {
        first_open_ref(table, refs, i + 1)
    }
}

/// Checks every deferred reference against the table.  Returns the first
/// unresolved reference, when one exists.
pub fn validate_refs(table: &LabelTable, refs: &Vec<LabelRef>) -> (r: Option<LabelRef>)
    requires
        table.wf(),
    ensures
        match r {
            None => refs_closed(table, refs@),
            Some(bad) => {
                let k = first_open_ref(table, refs@, 0);
                &&& !refs_closed(table, refs@)
                &&& 0 <= k < refs@.len()
                &&& bad.offset == refs@[k].offset
                &&& bad.name@ == refs@[k].name@
            },
        },
{
    let mut i: usize = 0;
    while i < refs.len()
        invariant
            table.wf(),
            i <= refs@.len(),
            forall|k: int| 0 <= k < i ==> table.spec_contains(#[trigger] refs@[k].name@),
            first_open_ref(table, refs@, 0) == first_open_ref(table, refs@, i as int),
        decreases refs@.len() - i,
    {
        match table.get(&refs[i].name) {
            Some(_) => {},
            None => {
                return Some(
                    LabelRef { offset: refs[i].offset, name: copy_chars(&refs[i].name) },
                );
            },
        }
        i = i + 1;
    }
    None
}

/// Builds the entry-point name.
pub fn start_name() -> (r: Vec<char>)
    ensures
        r@ == "start"@,
{
    let mut v: Vec<char> = Vec::new();
    push_str_chars(&mut v, "start");
    proof {
        assert(v@ =~= "start"@);
    }
    v
}

/// The table holds an entry point: a label named `start` of kind code.
pub open spec fn has_entry(table: &LabelTable) -> bool {
    table.spec_contains("start"@) && table.spec_get("start"@).kind == LabelKind::Code
}

/// Looks the entry point up.  A `start` label of kind data counts as absent:
/// execution cannot begin at a data offset.
pub fn entry_point(table: &LabelTable) -> (r: Option<usize>)
    requires
        table.wf(),
    ensures
        match r {
            Some(ix) => has_entry(table) && ix == table.spec_get("start"@).target,
            None => !has_entry(table),
        },
{
    let name = start_name();
    match table.get(&name) {
        Some(l) => match l.kind {
            LabelKind::Code => Some(l.target),
            LabelKind::Data => None,
        },
        None => None,
    }
}

} // verus!
