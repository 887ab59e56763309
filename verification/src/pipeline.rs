//! The staged pipeline: strip comments, run the preprocessing pass, resolve
//! every deferred label reference, locate the entry point, append the
//! terminal halt instruction, load the data segment, and assemble the
//! execution driver.  Each stage either proceeds or returns a terminal
//! error; there is no retry or partial recovery.

use crate::errors::{render_asm_error, translate_parse_error, translate_spec, translate_v, AsmError};
use crate::grammar::{
    artifacts_wf, failure_v, labels_contain, lemma_contains_view, mk_state, parse_source,
    parse_spec, refs_view, smap_view, table_view, texts_view, ParseFailure, PreprocessorContext,
    PreprocessorOutput, SpecFailureV, SpecLabel, SpecState,
};
use crate::labels::{
    entry_point, first_open_ref, has_entry, refs_closed, validate_refs, LabelKind, LabelRef,
    LabelTable,
};
use crate::loader::{all_parse, directive_spec, load_data, load_image, sum_sizes, DataError};
use crate::source_index::{line_number, SourceIndex};
use crate::strip::{lemma_strip_len, strip_comments, strip_spec};
use crate::text::{chars_of, copy_chars, push_str_chars};
use crate::vm::{MEM_SIZE, VM};
use vstd::prelude::*;

verus! {

/// The execution context handed to the execution engine: function table,
/// label table, and an empty call stack.  This pipeline only populates it.
pub struct InterpreterContext {
    pub fn_table: Vec<crate::labels::Label>,
    pub label_table: LabelTable,
    pub call_stack: Vec<usize>,
}

/// The terminal artifact: entry point, its source line, the initialized
/// memory image, the stripped source, the per-buffer line index, the output
/// bundle (code, data, and the position map), and the execution context.
pub struct Driver {
    pub entry_index: usize,
    pub entry_line: usize,
    pub vm: VM,
    pub source: Vec<char>,
    pub index: SourceIndex,
    pub output: PreprocessorOutput,
    pub context: InterpreterContext,
}

/// The zero-initialized memory image.
pub open spec fn zero_mem() -> Seq<u8> {
    Seq::new(MEM_SIZE as nat, |i: int| 0u8)
}

/// Every recorded reference of the state resolves among its labels.
pub open spec fn spec_closed(st: SpecState) -> bool {
    forall|i: int|
        0 <= i < st.refs.len() ==> labels_contain(st.labels, (#[trigger] st.refs[i]).name)
}

/// The state's labels hold a code label named `start`.
pub open spec fn spec_has_start(labels: Seq<SpecLabel>) -> bool {
    exists|i: int|
        0 <= i < labels.len() && labels[i].name == "start"@ && labels[i].kind == LabelKind::Code
}

/// The target of the code label named `start`.
pub open spec fn spec_start_target(labels: Seq<SpecLabel>) -> nat {
    labels[choose|i: int|
        0 <= i < labels.len() && labels[i].name == "start"@ && labels[i].kind
            == LabelKind::Code].target
}

/// Index of the first reference of the state that does not resolve; the
/// number of references when all do.
pub open spec fn first_unresolved(st: SpecState, i: int) -> int
    decreases st.refs.len() - i,
    when 0 <= i <= st.refs.len()
{
    if i >= st.refs.len() {
        st.refs.len() as int
    } else if !labels_contain(st.labels, st.refs[i].name) {
        i
    } else {
        first_unresolved(st, i + 1)
    }
}

proof fn lemma_unique_name_index(table: &LabelTable, a: int, b: int)
    requires
        table.wf(),
        0 <= a < table.entries@.len(),
        0 <= b < table.entries@.len(),
        table.entries@[a].name@ == table.entries@[b].name@,
    ensures
        a == b,
{
    if a < b {
        assert(table.entries@[a].name@ != table.entries@[b].name@);
    }
    if b < a {
        assert(table.entries@[b].name@ != table.entries@[a].name@);
    }
}

/// Reference closure over the table agrees with closure over the state view.
pub proof fn lemma_closed_view(table: &LabelTable, refs: Seq<LabelRef>, st: SpecState)
    requires
        st.labels == table_view(table),
        st.refs == refs_view(refs),
    ensures
        refs_closed(table, refs) == spec_closed(st),
{
    if refs_closed(table, refs) {
        assert forall|i: int| 0 <= i < st.refs.len() implies labels_contain(
            st.labels,
            (#[trigger] st.refs[i]).name,
        ) by {
            assert(table.spec_contains(refs[i].name@));
            lemma_contains_view(table, refs[i].name@);
        }
    }
    if spec_closed(st) {
        assert forall|i: int| 0 <= i < refs.len() implies table.spec_contains(
            (#[trigger] refs[i]).name@,
        ) by {
            assert(labels_contain(st.labels, st.refs[i].name));
            lemma_contains_view(table, refs[i].name@);
        }
    }
}

/// The entry-point test over the table agrees with the one over the state
/// view, and so do the targets.
pub proof fn lemma_entry_view(table: &LabelTable, labels: Seq<SpecLabel>)
    requires
        table.wf(),
        labels == table_view(table),
    ensures
        has_entry(table) == spec_has_start(labels),
        has_entry(table) ==> table.spec_get("start"@).target as nat == spec_start_target(labels),
{
    if has_entry(table) {
        let j = choose|i: int|
            0 <= i < table.entries@.len() && table.entries@[i].name@ == "start"@;
        assert(labels[j].name == "start"@ && labels[j].kind == LabelKind::Code);
        assert(spec_has_start(labels));
        let j2 = choose|i: int|
            0 <= i < labels.len() && labels[i].name == "start"@ && labels[i].kind
                == LabelKind::Code;
        lemma_unique_name_index(table, j, j2);
    }
    if spec_has_start(labels) {
        let j2 = choose|i: int|
            0 <= i < labels.len() && labels[i].name == "start"@ && labels[i].kind
                == LabelKind::Code;
        assert(table.entries@[j2].name@ == "start"@);
        assert(table.spec_contains("start"@));
        let j = choose|i: int|
            0 <= i < table.entries@.len() && table.entries@[i].name@ == "start"@;
        lemma_unique_name_index(table, j, j2);
        assert(table.spec_get("start"@) == table.entries@[j]);
        assert(has_entry(table));
    }
}

/// The first unresolved reference is the same, scanned over the table or
/// over the state view.
pub proof fn lemma_first_open_view(
    table: &LabelTable,
    refs: Seq<LabelRef>,
    st: SpecState,
    i: int,
)
    requires
        st.labels == table_view(table),
        st.refs == refs_view(refs),
        0 <= i <= refs.len(),
    ensures
        first_open_ref(table, refs, i) == first_unresolved(st, i),
    decreases refs.len() - i,
{
    if i < refs.len() {
        lemma_contains_view(table, refs[i].name@);
        assert(st.refs[i].name == refs[i].name@);
        if table.spec_contains(refs[i].name@) {
            lemma_first_open_view(table, refs, st, i + 1);
        }
    }
}

fn make_hlt() -> (r: Vec<char>)
    ensures
        r@ == "hlt"@,
{
    let mut v: Vec<char> = Vec::new();
    push_str_chars(&mut v, "hlt");
    proof {
        assert(v@ =~= "hlt"@);
    }
    v
}

/// Assembles the driver from the preprocessing artifacts.  Succeeds exactly
/// when every recorded reference resolves, a code label named `start`
/// exists, and the data segment parses and fits; each failure names its
/// stage.
pub fn assemble_from(ctx: PreprocessorContext, out: PreprocessorOutput, clean: &Vec<char>) -> (r:
    Result<Driver, AsmError>)
    requires
        artifacts_wf(&ctx, &out, clean@),
        clean@.len() < usize::MAX,
    ensures
        match r {
            Ok(d) => {
                &&& refs_closed(&ctx.label_table, ctx.undefined_refs@)
                &&& has_entry(&ctx.label_table)
                &&& all_parse(out.data@)
                &&& sum_sizes(out.data@) <= MEM_SIZE
                &&& d.entry_index == ctx.label_table.spec_get("start"@).target
                &&& d.output.code@.len() == out.code@.len() + 1
                &&& d.output.code@.last()@ == "hlt"@
                &&& forall|i: int| 0 <= i < out.code@.len() ==> d.output.code@[i] == out.code@[i]
                &&& d.output.data@ == out.data@
                &&& d.output.source_map@ == out.source_map@.push(clean@.len() as usize)
                &&& d.entry_index < d.output.source_map@.len()
                &&& d.entry_line == line_number(
                    clean@,
                    d.output.source_map@[d.entry_index as int] as int,
                )
                &&& d.source@ == clean@
                &&& d.index.wf(clean@)
                &&& d.vm.wf()
                &&& d.vm.mem@ == load_image(zero_mem(), 0, out.data@, 0)
                &&& d.context.label_table == ctx.label_table
                &&& d.context.fn_table@ == ctx.fn_table@
                &&& d.context.call_stack@.len() == 0
            },
            Err(AsmError::Undefined { offset, name }) => {
                let k = first_open_ref(&ctx.label_table, ctx.undefined_refs@, 0);
                &&& !refs_closed(&ctx.label_table, ctx.undefined_refs@)
                &&& 0 <= k < ctx.undefined_refs@.len()
                &&& offset == ctx.undefined_refs@[k].offset
                &&& name@ == ctx.undefined_refs@[k].name@
            },
            Err(AsmError::NoEntry) => {
                &&& refs_closed(&ctx.label_table, ctx.undefined_refs@)
                &&& !has_entry(&ctx.label_table)
            },
            Err(AsmError::Data(e)) => {
                &&& refs_closed(&ctx.label_table, ctx.undefined_refs@)
                &&& has_entry(&ctx.label_table)
                &&& !(all_parse(out.data@) && sum_sizes(out.data@) <= MEM_SIZE)
                &&& match e {
                    DataError::Unparsable { index } => 0 <= index < out.data@.len()
                        && crate::loader::directive_spec(out.data@[index as int]@) is None,
                    DataError::OutOfMemory { .. } => sum_sizes(out.data@) > MEM_SIZE,
                }
            },
        },
{
    match validate_refs(&ctx.label_table, &ctx.undefined_refs) {
        Some(bad) => {
            return Err(AsmError::Undefined { offset: bad.offset, name: bad.name });
        },
        None => {},
    }
    let entry_index = match entry_point(&ctx.label_table) {
        Some(ix) => ix,
        None => {
            return Err(AsmError::NoEntry);
        },
    };
    let mut out = out;
    out.code.push(make_hlt());
    out.source_map.push(clean.len());
    let mut vm = VM::new();
    proof {
        assert(vm.mem@ =~= zero_mem());
    }
    let mut ctr: usize = 0;
    match load_data(&mut vm, &mut ctr, &out.data) {
        Err(e) => {
            proof {
                if e is OutOfMemory {
                    assert(sum_sizes(out.data@) > MEM_SIZE);
                }
            }
            return Err(AsmError::Data(e));
        },
        Ok(()) => {},
    }
    proof {
        let w = choose|i: int|
            0 <= i < ctx.label_table.entries@.len() && ctx.label_table.entries@[i].name@
                == "start"@;
        assert(ctx.label_table.entries@[w].kind == crate::labels::LabelKind::Code
            ==> ctx.label_table.entries@[w].target <= out.code@.len() - 1);
    }
    let t = out.source_map[entry_index];
    let r = crate::source_index::locate(clean, t);
    let source = copy_chars(clean);
    let index = SourceIndex::new(clean);
    let context = InterpreterContext {
        fn_table: ctx.fn_table,
        label_table: ctx.label_table,
        call_stack: Vec::new(),
    };
    Ok(
        Driver {
            entry_index,
            entry_line: r.0,
            vm,
            source,
            index,
            output: out,
            context,
        },
    )
}

/// The whole pipeline: from raw source text to an execution driver, or to
/// one formatted, user-facing error string.
///
/// Success is owed exactly when the line machine accepts the stripped
/// buffer, every recorded reference resolves, a code label named `start`
/// exists, and the data segment fits the memory image; and every error
/// string renders the actual first failure of the staged run.
pub fn preprocess(input: &str) -> (r: Result<Driver, Vec<char>>)
    requires
        input@.len() < usize::MAX,
    ensures
        match r {
            Ok(d) => match parse_spec(strip_spec(input@)) {
                Ok(st) => {
                    &&& spec_closed(st)
                    &&& spec_has_start(st.labels)
                    &&& st.counter <= MEM_SIZE
                    &&& d.entry_index as nat == spec_start_target(st.labels)
                    &&& texts_view(d.output.code@) == st.code.push("hlt"@)
                    &&& texts_view(d.output.data@) == st.data
                    &&& all_parse(d.output.data@)
                    &&& sum_sizes(d.output.data@) == st.counter
                    &&& smap_view(d.output.source_map@) == st.smap.push(strip_spec(input@).len())
                    &&& table_view(&d.context.label_table) == st.labels
                    &&& d.source@ == strip_spec(input@)
                    &&& d.entry_index < d.output.source_map@.len()
                    &&& d.entry_line == line_number(
                        d.source@,
                        d.output.source_map@[d.entry_index as int] as int,
                    )
                    &&& d.index.wf(d.source@)
                    &&& d.vm.wf()
                    &&& d.vm.mem@ == load_image(zero_mem(), 0, d.output.data@, 0)
                    &&& d.context.fn_table@.len() == 0
                    &&& d.context.call_stack@.len() == 0
                },
                Err(_) => false,
            },
            Err(msg) => match parse_spec(strip_spec(input@)) {
                Err(sf) => msg@ == translate_v(strip_spec(input@), sf),
                Ok(st) => {
                    let k = first_unresolved(st, 0);
                    if !spec_closed(st) {
                        msg@ == crate::errors::undefined_label_spec(
                            strip_spec(input@),
                            st.refs[k].offset as int,
                            st.refs[k].name,
                        )
                    } else if !spec_has_start(st.labels) {
                        msg@ == crate::errors::no_entry_spec()
                    } else {
                        st.counter > MEM_SIZE && msg@ == "Internal Error :\n"@
                            + "data segment exceeds memory"@
                    }
                },
            },
        },
{
    let raw = chars_of(input);
    proof {
        lemma_strip_len(input@);
    }
    let clean = strip_comments(&raw);
    match parse_source(&clean) {
        Err(f) => {
            let msg = translate_parse_error(&clean, &f);
            proof {
                match &f {
                    ParseFailure::Unrecognized { start, token, expected } => {
                        if token@.len() == 0 {
                            assert(texts_view(expected@)[0] == expected@[0]@);
                        }
                        assert(translate_spec(clean@, &f) == translate_v(clean@, failure_v(&f)));
                    },
                    ParseFailure::Other { .. } => {
                        assert(false);
                    },
                }
            }
            Err(msg)
        },
        Ok((ctx, out)) => {
            let ghost gtable = ctx.label_table;
            let ghost grefs = ctx.undefined_refs@;
            let ghost gcode = out.code@;
            let ghost gdata = out.data@;
            let ghost gsmap = out.source_map@;
            let ghost gcnt = ctx.data_counter as nat;
            let ghost st = mk_state(&gtable, grefs, gcode, gdata, gsmap, gcnt);
            proof {
                lemma_closed_view(&gtable, grefs, st);
                lemma_entry_view(&gtable, st.labels);
                lemma_first_open_view(&gtable, grefs, st, 0);
                assert(parse_spec(clean@) == Ok::<SpecState, SpecFailureV>(st));
            }
            match assemble_from(ctx, out, &clean) {
                Ok(d) => {
                    proof {
                        assert(texts_view(d.output.code@) =~= st.code.push("hlt"@));
                        assert(smap_view(d.output.source_map@) =~= st.smap.push(
                            clean@.len() as nat,
                        ));
                        assert(texts_view(d.output.data@) =~= st.data);
                        assert(table_view(&d.context.label_table) =~= st.labels);
                    }
                    Ok(d)
                },
                Err(e) => {
                    let msg = render_asm_error(&clean, &e);
                    proof {
                        match &e {
                            AsmError::Undefined { offset, name } => {
                                assert(!spec_closed(st));
                            },
                            AsmError::NoEntry => {
                                assert(spec_closed(st) && !spec_has_start(st.labels));
                            },
                            AsmError::Data(de) => {
                                match de {
                                    DataError::Unparsable { index } => {
                                        assert(directive_spec(gdata[*index as int]@) is Some);
                                        assert(false);
                                    },
                                    DataError::OutOfMemory { .. } => {
                                        assert(st.counter == sum_sizes(gdata));
                                        assert(st.counter > MEM_SIZE);
                                    },
                                }
                            },
                        }
                    }
                    Err(msg)
                },
            }
        },
    }
}

} // verus!
