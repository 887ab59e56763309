use asmfront::errors::AsmError;
use asmfront::grammar::{parse_source, ParseFailure};
use asmfront::labels::{Label, LabelKind, LabelTable};
use asmfront::loader::{load_data, parse_directive, DataError};
use asmfront::pipeline::assemble_from;
use asmfront::source_index::{locate, SourceIndex};
use asmfront::strip::strip_comments;
use asmfront::text::{eq_chars, to_decimal};
use asmfront::vm::{MEM_SIZE, VM};

fn cv(s: &str) -> Vec<char> {
    s.chars().collect()
}

fn text(v: &[char]) -> String {
    v.iter().collect()
}

#[test]
fn strip_replaces_comment_with_newline() {
    assert_eq!(text(&strip_comments(&cv("mov r0 ; c\nhlt"))), "mov r0 \nhlt");
}

#[test]
fn strip_closes_a_comment_at_end_of_input() {
    assert_eq!(text(&strip_comments(&cv("mov r0 ; c"))), "mov r0 \n");
}

#[test]
fn strip_preserves_line_count_on_samples() {
    for s in ["", "a\nb\nc", "a;x\nb;y", "a;x", ";\n;\n;", "a\n\n;z"] {
        let before = cv(s);
        let after = strip_comments(&before);
        let count = |v: &Vec<char>| {
            let nl = v.iter().filter(|c| **c == '\n').count();
            nl + if !v.is_empty() && *v.last().unwrap() != '\n' { 1 } else { 0 }
        };
        assert_eq!(count(&after), count(&before), "line count changed for {:?}", s);
    }
}

#[test]
fn strip_is_idempotent_on_samples() {
    for s in ["", "a;x", "a;x\nb", ";;;", "plain\ntext\n"] {
        let once = strip_comments(&cv(s));
        let twice = strip_comments(&once);
        assert_eq!(text(&twice), text(&once));
    }
}

#[test]
fn locate_finds_line_and_bounds() {
    let b = cv("ab\ncd\nef");
    assert_eq!(locate(&b, 0), (1, 0, 2));
    assert_eq!(locate(&b, 2), (1, 0, 2));
    assert_eq!(locate(&b, 3), (2, 3, 5));
    assert_eq!(locate(&b, 4), (2, 3, 5));
    assert_eq!(locate(&b, 7), (3, 6, 8));
    assert_eq!(locate(&b, 8), (3, 6, 8));
}

#[test]
fn source_index_records_line_starts() {
    let idx = SourceIndex::new(&cv("ab\ncd\nef"));
    assert_eq!(idx.line_starts, vec![0, 3, 6]);
    let empty = SourceIndex::new(&cv(""));
    assert_eq!(empty.line_starts, vec![0]);
}

#[test]
fn to_decimal_renders_numbers() {
    assert_eq!(text(&to_decimal(0)), "0");
    assert_eq!(text(&to_decimal(7)), "7");
    assert_eq!(text(&to_decimal(255)), "255");
    assert_eq!(text(&to_decimal(1048576)), "1048576");
}

#[test]
fn eq_chars_compares_contents() {
    assert!(eq_chars(&cv("abc"), &cv("abc")));
    assert!(!eq_chars(&cv("abc"), &cv("abd")));
    assert!(!eq_chars(&cv("abc"), &cv("ab")));
}

#[test]
fn parse_directive_reads_byte_values() {
    assert_eq!(parse_directive(&cv("db 1 2 3")), Some(vec![1, 2, 3]));
    assert_eq!(parse_directive(&cv("db 0 255")), Some(vec![0, 255]));
    assert_eq!(parse_directive(&cv("db")), Some(vec![]));
    assert_eq!(parse_directive(&cv("db 256")), None);
    assert_eq!(parse_directive(&cv("db x")), None);
    assert_eq!(parse_directive(&cv("dc 1")), None);
    assert_eq!(parse_directive(&cv("db  1")), None);
}

#[test]
fn loader_advances_the_counter_by_directive_sizes() {
    let mut vm = VM::new();
    let mut ctr: usize = 0;
    let ds = vec![cv("db 9 8"), cv("db"), cv("db 7")];
    assert!(load_data(&mut vm, &mut ctr, &ds).is_ok());
    assert_eq!(ctr, 3);
    assert_eq!(&vm.mem[0..3], &[9u8, 8, 7]);
}

#[test]
fn loader_reports_an_unparsable_directive() {
    let mut vm = VM::new();
    let mut ctr: usize = 0;
    let ds = vec![cv("db 1"), cv("nonsense")];
    match load_data(&mut vm, &mut ctr, &ds) {
        Err(DataError::Unparsable { index }) => assert_eq!(index, 1),
        _ => panic!("expected an unparsable directive"),
    }
}

#[test]
fn loader_reports_a_full_memory_image() {
    let mut vm = VM::new();
    let mut ctr: usize = MEM_SIZE - 1;
    let ds = vec![cv("db 1 2")];
    match load_data(&mut vm, &mut ctr, &ds) {
        Err(DataError::OutOfMemory { index }) => assert_eq!(index, 0),
        _ => panic!("expected the image to be full"),
    }
}

#[test]
fn label_table_rejects_redefinition() {
    let mut t = LabelTable::new();
    assert!(t.define(Label { name: cv("a"), kind: LabelKind::Code, target: 0 }));
    assert!(!t.define(Label { name: cv("a"), kind: LabelKind::Data, target: 1 }));
    assert!(t.define(Label { name: cv("b"), kind: LabelKind::Data, target: 1 }));
    let a = t.get(&cv("a")).unwrap();
    assert_eq!(a.target, 0);
    assert!(matches!(a.kind, LabelKind::Code));
    assert!(t.get(&cv("c")).is_none());
}

#[test]
fn parse_source_collects_labels_and_references() {
    let (ctx, out) = parse_source(&cv("jmp end\nstart:\nhlt\nend:\nv: db 5")).ok().unwrap();
    let names: Vec<String> = ctx.label_table.entries.iter().map(|l| text(&l.name)).collect();
    assert_eq!(names, vec!["start".to_string(), "end".to_string(), "v".to_string()]);
    assert_eq!(ctx.undefined_refs.len(), 1);
    assert_eq!(text(&ctx.undefined_refs[0].name), "end");
    assert_eq!(ctx.undefined_refs[0].offset, 4);
    assert_eq!(ctx.data_counter, 1);
    let code: Vec<String> = out.code.iter().map(|c| text(c)).collect();
    assert_eq!(code, vec!["jmp end".to_string(), "hlt".to_string()]);
    assert_eq!(out.source_map, vec![0, 15]);
}

#[test]
fn assemble_from_injected_artifacts_reports_each_stage() {
    // no labels at all: reference resolution passes, the entry point is missing
    let (ctx, out) = parse_source(&cv("hlt")).ok().unwrap();
    match assemble_from(ctx, out, &cv("hlt")) {
        Err(AsmError::NoEntry) => {},
        _ => panic!("expected a missing entry point"),
    }
    // an unresolved reference wins over the missing entry point
    let (ctx, out) = parse_source(&cv("jmp gone")).ok().unwrap();
    match assemble_from(ctx, out, &cv("jmp gone")) {
        Err(AsmError::Undefined { offset, name }) => {
            assert_eq!(offset, 4);
            assert_eq!(text(&name), "gone");
        },
        _ => panic!("expected an undefined label"),
    }
}

#[test]
fn injected_parse_failures_translate_deterministically() {
    let buf = cv("line one");
    let f = ParseFailure::Other { text: cv("grammar gave up") };
    let a = asmfront::errors::translate_parse_error(&buf, &f);
    let b = asmfront::errors::translate_parse_error(&buf, &f);
    assert_eq!(text(&a), "Syntax Error :\ngrammar gave up");
    assert_eq!(text(&a), text(&b));
    let g = ParseFailure::Unrecognized { start: 5, token: vec![], expected: vec![cv("a message")] };
    let c = asmfront::errors::translate_parse_error(&buf, &g);
    assert_eq!(text(&c), "Syntax Error at 1:5 : line one :\na message");
}
