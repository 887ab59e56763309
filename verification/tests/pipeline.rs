use asmfront::pipeline::preprocess;

fn text(v: &[char]) -> String {
    v.iter().collect()
}

#[test]
fn assembles_simple_program() {
    let d = preprocess("mov r0, 1\nstart:\nhlt").ok().unwrap();
    // the entry index points at the explicit hlt instruction
    assert_eq!(d.entry_index, 1);
    assert_eq!(d.entry_line, 3);
    let code: Vec<String> = d.output.code.iter().map(|c| text(c)).collect();
    // the code sequence ends with an appended halt
    assert_eq!(code, vec!["mov r0 1".to_string(), "hlt".to_string(), "hlt".to_string()]);
    assert_eq!(d.output.source_map, vec![0, 17, 20]);
    assert_eq!(text(&d.source), "mov r0, 1\nstart:\nhlt");
    assert!(d.context.call_stack.is_empty());
}

#[test]
fn undefined_label_is_reported_with_position() {
    let e = preprocess("jmp missing\nstart:\nhlt").err().unwrap();
    assert_eq!(text(&e), "Label missing used but not defined at 1:4 : jmp missing");
}

#[test]
fn missing_start_label_fails() {
    let e = preprocess("mov r0, 1\nhlt").err().unwrap();
    assert_eq!(text(&e), "Error : necessary label 'start' is not found in code");
}

#[test]
fn data_typed_start_label_counts_as_absent() {
    let e = preprocess("start: db 1\nhlt").err().unwrap();
    assert_eq!(text(&e), "Error : necessary label 'start' is not found in code");
}

#[test]
fn unparseable_token_is_a_syntax_error() {
    let e = preprocess("@@@").err().unwrap();
    assert_eq!(text(&e), "Syntax Error at 1:0 : @@@ :\nUnexpected Token : @@@");
}

#[test]
fn comments_are_stripped_before_parsing() {
    let d = preprocess("mov r0, 1 ; load one\nstart:\nhlt").ok().unwrap();
    assert_eq!(text(&d.source), "mov r0, 1 \nstart:\nhlt");
    assert_eq!(d.entry_index, 1);
    assert_eq!(d.entry_line, 3);
}

#[test]
fn data_directives_fill_the_memory_image() {
    let d = preprocess("start:\nhlt\nvals: db 65 66 255").ok().unwrap();
    assert_eq!(&d.vm.mem[0..4], &[65u8, 66, 255, 0]);
    let data: Vec<String> = d.output.data.iter().map(|c| text(c)).collect();
    assert_eq!(data, vec!["db 65 66 255".to_string()]);
}

#[test]
fn data_labels_take_allocation_offsets() {
    let d = preprocess("start:\nhlt\na: db 1 2\nb: db 3").ok().unwrap();
    let a = d.context.label_table.entries.iter().find(|l| text(&l.name) == "a").unwrap();
    let b = d.context.label_table.entries.iter().find(|l| text(&l.name) == "b").unwrap();
    assert_eq!(a.target, 0);
    assert_eq!(b.target, 2);
    assert_eq!(&d.vm.mem[0..3], &[1u8, 2, 3]);
}

#[test]
fn forward_reference_to_start_resolves() {
    let d = preprocess("jmp start\nstart:\nhlt").ok().unwrap();
    assert_eq!(d.entry_index, 1);
}

#[test]
fn register_and_number_operands_are_not_references() {
    let d = preprocess("mov r0, -5\nadd R12, 7\nstart:\nhlt").ok().unwrap();
    assert_eq!(d.entry_index, 2);
}

#[test]
fn label_redefinition_is_a_piggybacked_domain_error() {
    let e = preprocess("a:\na:\nstart:\nhlt").err().unwrap();
    assert_eq!(text(&e), "Syntax Error at 2:0 : a: :\nLabel a is defined more than once");
}

#[test]
fn data_value_out_of_range_is_rejected() {
    let e = preprocess("start:\nhlt\nv: db 256").err().unwrap();
    assert_eq!(text(&e), "Syntax Error at 3:3 : v: db 256 :\ndata value out of range");
}

#[test]
fn halt_appended_even_when_source_ends_with_halt() {
    let d = preprocess("start:\nhlt").ok().unwrap();
    let code: Vec<String> = d.output.code.iter().map(|c| text(c)).collect();
    assert_eq!(code, vec!["hlt".to_string(), "hlt".to_string()]);
}

#[test]
fn error_formatting_is_deterministic() {
    let a = preprocess("jmp missing\nstart:\nhlt").err().unwrap();
    let b = preprocess("jmp missing\nstart:\nhlt").err().unwrap();
    assert_eq!(text(&a), text(&b));
    let c = preprocess("@@@").err().unwrap();
    let d = preprocess("@@@").err().unwrap();
    assert_eq!(text(&c), text(&d));
}

#[test]
fn start_at_end_points_at_the_appended_halt() {
    let d = preprocess("hlt\nstart:").ok().unwrap();
    assert_eq!(d.entry_index, 1);
    assert_eq!(d.output.source_map, vec![0, 10]);
    assert_eq!(d.entry_line, 2);
    assert_eq!(d.index.line_starts, vec![0, 4]);
}

#[test]
fn underscored_labels_resolve() {
    let d = preprocess("jmp loop_1\nloop_1:\nstart:\nhlt").ok().unwrap();
    assert_eq!(d.entry_index, 1);
}

#[test]
fn empty_line_and_whitespace_are_ignored() {
    let d = preprocess("\n\n   \nstart:\n\nhlt\n").ok().unwrap();
    assert_eq!(d.entry_index, 0);
    assert_eq!(d.entry_line, 6);
}
