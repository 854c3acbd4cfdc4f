use assembler::ast::AssASTTypes;
use assembler::operators::{
    is_newline, parse_1_arg_operator, parse_2_arg_operator, parse_2_arg_with_label_operator,
    parse_3_argument_operator, parse_def_operator, parse_jmp_argument_operator,
};
use assembler::parse::{parse_string, replace_windows_with_unix};

#[test]
fn newline_predicate() {
    assert!(is_newline('\n'));
    assert!(!is_newline('\r'));
    assert!(!is_newline(' '));
}

#[test]
fn normalization_turns_carriage_returns_into_newlines() {
    assert_eq!(replace_windows_with_unix(String::from("a\r\nb\rc")), "a\n\nb\nc");
    assert_eq!(replace_windows_with_unix(String::from("")), "");
}

#[test]
fn def_operand_list() {
    let (parsed, next) = parse_def_operator(" ?x 5\nrest", 0).unwrap();
    assert_eq!(parsed.name, "x");
    assert_eq!(parsed.value, 5);
    assert_eq!(next, 6);
}

#[test]
fn def_operand_list_failures() {
    // no marker before the name
    assert!(parse_def_operator(" x 5\n", 0).is_none());
    // the line ends before the literal
    assert!(parse_def_operator(" ?x\n", 0).is_none());
    // the source ends before the literal's terminator
    assert!(parse_def_operator(" ?x 5", 0).is_none());
    // a second space leaves the literal empty
    assert!(parse_def_operator(" ?x  5\n", 0).is_none());
    // the literal does not fit a machine word
    assert!(parse_def_operator(" ?x 99999999999999999999\n", 0).is_none());
    // the largest literal that fits is accepted
    let (parsed, _) = parse_def_operator(" ?x 18446744073709551615\n", 0).unwrap();
    assert_eq!(parsed.value, u64::MAX);
}

#[test]
fn one_arg_operand_list() {
    let (parsed, next) = parse_1_arg_operator(" ?code\n", 0).unwrap();
    assert_eq!(parsed.name, "code");
    assert_eq!(next, 7);
    // at the end of the source the name is accepted without a terminator
    let (parsed, next) = parse_1_arg_operator(" ?x", 0).unwrap();
    assert_eq!(parsed.name, "x");
    assert_eq!(next, 3);
    // a terminator right after the marker is malformed
    assert!(parse_1_arg_operator(" ?\n", 0).is_none());
    // a name character without the marker is malformed
    assert!(parse_1_arg_operator(" x\n", 0).is_none());
}

#[test]
fn jmp_operand_list() {
    let (parsed, next) = parse_jmp_argument_operator(" :loop\n", 0).unwrap();
    assert_eq!(parsed.label, "loop");
    assert_eq!(next, 7);
    let (parsed, _) = parse_jmp_argument_operator(" :end", 0).unwrap();
    assert_eq!(parsed.label, "end");
    // an empty label is malformed
    assert!(parse_jmp_argument_operator(" :\n", 0).is_none());
    assert!(parse_jmp_argument_operator(" :", 0).is_none());
    // the address marker is not a label marker
    assert!(parse_jmp_argument_operator(" ?loop\n", 0).is_none());
}

#[test]
fn three_arg_operand_list() {
    let (parsed, next) = parse_3_argument_operator("?a ?b ?c\nrest", 0).unwrap();
    assert_eq!(parsed.a_name, "a");
    assert_eq!(parsed.b_name, "b");
    assert_eq!(parsed.c_name, "c");
    assert_eq!(next, 9);
}

#[test]
fn three_arg_slots_follow_the_markers() {
    // characters between slots without a fresh marker extend the open slot
    let (parsed, _) = parse_3_argument_operator("?a b ?c ?d \n", 0).unwrap();
    assert_eq!(parsed.a_name, "ab");
    assert_eq!(parsed.b_name, "c");
    assert_eq!(parsed.c_name, "d");
    // a fourth marker followed by a name character overruns the slots
    assert!(parse_3_argument_operator("?a ?b ?c?d x\n", 0).is_none());
    // the end of the source accepts whatever was gathered
    let (parsed, next) = parse_3_argument_operator("?a ?b", 0).unwrap();
    assert_eq!(parsed.a_name, "a");
    assert_eq!(parsed.b_name, "b");
    assert_eq!(parsed.c_name, "");
    assert_eq!(next, 5);
}

#[test]
fn two_arg_operand_list() {
    let (parsed, next) = parse_2_arg_operator("?a ?b\nrest", 0).unwrap();
    assert_eq!(parsed.a_name, "a");
    assert_eq!(parsed.b_name, "b");
    assert_eq!(next, 6);
    assert!(parse_2_arg_operator("?a ?b?c x\n", 0).is_none());
}

#[test]
fn two_arg_with_label_operand_list() {
    let (parsed, next) = parse_2_arg_with_label_operator("?a ?b :end\nrest", 0).unwrap();
    assert_eq!(parsed.a_name, "a");
    assert_eq!(parsed.b_name, "b");
    assert_eq!(parsed.c_label_name, "end");
    assert_eq!(next, 11);
    // the label marker before the second address slot is malformed
    assert!(parse_2_arg_with_label_operator("?a :end\n", 0).is_none());
    assert!(parse_2_arg_with_label_operator(":end\n", 0).is_none());
}

#[test]
fn scanner_builds_the_abstract_list_in_source_order() {
    let source = String::from("DEF ?x 5\nADD ?x ?x ?x\nEXIT ?x\n");
    let asl = parse_string(source).unwrap();
    assert_eq!(asl.len(), 3);
    match &asl[0] {
        AssASTTypes::Define { name, a } => {
            assert_eq!(name.0, "x");
            assert_eq!(*a, 5);
        },
        other => panic!("expected a definition, got {:?}", other),
    }
    match &asl[1] {
        AssASTTypes::Add { a, b, c } => {
            assert_eq!(a.0, "x");
            assert_eq!(b.0, "x");
            assert_eq!(c.0, "x");
        },
        other => panic!("expected an addition, got {:?}", other),
    }
    match &asl[2] {
        AssASTTypes::Exit { code } => assert_eq!(code.0, "x"),
        other => panic!("expected an exit, got {:?}", other),
    }
}

#[test]
fn scanner_recognizes_every_mnemonic() {
    let source = String::from(
        "DEF ?a 1\nDEF ?b 2\nSUB ?a ?b ?a\nMUL ?a ?b ?a\nDIV ?a ?b ?a\nYEET ?a ?b ?a\nCPY ?a ?b\n: here\nJMP :here\nJE ?a ?b :here\nJNE ?a ?b :here\nJHT ?a ?b :here\nEXIT ?a\n",
    );
    let asl = parse_string(source).unwrap();
    assert_eq!(asl.len(), 13);
    assert!(matches!(asl[2], AssASTTypes::Subtract { .. }));
    assert!(matches!(asl[3], AssASTTypes::Multiply { .. }));
    assert!(matches!(asl[4], AssASTTypes::Divide { .. }));
    assert!(matches!(asl[5], AssASTTypes::Yeet { .. }));
    assert!(matches!(asl[6], AssASTTypes::Copy { .. }));
    match &asl[7] {
        AssASTTypes::LabelDefenition(l) => assert_eq!(l.0, "here"),
        other => panic!("expected a label definition, got {:?}", other),
    }
    match &asl[8] {
        AssASTTypes::Jump { a } => assert_eq!(a.0, "here"),
        other => panic!("expected a jump, got {:?}", other),
    }
    assert!(matches!(asl[9], AssASTTypes::Equal { .. }));
    assert!(matches!(asl[10], AssASTTypes::NotEqual { .. }));
    match &asl[11] {
        AssASTTypes::JumpIfHigherThan { a, b, c } => {
            assert_eq!(a.0, "a");
            assert_eq!(b.0, "b");
            assert_eq!(c.0, "here");
        },
        other => panic!("expected a conditional jump, got {:?}", other),
    }
}

#[test]
fn label_definition_accepts_both_spacings() {
    let asl = parse_string(String::from(": end\n")).unwrap();
    match &asl[0] {
        AssASTTypes::LabelDefenition(l) => assert_eq!(l.0, "end"),
        other => panic!("expected a label definition, got {:?}", other),
    }
    let asl = parse_string(String::from(":end\n")).unwrap();
    match &asl[0] {
        AssASTTypes::LabelDefenition(l) => assert_eq!(l.0, "end"),
        other => panic!("expected a label definition, got {:?}", other),
    }
}

#[test]
fn comments_and_blank_lines_produce_nothing() {
    assert_eq!(parse_string(String::from("")).unwrap().len(), 0);
    assert_eq!(parse_string(String::from("\n\n\n")).unwrap().len(), 0);
    assert_eq!(parse_string(String::from("# a comment\n# another\n")).unwrap().len(), 0);
    assert_eq!(parse_string(String::from("   \n")).unwrap().len(), 0);
    // interleaved with instructions they change nothing
    let asl = parse_string(String::from("# header\nDEF ?x 5\n\n# middle\nEXIT ?x\n")).unwrap();
    assert_eq!(asl.len(), 2);
    assert!(matches!(asl[0], AssASTTypes::Define { .. }));
    assert!(matches!(asl[1], AssASTTypes::Exit { .. }));
}

#[test]
fn unrecognized_lines_are_skipped() {
    // no mnemonic ever completes, so the line is gathered and then dropped
    assert_eq!(parse_string(String::from("HELLO WORLD\n")).unwrap().len(), 0);
    // a leading space keeps the mnemonic from matching
    assert_eq!(parse_string(String::from(" ADD ?a ?b ?c\n")).unwrap().len(), 0);
}

#[test]
fn malformed_operands_abort_the_parse() {
    assert!(parse_string(String::from("DEF x 5\n")).is_none());
    assert!(parse_string(String::from("DEF ?x\n")).is_none());
    assert!(parse_string(String::from("JMP loop\n")).is_none());
    assert!(parse_string(String::from("EXIT code\n")).is_none());
    assert!(parse_string(String::from("JE ?a :end\n")).is_none());
}
