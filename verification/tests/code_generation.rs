use assembler::ast::{Address, AssASTTypes, Label};
use assembler::code_gen::{
    calculate_variable_offset, generate_code, CodeGenerationErrorType, RawInstructions,
};
use assembler::parse::parse_string;
use assembler::wire::raw_instructions_to_string;

fn compile(source: &str) -> Result<Vec<RawInstructions>, Vec<assembler::code_gen::CodeGenerationError>> {
    generate_code(parse_string(String::from(source)).unwrap())
}

#[test]
fn offset_prepass_counts_four_words_per_concrete_instruction() {
    let list = vec![
        AssASTTypes::Define { name: Label(String::from("x")), a: 1 },
        AssASTTypes::Add {
            a: Address(String::from("x")),
            b: Address(String::from("x")),
            c: Address(String::from("x")),
        },
        AssASTTypes::LabelDefenition(Label(String::from("l"))),
        AssASTTypes::Jump { a: Label(String::from("l")) },
        AssASTTypes::Equal {
            a: Address(String::from("x")),
            b: Address(String::from("x")),
            c: Label(String::from("l")),
        },
        AssASTTypes::Exit { code: Address(String::from("x")) },
    ];
    // 2 + 4 + 0 + 1 + 3 + 1 concrete instructions, four words each
    assert_eq!(calculate_variable_offset(&list), 44);
    assert_eq!(calculate_variable_offset(&vec![]), 0);
}

#[test]
fn end_to_end_example_compiles_to_the_expected_stream() {
    let code = compile("DEF ?x 5\nDEF ?y 2\nADD ?x ?y ?x\nEXIT ?x\n").unwrap();
    // nine concrete instructions, so variable storage begins at word 36:
    // x gets cell 36 and y gets cell 37
    assert_eq!(
        code,
        vec![
            RawInstructions::ADD { a: 5, b: 0 },
            RawInstructions::WRITE { a: 36 },
            RawInstructions::ADD { a: 2, b: 0 },
            RawInstructions::WRITE { a: 37 },
            RawInstructions::COPY { a: 36, b: 25 },
            RawInstructions::COPY { a: 37, b: 26 },
            RawInstructions::ADD { a: 36, b: 37 },
            RawInstructions::WRITE { a: 36 },
            RawInstructions::EXIT { a: 36 },
        ]
    );
    // the store feeding the exit and the exit itself both use x's cell
    assert_eq!(code[7], RawInstructions::WRITE { a: 36 });
    assert_eq!(code[8], RawInstructions::EXIT { a: 36 });
    assert_eq!(
        raw_instructions_to_string(code),
        "101\n5\n0\n0\n103\n36\n0\n0\n101\n2\n0\n0\n103\n37\n0\n0\n102\n36\n25\n0\n102\n37\n26\n0\n101\n36\n37\n0\n103\n36\n0\n0\n109\n36\n0\n0\n"
    );
}

#[test]
fn label_forward_reference_resolves_to_the_following_instruction() {
    let code = compile("JMP :end\nDEF ?x 1\n: end\nEXIT ?x\n").unwrap();
    // four concrete instructions; the label is recorded at (3 + 1) * 4
    assert_eq!(
        code,
        vec![
            RawInstructions::JMP { a: 16 },
            RawInstructions::ADD { a: 1, b: 0 },
            RawInstructions::WRITE { a: 16 },
            RawInstructions::EXIT { a: 16 },
        ]
    );
}

#[test]
fn label_forward_reference_is_independent_of_distance() {
    // more instructions between the jump and the label move the address
    let code = compile("JMP :end\nDEF ?x 1\nDEF ?y 2\n: end\nEXIT ?x\n").unwrap();
    // emitted before the label: 1 + 2 + 2 = 5, so the label is (5 + 1) * 4
    assert_eq!(code[0], RawInstructions::JMP { a: 24 });
}

#[test]
fn backward_reference_still_resolves() {
    let code = compile("DEF ?x 1\n: loop\nJMP :loop\n").unwrap();
    // emitted before the label: 2, so the label is (2 + 1) * 4
    assert_eq!(
        code,
        vec![
            RawInstructions::ADD { a: 1, b: 0 },
            RawInstructions::WRITE { a: 12 },
            RawInstructions::JMP { a: 12 },
        ]
    );
}

#[test]
fn undefined_variable_in_arithmetic_yields_exactly_one_error() {
    let errors = compile("DEF ?a 1\nADD ?a ?b ?a\n").unwrap_err();
    assert_eq!(errors.len(), 1);
    assert_eq!(errors[0].instruction_num, 1);
    match &errors[0].type_of_error {
        CodeGenerationErrorType::VariableDoesntExist { name } => assert_eq!(name, "b"),
        other => panic!("expected a variable error, got {:?}", other),
    }
    assert_eq!(errors[0].message(), "error at instruction 1: variable b does not exist");
}

#[test]
fn every_missing_operand_is_reported_in_operand_order() {
    let errors = compile("ADD ?a ?b ?c\n").unwrap_err();
    assert_eq!(errors.len(), 3);
    let names: Vec<String> = errors
        .iter()
        .map(|e| match &e.type_of_error {
            CodeGenerationErrorType::VariableDoesntExist { name } => name.clone(),
            other => panic!("expected a variable error, got {:?}", other),
        })
        .collect();
    assert_eq!(names, vec!["a", "b", "c"]);
    assert!(errors.iter().all(|e| e.instruction_num == 0));
}

#[test]
fn undefined_label_yields_exactly_one_error() {
    let errors = compile("JMP :nowhere\n").unwrap_err();
    assert_eq!(errors.len(), 1);
    assert_eq!(errors[0].instruction_num, 0);
    match &errors[0].type_of_error {
        CodeGenerationErrorType::LabelDoesntExist { name } => assert_eq!(name, "nowhere"),
        other => panic!("expected a label error, got {:?}", other),
    }
    assert_eq!(errors[0].message(), "error at instruction 0: label nowhere does not exist");
}

#[test]
fn undefined_label_in_conditional_jumps_is_an_error() {
    for source in [
        "DEF ?a 1\nDEF ?b 2\nJE ?a ?b :gone\n",
        "DEF ?a 1\nDEF ?b 2\nJNE ?a ?b :gone\n",
        "DEF ?a 1\nDEF ?b 2\nJHT ?a ?b :gone\n",
    ] {
        let errors = compile(source).unwrap_err();
        assert_eq!(errors.len(), 1);
        assert_eq!(errors[0].instruction_num, 2);
        assert!(matches!(
            &errors[0].type_of_error,
            CodeGenerationErrorType::LabelDoesntExist { name } if name == "gone"
        ));
    }
}

#[test]
fn errors_are_collected_across_the_whole_pass() {
    let errors = compile("EXIT ?x\nJMP :gone\nCPY ?p ?q\n").unwrap_err();
    assert_eq!(errors.len(), 4);
    assert_eq!(errors[0].instruction_num, 0);
    assert_eq!(errors[1].instruction_num, 1);
    assert_eq!(errors[2].instruction_num, 2);
    assert_eq!(errors[3].instruction_num, 2);
}

#[test]
fn redefinition_reuses_the_original_cell() {
    let code = compile("DEF ?x 1\nDEF ?x 2\nEXIT ?x\n").unwrap();
    // five concrete instructions, so x lives at word 20 and stays there
    assert_eq!(
        code,
        vec![
            RawInstructions::ADD { a: 1, b: 0 },
            RawInstructions::WRITE { a: 20 },
            RawInstructions::ADD { a: 2, b: 0 },
            RawInstructions::WRITE { a: 20 },
            RawInstructions::EXIT { a: 20 },
        ]
    );
}

#[test]
fn copy_resolves_both_cells() {
    let code = compile("DEF ?a 1\nDEF ?b 2\nCPY ?a ?b\n").unwrap();
    assert_eq!(
        code,
        vec![
            RawInstructions::ADD { a: 1, b: 0 },
            RawInstructions::WRITE { a: 20 },
            RawInstructions::ADD { a: 2, b: 0 },
            RawInstructions::WRITE { a: 21 },
            RawInstructions::COPY { a: 20, b: 21 },
        ]
    );
}

#[test]
fn outward_port_patches_all_three_operand_cells() {
    let code = compile("DEF ?a 1\nDEF ?b 2\nDEF ?c 3\nYEET ?a ?b ?c\n").unwrap();
    // ten concrete instructions; the port instruction stands at index 9, so
    // its operand fields are words 37, 38 and 39
    assert_eq!(code.len(), 10);
    assert_eq!(code[6], RawInstructions::COPY { a: 40, b: 37 });
    assert_eq!(code[7], RawInstructions::COPY { a: 41, b: 38 });
    assert_eq!(code[8], RawInstructions::COPY { a: 42, b: 39 });
    assert_eq!(code[9], RawInstructions::YEET { a: 40, b: 41, c: 42 });
}

#[test]
fn conditional_jump_patches_and_carries_the_label_address() {
    let code = compile("DEF ?a 1\nDEF ?b 2\nJE ?a ?b :end\n: end\nEXIT ?a\n").unwrap();
    // eight concrete instructions: a at 32, b at 33, label at (7 + 1) * 4
    assert_eq!(code.len(), 8);
    assert_eq!(code[4], RawInstructions::COPY { a: 32, b: 25 });
    assert_eq!(code[5], RawInstructions::COPY { a: 33, b: 26 });
    assert_eq!(code[6], RawInstructions::Equal { a: 32, b: 33, c: 32 });
    assert_eq!(code[7], RawInstructions::EXIT { a: 32 });
}

#[test]
fn subtraction_division_multiplication_emit_their_opcodes() {
    let code = compile("DEF ?a 8\nDEF ?b 2\nSUB ?a ?b ?a\nMUL ?a ?b ?a\nDIV ?a ?b ?a\n").unwrap();
    // sixteen concrete instructions; a at 64, b at 65
    assert_eq!(code.len(), 16);
    assert_eq!(code[6], RawInstructions::SUB { a: 64, b: 65 });
    assert_eq!(code[10], RawInstructions::MUL { a: 64, b: 65 });
    assert_eq!(code[14], RawInstructions::DIV { a: 64, b: 65 });
}

#[test]
fn comment_only_sources_emit_nothing() {
    let code = compile("# nothing here\n\n# and nothing there\n").unwrap();
    assert_eq!(code.len(), 0);
    assert_eq!(raw_instructions_to_string(code), "");
}

#[test]
fn duplicate_label_keeps_its_last_definition() {
    let code = compile("DEF ?x 1\n: l\n: l\nJMP :l\n").unwrap();
    // both definitions sit after the same two instructions here, so the
    // address is the same; the point is that generation succeeds
    assert_eq!(code[2], RawInstructions::JMP { a: 12 });
    let code = compile(": l\nDEF ?x 1\n: l\nJMP :l\n").unwrap();
    // the later definition wins: (2 + 1) * 4 rather than (0 + 1) * 4
    assert_eq!(code[2], RawInstructions::JMP { a: 12 });
}
