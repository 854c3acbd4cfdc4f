use assembler::code_gen::{generate_code, RawInstructions};
use assembler::parse::parse_string;
use assembler::wire::{
    raw_instruction_from_string, raw_instruction_to_string, raw_instructions_to_string,
    u64_to_dec_string,
};

#[test]
fn decimal_rendering() {
    assert_eq!(u64_to_dec_string(0), "0");
    assert_eq!(u64_to_dec_string(7), "7");
    assert_eq!(u64_to_dec_string(10), "10");
    assert_eq!(u64_to_dec_string(36), "36");
    assert_eq!(u64_to_dec_string(1234567890123456789), "1234567890123456789");
    assert_eq!(u64_to_dec_string(u64::MAX), "18446744073709551615");
}

#[test]
fn each_opcode_encodes_to_its_fixed_code() {
    assert_eq!(raw_instruction_to_string(&RawInstructions::ADD { a: 1, b: 2 }), "101\n1\n2\n0\n");
    assert_eq!(
        raw_instruction_to_string(&RawInstructions::COPY { a: 3, b: 4 }),
        "102\n3\n4\n0\n"
    );
    assert_eq!(raw_instruction_to_string(&RawInstructions::WRITE { a: 5 }), "103\n5\n0\n0\n");
    assert_eq!(raw_instruction_to_string(&RawInstructions::JMP { a: 16 }), "104\n16\n0\n0\n");
    assert_eq!(raw_instruction_to_string(&RawInstructions::SUB { a: 7, b: 8 }), "105\n7\n8\n0\n");
    assert_eq!(
        raw_instruction_to_string(&RawInstructions::MUL { a: 9, b: 10 }),
        "106\n9\n10\n0\n"
    );
    assert_eq!(
        raw_instruction_to_string(&RawInstructions::Equal { a: 1, b: 2, c: 3 }),
        "107\n1\n2\n3\n"
    );
    assert_eq!(
        raw_instruction_to_string(&RawInstructions::NotEqual { a: 4, b: 5, c: 6 }),
        "108\n4\n5\n6\n"
    );
    assert_eq!(raw_instruction_to_string(&RawInstructions::EXIT { a: 36 }), "109\n36\n0\n0\n");
    assert_eq!(
        raw_instruction_to_string(&RawInstructions::JHT { a: 7, b: 8, c: 9 }),
        "110\n7\n8\n9\n"
    );
    assert_eq!(
        raw_instruction_to_string(&RawInstructions::YEET { a: 1, b: 2, c: 3 }),
        "111\n1\n2\n3\n"
    );
    assert_eq!(
        raw_instruction_to_string(&RawInstructions::DIV { a: 11, b: 12 }),
        "112\n11\n12\n0\n"
    );
}

#[test]
fn encoding_then_decoding_recovers_the_instruction() {
    let samples = vec![
        RawInstructions::ADD { a: 0, b: 0 },
        RawInstructions::ADD { a: 5, b: 0 },
        RawInstructions::WRITE { a: 36 },
        RawInstructions::COPY { a: 36, b: 25 },
        RawInstructions::EXIT { a: u64::MAX },
        RawInstructions::SUB { a: 1, b: u64::MAX },
        RawInstructions::MUL { a: 123456789, b: 987654321 },
        RawInstructions::JMP { a: 16 },
        RawInstructions::Equal { a: 1, b: 2, c: 3 },
        RawInstructions::NotEqual { a: 0, b: 0, c: 0 },
        RawInstructions::DIV { a: 10, b: 3 },
        RawInstructions::YEET { a: 7, b: 8, c: 9 },
        RawInstructions::JHT { a: u64::MAX, b: u64::MAX, c: u64::MAX },
    ];
    for instruction in samples {
        let encoded = raw_instruction_to_string(&instruction);
        assert_eq!(raw_instruction_from_string(encoded.as_str()), Some(instruction));
    }
}

#[test]
fn decoder_rejects_what_the_encoder_never_writes() {
    // too few lines
    assert_eq!(raw_instruction_from_string(""), None);
    assert_eq!(raw_instruction_from_string("101\n1\n2\n"), None);
    // trailing garbage after one instruction
    assert_eq!(raw_instruction_from_string("101\n1\n2\n0\nx"), None);
    // an unknown opcode
    assert_eq!(raw_instruction_from_string("999\n0\n0\n0\n"), None);
    // a field the opcode does not carry
    assert_eq!(raw_instruction_from_string("103\n5\n1\n0\n"), None);
    assert_eq!(raw_instruction_from_string("101\n1\n2\n9\n"), None);
    // a value that does not fit a machine word
    assert_eq!(raw_instruction_from_string("101\n18446744073709551616\n0\n0\n"), None);
    // the largest value that fits is accepted
    assert_eq!(
        raw_instruction_from_string("101\n18446744073709551615\n0\n0\n"),
        Some(RawInstructions::ADD { a: u64::MAX, b: 0 })
    );
    // non-digit characters inside a line
    assert_eq!(raw_instruction_from_string("1a1\n1\n2\n0\n"), None);
    // an empty line
    assert_eq!(raw_instruction_from_string("\n1\n2\n0\n"), None);
    // a line without its newline
    assert_eq!(raw_instruction_from_string("101\n1\n2\n0"), None);
}

#[test]
fn a_program_encodes_as_its_instructions_in_order() {
    let program = vec![
        RawInstructions::ADD { a: 5, b: 0 },
        RawInstructions::WRITE { a: 36 },
        RawInstructions::EXIT { a: 36 },
    ];
    assert_eq!(
        raw_instructions_to_string(program),
        "101\n5\n0\n0\n103\n36\n0\n0\n109\n36\n0\n0\n"
    );
    assert_eq!(raw_instructions_to_string(vec![]), "");
}

#[test]
fn compiled_output_decodes_back_to_the_instruction_list() {
    let source = String::from("DEF ?x 5\nDEF ?y 2\nADD ?x ?y ?x\nEXIT ?x\n");
    let code = generate_code(parse_string(source).unwrap()).unwrap();
    let encoded = raw_instructions_to_string(code.clone());
    let lines: Vec<&str> = encoded.split_inclusive('\n').collect();
    assert_eq!(lines.len(), 4 * code.len());
    for (k, instruction) in code.iter().enumerate() {
        let chunk: String = lines[4 * k..4 * k + 4].concat();
        assert_eq!(raw_instruction_from_string(chunk.as_str()), Some(*instruction));
    }
}
