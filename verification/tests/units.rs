//! Unit tests for the individual pipeline stages.

use mipssembler::constants::{find_instruction, instruction_table};
use mipssembler::datum::Datum;
use mipssembler::errors::AsmError;
use mipssembler::instruction::{convert_opcode_to_format, Instruction, InstructionFormat};
use mipssembler::label::{get_addressed_labels, is_label, resolve_labels, Label};
use mipssembler::line::compose_lines;
use mipssembler::pseudo_instruction::disassemble_pseudo_instruction;
use mipssembler::section::{resolve_section, Section};
use mipssembler::text::{get_text_from_code, resolve_argument_type, ArgumentType, Text};
use mipssembler::utils::{convert_int_to_binary, convert_string_to_int, get_address_difference};

#[test]
fn section_markers_resolve() {
    assert_eq!(resolve_section("\t.data"), Some(Section::DATA));
    assert_eq!(resolve_section("\t.text"), Some(Section::TEXT));
    assert_eq!(resolve_section(".data"), None);
    assert_eq!(resolve_section("\t.data "), None);
    assert_eq!(resolve_section(""), None);
}

#[test]
fn number_parsing_accepts_hex_and_decimal() {
    assert_eq!(convert_string_to_int("100"), Ok(100));
    assert_eq!(convert_string_to_int("-42"), Ok(-42));
    assert_eq!(convert_string_to_int("0x12345678"), Ok(0x12345678));
    assert_eq!(convert_string_to_int("0x1001"), Ok(0x1001));
    assert_eq!(convert_string_to_int("0"), Ok(0));
    assert_eq!(convert_string_to_int("2147483647"), Ok(2147483647));
    assert_eq!(convert_string_to_int("-2147483647"), Ok(-2147483647));
}

#[test]
fn number_parsing_rejects_malformed_literals() {
    assert_eq!(convert_string_to_int(""), Err(AsmError::InvalidNumber));
    assert_eq!(convert_string_to_int("abc"), Err(AsmError::InvalidNumber));
    assert_eq!(convert_string_to_int("-"), Err(AsmError::InvalidNumber));
    assert_eq!(convert_string_to_int("0x"), Err(AsmError::InvalidNumber));
    assert_eq!(convert_string_to_int("12a"), Err(AsmError::InvalidNumber));
    // past the 32-bit signed range
    assert_eq!(convert_string_to_int("2147483648"), Err(AsmError::InvalidNumber));
    assert_eq!(convert_string_to_int("0xFFFFFFFF"), Err(AsmError::InvalidNumber));
}

#[test]
fn branch_offset_formula() {
    // one word forward of the delay slot
    assert_eq!(get_address_difference(0x400000, 0x400008), 1);
    // target immediately after the branch
    assert_eq!(get_address_difference(0x400000, 0x400004), 0);
    // backward branch
    assert_eq!(get_address_difference(0x400014, 0x40000C), -3);
}

#[test]
fn twos_complement_truncation() {
    assert_eq!(convert_int_to_binary(-1, 16), "1111111111111111");
    assert_eq!(convert_int_to_binary(-1, 6), "111111");
    assert_eq!(convert_int_to_binary(100, 32), "00000000000000000000000001100100");
    assert_eq!(convert_int_to_binary(-3, 16), "1111111111111101");
    assert_eq!(convert_int_to_binary(5, 5), "00101");
    assert_eq!(convert_int_to_binary(0, 32), "00000000000000000000000000000000");
}

#[test]
fn datum_binary_is_full_word() {
    let datum = Datum::new("data3", 0x12345678, 0x10000008);
    assert_eq!(datum.to_binary(), "00010010001101000101011001111000");
    let negative = Datum::new("neg", -1, 0x10000000);
    assert_eq!(negative.to_binary(), "11111111111111111111111111111111");
}

#[test]
fn opcode_formats() {
    assert_eq!(convert_opcode_to_format(0), InstructionFormat::REGISTER);
    assert_eq!(convert_opcode_to_format(2), InstructionFormat::JUMP);
    assert_eq!(convert_opcode_to_format(3), InstructionFormat::JUMP);
    assert_eq!(convert_opcode_to_format(-1), InstructionFormat::PSEUDO);
    assert_eq!(convert_opcode_to_format(0xf), InstructionFormat::IMMEDIATE);
    assert_eq!(convert_opcode_to_format(0x2b), InstructionFormat::IMMEDIATE);
}

#[test]
fn instruction_predicates() {
    let beq = Instruction::new("beq", 0x4, -1);
    let bne = Instruction::new("bne", 0x5, -1);
    let sll = Instruction::new("sll", 0, 0x0);
    let srl = Instruction::new("srl", 0, 0x2);
    let jr = Instruction::new("jr", 0, 0x8);
    let addu = Instruction::new("addu", 0, 0x21);
    assert!(beq.is_branch());
    assert!(bne.is_branch());
    assert!(!addu.is_branch());
    assert!(sll.is_shift());
    assert!(srl.is_shift());
    assert!(!addu.is_shift());
    assert!(jr.is_register_jump());
    assert!(!addu.is_register_jump());
}

#[test]
fn registry_lookup() {
    let table = instruction_table();
    let lui = find_instruction("lui", &table).unwrap();
    assert_eq!(lui.opcode, 0xf);
    assert_eq!(lui.funct, -1);
    let la = find_instruction("la", &table).unwrap();
    assert_eq!(la.opcode, -1);
    assert!(find_instruction("nop", &table).is_none());
}

#[test]
fn argument_classification() {
    assert_eq!(resolve_argument_type("$17"), ArgumentType::REGISTER);
    assert_eq!(resolve_argument_type("$"), ArgumentType::REGISTER);
    assert_eq!(resolve_argument_type("lab1"), ArgumentType::LABEL);
    assert_eq!(resolve_argument_type("data2"), ArgumentType::LABEL);
    assert_eq!(resolve_argument_type("0($0)"), ArgumentType::STACK);
    assert_eq!(resolve_argument_type("-4($29)"), ArgumentType::STACK);
    assert_eq!(resolve_argument_type("0x1001"), ArgumentType::NUMBER);
    assert_eq!(resolve_argument_type("42"), ArgumentType::NUMBER);
    assert_eq!(resolve_argument_type("-42"), ArgumentType::NUMBER);
    assert_eq!(resolve_argument_type(""), ArgumentType::NUMBER);
    // the opening parenthesis must follow at least one digit
    assert_eq!(resolve_argument_type("($0)"), ArgumentType::NUMBER);
}

#[test]
fn label_scanning() {
    assert!(is_label("main:"));
    assert!(is_label("lab1:"));
    assert!(!is_label("\taddu\t$1, $2, $3"));
    assert!(!is_label(""));
    let label = resolve_labels("lab2:").unwrap();
    assert_eq!(label.name, "lab2");
    assert_eq!(label.address, 0);
    assert!(resolve_labels("\tj\tmain").is_none());
}

#[test]
fn label_addressing() {
    let declared = vec![Label::new("main", 0), Label::new("lab1", 0)];
    let codes: Vec<String> = vec![
        "main:".to_string(),
        "and\t$17, $17, $0".to_string(),
        "and\t$18, $18, $0".to_string(),
        "lab1:".to_string(),
        "or\t$9, $9, $0".to_string(),
    ];
    let addressed = get_addressed_labels(&codes, &declared).unwrap();
    assert_eq!(addressed.len(), 2);
    assert_eq!(addressed[0].name, "main");
    assert_eq!(addressed[0].address, 0x400000);
    assert_eq!(addressed[1].name, "lab1");
    assert_eq!(addressed[1].address, 0x400008);
}

#[test]
fn label_addressing_rejects_unscanned_names() {
    let codes: Vec<String> = vec!["ghost:".to_string()];
    let declared: Vec<Label> = vec![];
    assert!(matches!(
        get_addressed_labels(&codes, &declared),
        Err(AsmError::UndeclaredLabel)
    ));
}

#[test]
fn label_lookup_is_idempotent() {
    let labels = vec![Label::new("main", 0x400000), Label::new("lab1", 0x400010)];
    let first = mipssembler::label::find_label("lab1", &labels).unwrap().address;
    let second = mipssembler::label::find_label("lab1", &labels).unwrap().address;
    assert_eq!(first, second);
}

#[test]
fn pseudo_expansion_one_instruction_when_low_half_zero() {
    let data = vec![Datum::new("data1", 100, 0x10000000)];
    let expansion = disassemble_pseudo_instruction("\tla\t$8, data1", &data)
        .unwrap()
        .unwrap();
    assert_eq!(expansion, vec!["lui\t$8, 4096".to_string()]);
}

#[test]
fn pseudo_expansion_two_instructions_when_low_half_set() {
    let data = vec![
        Datum::new("data1", 100, 0x10000000),
        Datum::new("data2", 200, 0x10000004),
    ];
    let expansion = disassemble_pseudo_instruction("\tla\t$9, data2", &data)
        .unwrap()
        .unwrap();
    assert_eq!(
        expansion,
        vec!["lui\t$9, 4096".to_string(), "ori\t$9, $9, 4".to_string()]
    );
}

#[test]
fn pseudo_expansion_sign_sensitive_low_half() {
    // low half 0x8000 has its top bit set: the signed shift test fails and
    // no ori is emitted even though the low half is non-zero
    let data = vec![Datum::new("big", 1, 0x10008000)];
    let expansion = disassemble_pseudo_instruction("\tla\t$8, big", &data)
        .unwrap()
        .unwrap();
    assert_eq!(expansion, vec!["lui\t$8, 4096".to_string()]);
}

#[test]
fn pseudo_expansion_passes_other_mnemonics_through() {
    let data: Vec<Datum> = vec![];
    let result = disassemble_pseudo_instruction("\taddu\t$1, $2, $3", &data).unwrap();
    assert!(result.is_none());
}

#[test]
fn pseudo_expansion_rejects_bad_shapes() {
    let data = vec![Datum::new("data1", 100, 0x10000000)];
    assert!(matches!(
        disassemble_pseudo_instruction("\tla\t$8", &data),
        Err(AsmError::MalformedOperands)
    ));
    assert!(matches!(
        disassemble_pseudo_instruction("\tla\t$8, missing", &data),
        Err(AsmError::UndeclaredData)
    ));
    assert!(matches!(
        disassemble_pseudo_instruction("\tnop", &data),
        Err(AsmError::MalformedInstruction)
    ));
}

#[test]
fn encoding_register_format() {
    let text = get_text_from_code("\tand\t$10, $10, $0", 0x400000, &[], &[]).unwrap();
    assert_eq!(text.to_binary().unwrap(), "00000001010000000101000000100100");
    let shift = get_text_from_code("\tsll\t$18, $17, 1", 0x400000, &[], &[]).unwrap();
    assert_eq!(shift.to_binary().unwrap(), "00000000000100011001000001000000");
}

#[test]
fn encoding_immediate_format() {
    let lui = get_text_from_code("\tlui\t$8, 0x1001", 0x400000, &[], &[]).unwrap();
    assert_eq!(lui.to_binary().unwrap(), "00111100000010000001000000000001");
    let labels = vec![Label::new("lab2", 0x40000C)];
    let bne = get_text_from_code("\tbne\t$11, $8, lab2", 0x400014, &[], &labels).unwrap();
    assert_eq!(bne.to_binary().unwrap(), "00010101011010001111111111111101");
}

#[test]
fn encoding_jump_format() {
    let labels = vec![Label::new("lab1", 0x400014)];
    let jump = get_text_from_code("\tj\tlab1", 0x400040, &[], &labels).unwrap();
    assert_eq!(jump.to_binary().unwrap(), "00001000000100000000000000000101");
}

#[test]
fn encoding_resolves_data_before_labels() {
    let data = vec![Datum::new("x", 7, 0x10000004)];
    let labels = vec![Label::new("x", 0x400000)];
    let lw = get_text_from_code("\tsltiu\t$1, $2, x", 0x400000, &data, &labels).unwrap();
    // 0x10000004 & 0xFFFF == 4: the datum's address wins over the label's
    assert_eq!(lw.to_binary().unwrap(), "00101100001000100000000000000100");
}

#[test]
fn encoding_rejects_bad_lines() {
    assert!(matches!(
        get_text_from_code("singleword", 0x400000, &[], &[]),
        Err(AsmError::MalformedInstruction)
    ));
    assert!(matches!(
        get_text_from_code("\tfoo\t$1, $2", 0x400000, &[], &[]),
        Err(AsmError::UnknownInstruction)
    ));
    assert!(matches!(
        get_text_from_code("\tlw\t$8, missing", 0x400000, &[], &[]),
        Err(AsmError::UnresolvedArgument)
    ));
    assert!(matches!(
        get_text_from_code("\taddu\t$1", 0x400000, &[], &[]),
        Err(AsmError::MissingOperands)
    ));
    assert!(matches!(
        get_text_from_code("\tla\t$8, 4", 0x400000, &[], &[]),
        Err(AsmError::UnexpandedPseudo)
    ));
}

#[test]
fn pseudo_text_cannot_be_rendered() {
    let text = Text::new(0, 0, 0, 0, -1, -1, 0, 0);
    assert!(matches!(text.to_binary(), Err(AsmError::UnexpandedPseudo)));
}

#[test]
fn stack_operand_contributes_offset_then_base() {
    let sw = get_text_from_code("\tsw\t$8, 0($0)", 0x400000, &[], &[]).unwrap();
    assert_eq!(sw.to_binary().unwrap(), "10101101000000000000000000000000");
    let lw = get_text_from_code("\tlw\t$8, -4($29)", 0x400000, &[], &[]).unwrap();
    // opcode 0x23, rs = $8, rt = -4 (truncated), immediate = 29
    assert_eq!(lw.to_binary().unwrap(), "10001101000111000000000000011101");
}

#[test]
fn line_classification() {
    let lines: Vec<String> = vec![
        "".to_string(),
        "\t.data".to_string(),
        "a:\t.word\t1".to_string(),
        "\t.text".to_string(),
        "\tlui\t$1, 1".to_string(),
    ];
    let classified = compose_lines(&lines);
    assert_eq!(classified.len(), 5);
    assert_eq!(classified[0].section, Section::NONE);
    assert!(classified[0].text.is_none());
    assert_eq!(classified[1].section, Section::NONE);
    assert_eq!(classified[2].section, Section::DATA);
    assert_eq!(classified[2].address, 0x10000000);
    assert_eq!(classified[2].text.as_deref(), Some("a:\t.word\t1"));
    // marker lines carry no emitted text and belong to no section
    assert_eq!(classified[3].section, Section::NONE);
    assert!(classified[3].text.is_none());
    assert_eq!(classified[4].section, Section::TEXT);
    assert_eq!(classified[4].text.as_deref(), Some("\tlui\t$1, 1"));
}

#[test]
fn malformed_data_line_is_fatal() {
    let lines: Vec<String> = vec![
        "\t.data".to_string(),
        "a:\t.word".to_string(),
    ];
    let classified = compose_lines(&lines);
    assert!(matches!(
        mipssembler::datum::extract_data_from_lines(&classified),
        Err(AsmError::MalformedData)
    ));
}

#[test]
fn error_messages_match_diagnostics() {
    assert_eq!(AsmError::MalformedData.message(), "Invalid data declaration.");
    assert_eq!(AsmError::DataNameNotFound.message(), "Data name not found.");
    assert_eq!(AsmError::UndeclaredLabel.message(), "Use of undeclared label.");
    assert_eq!(AsmError::UndeclaredData.message(), "Use of undeclared data.");
    assert_eq!(AsmError::MalformedInstruction.message(), "Invalid instruction.");
    assert_eq!(AsmError::UnknownInstruction.message(), "Unknown instruction.");
    assert_eq!(
        AsmError::UnresolvedArgument.message(),
        "Failed to resolve argument value."
    );
}

#[test]
fn format_builders_populate_fields() {
    let addu = Instruction::new("addu", 0, 0x21);
    let register = addu.to_register_format_text(17, 0, 17, 0);
    assert_eq!(
        register.to_binary().unwrap(),
        "00000010001000001000100000100001"
    );
    let jump = Instruction::new("j", 2, -1);
    let target = jump.to_jump_format_text(5);
    assert_eq!(target.to_binary().unwrap(), "00001000000000000000000000000101");
    let lui = Instruction::new("lui", 0xf, -1);
    let immediate = lui.to_immediate_format_text(0, 8, 0x1001);
    assert_eq!(
        immediate.to_binary().unwrap(),
        "00111100000010000001000000000001"
    );
}

#[test]
fn operand_resolution_orders_values() {
    let data = vec![Datum::new("x", 1, 0x10000008)];
    let labels = vec![Label::new("y", 0x400010)];
    let args: Vec<String> = vec![
        "$31".to_string(),
        "-4($29)".to_string(),
        "x".to_string(),
        "y".to_string(),
        "0x10".to_string(),
    ];
    let values = mipssembler::text::resolve_arguments(&args, &data, &labels).unwrap();
    assert_eq!(values, vec![31, -4, 29, 0x10000008, 0x400010, 16]);
}
