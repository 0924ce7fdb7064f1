//! End-to-end tests: whole programs through the assembly pipeline.

use mipssembler::assembler::assemble;
use mipssembler::datum::find_datum;
use mipssembler::datum::extract_data_from_lines;
use mipssembler::errors::AsmError;
use mipssembler::line::compose_lines;

const INPUT_CASE_1: &str = "
	.data
data1:	.word	100
data2:	.word	200
data3:	.word	0x12345678
	.text
main:
	and	$17, $17, $0
	and	$18, $18, $0
	la	$8, data1
	la	$9, data2
	and	$10, $10, $0
lab1:
	and	$11, $11, $0
lab2:
	addiu	$17, $17, 0x1
	addiu	$11, $11, 0x1
	or	$9, $9, $0
	bne	$11, $8, lab2
lab3:
	addiu	$18, $18, 0x2
	addiu	$11, $11, 1
	sll	$18, $17, 1
	srl	$17, $18, 1
	and	$19, $17, $18
	bne	$11, $9, lab3
lab4:
	addu	$5, $5, $31
	nor	$16, $17, $18
	beq	$10, $8, lab5
	j	lab1
lab5:
	ori	$16, $16, 0xf0f0
";

const OUTPUT_CASE_1: &str = "000000000000000000000000010110000000000000000000000000000000110000000010001000001000100000100100000000100100000010010000001001000011110000001000000100000000000000111100000010010001000000000000001101010010100100000000000001000000000101000000010100000010010000000001011000000101100000100100001001100011000100000000000000010010010101101011000000000000000100000001001000000100100000100101000101010110100011111111111111000010011001010010000000000000001000100101011010110000000000000001000000000001000110010000010000000000000000010010100010000100001000000010001100101001100000100100000101010110100111111111111110100000000010111111001010000010000100000010001100101000000000100111000100010100100000000000000000010000100000010000000000000000011000110110000100001111000011110000000000000000000000000000011001000000000000000000000000001100100000010010001101000101011001111000";

fn split_lines(input: &str) -> Vec<String> {
    input.lines().map(|line| line.to_string()).collect()
}

#[test]
fn test_main_case_1() {
    let lines = split_lines(INPUT_CASE_1);
    let actual = assemble(&lines).unwrap();
    assert_eq!(actual, OUTPUT_CASE_1);
}

#[test]
fn end_to_end_scenario() {
    let lines: Vec<String> = vec![
        "\t.data".to_string(),
        "data1:\t.word\t100".to_string(),
        "\t.text".to_string(),
        "main:".to_string(),
        "\tlui\t$8, 0x1001".to_string(),
        "\tsw\t$8, 0($0)".to_string(),
    ];
    let image = assemble(&lines).unwrap();
    let text_size = "00000000000000000000000000001000";
    let data_size = "00000000000000000000000000000100";
    let lui = "00111100000010000001000000000001";
    let sw = "10101101000000000000000000000000";
    let word_100 = "00000000000000000000000001100100";
    let expected = format!("{}{}{}{}{}", text_size, data_size, lui, sw, word_100);
    assert_eq!(image, expected);
}

#[test]
fn output_shape_matches_section_sizes() {
    let lines = split_lines(INPUT_CASE_1);
    let image = assemble(&lines).unwrap();
    let instruction_count = 22;
    let data_count = 3;
    assert_eq!(image.len(), 64 + 32 * instruction_count + 32 * data_count);
    let text_size_field = &image[0..32];
    let data_size_field = &image[32..64];
    assert_eq!(
        u32::from_str_radix(text_size_field, 2).unwrap(),
        4 * instruction_count as u32
    );
    assert_eq!(
        u32::from_str_radix(data_size_field, 2).unwrap(),
        4 * data_count as u32
    );
}

#[test]
fn undeclared_data_reference_aborts() {
    let lines: Vec<String> = vec![
        "\t.data".to_string(),
        "data1:\t.word\t1".to_string(),
        "\t.text".to_string(),
        "\tla\t$8, nosuchname".to_string(),
    ];
    assert_eq!(assemble(&lines), Err(AsmError::UndeclaredData));
}

#[test]
fn undeclared_label_operand_aborts() {
    let lines: Vec<String> = vec![
        "\t.text".to_string(),
        "\tj\tnowhere".to_string(),
    ];
    assert_eq!(assemble(&lines), Err(AsmError::UnresolvedArgument));
}

#[test]
fn anonymous_data_continuation_is_named_and_resolvable() {
    let lines: Vec<String> = vec![
        "\t.data".to_string(),
        "arr:\t.word\t1".to_string(),
        "\t.word\t2".to_string(),
    ];
    let classified = compose_lines(&lines);
    let data = extract_data_from_lines(&classified).unwrap();
    assert_eq!(data.len(), 2);
    assert_eq!(data[0].name, "arr");
    assert_eq!(data[0].address, 0x10000000);
    // the continuation sits one word later and is named after it
    assert_eq!(data[1].name, format!("arr_{}", 0x10000004u32));
    assert_eq!(data[1].address, 0x10000004);
    let found = find_datum(&format!("arr_{}", 0x10000004u32), &data).unwrap();
    assert_eq!(found.address, 0x10000004);
}

#[test]
fn anonymous_data_without_predecessor_fails() {
    let lines: Vec<String> = vec!["\t.data".to_string(), "\t.word\t2".to_string()];
    let classified = compose_lines(&lines);
    assert!(matches!(
        extract_data_from_lines(&classified),
        Err(AsmError::DataNameNotFound)
    ));
}

#[test]
fn malformed_data_shape_aborts() {
    // a data line that does not split into name, directive and value is a
    // fatal parse error, so no address gap can arise
    let lines: Vec<String> = vec![
        "\t.data".to_string(),
        "data1:\t.word\t1".to_string(),
        "data2: .word 2".to_string(),
        "\t.text".to_string(),
    ];
    assert_eq!(assemble(&lines), Err(AsmError::MalformedData));
}

#[test]
fn empty_program_serialises_to_headers_only() {
    let lines: Vec<String> = vec!["\t.data".to_string(), "\t.text".to_string()];
    let image = assemble(&lines).unwrap();
    assert_eq!(image.len(), 64);
    assert!(image.chars().all(|c| c == '0'));
}
