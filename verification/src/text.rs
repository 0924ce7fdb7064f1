//! The encoded form of one machine instruction and its binary rendering.

use vstd::prelude::*;

use crate::constants::{spec_find_instruction, spec_instruction_table, find_instruction,
    instruction_table};
use crate::datum::{spec_find_datum, views_of_data, find_datum, Datum, DatumV};
use crate::errors::AsmError;
use crate::instruction::{spec_convert_opcode_to_format, spec_is_branch, spec_is_shift,
    convert_opcode_to_format, Instruction, InstructionFormat, InstructionV};
use crate::label::{spec_find_label, views_of_labels, find_label, Label, LabelV};
use crate::strutil::{is_lower, scan_digits, spec_split, spec_trim_all, spec_trim_start, views_of,
    char_is_digit, split_on, trim_all, trim_start};
use crate::utils::{spec_address_difference, spec_bits, spec_parse_int, views_of_values,
    convert_int_to_binary, convert_string_to_int, get_address_difference, shift_right_two};

verus! {

/// How one operand is read, decided by the first rule that matches in this
/// order: register (leading `$`), label or data reference (leading
/// lowercase letter), stack form (`<signed-int>($<digits>)` prefix), plain
/// numeric literal (everything else).
#[derive(Clone, Copy, Debug, PartialEq, Eq, Structural)]
pub enum ArgumentType {
    NUMBER,
    REGISTER,
    LABEL,
    STACK,
}

/// Whether `s` begins with the stack-operand shape: an optional minus
/// sign, one or more digits, `(`, `$`, any digits, `)`.
pub open spec fn spec_is_stack_arg(s: Seq<char>) -> bool {
    let p: int = if s.len() > 0 && s[0] == '-' {
        1
    } else {
        0
    };
    let q = scan_digits(s, p);
    q > p && q < s.len() && s[q] == '(' && q + 1 < s.len() && s[q + 1] == '$' && ({
        let r = scan_digits(s, q + 2);
        r < s.len() && s[r] == ')'
    })
}

/// The classification of the operand `s`, first matching rule first.
pub open spec fn spec_resolve_argument_type(s: Seq<char>) -> ArgumentType {
    if s.len() > 0 && s[0] == '$' {
        ArgumentType::REGISTER
    } else if s.len() > 0 && is_lower(s[0]) {
        ArgumentType::LABEL
    } else if spec_is_stack_arg(s) {
        ArgumentType::STACK
    } else {
        ArgumentType::NUMBER
    }
}

/// Scans the digits of `text` from index `i` on; the first index holding
/// no digit.
fn scan_digits_from(text: &str, i: usize) -> (r: usize)
    requires
        i <= text@.len(),
    ensures
        r == scan_digits(text@, i as int),
        i <= r <= text@.len(),
{
    let n = text.unicode_len();
    let mut j: usize = i;
    while j < n && char_is_digit(text.get_char(j))
        invariant
            n == text@.len(),
            i <= j <= n,
            scan_digits(text@, i as int) == scan_digits(text@, j as int),
        decreases n - j,
    {
        j = j + 1;
    }
    assert(scan_digits(text@, j as int) == j as int);
    j
}

/// Classifies one operand; exactly [`spec_resolve_argument_type`]. The
/// numeric rule is a catch-all, so classification never fails.
pub fn resolve_argument_type(text: &str) -> (r: ArgumentType)
    ensures
        r == spec_resolve_argument_type(text@),
{
    let n = text.unicode_len();
    if n > 0 && text.get_char(0) == '$' {
        return ArgumentType::REGISTER;
    }
    if n > 0 {
        let c = text.get_char(0);
        if 'a' <= c && c <= 'z' {
            return ArgumentType::LABEL;
        }
    }
    let p: usize = if n > 0 && text.get_char(0) == '-' {
        1
    } else {
        0
    };
    let q = scan_digits_from(text, p);
    if q > p && q < n && text.get_char(q) == '(' && q + 1 < n && text.get_char(q + 1) == '$' {
        let r = scan_digits_from(text, q + 2);
        if r < n && text.get_char(r) == ')' {
            return ArgumentType::STACK;
        }
    }
    ArgumentType::NUMBER
}

/// One encoded instruction. Fields that the instruction's format does not
/// use stay zero; the format itself is re-derived from `opcode` when the
/// instruction is rendered.
pub struct Text {
    rs: i32,
    rt: i32,
    rd: i32,
    shamt: i32,
    funct: i32,
    opcode: i32,
    immediate: i32,
    address: i32,
}

/// The mathematical image of a [`Text`].
pub ghost struct TextV {
    pub rs: int,
    pub rt: int,
    pub rd: int,
    pub shamt: int,
    pub funct: int,
    pub opcode: int,
    pub immediate: int,
    pub address: int,
}

impl View for Text {
    type V = TextV;

    closed spec fn view(&self) -> TextV {
        TextV {
            rs: self.rs as int,
            rt: self.rt as int,
            rd: self.rd as int,
            shamt: self.shamt as int,
            funct: self.funct as int,
            opcode: self.opcode as int,
            immediate: self.immediate as int,
            address: self.address as int,
        }
    }
}

/// The 32-bit rendering of the encoded instruction `t`, per its format:
/// register `6+5+5+5+5+6` (opcode, rs, rt, rd, shamt, funct), immediate
/// `6+5+5+16` (opcode, rs, rt, immediate), jump `6+26` (opcode, address).
/// Unused for the pseudo format.
pub open spec fn spec_text_binary(t: TextV) -> Seq<char> {
    match spec_convert_opcode_to_format(t.opcode) {
        InstructionFormat::REGISTER => spec_bits(t.opcode as u32, 6) + spec_bits(t.rs as u32, 5)
            + spec_bits(t.rt as u32, 5) + spec_bits(t.rd as u32, 5) + spec_bits(t.shamt as u32, 5)
            + spec_bits(t.funct as u32, 6),
        InstructionFormat::IMMEDIATE => spec_bits(t.opcode as u32, 6) + spec_bits(t.rs as u32, 5)
            + spec_bits(t.rt as u32, 5) + spec_bits(t.immediate as u32, 16),
        InstructionFormat::JUMP => spec_bits(t.opcode as u32, 6) + spec_bits(t.address as u32, 26),
        InstructionFormat::PSEUDO => Seq::empty(),
    }
}

/// A rendered instruction is always exactly 32 characters.
pub proof fn lemma_text_binary_len(t: TextV)
    requires
        t.opcode != -1,
    ensures
        spec_text_binary(t).len() == 32,
{
}

impl Text {
    /// Builds an encoded instruction from its raw fields.
    pub fn new(
        rs: i32,
        rt: i32,
        rd: i32,
        shamt: i32,
        funct: i32,
        opcode: i32,
        immediate: i32,
        address: i32,
    ) -> (r: Self)
        ensures
            r@ == (TextV {
                rs: rs as int,
                rt: rt as int,
                rd: rd as int,
                shamt: shamt as int,
                funct: funct as int,
                opcode: opcode as int,
                immediate: immediate as int,
                address: address as int,
            }),
    {
        Self { rs, rt, rd, shamt, funct, opcode, immediate, address }
    }

    /// Renders this instruction as its 32-character binary string, in the
    /// field layout of its format. A pseudo-instruction (sentinel opcode
    /// `-1`) cannot be rendered: it should have been expanded away.
    pub fn to_binary(&self) -> (r: Result<String, AsmError>)
        ensures
            match r {
                Ok(s) => self@.opcode != -1 && s@ == spec_text_binary(self@),
                Err(e) => self@.opcode == -1 && e == AsmError::UnexpandedPseudo,
            },
    {
        match convert_opcode_to_format(self.opcode) {
            InstructionFormat::REGISTER => {
                let mut out = convert_int_to_binary(self.opcode, 6);
                out.append(convert_int_to_binary(self.rs, 5).as_str());
                out.append(convert_int_to_binary(self.rt, 5).as_str());
                out.append(convert_int_to_binary(self.rd, 5).as_str());
                out.append(convert_int_to_binary(self.shamt, 5).as_str());
                out.append(convert_int_to_binary(self.funct, 6).as_str());
                Ok(out)
            },
            InstructionFormat::IMMEDIATE => {
                let mut out = convert_int_to_binary(self.opcode, 6);
                out.append(convert_int_to_binary(self.rs, 5).as_str());
                out.append(convert_int_to_binary(self.rt, 5).as_str());
                out.append(convert_int_to_binary(self.immediate, 16).as_str());
                Ok(out)
            },
            InstructionFormat::JUMP => {
                let mut out = convert_int_to_binary(self.opcode, 6);
                out.append(convert_int_to_binary(self.address, 26).as_str());
                Ok(out)
            },
            InstructionFormat::PSEUDO => Err(AsmError::UnexpandedPseudo),
        }
    }
}

} // verus!

use vstd::prelude::*;

verus! {

/// The values one classified operand contributes: one value for a
/// register, reference or literal; offset then base register for a stack
/// operand. A reference found among neither the data nor the labels, or an
/// unparseable number, is an error.
pub open spec fn spec_resolve_one_argument(
    arg: Seq<char>,
    data: Seq<DatumV>,
    labels: Seq<LabelV>,
) -> Result<Seq<int>, AsmError> {
    match spec_resolve_argument_type(arg) {
        ArgumentType::NUMBER => match spec_parse_int(arg) {
            Some(v) => Ok(seq![v]),
            None => Err(AsmError::InvalidNumber),
        },
        ArgumentType::REGISTER => match spec_parse_int(arg.subrange(1, arg.len() as int)) {
            Some(v) => Ok(seq![v]),
            None => Err(AsmError::InvalidNumber),
        },
        ArgumentType::LABEL => match spec_find_datum(arg, data) {
            Some(d) => Ok(seq![d.address]),
            None => match spec_find_label(arg, labels) {
                Some(l) => Ok(seq![l.address]),
                None => Err(AsmError::UnresolvedArgument),
            },
        },
        ArgumentType::STACK => {
            let parts = spec_split(arg, '(');
            if parts.len() != 2 {
                Err(AsmError::UnresolvedArgument)
            } else {
                match spec_parse_int(parts[0]) {
                    None => Err(AsmError::InvalidNumber),
                    Some(offset) => {
                        let base = parts[1];
                        if base.len() < 2 {
                            Err(AsmError::InvalidNumber)
                        } else {
                            match spec_parse_int(base.subrange(1, base.len() - 1)) {
                                None => Err(AsmError::InvalidNumber),
                                Some(b) => Ok(seq![offset, b]),
                            }
                        }
                    },
                }
            }
        },
    }
}

/// The values of the operands from index `i` on, in order; the first
/// failing operand decides the error.
pub open spec fn spec_resolve_arguments_from(
    args: Seq<Seq<char>>,
    data: Seq<DatumV>,
    labels: Seq<LabelV>,
    i: int,
) -> Result<Seq<int>, AsmError>
    decreases args.len() - i,
{
    if !(0 <= i < args.len()) {
        Ok(seq![])
    } else {
        match spec_resolve_one_argument(args[i], data, labels) {
            Err(e) => Err(e),
            Ok(vals) => match spec_resolve_arguments_from(args, data, labels, i + 1) {
                Err(e) => Err(e),
                Ok(rest) => Ok(vals + rest),
            },
        }
    }
}

/// The values of a whole operand list.
pub open spec fn spec_resolve_arguments(
    args: Seq<Seq<char>>,
    data: Seq<DatumV>,
    labels: Seq<LabelV>,
) -> Result<Seq<int>, AsmError> {
    spec_resolve_arguments_from(args, data, labels, 0)
}

/// Resolves every classified operand to its 32-bit value: registers and
/// literals parse directly, references look the name up first among the
/// data then among the labels, stack operands contribute offset then base.
#[verifier::rlimit(100)]
pub fn resolve_arguments(argument_codes: &Vec<String>, data: &[Datum], labels: &[Label]) -> (r:
    Result<Vec<i32>, AsmError>)
    ensures
        ({
            let spec = spec_resolve_arguments(
                views_of(argument_codes@),
                views_of_data(data@),
                views_of_labels(labels@),
            );
            match r {
                Ok(vals) => spec == Ok::<Seq<int>, AsmError>(views_of_values(vals@)),
                Err(e) => spec == Err::<Seq<int>, AsmError>(e),
            }
        }),
{
    let ghost avs = views_of(argument_codes@);
    let ghost dvs = views_of_data(data@);
    let ghost lvs = views_of_labels(labels@);
    let n = argument_codes.len();
    let mut arguments: Vec<i32> = Vec::new();
    let mut i: usize = 0;
    while i < n
        invariant
            n == argument_codes@.len(),
            0 <= i <= n,
            avs == views_of(argument_codes@),
            dvs == views_of_data(data@),
            lvs == views_of_labels(labels@),
            spec_resolve_arguments(avs, dvs, lvs) == match spec_resolve_arguments_from(
                avs,
                dvs,
                lvs,
                i as int,
            ) {
                Ok(rest) => Ok::<Seq<int>, AsmError>(views_of_values(arguments@) + rest),
                Err(e) => Err::<Seq<int>, AsmError>(e),
            },
        decreases n - i,
    {
        assert(avs[i as int] == argument_codes@[i as int]@);
        let argument_text: &String = &argument_codes[i];
        let ghost built = views_of_values(arguments@);
        match resolve_argument_type(argument_text.as_str()) {
            ArgumentType::NUMBER => {
                match convert_string_to_int(argument_text.as_str()) {
                    Ok(v) => {
                        arguments.push(v);
                        proof {
                            assert(views_of_values(arguments@) =~= built + seq![v as int]);
                        }
                    },
                    Err(e) => {
                        return Err(e);
                    },
                }
            },
            ArgumentType::REGISTER => {
                let text_len = argument_text.as_str().unicode_len();
                let rest = argument_text.as_str().substring_char(1, text_len);
                match convert_string_to_int(rest) {
                    Ok(v) => {
                        arguments.push(v);
                        proof {
                            assert(views_of_values(arguments@) =~= built + seq![v as int]);
                        }
                    },
                    Err(e) => {
                        return Err(e);
                    },
                }
            },
            ArgumentType::LABEL => {
                match find_datum(argument_text.as_str(), data) {
                    Some(d) => {
                        arguments.push(d.address);
                        proof {
                            assert(views_of_values(arguments@) =~= built + seq![
                                d.address as int,
                            ]);
                        }
                    },
                    None => {
                        match find_label(argument_text.as_str(), labels) {
                            Some(l) => {
                                arguments.push(l.address);
                                proof {
                                    assert(views_of_values(arguments@) =~= built + seq![
                                        l.address as int,
                                    ]);
                                }
                            },
                            None => {
                                return Err(AsmError::UnresolvedArgument);
                            },
                        }
                    },
                }
            },
            ArgumentType::STACK => {
                let parts = split_on(argument_text.as_str(), '(');
                if parts.len() != 2 {
                    return Err(AsmError::UnresolvedArgument);
                }
                assert(views_of(parts@)[0] == parts@[0]@);
                assert(views_of(parts@)[1] == parts@[1]@);
                let offset = match convert_string_to_int(parts[0].as_str()) {
                    Ok(v) => v,
                    Err(e) => {
                        return Err(e);
                    },
                };
                let base_text: &String = &parts[1];
                let base_len = base_text.as_str().unicode_len();
                if base_len < 2 {
                    return Err(AsmError::InvalidNumber);
                }
                let base = match convert_string_to_int(
                    base_text.as_str().substring_char(1, base_len - 1),
                ) {
                    Ok(v) => v,
                    Err(e) => {
                        return Err(e);
                    },
                };
                arguments.push(offset);
                arguments.push(base);
                proof {
                    assert(views_of_values(arguments@) =~= built + seq![
                        offset as int,
                        base as int,
                    ]);
                }
            },
        }
        proof {
            match spec_resolve_one_argument(avs[i as int], dvs, lvs) {
                Ok(vals) => {
                    assert(views_of_values(arguments@) =~= built + vals);
                    match spec_resolve_arguments_from(avs, dvs, lvs, i as int + 1) {
                        Ok(rest) => {
                            assert(views_of_values(arguments@) + rest =~= built + (vals + rest));
                        },
                        Err(e) => {},
                    }
                },
                Err(e) => {},
            }
        }
        i = i + 1;
    }
    proof {
        assert(views_of_values(arguments@) + seq![] =~= views_of_values(arguments@));
    }
    Ok(arguments)
}

/// The encoded instruction for `instruction` with the resolved operand
/// values `args`, at address `addr`. Register format: shifts place the
/// operands as `(rd, rt, shamt)`, every other register instruction as
/// `(rd, rs, rt)`. Jump format: the operand's absolute address,
/// arithmetically shifted right by two. Immediate format: two operands are
/// `(rt, immediate)`; three are `(rs, rt, target)` with the PC-relative
/// biased word offset for a branch, and `(rs, rt, immediate)` otherwise. A
/// list shorter than the format needs is an error, and a pseudo-instruction
/// must not reach the encoder.
pub open spec fn spec_get_text_by_format(
    instruction: InstructionV,
    args: Seq<int>,
    addr: int,
) -> Result<TextV, AsmError> {
    match spec_convert_opcode_to_format(instruction.opcode) {
        InstructionFormat::REGISTER => {
            if args.len() < 3 {
                Err(AsmError::MissingOperands)
            } else if spec_is_shift(instruction) {
                Ok(TextV {
                    rs: 0,
                    rt: args[1],
                    rd: args[0],
                    shamt: args[2],
                    funct: instruction.funct,
                    opcode: instruction.opcode,
                    immediate: 0,
                    address: 0,
                })
            } else {
                Ok(TextV {
                    rs: args[1],
                    rt: args[2],
                    rd: args[0],
                    shamt: 0,
                    funct: instruction.funct,
                    opcode: instruction.opcode,
                    immediate: 0,
                    address: 0,
                })
            }
        },
        InstructionFormat::JUMP => {
            if args.len() < 1 {
                Err(AsmError::MissingOperands)
            } else {
                Ok(TextV {
                    rs: 0,
                    rt: 0,
                    rd: 0,
                    shamt: 0,
                    funct: instruction.funct,
                    opcode: instruction.opcode,
                    immediate: 0,
                    address: args[0] / 4,
                })
            }
        },
        InstructionFormat::IMMEDIATE => {
            if args.len() < 2 {
                Err(AsmError::MissingOperands)
            } else if args.len() < 3 {
                Ok(TextV {
                    rs: 0,
                    rt: args[0],
                    rd: 0,
                    shamt: 0,
                    funct: instruction.funct,
                    opcode: instruction.opcode,
                    immediate: args[1],
                    address: 0,
                })
            } else if spec_is_branch(instruction) {
                Ok(TextV {
                    rs: args[0],
                    rt: args[1],
                    rd: 0,
                    shamt: 0,
                    funct: instruction.funct,
                    opcode: instruction.opcode,
                    immediate: spec_address_difference(addr, args[2]),
                    address: 0,
                })
            } else {
                Ok(TextV {
                    rs: args[0],
                    rt: args[1],
                    rd: 0,
                    shamt: 0,
                    funct: instruction.funct,
                    opcode: instruction.opcode,
                    immediate: args[2],
                    address: 0,
                })
            }
        },
        InstructionFormat::PSEUDO => Err(AsmError::UnexpandedPseudo),
    }
}

/// Populates the instruction's fields from its resolved operand values,
/// per its format.
pub fn get_text_by_format(instruction: &Instruction, arguments: &[i32], current_address: i32) -> (r:
    Result<Text, AsmError>)
    ensures
        ({
            let spec = spec_get_text_by_format(
                instruction@,
                views_of_values(arguments@),
                current_address as int,
            );
            match r {
                Ok(t) => spec == Ok::<TextV, AsmError>(t@),
                Err(e) => spec == Err::<TextV, AsmError>(e),
            }
        }),
{
    let ghost avs = views_of_values(arguments@);
    let n = arguments.len();
    match convert_opcode_to_format(instruction.opcode) {
        InstructionFormat::REGISTER => {
            if n < 3 {
                return Err(AsmError::MissingOperands);
            }
            let a0 = *vstd::slice::slice_index_get(arguments, 0);
            let a1 = *vstd::slice::slice_index_get(arguments, 1);
            let a2 = *vstd::slice::slice_index_get(arguments, 2);
            if instruction.is_shift() {
                Ok(instruction.to_register_format_text(0, a1, a0, a2))
            } else {
                Ok(instruction.to_register_format_text(a1, a2, a0, 0))
            }
        },
        InstructionFormat::JUMP => {
            if n < 1 {
                return Err(AsmError::MissingOperands);
            }
            let a0 = *vstd::slice::slice_index_get(arguments, 0);
            Ok(instruction.to_jump_format_text(shift_right_two(a0)))
        },
        InstructionFormat::IMMEDIATE => {
            if n < 2 {
                return Err(AsmError::MissingOperands);
            }
            let a0 = *vstd::slice::slice_index_get(arguments, 0);
            let a1 = *vstd::slice::slice_index_get(arguments, 1);
            if n < 3 {
                Ok(instruction.to_immediate_format_text(0, a0, a1))
            } else if instruction.is_branch() {
                let a2 = *vstd::slice::slice_index_get(arguments, 2);
                let difference = get_address_difference(current_address, a2);
                Ok(instruction.to_immediate_format_text(a0, a1, difference))
            } else {
                let a2 = *vstd::slice::slice_index_get(arguments, 2);
                Ok(instruction.to_immediate_format_text(a0, a1, a2))
            }
        },
        InstructionFormat::PSEUDO => Err(AsmError::UnexpandedPseudo),
    }
}

/// The encoding of the instruction line `text` at address `addr`: the line
/// splits into mnemonic and comma-separated operands, the mnemonic is
/// looked up in the registry, every operand is resolved, and the fields
/// are populated per the instruction's format.
pub open spec fn spec_get_text_from_code(
    text: Seq<char>,
    addr: int,
    data: Seq<DatumV>,
    labels: Seq<LabelV>,
) -> Result<TextV, AsmError> {
    let parts = spec_split(spec_trim_start(text), '\t');
    if parts.len() != 2 {
        Err(AsmError::MalformedInstruction)
    } else {
        match spec_find_instruction(parts[0], spec_instruction_table()) {
            None => Err(AsmError::UnknownInstruction),
            Some(instruction) => {
                let args = spec_trim_all(spec_split(parts[1], ','));
                match spec_resolve_arguments(args, data, labels) {
                    Err(e) => Err(e),
                    Ok(vals) => spec_get_text_by_format(instruction, vals, addr),
                }
            },
        }
    }
}

/// Encodes one non-label code line at the given address.
pub fn get_text_from_code(text: &str, current_address: i32, data: &[Datum], labels: &[Label]) -> (r:
    Result<Text, AsmError>)
    ensures
        ({
            let spec = spec_get_text_from_code(
                text@,
                current_address as int,
                views_of_data(data@),
                views_of_labels(labels@),
            );
            match r {
                Ok(t) => spec == Ok::<TextV, AsmError>(t@),
                Err(e) => spec == Err::<TextV, AsmError>(e),
            }
        }),
{
    let trimmed = trim_start(text);
    let parts = split_on(trimmed, '\t');
    if parts.len() != 2 {
        return Err(AsmError::MalformedInstruction);
    }
    assert(views_of(parts@)[0] == parts@[0]@);
    assert(views_of(parts@)[1] == parts@[1]@);
    let table = instruction_table();
    let instruction = match find_instruction(parts[0].as_str(), &table) {
        Some(i) => i,
        None => {
            return Err(AsmError::UnknownInstruction);
        },
    };
    let argument_texts = trim_all(&split_on(parts[1].as_str(), ','));
    let arguments = match resolve_arguments(&argument_texts, data, labels) {
        Ok(vals) => vals,
        Err(e) => {
            return Err(e);
        },
    };
    get_text_by_format(instruction, arguments.as_slice(), current_address)
}

/// Whether the instruction line `text` references, in some operand
/// position, a name that neither the data entries nor the labels declare.
pub open spec fn spec_references_undeclared(
    text: Seq<char>,
    data: Seq<DatumV>,
    labels: Seq<LabelV>,
) -> bool {
    let parts = spec_split(spec_trim_start(text), '\t');
    parts.len() == 2 && ({
        let args = spec_trim_all(spec_split(parts[1], ','));
        exists|j: int|
            0 <= j < args.len() && spec_resolve_argument_type(#[trigger] args[j])
                == ArgumentType::LABEL && spec_find_datum(args[j], data) is None && spec_find_label(
                args[j],
                labels,
            ) is None
    })
}

proof fn lemma_unresolved_operand_errs_from(
    args: Seq<Seq<char>>,
    data: Seq<DatumV>,
    labels: Seq<LabelV>,
    i: int,
    j: int,
)
    requires
        0 <= i <= j < args.len(),
        spec_resolve_argument_type(args[j]) == ArgumentType::LABEL,
        spec_find_datum(args[j], data) is None,
        spec_find_label(args[j], labels) is None,
    ensures
        spec_resolve_arguments_from(args, data, labels, i) is Err,
    decreases args.len() - i,
{
    if i < j {
        lemma_unresolved_operand_errs_from(args, data, labels, i + 1, j);
    }
}

/// An operand list with an undeclared symbolic reference in any position
/// never resolves: some operand — that one, or an earlier failing one —
/// decides an error.
pub proof fn lemma_unresolved_operand_errs(
    args: Seq<Seq<char>>,
    data: Seq<DatumV>,
    labels: Seq<LabelV>,
    j: int,
)
    requires
        0 <= j < args.len(),
        spec_resolve_argument_type(args[j]) == ArgumentType::LABEL,
        spec_find_datum(args[j], data) is None,
        spec_find_label(args[j], labels) is None,
    ensures
        spec_resolve_arguments(args, data, labels) is Err,
{
    lemma_unresolved_operand_errs_from(args, data, labels, 0, j);
}

/// An instruction line that references an undeclared name never encodes,
/// whatever its address.
pub proof fn lemma_undeclared_reference_line_errs(
    text: Seq<char>,
    addr: int,
    data: Seq<DatumV>,
    labels: Seq<LabelV>,
)
    requires
        spec_references_undeclared(text, data, labels),
    ensures
        spec_get_text_from_code(text, addr, data, labels) is Err,
{
    let parts = spec_split(spec_trim_start(text), '\t');
    match spec_find_instruction(parts[0], spec_instruction_table()) {
        None => {},
        Some(instruction) => {
            let args = spec_trim_all(spec_split(parts[1], ','));
            let j = choose|j: int|
                0 <= j < args.len() && spec_resolve_argument_type(#[trigger] args[j])
                    == ArgumentType::LABEL && spec_find_datum(args[j], data) is None
                    && spec_find_label(args[j], labels) is None;
            lemma_unresolved_operand_errs(args, data, labels, j);
        },
    }
}

} // verus!
