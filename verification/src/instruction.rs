//! Instruction specifications: mnemonic, opcode and funct fields, the
//! format an opcode selects, and the builders for each encoded format.

use vstd::prelude::*;

use crate::text::{Text, TextV};

verus! {

/// The field layout of an instruction, selected by its opcode.
#[derive(Clone, Copy, Debug, PartialEq, Eq, Structural)]
pub enum InstructionFormat {
    REGISTER,
    IMMEDIATE,
    JUMP,
    PSEUDO,
}

/// One entry of the instruction registry: a mnemonic with its opcode and
/// funct field values. The sentinel `-1` marks an unused funct or, as an
/// opcode, a pseudo-instruction.
pub struct Instruction {
    pub name: String,
    pub opcode: i32,
    pub funct: i32,
}

/// The mathematical image of an [`Instruction`].
pub ghost struct InstructionV {
    pub name: Seq<char>,
    pub opcode: int,
    pub funct: int,
}

impl View for Instruction {
    type V = InstructionV;

    open spec fn view(&self) -> InstructionV {
        InstructionV { name: self.name@, opcode: self.opcode as int, funct: self.funct as int }
    }
}

/// The format an opcode selects: `0` register, `2`/`3` jump, `-1` pseudo,
/// anything else immediate.
pub open spec fn spec_convert_opcode_to_format(opcode: int) -> InstructionFormat {
    if opcode == 0 {
        InstructionFormat::REGISTER
    } else if opcode == 2 || opcode == 3 {
        InstructionFormat::JUMP
    } else if opcode == -1 {
        InstructionFormat::PSEUDO
    } else {
        InstructionFormat::IMMEDIATE
    }
}

/// Derives the instruction format from an opcode.
pub fn convert_opcode_to_format(opcode: i32) -> (r: InstructionFormat)
    ensures
        r == spec_convert_opcode_to_format(opcode as int),
{
    match opcode {
        0 => InstructionFormat::REGISTER,
        2 | 3 => InstructionFormat::JUMP,
        -1 => InstructionFormat::PSEUDO,
        _ => InstructionFormat::IMMEDIATE,
    }
}

/// Whether the instruction `i` is a conditional branch.
pub open spec fn spec_is_branch(i: InstructionV) -> bool {
    i.opcode == 4 || i.opcode == 5
}

/// Whether the register-format instruction `i` is a shift.
pub open spec fn spec_is_shift(i: InstructionV) -> bool {
    i.funct == 0 || i.funct == 2
}

/// Whether the register-format instruction `i` is a register jump.
pub open spec fn spec_is_register_jump(i: InstructionV) -> bool {
    i.funct == 8
}

impl Instruction {
    /// Builds a registry entry.
    pub fn new(name: &str, opcode: i32, funct: i32) -> (r: Self)
        ensures
            r@ == (InstructionV { name: name@, opcode: opcode as int, funct: funct as int }),
    {
        Self { name: String::from_str(name), opcode, funct }
    }

    /// Whether this instruction is a conditional branch (opcode `4` or `5`).
    pub fn is_branch(&self) -> (r: bool)
        ensures
            r == spec_is_branch(self@),
    {
        self.opcode == 4 || self.opcode == 5
    }

    /// Whether this instruction is a shift (funct `0` or `2`).
    pub fn is_shift(&self) -> (r: bool)
        ensures
            r == spec_is_shift(self@),
    {
        self.funct == 0 || self.funct == 2
    }

    /// Whether this instruction is a register jump (funct `8`).
    pub fn is_register_jump(&self) -> (r: bool)
        ensures
            r == spec_is_register_jump(self@),
    {
        self.funct == 8
    }

    /// Encodes this instruction in register format.
    pub fn to_register_format_text(&self, rs: i32, rt: i32, rd: i32, shamt: i32) -> (r: Text)
        ensures
            r@ == (TextV {
                rs: rs as int,
                rt: rt as int,
                rd: rd as int,
                shamt: shamt as int,
                funct: self@.funct,
                opcode: self@.opcode,
                immediate: 0,
                address: 0,
            }),
    {
        Text::new(rs, rt, rd, shamt, self.funct, self.opcode, 0, 0)
    }

    /// Encodes this instruction in jump format.
    pub fn to_jump_format_text(&self, address: i32) -> (r: Text)
        ensures
            r@ == (TextV {
                rs: 0,
                rt: 0,
                rd: 0,
                shamt: 0,
                funct: self@.funct,
                opcode: self@.opcode,
                immediate: 0,
                address: address as int,
            }),
    {
        Text::new(0, 0, 0, 0, self.funct, self.opcode, 0, address)
    }

    /// Encodes this instruction in immediate format.
    pub fn to_immediate_format_text(&self, rs: i32, rt: i32, immediate: i32) -> (r: Text)
        ensures
            r@ == (TextV {
                rs: rs as int,
                rt: rt as int,
                rd: 0,
                shamt: 0,
                funct: self@.funct,
                opcode: self@.opcode,
                immediate: immediate as int,
                address: 0,
            }),
    {
        Text::new(rs, rt, 0, 0, self.funct, self.opcode, immediate, 0)
    }
}

} // verus!
