//! Fixed addresses, the word size, and the instruction registry.

use vstd::prelude::*;

use crate::instruction::{Instruction, InstructionV};
use crate::strutil::str_equal;

verus! {

/// The addressing unit: both data entries and instructions take four bytes.
pub const WORD: i32 = 4;

/// The address of the first data entry.
pub const DATA_SECTION_MIN_ADDRESS: i32 = 0x10000000;

/// The address of the first instruction.
pub const TEXT_SECTION_MIN_ADDRESS: i32 = 0x400000;

/// The most source lines a program may hold, so that every assigned
/// address fits a 32-bit signed word.
pub const MAX_SOURCE_LINES: usize = 0x4000000;

/// The most code lines an expanded program may hold.
pub const MAX_CODE_LINES: usize = 0x8000000;

/// The instruction registry: every known mnemonic with its opcode and funct
/// field values. Pseudo-instructions carry the sentinel opcode `-1`.
pub open spec fn spec_instruction_table() -> Seq<InstructionV> {
    seq![
        InstructionV { name: "addiu"@, opcode: 0x9, funct: -1 },
        InstructionV { name: "addu"@, opcode: 0x0, funct: 0x21 },
        InstructionV { name: "and"@, opcode: 0x0, funct: 0x24 },
        InstructionV { name: "andi"@, opcode: 0xc, funct: -1 },
        InstructionV { name: "beq"@, opcode: 0x4, funct: -1 },
        InstructionV { name: "bne"@, opcode: 0x5, funct: -1 },
        InstructionV { name: "j"@, opcode: 0x2, funct: -1 },
        InstructionV { name: "jal"@, opcode: 0x3, funct: -1 },
        InstructionV { name: "jr"@, opcode: 0, funct: 0x8 },
        InstructionV { name: "lui"@, opcode: 0xf, funct: -1 },
        InstructionV { name: "lw"@, opcode: 0x23, funct: -1 },
        InstructionV { name: "la"@, opcode: -1, funct: -1 },
        InstructionV { name: "nor"@, opcode: 0, funct: 0x27 },
        InstructionV { name: "or"@, opcode: 0, funct: 0x25 },
        InstructionV { name: "ori"@, opcode: 0xd, funct: -1 },
        InstructionV { name: "sltiu"@, opcode: 0xb, funct: -1 },
        InstructionV { name: "sltu"@, opcode: 0, funct: 0x2b },
        InstructionV { name: "sll"@, opcode: 0, funct: 0x0 },
        InstructionV { name: "srl"@, opcode: 0, funct: 0x2 },
        InstructionV { name: "sw"@, opcode: 0x2b, funct: -1 },
        InstructionV { name: "subu"@, opcode: 0, funct: 0x23 },
    ]
}

/// The views of the instructions in `table`.
pub open spec fn views_of_instructions(table: Seq<Instruction>) -> Seq<InstructionV> {
    table.map_values(|i: Instruction| i@)
}

/// The first entry of `table` whose name is `name`, if any.
pub open spec fn spec_find_instruction(name: Seq<char>, table: Seq<InstructionV>) -> Option<
    InstructionV,
>
    decreases table.len(),
{
    if table.len() == 0 {
        None
    } else if table[0].name == name {
        Some(table[0])
    } else {
        spec_find_instruction(name, table.drop_first())
    }
}

/// Builds the instruction registry.
pub fn instruction_table() -> (r: Vec<Instruction>)
    ensures
        views_of_instructions(r@) == spec_instruction_table(),
{
    let mut table: Vec<Instruction> = Vec::new();
    table.push(Instruction::new("addiu", 0x9, -1));
    table.push(Instruction::new("addu", 0x0, 0x21));
    table.push(Instruction::new("and", 0x0, 0x24));
    table.push(Instruction::new("andi", 0xc, -1));
    table.push(Instruction::new("beq", 0x4, -1));
    table.push(Instruction::new("bne", 0x5, -1));
    table.push(Instruction::new("j", 0x2, -1));
    table.push(Instruction::new("jal", 0x3, -1));
    table.push(Instruction::new("jr", 0, 0x8));
    table.push(Instruction::new("lui", 0xf, -1));
    table.push(Instruction::new("lw", 0x23, -1));
    table.push(Instruction::new("la", -1, -1));
    table.push(Instruction::new("nor", 0, 0x27));
    table.push(Instruction::new("or", 0, 0x25));
    table.push(Instruction::new("ori", 0xd, -1));
    table.push(Instruction::new("sltiu", 0xb, -1));
    table.push(Instruction::new("sltu", 0, 0x2b));
    table.push(Instruction::new("sll", 0, 0x0));
    table.push(Instruction::new("srl", 0, 0x2));
    table.push(Instruction::new("sw", 0x2b, -1));
    table.push(Instruction::new("subu", 0, 0x23));
    proof {
        assert(views_of_instructions(table@) =~= spec_instruction_table());
    }
    table
}

/// Looks a mnemonic up in the instruction registry.
pub fn find_instruction<'a>(name: &str, table: &'a Vec<Instruction>) -> (r: Option<
    &'a Instruction,
>)
    ensures
        match r {
            Some(i) => spec_find_instruction(name@, views_of_instructions(table@)) == Some(i@),
            None => spec_find_instruction(name@, views_of_instructions(table@)) is None,
        },
{
    let ghost tv = views_of_instructions(table@);
    let n = table.len();
    let mut k: usize = 0;
    proof {
        assert(tv.subrange(0, n as int) =~= tv);
    }
    while k < n
        invariant
            n == table.len(),
            0 <= k <= n,
            tv == views_of_instructions(table@),
            spec_find_instruction(name@, tv) == spec_find_instruction(
                name@,
                tv.subrange(k as int, n as int),
            ),
        decreases n - k,
    {
        if str_equal(table[k].name.as_str(), name) {
            proof {
                assert(tv.subrange(k as int, n as int)[0] == table[k as int]@);
            }
            return Some(&table[k]);
        }
        proof {
            assert(tv.subrange(k as int, n as int)[0] == table[k as int]@);
            assert(tv.subrange(k as int, n as int).drop_first() =~= tv.subrange(
                k as int + 1,
                n as int,
            ));
        }
        k = k + 1;
    }
    proof {
        assert(tv.subrange(n as int, n as int).len() == 0);
    }
    None
}

} // verus!
