//! Expanding pseudo-instructions into the real instructions they stand
//! for. The only recognised pseudo-instruction is `la`.

use vstd::prelude::*;

use crate::constants::DATA_SECTION_MIN_ADDRESS;
use crate::datum::{spec_find_datum, views_of_data, find_datum, Datum};
use crate::errors::AsmError;
use crate::strutil::{dec_str, spec_split, spec_trim_all, spec_trim_start, views_of, append_dec,
    split_on, str_equal, trim_all, trim_start};

verus! {

/// The `lui` line the `la` expansion always emits: load the upper half of
/// the datum's address into the register.
pub open spec fn spec_lui_line(register: Seq<char>, address: int) -> Seq<char> {
    "lui\t"@ + register + ", "@ + dec_str(address / 0x10000)
}

/// The `ori` line the `la` expansion emits when the address's low half is
/// deemed non-zero: or the offset from the data-section base in.
pub open spec fn spec_ori_line(register: Seq<char>, address: int) -> Seq<char> {
    "ori\t"@ + register + ", "@ + register + ", "@ + dec_str(
        address - DATA_SECTION_MIN_ADDRESS as int,
    )
}

/// The sign-sensitive test that decides whether the `ori` line is needed:
/// the low 16 bits of the address, read as a 32-bit signed value shifted
/// left by 16, must be strictly positive. A low half with its top bit set
/// fails this test even though it is non-zero.
pub open spec fn spec_la_needs_ori(address: int) -> bool {
    0 < address % 0x10000 < 0x8000
}

/// The expansion of `la <register>, <datum>`: `lui` always, `ori` when the
/// low half of the datum's address passes the sign-sensitive test.
pub open spec fn spec_la(arguments: Seq<char>, data: Seq<crate::datum::DatumV>) -> Result<
    Seq<Seq<char>>,
    AsmError,
> {
    let args = spec_trim_all(spec_split(arguments, ','));
    if args.len() != 2 {
        Err(AsmError::MalformedOperands)
    } else {
        match spec_find_datum(args[1], data) {
            None => Err(AsmError::UndeclaredData),
            Some(d) => if spec_la_needs_ori(d.address) {
                Ok(seq![spec_lui_line(args[0], d.address), spec_ori_line(args[0], d.address)])
            } else {
                Ok(seq![spec_lui_line(args[0], d.address)])
            },
        }
    }
}

/// The expansion of one code line: `None` for a line whose mnemonic is no
/// pseudo-instruction, the replacement lines otherwise. A line that does
/// not split into mnemonic and operands is malformed.
pub open spec fn spec_disassemble_pseudo(code: Seq<char>, data: Seq<crate::datum::DatumV>) -> Result<
    Option<Seq<Seq<char>>>,
    AsmError,
> {
    let parts = spec_split(spec_trim_start(code), '\t');
    if parts.len() != 2 {
        Err(AsmError::MalformedInstruction)
    } else if parts[0] == "la"@ {
        match spec_la(parts[1], data) {
            Ok(lines) => Ok(Some(lines)),
            Err(e) => Err(e),
        }
    } else {
        Ok(None)
    }
}

/// Expands `la <register>, <datum>` into its real instructions.
fn la(arguments: &str, data: &[Datum]) -> (r: Result<Vec<String>, AsmError>)
    requires
        forall|k: int| 0 <= k < data@.len() ==> (#[trigger] data@[k]@.address) >= 0,
    ensures
        ({
            let spec = spec_la(arguments@, views_of_data(data@));
            match r {
                Ok(lines) => spec == Ok::<Seq<Seq<char>>, AsmError>(views_of(lines@)),
                Err(e) => spec == Err::<Seq<Seq<char>>, AsmError>(e),
            }
        }),
{
    let args = trim_all(&split_on(arguments, ','));
    if args.len() != 2 {
        return Err(AsmError::MalformedOperands);
    }
    assert(views_of(args@)[1] == args@[1]@);
    assert(views_of(args@)[0] == args@[0]@);
    let datum = match find_datum(args[1].as_str(), data) {
        Some(d) => d,
        None => {
            return Err(AsmError::UndeclaredData);
        },
    };
    let ghost dv = datum@;
    proof {
        lemma_find_datum_in_range(args@[1]@, data@);
    }
    let register: &String = &args[0];
    let address = datum.address;
    let shifted: i32 = (address as u32 / 0x10000) as i32;
    let low: u32 = address as u32 % 0x10000;
    let mut result: Vec<String> = Vec::new();
    proof {
        reveal_strlit("lui\t");
        reveal_strlit(", ");
    }
    let mut lui = String::from_str("lui\t");
    lui.append(register.as_str());
    lui.append(", ");
    append_dec(&mut lui, shifted);
    proof {
        assert(lui@ =~= spec_lui_line(args@[0]@, dv.address));
    }
    result.push(lui);
    if low >= 1 && low < 0x8000 {
        proof {
            reveal_strlit("ori\t");
        }
        let mut ori = String::from_str("ori\t");
        ori.append(register.as_str());
        ori.append(", ");
        ori.append(register.as_str());
        ori.append(", ");
        append_dec(&mut ori, address - DATA_SECTION_MIN_ADDRESS);
        proof {
            assert(ori@ =~= spec_ori_line(args@[0]@, dv.address));
        }
        result.push(ori);
        proof {
            assert(views_of(result@) =~= seq![
                spec_lui_line(args@[0]@, dv.address),
                spec_ori_line(args@[0]@, dv.address),
            ]);
        }
        Ok(result)
    } else {
        proof {
            assert(views_of(result@) =~= seq![spec_lui_line(args@[0]@, dv.address)]);
        }
        Ok(result)
    }
}

/// A found datum satisfies the address bound of the whole set.
proof fn lemma_find_datum_in_range(name: Seq<char>, data: Seq<Datum>)
    requires
        forall|k: int| 0 <= k < data.len() ==> (#[trigger] data[k]@.address) >= 0,
        spec_find_datum(name, views_of_data(data)) is Some,
    ensures
        spec_find_datum(name, views_of_data(data))->Some_0.address >= 0,
{
    lemma_find_datum_address(name, views_of_data(data), data);
}

proof fn lemma_find_datum_address(name: Seq<char>, dv: Seq<crate::datum::DatumV>, data: Seq<Datum>)
    requires
        dv == views_of_data(data),
        forall|k: int| 0 <= k < data.len() ==> (#[trigger] data[k]@.address) >= 0,
        spec_find_datum(name, dv) is Some,
    ensures
        spec_find_datum(name, dv)->Some_0.address >= 0,
    decreases dv.len(),
{
    if dv.len() > 0 {
        assert(dv[0] == data[0]@);
        if dv[0].name != name {
            assert(dv.drop_first() =~= views_of_data(data.drop_first()));
            assert(forall|k: int|
                0 <= k < data.drop_first().len() ==> (#[trigger] data.drop_first()[k]@.address)
                    >= 0);
            lemma_find_datum_address(name, dv.drop_first(), data.drop_first());
        }
    }
}

/// Expands one code line when its mnemonic is a recognised
/// pseudo-instruction; hands every other well-formed line back as `None`.
pub fn disassemble_pseudo_instruction(code: &str, data: &[Datum]) -> (r: Result<
    Option<Vec<String>>,
    AsmError,
>)
    requires
        forall|k: int| 0 <= k < data@.len() ==> (#[trigger] data@[k]@.address) >= 0,
    ensures
        ({
            let spec = spec_disassemble_pseudo(code@, views_of_data(data@));
            match r {
                Ok(Some(lines)) => spec == Ok::<Option<Seq<Seq<char>>>, AsmError>(
                    Some(views_of(lines@)),
                ),
                Ok(None) => spec == Ok::<Option<Seq<Seq<char>>>, AsmError>(None),
                Err(e) => spec == Err::<Option<Seq<Seq<char>>>, AsmError>(e),
            }
        }),
{
    let trimmed = trim_start(code);
    let parts = split_on(trimmed, '\t');
    if parts.len() != 2 {
        return Err(AsmError::MalformedInstruction);
    }
    assert(views_of(parts@)[0] == parts@[0]@);
    assert(views_of(parts@)[1] == parts@[1]@);
    proof {
        reveal_strlit("la");
    }
    if str_equal(parts[0].as_str(), "la") {
        match la(parts[1].as_str(), data) {
            Ok(lines) => Ok(Some(lines)),
            Err(e) => Err(e),
        }
    } else {
        Ok(None)
    }
}

/// Whether the code line is a `la` pseudo-instruction, with a well-formed
/// two-operand list, whose data operand names no declared datum.
pub open spec fn spec_la_references_undeclared(
    code: Seq<char>,
    data: Seq<crate::datum::DatumV>,
) -> bool {
    let parts = spec_split(spec_trim_start(code), '\t');
    parts.len() == 2 && parts[0] == "la"@ && ({
        let args = spec_trim_all(spec_split(parts[1], ','));
        args.len() == 2 && spec_find_datum(args[1], data) is None
    })
}

/// A successful `la` expansion is deterministic: exactly one instruction,
/// the `lui` line, when the datum address's low sixteen bits fail the
/// sign-sensitive test, and exactly two, that `lui` line then the `ori`
/// line, when they pass it.
pub proof fn lemma_la_expansion(arguments: Seq<char>, data: Seq<crate::datum::DatumV>)
    requires
        spec_la(arguments, data) is Ok,
    ensures
        ({
            let args = spec_trim_all(spec_split(arguments, ','));
            let d = spec_find_datum(args[1], data)->Some_0;
            let lines = spec_la(arguments, data)->Ok_0;
            &&& lines.len() == if spec_la_needs_ori(d.address) {
                2int
            } else {
                1int
            }
            &&& lines[0] == spec_lui_line(args[0], d.address)
            &&& spec_la_needs_ori(d.address) ==> lines[1] == spec_ori_line(args[0], d.address)
        }),
{
}

/// The `ori` test of [`spec_la_needs_ori`] is exactly the original
/// sign-sensitive one: the address shifted left by sixteen bits, read as a
/// 32-bit signed word, is strictly positive. A low half of `0x8000` or
/// more fails it even though it is non-zero.
pub proof fn lemma_la_needs_ori_is_signed_shift_test(address: i32)
    requires
        address >= 0,
    ensures
        spec_la_needs_ori(address as int) <==> (address << 16) > 0,
{
    let u = address as u32;
    assert(((address << 16) > 0) == (0 < (u & 0xFFFF) && (u & 0xFFFF) < 0x8000)) by (bit_vector)
        requires
            u == address as u32,
            address >= 0,
    ;
    assert((u & 0xFFFF) == u % 0x10000) by (bit_vector);
}

} // verus!
