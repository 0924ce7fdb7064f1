//! Data entries: one named, valued, addressed word per data-section line.

use vstd::prelude::*;

use crate::errors::AsmError;
use crate::line::{Line, LineV};
use crate::section::Section;
use crate::strutil::{dec_str, spec_split, spec_trim_end_colons, append_dec, split_on,
    str_equal, trim_end_colons};
use crate::utils::{spec_bits, spec_parse_int, convert_int_to_binary, convert_string_to_int};

verus! {

/// One word of the data section: its unique name, its 32-bit value, and
/// its assigned address.
pub struct Datum {
    pub name: String,
    pub value: i32,
    pub address: i32,
}

/// The mathematical image of a [`Datum`].
pub ghost struct DatumV {
    pub name: Seq<char>,
    pub value: int,
    pub address: int,
}

impl View for Datum {
    type V = DatumV;

    open spec fn view(&self) -> DatumV {
        DatumV { name: self.name@, value: self.value as int, address: self.address as int }
    }
}

/// The 32-bit two's-complement rendering of the entry's value.
pub open spec fn spec_datum_binary(d: DatumV) -> Seq<char> {
    spec_bits(d.value as u32, 32)
}

impl Datum {
    /// Builds a data entry.
    pub fn new(name: &str, value: i32, address: i32) -> (r: Self)
        ensures
            r@ == (DatumV { name: name@, value: value as int, address: address as int }),
    {
        Self { name: String::from_str(name), value, address }
    }

    /// Renders the entry's value as its full 32-bit two's-complement bit
    /// string.
    pub fn to_binary(&self) -> (r: String)
        ensures
            r@ == spec_datum_binary(self@),
            r@.len() == 32,
    {
        convert_int_to_binary(self.value, 32)
    }
}

/// The views of the data entries in `data`.
pub open spec fn views_of_data(data: Seq<Datum>) -> Seq<DatumV> {
    data.map_values(|d: Datum| d@)
}

/// Parses one data-section line, tab-delimited as `name:<TAB>directive
/// <TAB>value`. A line of any other field count is a fatal parse error. A
/// line with an empty name continues the previous entry: its name is
/// synthesised as the previous name, an underscore, and this line's
/// address — failing when there is no previous entry.
pub open spec fn spec_resolve_data(
    code: Seq<char>,
    prev: Option<Seq<char>>,
    address: int,
) -> Result<DatumV, AsmError> {
    let parts = spec_split(code, '\t');
    if parts.len() != 3 {
        Err(AsmError::MalformedData)
    } else {
        match spec_parse_int(parts[2]) {
            None => Err(AsmError::InvalidNumber),
            Some(v) => {
                let name = spec_trim_end_colons(parts[0]);
                if name.len() == 0 {
                    match prev {
                        None => Err(AsmError::DataNameNotFound),
                        Some(p) => Ok(
                            DatumV { name: p + seq!['_'] + dec_str(address), value: v, address },
                        ),
                    }
                } else {
                    Ok(DatumV { name, value: v, address })
                }
            },
        }
    }
}

/// Parses one data-section line; exactly the behaviour of
/// [`spec_resolve_data`].
pub fn resolve_data(code: &str, prev_datum_name: &Option<String>, address: i32) -> (r: Result<
    Datum,
    AsmError,
>)
    ensures
        ({
            let spec = spec_resolve_data(
                code@,
                match prev_datum_name {
                    Some(p) => Some(p@),
                    None => None,
                },
                address as int,
            );
            match r {
                Ok(d) => spec == Ok::<DatumV, AsmError>(d@),
                Err(e) => spec == Err::<DatumV, AsmError>(e),
            }
        }),
{
    let parts = split_on(code, '\t');
    if parts.len() != 3 {
        return Err(AsmError::MalformedData);
    }
    assert(parts@.map_values(|p: String| p@)[2] == parts@[2]@);
    assert(parts@.map_values(|p: String| p@)[0] == parts@[0]@);
    let value = match convert_string_to_int(parts[2].as_str()) {
        Ok(v) => v,
        Err(e) => {
            return Err(e);
        },
    };
    let name = trim_end_colons(parts[0].as_str());
    if name.unicode_len() == 0 {
        match prev_datum_name {
            Some(p) => {
                let mut synthesised = p.clone();
                proof {
                    reveal_strlit("_");
                }
                synthesised.append("_");
                append_dec(&mut synthesised, address);
                proof {
                    assert(synthesised@ =~= p@ + seq!['_'] + dec_str(address as int));
                }
                Ok(Datum::new(synthesised.as_str(), value, address))
            },
            None => Err(AsmError::DataNameNotFound),
        }
    } else {
        Ok(Datum::new(name, value, address))
    }
}

/// The data entries of the classified lines from index `i` on, with `prev`
/// the name of the entry declared last. Stops at the first error.
pub open spec fn spec_extract_data_from(
    lines: Seq<LineV>,
    i: int,
    prev: Option<Seq<char>>,
) -> Result<Seq<DatumV>, AsmError>
    decreases lines.len() - i,
{
    if !(0 <= i < lines.len()) {
        Ok(seq![])
    } else if lines[i].section != Section::DATA {
        spec_extract_data_from(lines, i + 1, prev)
    } else {
        match spec_resolve_data(lines[i].text->Some_0, prev, lines[i].address) {
            Err(e) => Err(e),
            Ok(d) => match spec_extract_data_from(lines, i + 1, Some(d.name)) {
                Err(e) => Err(e),
                Ok(rest) => Ok(seq![d] + rest),
            },
        }
    }
}

/// The data entries of a classified program.
pub open spec fn spec_extract_data(lines: Seq<LineV>) -> Result<Seq<DatumV>, AsmError> {
    spec_extract_data_from(lines, 0, None)
}

/// Collects every data entry of the classified lines, threading the name
/// of the last declared entry for anonymous continuations.
pub fn extract_data_from_lines(lines: &Vec<Line>) -> (r: Result<Vec<Datum>, AsmError>)
    requires
        forall|k: int|
            0 <= k < lines@.len() && lines@[k].section == Section::DATA
                ==> (#[trigger] lines@[k]@.text) is Some,
    ensures
        ({
            let spec = spec_extract_data(crate::line::views_of_lines(lines@));
            match r {
                Ok(data) => spec == Ok::<Seq<DatumV>, AsmError>(views_of_data(data@)),
                Err(e) => spec == Err::<Seq<DatumV>, AsmError>(e),
            }
        }),
{
    let ghost ls = crate::line::views_of_lines(lines@);
    let n = lines.len();
    let mut result: Vec<Datum> = Vec::new();
    let mut prev_datum_name: Option<String> = None;
    let mut i: usize = 0;
    while i < n
        invariant
            n == lines@.len(),
            0 <= i <= n,
            ls == crate::line::views_of_lines(lines@),
            forall|k: int|
                0 <= k < lines@.len() && lines@[k].section == Section::DATA
                    ==> (#[trigger] lines@[k]@.text) is Some,
            ({
                let prev = match prev_datum_name {
                    Some(p) => Some(p@),
                    None => None,
                };
                spec_extract_data(ls) == match spec_extract_data_from(ls, i as int, prev) {
                    Ok(rest) => Ok(views_of_data(result@) + rest),
                    Err(e) => Err(e),
                }
            }),
        decreases n - i,
    {
        assert(ls[i as int] == lines@[i as int]@);
        let line: &Line = &lines[i];
        match line.section {
            Section::DATA => {
                let text: &String = match &line.text {
                    Some(t) => t,
                    None => {
                        proof {
                            assert(lines@[i as int].section == Section::DATA);
                        }
                        unreached()
                    },
                };
                match resolve_data(text.as_str(), &prev_datum_name, line.address) {
                    Err(e) => {
                        return Err(e);
                    },
                    Ok(d) => {
                        let ghost dv = d@;
                        let ghost built = views_of_data(result@);
                        prev_datum_name = Some(d.name.clone());
                        result.push(d);
                        proof {
                            assert(views_of_data(result@) =~= built + seq![dv]);
                            match spec_extract_data_from(ls, i + 1, Some(dv.name)) {
                                Ok(rest) => {
                                    assert(views_of_data(result@) + rest =~= built + (seq![dv]
                                        + rest));
                                },
                                Err(e) => {},
                            }
                        }
                    },
                }
            },
            _ => {},
        }
        i = i + 1;
    }
    proof {
        assert(views_of_data(result@) + seq![] =~= views_of_data(result@));
    }
    Ok(result)
}

/// The first entry of `data` whose name is `name`, if any.
pub open spec fn spec_find_datum(name: Seq<char>, data: Seq<DatumV>) -> Option<DatumV>
    decreases data.len(),
{
    if data.len() == 0 {
        None
    } else if data[0].name == name {
        Some(data[0])
    } else {
        spec_find_datum(name, data.drop_first())
    }
}

/// Looks a name up among the data entries: the first entry declared under
/// that name, if any.
pub fn find_datum<'a>(name: &str, data: &'a [Datum]) -> (r: Option<&'a Datum>)
    ensures
        match r {
            Some(d) => spec_find_datum(name@, views_of_data(data@)) == Some(d@),
            None => spec_find_datum(name@, views_of_data(data@)) is None,
        },
{
    let ghost dv = views_of_data(data@);
    let n = data.len();
    let mut k: usize = 0;
    proof {
        assert(dv.subrange(0, n as int) =~= dv);
    }
    while k < n
        invariant
            n == data@.len(),
            0 <= k <= n,
            dv == views_of_data(data@),
            spec_find_datum(name@, dv) == spec_find_datum(name@, dv.subrange(k as int, n as int)),
        decreases n - k,
    {
        let d = vstd::slice::slice_index_get(data, k);
        proof {
            assert(dv.subrange(k as int, n as int)[0] == data@[k as int]@);
            assert(dv.subrange(k as int, n as int).drop_first() =~= dv.subrange(
                k as int + 1,
                n as int,
            ));
        }
        if str_equal(d.name.as_str(), name) {
            return Some(d);
        }
        k = k + 1;
    }
    proof {
        assert(dv.subrange(n as int, n as int).len() == 0);
    }
    None
}

/// A found datum carries exactly the queried name.
pub proof fn lemma_find_datum_name(name: Seq<char>, data: Seq<DatumV>)
    requires
        spec_find_datum(name, data) is Some,
    ensures
        spec_find_datum(name, data)->Some_0.name == name,
    decreases data.len(),
{
    if data.len() > 0 && data[0].name != name {
        lemma_find_datum_name(name, data.drop_first());
    }
}

/// A nameless data line that follows a named entry is named after it: the
/// previous entry's name, an underscore, and the current line's address in
/// decimal, at that line's own address and value.
pub proof fn lemma_anonymous_continuation(code: Seq<char>, prev: Seq<char>, address: int)
    requires
        ({
            let parts = spec_split(code, '\t');
            parts.len() == 3 && spec_trim_end_colons(parts[0]).len() == 0 && spec_parse_int(
                parts[2],
            ) is Some
        }),
    ensures
        spec_resolve_data(code, Some(prev), address) == Ok::<DatumV, AsmError>(
            DatumV {
                name: prev + seq!['_'] + dec_str(address),
                value: spec_parse_int(spec_split(code, '\t')[2])->Some_0,
                address,
            },
        ),
{
}

/// Looking up the name of the first entry that carries it yields exactly
/// that entry.
proof fn lemma_find_datum_first(name: Seq<char>, data: Seq<DatumV>, j: int)
    requires
        0 <= j < data.len(),
        data[j].name == name,
        forall|i: int| 0 <= i < j ==> (#[trigger] data[i]).name != name,
    ensures
        spec_find_datum(name, data) == Some(data[j]),
    decreases j,
{
    if j > 0 {
        lemma_find_datum_first(name, data.drop_first(), j - 1);
    }
}

/// In a program whose data entries carry pairwise distinct names —
/// synthesised continuation names included — every entry is independently
/// resolvable: looking its name up yields exactly that entry, with its own
/// value and address.
pub proof fn lemma_distinct_entries_resolvable(data: Seq<DatumV>, j: int)
    requires
        0 <= j < data.len(),
        forall|i1: int, i2: int|
            0 <= i1 < i2 < data.len() ==> (#[trigger] data[i1]).name != (#[trigger] data[i2]).name,
    ensures
        spec_find_datum(data[j].name, data) == Some(data[j]),
{
    lemma_find_datum_first(data[j].name, data, j);
}

} // verus!
