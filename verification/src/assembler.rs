//! The assembly pipeline from raw source lines to the flat binary image.

use vstd::prelude::*;

use crate::constants::{DATA_SECTION_MIN_ADDRESS, MAX_CODE_LINES, MAX_SOURCE_LINES,
    TEXT_SECTION_MIN_ADDRESS, WORD};
use crate::datum::{spec_datum_binary, spec_extract_data, spec_extract_data_from, spec_resolve_data,
    views_of_data, extract_data_from_lines, Datum, DatumV};
use crate::errors::AsmError;
use crate::label::{spec_extract_labels, spec_get_addressed_labels, spec_is_label, views_of_labels,
    extract_labels_from_lines, get_addressed_labels, is_label, Label, LabelV};
use crate::line::{spec_compose_lines, spec_compose_lines_from, views_of_lines, compose_lines,
    LineV};
use crate::pseudo_instruction::{spec_disassemble_pseudo, disassemble_pseudo_instruction};
use crate::section::{spec_resolve_section, resolve_section, Section};
use crate::strutil::{spec_trim_start, views_of, trim_start};
use crate::text::{spec_get_text_from_code, spec_text_binary, get_text_from_code, Text, TextV};
use crate::utils::spec_bits;

verus! {

/// The expanded code lines of the raw source lines from index `i` on,
/// with `sect` the section in force: text-section lines that are neither
/// empty nor markers pass through — label lines verbatim, recognised
/// pseudo-instructions replaced by their expansion, every other line
/// trimmed of leading whitespace.
pub open spec fn spec_extract_codes_from(
    lines: Seq<Seq<char>>,
    data: Seq<DatumV>,
    i: int,
    sect: Section,
) -> Result<Seq<Seq<char>>, AsmError>
    decreases lines.len() - i,
{
    if !(0 <= i < lines.len()) {
        Ok(seq![])
    } else {
        let line = lines[i];
        let here = match spec_resolve_section(line) {
            Some(s) => s,
            None => sect,
        };
        if here == Section::TEXT && line.len() > 0 && spec_resolve_section(line) is None {
            if spec_is_label(line) {
                match spec_extract_codes_from(lines, data, i + 1, here) {
                    Err(e) => Err(e),
                    Ok(rest) => Ok(seq![line] + rest),
                }
            } else {
                match spec_disassemble_pseudo(line, data) {
                    Err(e) => Err(e),
                    Ok(Some(expansion)) => match spec_extract_codes_from(lines, data, i + 1, here) {
                        Err(e) => Err(e),
                        Ok(rest) => Ok(expansion + rest),
                    },
                    Ok(None) => match spec_extract_codes_from(lines, data, i + 1, here) {
                        Err(e) => Err(e),
                        Ok(rest) => Ok(seq![spec_trim_start(line)] + rest),
                    },
                }
            }
        } else {
            spec_extract_codes_from(lines, data, i + 1, here)
        }
    }
}

/// The expanded code lines of a whole program.
pub open spec fn spec_extract_codes(lines: Seq<Seq<char>>, data: Seq<DatumV>) -> Result<
    Seq<Seq<char>>,
    AsmError,
> {
    spec_extract_codes_from(lines, data, 0, Section::NONE)
}

/// Walks the raw source lines a second time and collects the text
/// section's code lines, expanding pseudo-instructions against the
/// extracted data.
pub fn extract_codes(data: &[Datum], lines: &Vec<String>) -> (r: Result<Vec<String>, AsmError>)
    requires
        forall|k: int| 0 <= k < data@.len() ==> (#[trigger] data@[k]@.address) >= 0,
    ensures
        ({
            let spec = spec_extract_codes(views_of(lines@), views_of_data(data@));
            match r {
                Ok(codes) => spec == Ok::<Seq<Seq<char>>, AsmError>(views_of(codes@)),
                Err(e) => spec == Err::<Seq<Seq<char>>, AsmError>(e),
            }
        }),
{
    let ghost ls = views_of(lines@);
    let ghost dvs = views_of_data(data@);
    let n = lines.len();
    let mut codes: Vec<String> = Vec::new();
    let mut current_section: Section = Section::NONE;
    let mut i: usize = 0;
    while i < n
        invariant
            n == lines@.len(),
            0 <= i <= n,
            ls == views_of(lines@),
            dvs == views_of_data(data@),
            forall|k: int| 0 <= k < data@.len() ==> (#[trigger] data@[k]@.address) >= 0,
            spec_extract_codes(ls, dvs) == match spec_extract_codes_from(
                ls,
                dvs,
                i as int,
                current_section,
            ) {
                Ok(rest) => Ok::<Seq<Seq<char>>, AsmError>(views_of(codes@) + rest),
                Err(e) => Err::<Seq<Seq<char>>, AsmError>(e),
            },
        decreases n - i,
    {
        assert(ls[i as int] == lines@[i as int]@);
        let line: &String = &lines[i];
        let marker = resolve_section(line.as_str());
        current_section = match marker {
            Some(s) => s,
            None => current_section,
        };
        let ghost built = views_of(codes@);
        match current_section {
            Section::TEXT => {
                if line.as_str().unicode_len() > 0 && marker.is_none() {
                    if is_label(line.as_str()) {
                        codes.push(line.clone());
                        proof {
                            assert(views_of(codes@) =~= built + seq![ls[i as int]]);
                        }
                        proof {
                            match spec_extract_codes_from(ls, dvs, i + 1, current_section) {
                                Ok(rest) => {
                                    assert(views_of(codes@) + rest =~= built + (seq![
                                        ls[i as int],
                                    ] + rest));
                                },
                                Err(e) => {},
                            }
                        }
                    } else {
                        match disassemble_pseudo_instruction(line.as_str(), data) {
                            Err(e) => {
                                return Err(e);
                            },
                            Ok(Some(mut expansion)) => {
                                let ghost ev = views_of(expansion@);
                                codes.append(&mut expansion);
                                proof {
                                    assert(views_of(codes@) =~= built + ev);
                                    match spec_extract_codes_from(
                                        ls,
                                        dvs,
                                        i + 1,
                                        current_section,
                                    ) {
                                        Ok(rest) => {
                                            assert(views_of(codes@) + rest =~= built + (ev
                                                + rest));
                                        },
                                        Err(e) => {},
                                    }
                                }
                            },
                            Ok(None) => {
                                codes.push(String::from_str(trim_start(line.as_str())));
                                proof {
                                    assert(views_of(codes@) =~= built + seq![
                                        spec_trim_start(ls[i as int]),
                                    ]);
                                    match spec_extract_codes_from(
                                        ls,
                                        dvs,
                                        i + 1,
                                        current_section,
                                    ) {
                                        Ok(rest) => {
                                            assert(views_of(codes@) + rest =~= built + (seq![
                                                spec_trim_start(ls[i as int]),
                                            ] + rest));
                                        },
                                        Err(e) => {},
                                    }
                                }
                            },
                        }
                    }
                }
            },
            _ => {},
        }
        i = i + 1;
    }
    proof {
        assert(views_of(codes@) + seq![] =~= views_of(codes@));
    }
    Ok(codes)
}

/// The encoded instructions of the expanded code lines from index `i` on,
/// the running address seeded at `addr`: label lines pass; every other
/// line is encoded at the running address, which then advances one word.
pub open spec fn spec_disassemble_instructions_from(
    codes: Seq<Seq<char>>,
    data: Seq<DatumV>,
    labels: Seq<LabelV>,
    i: int,
    addr: int,
) -> Result<Seq<TextV>, AsmError>
    decreases codes.len() - i,
{
    if !(0 <= i < codes.len()) {
        Ok(seq![])
    } else if spec_is_label(codes[i]) {
        spec_disassemble_instructions_from(codes, data, labels, i + 1, addr)
    } else {
        match spec_get_text_from_code(codes[i], addr, data, labels) {
            Err(e) => Err(e),
            Ok(t) => match spec_disassemble_instructions_from(codes, data, labels, i + 1, addr
                + 4) {
                Err(e) => Err(e),
                Ok(rest) => Ok(seq![t] + rest),
            },
        }
    }
}

/// The encoded instructions of a whole expanded program.
pub open spec fn spec_disassemble_instructions(
    codes: Seq<Seq<char>>,
    data: Seq<DatumV>,
    labels: Seq<LabelV>,
) -> Result<Seq<TextV>, AsmError> {
    spec_disassemble_instructions_from(codes, data, labels, 0, TEXT_SECTION_MIN_ADDRESS as int)
}

/// The views of the encoded instructions in `texts`.
pub open spec fn views_of_texts(texts: Seq<Text>) -> Seq<TextV> {
    texts.map_values(|t: Text| t@)
}

/// Encodes every non-label code line at its final address.
pub fn disassemble_instructions(data: &[Datum], labels: &[Label], codes: &[String]) -> (r: Result<
    Vec<Text>,
    AsmError,
>)
    requires
        codes@.len() <= MAX_CODE_LINES,
    ensures
        ({
            let spec = spec_disassemble_instructions(
                views_of(codes@),
                views_of_data(data@),
                views_of_labels(labels@),
            );
            match r {
                Ok(texts) => spec == Ok::<Seq<TextV>, AsmError>(views_of_texts(texts@)),
                Err(e) => spec == Err::<Seq<TextV>, AsmError>(e),
            }
        }),
{
    let ghost cs = views_of(codes@);
    let ghost dvs = views_of_data(data@);
    let ghost lvs = views_of_labels(labels@);
    let n = codes.len();
    let mut texts: Vec<Text> = Vec::new();
    let mut current_address: i32 = TEXT_SECTION_MIN_ADDRESS;
    let mut i: usize = 0;
    while i < n
        invariant
            n == codes@.len(),
            n <= MAX_CODE_LINES,
            0 <= i <= n,
            cs == views_of(codes@),
            dvs == views_of_data(data@),
            lvs == views_of_labels(labels@),
            TEXT_SECTION_MIN_ADDRESS as int <= current_address as int
                <= TEXT_SECTION_MIN_ADDRESS as int + 4 * i,
            spec_disassemble_instructions(cs, dvs, lvs) == match spec_disassemble_instructions_from(
                cs,
                dvs,
                lvs,
                i as int,
                current_address as int,
            ) {
                Ok(rest) => Ok::<Seq<TextV>, AsmError>(views_of_texts(texts@) + rest),
                Err(e) => Err::<Seq<TextV>, AsmError>(e),
            },
        decreases n - i,
    {
        let code: &String = vstd::slice::slice_index_get(codes, i);
        assert(cs[i as int] == code@);
        if !is_label(code.as_str()) {
            match get_text_from_code(code.as_str(), current_address, data, labels) {
                Err(e) => {
                    return Err(e);
                },
                Ok(t) => {
                    let ghost tv = t@;
                    let ghost built = views_of_texts(texts@);
                    texts.push(t);
                    current_address = current_address + WORD;
                    proof {
                        assert(views_of_texts(texts@) =~= built + seq![tv]);
                        match spec_disassemble_instructions_from(
                            cs,
                            dvs,
                            lvs,
                            i + 1,
                            current_address as int,
                        ) {
                            Ok(rest) => {
                                assert(views_of_texts(texts@) + rest =~= built + (seq![tv]
                                    + rest));
                            },
                            Err(e) => {},
                        }
                    }
                },
            }
        }
        i = i + 1;
    }
    proof {
        assert(views_of_texts(texts@) + seq![] =~= views_of_texts(texts@));
    }
    Ok(texts)
}

/// The concatenated 32-bit renderings of the encoded instructions from
/// index `i` on; an unexpanded pseudo-instruction is an error.
pub open spec fn spec_texts_binary_from(texts: Seq<TextV>, i: int) -> Result<Seq<char>, AsmError>
    decreases texts.len() - i,
{
    if !(0 <= i < texts.len()) {
        Ok(seq![])
    } else if texts[i].opcode == -1 {
        Err(AsmError::UnexpandedPseudo)
    } else {
        match spec_texts_binary_from(texts, i + 1) {
            Err(e) => Err(e),
            Ok(rest) => Ok(spec_text_binary(texts[i]) + rest),
        }
    }
}

/// The concatenated 32-bit renderings of the data entries from index `i`
/// on.
pub open spec fn spec_data_binary_from(data: Seq<DatumV>, i: int) -> Seq<char>
    decreases data.len() - i,
{
    if !(0 <= i < data.len()) {
        seq![]
    } else {
        spec_datum_binary(data[i]) + spec_data_binary_from(data, i + 1)
    }
}

/// A section-size header field: `count` words, in bytes, as 32 bits.
pub open spec fn spec_size_field(count: int) -> Seq<char> {
    spec_bits((4 * count) as u32, 32)
}

/// The whole output image: the text-section byte size, the data-section
/// byte size, every instruction's bits in program order, then every data
/// entry's bits in declaration order, all as `'0'`/`'1'` characters with
/// no separators.
pub open spec fn spec_compose_output(data: Seq<DatumV>, texts: Seq<TextV>) -> Result<
    Seq<char>,
    AsmError,
> {
    match spec_texts_binary_from(texts, 0) {
        Err(e) => Err(e),
        Ok(tb) => Ok(
            spec_size_field(texts.len() as int) + spec_size_field(data.len() as int) + tb
                + spec_data_binary_from(data, 0),
        ),
    }
}

/// A successful instruction rendering is 32 bits per instruction.
pub proof fn lemma_texts_binary_len(texts: Seq<TextV>, i: int)
    requires
        0 <= i <= texts.len(),
        spec_texts_binary_from(texts, i) is Ok,
    ensures
        spec_texts_binary_from(texts, i)->Ok_0.len() == 32 * (texts.len() - i),
    decreases texts.len() - i,
{
    if i < texts.len() {
        lemma_texts_binary_len(texts, i + 1);
        crate::text::lemma_text_binary_len(texts[i]);
    }
}

/// The data rendering is 32 bits per entry.
pub proof fn lemma_data_binary_len(data: Seq<DatumV>, i: int)
    requires
        0 <= i <= data.len(),
    ensures
        spec_data_binary_from(data, i).len() == 32 * (data.len() - i),
    decreases data.len() - i,
{
    if i < data.len() {
        lemma_data_binary_len(data, i + 1);
    }
}

/// Serialises the whole program: both section-size headers, then every
/// instruction's bits, then every data entry's bits.
pub fn compose_output(data: &[Datum], texts: &[Text]) -> (r: Result<String, AsmError>)
    requires
        data@.len() <= MAX_CODE_LINES,
        texts@.len() <= MAX_CODE_LINES,
    ensures
        ({
            let spec = spec_compose_output(views_of_data(data@), views_of_texts(texts@));
            match r {
                Ok(s) => spec == Ok::<Seq<char>, AsmError>(s@),
                Err(e) => spec == Err::<Seq<char>, AsmError>(e),
            }
        }),
        r is Ok ==> r->Ok_0@.len() == 64 + 32 * texts@.len() + 32 * data@.len(),
{
    let ghost dvs = views_of_data(data@);
    let ghost tvs = views_of_texts(texts@);
    let text_section_size: i32 = texts.len() as i32 * WORD;
    let data_section_size: i32 = data.len() as i32 * WORD;
    let mut out = crate::utils::convert_int_to_binary(text_section_size, 32);
    out.append(crate::utils::convert_int_to_binary(data_section_size, 32).as_str());
    proof {
        assert(out@ =~= spec_size_field(tvs.len() as int) + spec_size_field(dvs.len() as int));
    }
    let ghost header = out@;
    let tn = texts.len();
    let mut i: usize = 0;
    while i < tn
        invariant
            tn == texts@.len(),
            0 <= i <= tn,
            tvs == views_of_texts(texts@),
            header == spec_size_field(tvs.len() as int) + spec_size_field(dvs.len() as int),
            spec_texts_binary_from(tvs, 0) == match spec_texts_binary_from(tvs, i as int) {
                Ok(rest) => Ok::<Seq<char>, AsmError>(out@.subrange(64, out@.len() as int) + rest),
                Err(e) => Err::<Seq<char>, AsmError>(e),
            },
            out@.subrange(0, 64) == header,
            out@.len() >= 64,
        decreases tn - i,
    {
        let t: &Text = vstd::slice::slice_index_get(texts, i);
        assert(tvs[i as int] == texts@[i as int]@);
        match t.to_binary() {
            Err(e) => {
                return Err(e);
            },
            Ok(bits) => {
                let ghost prev = out@;
                out.append(bits.as_str());
                proof {
                    assert(out@.subrange(0, 64) =~= prev.subrange(0, 64));
                    assert(out@.subrange(64, out@.len() as int) =~= prev.subrange(
                        64,
                        prev.len() as int,
                    ) + spec_text_binary(tvs[i as int]));
                    match spec_texts_binary_from(tvs, i + 1) {
                        Ok(rest) => {
                            assert(out@.subrange(64, out@.len() as int) + rest =~= prev.subrange(
                                64,
                                prev.len() as int,
                            ) + (spec_text_binary(tvs[i as int]) + rest));
                        },
                        Err(e) => {},
                    }
                }
            },
        }
        i = i + 1;
    }
    let ghost with_texts = out@;
    proof {
        assert(spec_texts_binary_from(tvs, tn as int) == Ok::<Seq<char>, AsmError>(seq![]));
        assert(with_texts.subrange(64, with_texts.len() as int) + seq![]
            =~= with_texts.subrange(64, with_texts.len() as int));
    }
    let dn = data.len();
    let mut k: usize = 0;
    while k < dn
        invariant
            dn == data@.len(),
            0 <= k <= dn,
            dvs == views_of_data(data@),
            with_texts.len() >= 64,
            out@ =~= with_texts + spec_data_binary_from(dvs, 0).subrange(
                0,
                32 * k as int,
            ),
            spec_data_binary_from(dvs, 0) =~= spec_data_binary_from(dvs, 0).subrange(
                0,
                32 * k as int,
            ) + spec_data_binary_from(dvs, k as int),
        decreases dn - k,
    {
        let d: &Datum = vstd::slice::slice_index_get(data, k);
        assert(dvs[k as int] == data@[k as int]@);
        let bits = d.to_binary();
        out.append(bits.as_str());
        proof {
            lemma_data_binary_len(dvs, k as int);
            lemma_data_binary_len(dvs, k as int + 1);
            lemma_data_binary_len(dvs, 0);
            assert(spec_data_binary_from(dvs, k as int) =~= spec_datum_binary(dvs[k as int])
                + spec_data_binary_from(dvs, k as int + 1));
            assert(spec_data_binary_from(dvs, 0).subrange(0, 32 * (k as int + 1))
                =~= spec_data_binary_from(dvs, 0).subrange(0, 32 * k as int) + spec_datum_binary(
                dvs[k as int],
            ));
            assert(out@ =~= with_texts + spec_data_binary_from(dvs, 0).subrange(
                0,
                32 * (k as int + 1),
            ));
            assert(spec_data_binary_from(dvs, 0) =~= spec_data_binary_from(dvs, 0).subrange(
                0,
                32 * (k as int + 1),
            ) + spec_data_binary_from(dvs, k as int + 1));
        }
        k = k + 1;
    }
    proof {
        assert(spec_data_binary_from(dvs, dn as int) =~= Seq::<char>::empty());
        assert(spec_data_binary_from(dvs, 0).subrange(0, 32 * dn as int) =~= spec_data_binary_from(
            dvs,
            0,
        ));
        assert(out@ =~= with_texts + spec_data_binary_from(dvs, 0));
        match spec_texts_binary_from(tvs, 0) {
            Ok(tb) => {
                assert(with_texts =~= header + tb);
                assert(out@ =~= (header + tb) + spec_data_binary_from(dvs, 0));
                assert(header + tb + spec_data_binary_from(dvs, 0) =~= spec_size_field(
                    tvs.len() as int,
                ) + spec_size_field(dvs.len() as int) + tb + spec_data_binary_from(dvs, 0));
                lemma_texts_binary_len(tvs, 0);
                lemma_data_binary_len(dvs, 0);
            },
            Err(e) => {
                assert(false);
            },
        }
    }
    Ok(out)
}

/// Every classified line in a well-seeded run is well-formed: data and
/// text lines carry text, and data lines sit at or above the data-section
/// base address.
pub proof fn lemma_compose_lines_wf(lines: Seq<Seq<char>>, i: int, addr: int, sect: Section)
    requires
        addr >= DATA_SECTION_MIN_ADDRESS as int - 4,
        sect == Section::DATA ==> addr >= DATA_SECTION_MIN_ADDRESS as int,
    ensures
        ({
            let r = spec_compose_lines_from(lines, i, addr, sect);
            forall|k: int|
                0 <= k < r.len() ==> {
                    &&& ((#[trigger] r[k]).section == Section::DATA ==> r[k].text is Some
                        && r[k].address >= DATA_SECTION_MIN_ADDRESS as int)
                    &&& (r[k].section == Section::TEXT ==> r[k].text is Some)
                }
        }),
    decreases lines.len() - i,
{
    if 0 <= i < lines.len() {
        let line = lines[i];
        let here = match spec_resolve_section(line) {
            Some(s) => s,
            None => sect,
        };
        match here {
            Section::DATA => {
                lemma_compose_lines_wf(lines, i + 1, addr + 4, here);
            },
            _ => {
                lemma_compose_lines_wf(lines, i + 1, addr, here);
            },
        }
    }
}

/// The classifier emits exactly one tagged line per source line.
pub proof fn lemma_compose_lines_len(lines: Seq<Seq<char>>, i: int, addr: int, sect: Section)
    requires
        0 <= i <= lines.len(),
    ensures
        spec_compose_lines_from(lines, i, addr, sect).len() == lines.len() - i,
    decreases lines.len() - i,
{
    if i < lines.len() {
        let line = lines[i];
        let here = match spec_resolve_section(line) {
            Some(s) => s,
            None => sect,
        };
        match here {
            Section::DATA => {
                lemma_compose_lines_len(lines, i + 1, addr + 4, here);
            },
            _ => {
                lemma_compose_lines_len(lines, i + 1, addr, here);
            },
        }
    }
}

/// Every extracted data entry takes its address from a data line, so all
/// entries sit at or above the data-section base.
pub proof fn lemma_extract_data_addresses(lines: Seq<LineV>, i: int, prev: Option<Seq<char>>)
    requires
        forall|k: int|
            0 <= k < lines.len() && (#[trigger] lines[k]).section == Section::DATA
                ==> lines[k].address >= DATA_SECTION_MIN_ADDRESS as int,
        spec_extract_data_from(lines, i, prev) is Ok,
    ensures
        ({
            let r = spec_extract_data_from(lines, i, prev)->Ok_0;
            forall|j: int|
                0 <= j < r.len() ==> (#[trigger] r[j]).address >= DATA_SECTION_MIN_ADDRESS as int
        }),
    decreases lines.len() - i,
{
    if 0 <= i < lines.len() {
        if lines[i].section != Section::DATA {
            lemma_extract_data_addresses(lines, i + 1, prev);
        } else {
            match spec_resolve_data(lines[i].text->Some_0, prev, lines[i].address) {
                Err(e) => {},
                Ok(d) => {
                    lemma_extract_data_addresses(lines, i + 1, Some(d.name));
                },
            }
        }
    }
}

/// The extractor emits at most one data entry per line.
pub proof fn lemma_extract_data_len(lines: Seq<LineV>, i: int, prev: Option<Seq<char>>)
    requires
        0 <= i <= lines.len(),
        spec_extract_data_from(lines, i, prev) is Ok,
    ensures
        spec_extract_data_from(lines, i, prev)->Ok_0.len() <= lines.len() - i,
    decreases lines.len() - i,
{
    if i < lines.len() {
        if lines[i].section != Section::DATA {
            lemma_extract_data_len(lines, i + 1, prev);
        } else {
            match spec_resolve_data(lines[i].text->Some_0, prev, lines[i].address) {
                Err(e) => {},
                Ok(d) => {
                    lemma_extract_data_len(lines, i + 1, Some(d.name));
                },
            }
        }
    }
}

/// A pseudo-instruction expands to at most two lines, so the expanded
/// program holds at most twice as many code lines as the source.
pub proof fn lemma_extract_codes_len(lines: Seq<Seq<char>>, data: Seq<DatumV>, i: int, sect: Section)
    requires
        0 <= i <= lines.len(),
        spec_extract_codes_from(lines, data, i, sect) is Ok,
    ensures
        spec_extract_codes_from(lines, data, i, sect)->Ok_0.len() <= 2 * (lines.len() - i),
    decreases lines.len() - i,
{
    if i < lines.len() {
        let line = lines[i];
        let here = match spec_resolve_section(line) {
            Some(s) => s,
            None => sect,
        };
        lemma_extract_codes_len(lines, data, i + 1, here);
    }
}

/// The disassembler emits at most one instruction per code line.
pub proof fn lemma_disassemble_len(
    codes: Seq<Seq<char>>,
    data: Seq<DatumV>,
    labels: Seq<LabelV>,
    i: int,
    addr: int,
)
    requires
        0 <= i <= codes.len(),
        spec_disassemble_instructions_from(codes, data, labels, i, addr) is Ok,
    ensures
        spec_disassemble_instructions_from(codes, data, labels, i, addr)->Ok_0.len() <= codes.len()
            - i,
    decreases codes.len() - i,
{
    if i < codes.len() {
        if spec_is_label(codes[i]) {
            lemma_disassemble_len(codes, data, labels, i + 1, addr);
        } else {
            match spec_get_text_from_code(codes[i], addr, data, labels) {
                Err(e) => {},
                Ok(t) => {
                    lemma_disassemble_len(codes, data, labels, i + 1, addr + 4);
                },
            }
        }
    }
}

/// The whole pipeline: classify, extract data and labels, expand, resolve
/// label addresses, encode, serialise. The first failing stage decides the
/// error.
pub open spec fn spec_assemble(lines: Seq<Seq<char>>) -> Result<Seq<char>, AsmError> {
    let classified = spec_compose_lines(lines);
    match spec_extract_data(classified) {
        Err(e) => Err(e),
        Ok(data) => {
            let labels = spec_extract_labels(classified);
            match spec_extract_codes(lines, data) {
                Err(e) => Err(e),
                Ok(codes) => match spec_get_addressed_labels(codes, labels) {
                    Err(e) => Err(e),
                    Ok(addressed) => match spec_disassemble_instructions(codes, data, addressed) {
                        Err(e) => Err(e),
                        Ok(texts) => spec_compose_output(data, texts),
                    },
                },
            }
        },
    }
}

/// The number of data entries a program declares, when it assembles.
pub open spec fn spec_data_count(lines: Seq<Seq<char>>) -> int {
    match spec_extract_data(spec_compose_lines(lines)) {
        Ok(data) => data.len() as int,
        Err(_) => 0,
    }
}

/// The number of real instructions a program assembles to, when it does.
pub open spec fn spec_instruction_count(lines: Seq<Seq<char>>) -> int {
    match spec_extract_data(spec_compose_lines(lines)) {
        Err(_) => 0,
        Ok(data) => match spec_extract_codes(lines, data) {
            Err(_) => 0,
            Ok(codes) => match spec_get_addressed_labels(
                codes,
                spec_extract_labels(spec_compose_lines(lines)),
            ) {
                Err(_) => 0,
                Ok(addressed) => match spec_disassemble_instructions(codes, data, addressed) {
                    Err(_) => 0,
                    Ok(texts) => texts.len() as int,
                },
            },
        },
    }
}

/// Assembles a whole program from its source lines to the flat binary
/// image. On success the image holds the two 32-bit size headers, one
/// 32-bit word per instruction and one per data entry.
pub fn assemble(lines: &Vec<String>) -> (r: Result<String, AsmError>)
    requires
        lines@.len() <= MAX_SOURCE_LINES,
    ensures
        ({
            let spec = spec_assemble(views_of(lines@));
            match r {
                Ok(s) => spec == Ok::<Seq<char>, AsmError>(s@),
                Err(e) => spec == Err::<Seq<char>, AsmError>(e),
            }
        }),
        r is Ok ==> r->Ok_0@.len() == 64 + 32 * spec_instruction_count(views_of(lines@)) + 32
            * spec_data_count(views_of(lines@)),
{
    let ghost lsv = views_of(lines@);
    let classified = compose_lines(lines);
    let ghost cls = views_of_lines(classified@);
    proof {
        lemma_compose_lines_wf(
            lsv,
            0,
            DATA_SECTION_MIN_ADDRESS as int - WORD as int,
            Section::NONE,
        );
        lemma_compose_lines_len(
            lsv,
            0,
            DATA_SECTION_MIN_ADDRESS as int - WORD as int,
            Section::NONE,
        );
        assert forall|k: int|
            0 <= k < classified@.len() && (#[trigger] classified@[k]).section
                == Section::DATA implies classified@[k]@.text is Some by {
            assert(cls[k] == classified@[k]@);
        };
        assert forall|k: int|
            0 <= k < classified@.len() && (#[trigger] classified@[k]).section
                == Section::TEXT implies classified@[k]@.text is Some by {
            assert(cls[k] == classified@[k]@);
        };
    }
    let data = match extract_data_from_lines(&classified) {
        Ok(d) => d,
        Err(e) => {
            return Err(e);
        },
    };
    let labels = extract_labels_from_lines(&classified);
    proof {
        assert forall|k: int|
            0 <= k < cls.len() && (#[trigger] cls[k]).section == Section::DATA implies cls[k].address
            >= DATA_SECTION_MIN_ADDRESS as int by {
            assert(cls[k] == classified@[k]@);
        };
        lemma_extract_data_addresses(cls, 0, None);
        lemma_extract_data_len(cls, 0, None);
        assert forall|k: int| 0 <= k < data@.len() implies (#[trigger] data@[k]@.address)
            >= 0 by {
            assert(views_of_data(data@)[k] == data@[k]@);
        };
    }
    let codes = match extract_codes(data.as_slice(), lines) {
        Ok(c) => c,
        Err(e) => {
            return Err(e);
        },
    };
    proof {
        lemma_extract_codes_len(lsv, views_of_data(data@), 0, Section::NONE);
        assert(codes@.len() == views_of(codes@).len());
        assert(codes@.len() <= MAX_CODE_LINES);
    }
    let addressed = match get_addressed_labels(codes.as_slice(), labels.as_slice()) {
        Ok(a) => a,
        Err(e) => {
            return Err(e);
        },
    };
    let texts = match disassemble_instructions(
        data.as_slice(),
        addressed.as_slice(),
        codes.as_slice(),
    ) {
        Ok(t) => t,
        Err(e) => {
            return Err(e);
        },
    };
    proof {
        lemma_disassemble_len(
            views_of(codes@),
            views_of_data(data@),
            views_of_labels(addressed@),
            0,
            TEXT_SECTION_MIN_ADDRESS as int,
        );
    }
    compose_output(data.as_slice(), texts.as_slice())
}

proof fn lemma_undeclared_reference_disassembly_errs(
    codes: Seq<Seq<char>>,
    data: Seq<DatumV>,
    labels: Seq<LabelV>,
    i: int,
    addr: int,
    k: int,
)
    requires
        0 <= i <= k < codes.len(),
        !spec_is_label(codes[k]),
        crate::text::spec_references_undeclared(codes[k], data, labels),
    ensures
        spec_disassemble_instructions_from(codes, data, labels, i, addr) is Err,
    decreases codes.len() - i,
{
    if i == k {
        crate::text::lemma_undeclared_reference_line_errs(codes[i], addr, data, labels);
    } else if spec_is_label(codes[i]) {
        lemma_undeclared_reference_disassembly_errs(codes, data, labels, i + 1, addr, k);
    } else {
        match spec_get_text_from_code(codes[i], addr, data, labels) {
            Err(e) => {},
            Ok(t) => {
                lemma_undeclared_reference_disassembly_errs(codes, data, labels, i + 1, addr + 4, k);
            },
        }
    }
}

/// A program whose expanded code references an undeclared label or data
/// name in any operand position never assembles: the pipeline stops with
/// an error before any output exists.
pub proof fn lemma_undeclared_reference_aborts(lines: Seq<Seq<char>>)
    requires
        ({
            let classified = spec_compose_lines(lines);
            match spec_extract_data(classified) {
                Err(_) => true,
                Ok(data) => match spec_extract_codes(lines, data) {
                    Err(_) => true,
                    Ok(codes) => match spec_get_addressed_labels(
                        codes,
                        spec_extract_labels(classified),
                    ) {
                        Err(_) => true,
                        Ok(addressed) => exists|k: int|
                            0 <= k < codes.len() && !spec_is_label(#[trigger] codes[k])
                                && crate::text::spec_references_undeclared(
                                codes[k],
                                data,
                                addressed,
                            ),
                    },
                },
            }
        }),
    ensures
        spec_assemble(lines) is Err,
{
    let classified = spec_compose_lines(lines);
    match spec_extract_data(classified) {
        Err(_) => {},
        Ok(data) => match spec_extract_codes(lines, data) {
            Err(_) => {},
            Ok(codes) => match spec_get_addressed_labels(codes, spec_extract_labels(classified)) {
                Err(_) => {},
                Ok(addressed) => {
                    let k = choose|k: int|
                        0 <= k < codes.len() && !spec_is_label(#[trigger] codes[k])
                            && crate::text::spec_references_undeclared(codes[k], data, addressed);
                    lemma_undeclared_reference_disassembly_errs(
                        codes,
                        data,
                        addressed,
                        0,
                        TEXT_SECTION_MIN_ADDRESS as int,
                        k,
                    );
                },
            },
        },
    }
}

/// The section in force once the classifier state has walked the lines
/// from index `i` up to, and not including, index `k`, starting from
/// `sect`.
pub open spec fn spec_section_after(lines: Seq<Seq<char>>, i: int, sect: Section, k: int) -> Section
    decreases k - i,
{
    if i < k && 0 <= i < lines.len() {
        let here = match spec_resolve_section(lines[i]) {
            Some(s) => s,
            None => sect,
        };
        spec_section_after(lines, i + 1, here, k)
    } else {
        sect
    }
}

proof fn lemma_pseudo_error_extract_errs(
    lines: Seq<Seq<char>>,
    data: Seq<DatumV>,
    i: int,
    sect: Section,
    k: int,
)
    requires
        0 <= i <= k < lines.len(),
        spec_section_after(lines, i, sect, k) == Section::TEXT,
        lines[k].len() > 0,
        spec_resolve_section(lines[k]) is None,
        !spec_is_label(lines[k]),
        spec_disassemble_pseudo(lines[k], data) is Err,
    ensures
        spec_extract_codes_from(lines, data, i, sect) is Err,
    decreases k - i,
{
    let line = lines[i];
    let here = match spec_resolve_section(line) {
        Some(s) => s,
        None => sect,
    };
    if i < k {
        lemma_pseudo_error_extract_errs(lines, data, i + 1, here, k);
    }
}

/// A program whose text section holds a `la` line naming an undeclared
/// datum never assembles: the expander stops with an error before any
/// output exists.
pub proof fn lemma_undeclared_data_reference_aborts(lines: Seq<Seq<char>>)
    requires
        ({
            let classified = spec_compose_lines(lines);
            match spec_extract_data(classified) {
                Err(_) => true,
                Ok(data) => exists|k: int|
                    0 <= k < lines.len() && spec_section_after(lines, 0, Section::NONE, k)
                        == Section::TEXT && (#[trigger] lines[k]).len() > 0 && spec_resolve_section(
                        lines[k],
                    ) is None && !spec_is_label(lines[k])
                        && crate::pseudo_instruction::spec_la_references_undeclared(
                        lines[k],
                        data,
                    ),
            }
        }),
    ensures
        spec_assemble(lines) is Err,
{
    let classified = spec_compose_lines(lines);
    match spec_extract_data(classified) {
        Err(_) => {},
        Ok(data) => {
            let k = choose|k: int|
                0 <= k < lines.len() && spec_section_after(lines, 0, Section::NONE, k)
                    == Section::TEXT && (#[trigger] lines[k]).len() > 0 && spec_resolve_section(
                    lines[k],
                ) is None && !spec_is_label(lines[k])
                    && crate::pseudo_instruction::spec_la_references_undeclared(lines[k], data);
            assert(spec_disassemble_pseudo(lines[k], data) is Err);
            lemma_pseudo_error_extract_errs(lines, data, 0, Section::NONE, k);
        },
    }
}

} // verus!
