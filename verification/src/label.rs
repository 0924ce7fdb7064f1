//! Labels: scanning declarations in the text section and resolving each
//! one to the address of the next real instruction.

use vstd::prelude::*;

use crate::constants::{MAX_CODE_LINES, TEXT_SECTION_MIN_ADDRESS, WORD};
use crate::errors::AsmError;
use crate::line::{Line, LineV};
use crate::section::Section;
use crate::strutil::{scan_back_to_char, spec_trim_end_colons, str_equal, trim_end_colons,
    views_of};

verus! {

/// One label: its name and its resolved address (zero until the address
/// resolver has run).
pub struct Label {
    pub name: String,
    pub address: i32,
}

/// The mathematical image of a [`Label`].
pub ghost struct LabelV {
    pub name: Seq<char>,
    pub address: int,
}

impl View for Label {
    type V = LabelV;

    open spec fn view(&self) -> LabelV {
        LabelV { name: self.name@, address: self.address as int }
    }
}

impl Label {
    /// Builds a label.
    pub fn new(name: &str, address: i32) -> (r: Self)
        ensures
            r@ == (LabelV { name: name@, address: address as int }),
    {
        Self { name: String::from_str(name), address }
    }
}

/// The views of the labels in `labels`.
pub open spec fn views_of_labels(labels: Seq<Label>) -> Seq<LabelV> {
    labels.map_values(|l: Label| l@)
}

/// Whether `s` declares a label: a (possibly empty) prefix followed by a
/// colon, that is, any line holding a colon.
pub open spec fn spec_is_label(s: Seq<char>) -> bool {
    scan_back_to_char(s, ':', s.len() as int) >= 0
}

/// The declared name: everything up to the last colon, with trailing
/// colons stripped.
pub open spec fn spec_label_name(s: Seq<char>) -> Seq<char> {
    spec_trim_end_colons(s.subrange(0, scan_back_to_char(s, ':', s.len() as int) + 1))
}

/// The label `s` declares, still unaddressed, or `None` when `s` declares
/// none.
pub open spec fn spec_resolve_labels(s: Seq<char>) -> Option<LabelV> {
    if spec_is_label(s) {
        Some(LabelV { name: spec_label_name(s), address: 0 })
    } else {
        None
    }
}

/// Whether `code` declares a label.
pub fn is_label(code: &str) -> (r: bool)
    ensures
        r == spec_is_label(code@),
{
    let n = code.unicode_len();
    let mut j: usize = n;
    while j > 0
        invariant
            n == code@.len(),
            0 <= j <= n,
            scan_back_to_char(code@, ':', n as int) == scan_back_to_char(code@, ':', j as int),
        decreases j,
    {
        if code.get_char(j - 1) == ':' {
            return true;
        }
        j = j - 1;
    }
    false
}

/// Extracts the label `code` declares, if any: the text up to the last
/// colon, trailing colons stripped, with an address of zero.
pub fn resolve_labels(code: &str) -> (r: Option<Label>)
    ensures
        match r {
            Some(l) => spec_resolve_labels(code@) == Some(l@),
            None => spec_resolve_labels(code@) is None,
        },
{
    let n = code.unicode_len();
    let mut j: usize = n;
    while j > 0
        invariant
            n == code@.len(),
            0 <= j <= n,
            scan_back_to_char(code@, ':', n as int) == scan_back_to_char(code@, ':', j as int),
        decreases j,
    {
        if code.get_char(j - 1) == ':' {
            let name = trim_end_colons(code.substring_char(0, j));
            return Some(Label::new(name, 0));
        }
        j = j - 1;
    }
    None
}

/// The still-unaddressed labels of the classified lines from index `i` on.
pub open spec fn spec_extract_labels_from(lines: Seq<LineV>, i: int) -> Seq<LabelV>
    decreases lines.len() - i,
{
    if !(0 <= i < lines.len()) {
        seq![]
    } else if lines[i].section == Section::TEXT {
        match spec_resolve_labels(lines[i].text->Some_0) {
            Some(l) => seq![l] + spec_extract_labels_from(lines, i + 1),
            None => spec_extract_labels_from(lines, i + 1),
        }
    } else {
        spec_extract_labels_from(lines, i + 1)
    }
}

/// The still-unaddressed labels of a classified program.
pub open spec fn spec_extract_labels(lines: Seq<LineV>) -> Seq<LabelV> {
    spec_extract_labels_from(lines, 0)
}

/// Collects every label declared on a text-section line, addresses still
/// unresolved.
pub fn extract_labels_from_lines(lines: &Vec<Line>) -> (r: Vec<Label>)
    requires
        forall|k: int|
            0 <= k < lines@.len() && lines@[k].section == Section::TEXT
                ==> (#[trigger] lines@[k]@.text) is Some,
    ensures
        views_of_labels(r@) == spec_extract_labels(crate::line::views_of_lines(lines@)),
{
    let ghost ls = crate::line::views_of_lines(lines@);
    let n = lines.len();
    let mut result: Vec<Label> = Vec::new();
    let mut i: usize = 0;
    while i < n
        invariant
            n == lines@.len(),
            0 <= i <= n,
            ls == crate::line::views_of_lines(lines@),
            forall|k: int|
                0 <= k < lines@.len() && lines@[k].section == Section::TEXT
                    ==> (#[trigger] lines@[k]@.text) is Some,
            spec_extract_labels(ls) =~= views_of_labels(result@) + spec_extract_labels_from(
                ls,
                i as int,
            ),
        decreases n - i,
    {
        assert(ls[i as int] == lines@[i as int]@);
        let line: &Line = &lines[i];
        match line.section {
            Section::TEXT => {
                let text: &String = match &line.text {
                    Some(t) => t,
                    None => {
                        proof {
                            assert(lines@[i as int].section == Section::TEXT);
                        }
                        unreached()
                    },
                };
                match resolve_labels(text.as_str()) {
                    Some(l) => {
                        let ghost lv = l@;
                        let ghost built = views_of_labels(result@);
                        result.push(l);
                        proof {
                            assert(views_of_labels(result@) =~= built + seq![lv]);
                            assert(views_of_labels(result@) + spec_extract_labels_from(ls, i + 1)
                                =~= built + (seq![lv] + spec_extract_labels_from(ls, i + 1)));
                        }
                    },
                    None => {},
                }
            },
            _ => {},
        }
        i = i + 1;
    }
    proof {
        assert(views_of_labels(result@) + seq![] =~= views_of_labels(result@));
    }
    result
}

/// The first label of `labels` whose name is `name`, if any.
pub open spec fn spec_find_label(name: Seq<char>, labels: Seq<LabelV>) -> Option<LabelV>
    decreases labels.len(),
{
    if labels.len() == 0 {
        None
    } else if labels[0].name == name {
        Some(labels[0])
    } else {
        spec_find_label(name, labels.drop_first())
    }
}

/// Looks a name up among the labels: the first label declared under that
/// name, if any.
pub fn find_label<'a>(name: &str, labels: &'a [Label]) -> (r: Option<&'a Label>)
    ensures
        match r {
            Some(l) => spec_find_label(name@, views_of_labels(labels@)) == Some(l@),
            None => spec_find_label(name@, views_of_labels(labels@)) is None,
        },
{
    let ghost lv = views_of_labels(labels@);
    let n = labels.len();
    let mut k: usize = 0;
    proof {
        assert(lv.subrange(0, n as int) =~= lv);
    }
    while k < n
        invariant
            n == labels@.len(),
            0 <= k <= n,
            lv == views_of_labels(labels@),
            spec_find_label(name@, lv) == spec_find_label(name@, lv.subrange(k as int, n as int)),
        decreases n - k,
    {
        let l = vstd::slice::slice_index_get(labels, k);
        proof {
            assert(lv.subrange(k as int, n as int)[0] == labels@[k as int]@);
            assert(lv.subrange(k as int, n as int).drop_first() =~= lv.subrange(
                k as int + 1,
                n as int,
            ));
        }
        if str_equal(l.name.as_str(), name) {
            return Some(l);
        }
        k = k + 1;
    }
    proof {
        assert(lv.subrange(n as int, n as int).len() == 0);
    }
    None
}

/// The finalised labels of the expanded code lines from index `i` on, the
/// running address seeded at `addr`: a label declaration takes the current
/// address; every other line advances it by one word. A declaration whose
/// name was never pre-scanned is an error.
pub open spec fn spec_get_addressed_labels_from(
    codes: Seq<Seq<char>>,
    labels: Seq<LabelV>,
    i: int,
    addr: int,
) -> Result<Seq<LabelV>, AsmError>
    decreases codes.len() - i,
{
    if !(0 <= i < codes.len()) {
        Ok(seq![])
    } else {
        match spec_resolve_labels(codes[i]) {
            Some(l) => match spec_find_label(l.name, labels) {
                None => Err(AsmError::UndeclaredLabel),
                Some(found) => match spec_get_addressed_labels_from(codes, labels, i + 1, addr) {
                    Err(e) => Err(e),
                    Ok(rest) => Ok(seq![LabelV { name: l.name, address: addr }] + rest),
                },
            },
            None => spec_get_addressed_labels_from(codes, labels, i + 1, addr + 4),
        }
    }
}

/// The finalised labels of a whole expanded program.
pub open spec fn spec_get_addressed_labels(codes: Seq<Seq<char>>, labels: Seq<LabelV>) -> Result<
    Seq<LabelV>,
    AsmError,
> {
    spec_get_addressed_labels_from(codes, labels, 0, TEXT_SECTION_MIN_ADDRESS as int)
}

/// Walks the expanded code lines and assigns every label declaration the
/// address of the next real instruction.
pub fn get_addressed_labels(codes: &[String], labels: &[Label]) -> (r: Result<
    Vec<Label>,
    AsmError,
>)
    requires
        codes@.len() <= MAX_CODE_LINES,
    ensures
        ({
            let spec = spec_get_addressed_labels(views_of(codes@), views_of_labels(labels@));
            match r {
                Ok(out) => spec == Ok::<Seq<LabelV>, AsmError>(views_of_labels(out@)),
                Err(e) => spec == Err::<Seq<LabelV>, AsmError>(e),
            }
        }),
{
    let ghost cs = views_of(codes@);
    let ghost lv = views_of_labels(labels@);
    let n = codes.len();
    let mut result: Vec<Label> = Vec::new();
    let mut current_address: i32 = TEXT_SECTION_MIN_ADDRESS;
    let mut i: usize = 0;
    while i < n
        invariant
            n == codes@.len(),
            n <= MAX_CODE_LINES,
            0 <= i <= n,
            cs == views_of(codes@),
            lv == views_of_labels(labels@),
            TEXT_SECTION_MIN_ADDRESS as int <= current_address as int
                <= TEXT_SECTION_MIN_ADDRESS as int + 4 * i,
            spec_get_addressed_labels(cs, lv) == match spec_get_addressed_labels_from(
                cs,
                lv,
                i as int,
                current_address as int,
            ) {
                Ok(rest) => Ok::<Seq<LabelV>, AsmError>(views_of_labels(result@) + rest),
                Err(e) => Err::<Seq<LabelV>, AsmError>(e),
            },
        decreases n - i,
    {
        let code: &String = vstd::slice::slice_index_get(codes, i);
        assert(cs[i as int] == code@);
        match resolve_labels(code.as_str()) {
            Some(l) => {
                match find_label(l.name.as_str(), labels) {
                    None => {
                        return Err(AsmError::UndeclaredLabel);
                    },
                    Some(_) => {
                        let ghost built = views_of_labels(result@);
                        let ghost lv_new = LabelV {
                            name: l@.name,
                            address: current_address as int,
                        };
                        result.push(Label::new(l.name.as_str(), current_address));
                        proof {
                            assert(views_of_labels(result@) =~= built + seq![lv_new]);
                            match spec_get_addressed_labels_from(
                                cs,
                                lv,
                                i + 1,
                                current_address as int,
                            ) {
                                Ok(rest) => {
                                    assert(views_of_labels(result@) + rest =~= built + (seq![
                                        lv_new,
                                    ] + rest));
                                },
                                Err(e) => {},
                            }
                        }
                    },
                }
            },
            None => {
                current_address = current_address + WORD;
            },
        }
        i = i + 1;
    }
    proof {
        assert(views_of_labels(result@) + seq![] =~= views_of_labels(result@));
    }
    Ok(result)
}

/// A found label carries exactly the queried name.
pub proof fn lemma_find_label_name(name: Seq<char>, labels: Seq<LabelV>)
    requires
        spec_find_label(name, labels) is Some,
    ensures
        spec_find_label(name, labels)->Some_0.name == name,
    decreases labels.len(),
{
    if labels.len() > 0 && labels[0].name != name {
        lemma_find_label_name(name, labels.drop_first());
    }
}

/// Resolving the same label name against the same label set twice yields
/// the same entry, and so the same address: lookup is a function of its
/// inputs alone.
pub proof fn lemma_label_resolution_idempotent(
    name1: Seq<char>,
    name2: Seq<char>,
    labels1: Seq<LabelV>,
    labels2: Seq<LabelV>,
)
    requires
        name1 == name2,
        labels1 == labels2,
    ensures
        spec_find_label(name1, labels1) == spec_find_label(name2, labels2),
{
}

} // verus!
