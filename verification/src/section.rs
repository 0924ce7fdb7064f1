//! Source sections and the marker lines that switch between them.

use vstd::prelude::*;

use crate::strutil::str_equal;

verus! {

/// The section a source line belongs to. Lines before the first marker
/// belong to no section.
#[derive(Clone, Copy, Debug, PartialEq, Eq, Structural)]
pub enum Section {
    NONE,
    DATA,
    TEXT,
}

/// The marker line that opens the data section.
pub open spec fn data_marker() -> Seq<char> {
    seq!['\t', '.', 'd', 'a', 't', 'a']
}

/// The marker line that opens the text section.
pub open spec fn text_marker() -> Seq<char> {
    seq!['\t', '.', 't', 'e', 'x', 't']
}

/// The section a marker line switches to, or `None` for every other line.
pub open spec fn spec_resolve_section(s: Seq<char>) -> Option<Section> {
    if s == data_marker() {
        Some(Section::DATA)
    } else if s == text_marker() {
        Some(Section::TEXT)
    } else {
        None
    }
}

/// Recognises the two section marker lines.
pub fn resolve_section(code: &str) -> (r: Option<Section>)
    ensures
        r == spec_resolve_section(code@),
{
    proof {
        reveal_strlit("\t.data");
        reveal_strlit("\t.text");
        assert("\t.data"@ =~= data_marker());
        assert("\t.text"@ =~= text_marker());
    }
    if str_equal(code, "\t.data") {
        Some(Section::DATA)
    } else if str_equal(code, "\t.text") {
        Some(Section::TEXT)
    } else {
        None
    }
}

} // verus!
