//! Classifying raw source lines: tagging each with its section and the
//! running data address.

use vstd::prelude::*;

use crate::constants::{DATA_SECTION_MIN_ADDRESS, MAX_SOURCE_LINES, WORD};
use crate::section::{spec_resolve_section, resolve_section, Section};
use crate::strutil::views_of;

verus! {

/// One classified source line: the section it belongs to, the running data
/// address when it was visited, and its text. Marker lines and lines
/// outside any section carry no text.
pub struct Line {
    pub section: Section,
    pub address: i32,
    pub text: Option<String>,
}

/// The mathematical image of a [`Line`].
pub ghost struct LineV {
    pub section: Section,
    pub address: int,
    pub text: Option<Seq<char>>,
}

impl View for Line {
    type V = LineV;

    open spec fn view(&self) -> LineV {
        LineV {
            section: self.section,
            address: self.address as int,
            text: match self.text {
                Some(t) => Some(t@),
                None => None,
            },
        }
    }
}

impl Line {
    /// Builds a classified line.
    pub fn new(section: Section, address: i32, text: Option<String>) -> (r: Self)
        ensures
            r@ == (LineV {
                section,
                address: address as int,
                text: match text {
                    Some(t) => Some(t@),
                    None => None,
                },
            }),
    {
        Self { section, address, text }
    }
}

/// The views of the lines in `lines`.
pub open spec fn views_of_lines(lines: Seq<Line>) -> Seq<LineV> {
    lines.map_values(|l: Line| l@)
}

/// Classifies the lines from index `i` on, given the running address and
/// the current section. A marker line switches the section and carries no
/// text; the address advances by one word for every line visited while in
/// the data section, marker included.
pub open spec fn spec_compose_lines_from(
    lines: Seq<Seq<char>>,
    i: int,
    addr: int,
    sect: Section,
) -> Seq<LineV>
    decreases lines.len() - i,
{
    if !(0 <= i < lines.len()) {
        seq![]
    } else {
        let line = lines[i];
        let here = match spec_resolve_section(line) {
            Some(s) => s,
            None => sect,
        };
        match here {
            Section::DATA => {
                let l = if spec_resolve_section(line) is None {
                    LineV { section: Section::DATA, address: addr, text: Some(line) }
                } else {
                    LineV { section: Section::NONE, address: addr, text: None }
                };
                seq![l] + spec_compose_lines_from(lines, i + 1, addr + 4, here)
            },
            Section::TEXT => {
                let l = if spec_resolve_section(line) is None {
                    LineV { section: Section::TEXT, address: addr, text: Some(line) }
                } else {
                    LineV { section: Section::NONE, address: addr, text: None }
                };
                seq![l] + spec_compose_lines_from(lines, i + 1, addr, here)
            },
            Section::NONE => seq![LineV { section: Section::NONE, address: addr, text: None }]
                + spec_compose_lines_from(lines, i + 1, addr, here),
        }
    }
}

/// The classification of a whole program: every line tagged, the address
/// seeded one word below the data-section base, the section starting as
/// none.
pub open spec fn spec_compose_lines(lines: Seq<Seq<char>>) -> Seq<LineV> {
    spec_compose_lines_from(
        lines,
        0,
        DATA_SECTION_MIN_ADDRESS as int - WORD as int,
        Section::NONE,
    )
}

/// Tags every source line with its section and running data address.
pub fn compose_lines(lines: &Vec<String>) -> (r: Vec<Line>)
    requires
        lines@.len() <= MAX_SOURCE_LINES,
    ensures
        views_of_lines(r@) == spec_compose_lines(views_of(lines@)),
{
    let ghost ls = views_of(lines@);
    let n = lines.len();
    let mut result: Vec<Line> = Vec::new();
    let mut current_address: i32 = DATA_SECTION_MIN_ADDRESS - WORD;
    let mut current_section: Section = Section::NONE;
    let mut i: usize = 0;
    while i < n
        invariant
            n == lines@.len(),
            n <= MAX_SOURCE_LINES,
            0 <= i <= n,
            ls == views_of(lines@),
            DATA_SECTION_MIN_ADDRESS as int - WORD as int <= current_address as int
                <= DATA_SECTION_MIN_ADDRESS as int - WORD as int + 4 * i,
            spec_compose_lines(ls) =~= views_of_lines(result@) + spec_compose_lines_from(
                ls,
                i as int,
                current_address as int,
                current_section,
            ),
        decreases n - i,
    {
        let line: &String = &lines[i];
        assert(ls[i as int] == line@);
        let marker = resolve_section(line.as_str());
        current_section = match marker {
            Some(s) => s,
            None => current_section,
        };
        let ghost prev_addr = current_address as int;
        match current_section {
            Section::DATA => {
                let l = if marker.is_none() {
                    Line::new(Section::DATA, current_address, Some(line.clone()))
                } else {
                    Line::new(Section::NONE, current_address, None)
                };
                result.push(l);
                current_address = current_address + WORD;
            },
            Section::TEXT => {
                let l = if marker.is_none() {
                    Line::new(Section::TEXT, current_address, Some(line.clone()))
                } else {
                    Line::new(Section::NONE, current_address, None)
                };
                result.push(l);
            },
            Section::NONE => {
                result.push(Line::new(Section::NONE, current_address, None));
            },
        }
        proof {
            assert(views_of_lines(result@) =~= views_of_lines(result@.drop_last()).push(
                result@.last()@,
            ));
            assert(spec_compose_lines(ls) =~= views_of_lines(result@) + spec_compose_lines_from(
                ls,
                i + 1,
                current_address as int,
                current_section,
            ));
        }
        i = i + 1;
    }
    result
}

} // verus!
