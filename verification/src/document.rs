//! The layout of a document: how many pages, sheets and signatures it takes
//! to print a range of pages, and which pages go into which signature.

use crate::decimal::{format_number, number_text};
use crate::partition::{
    divide_pages, get_signatures, keys_ascend, lemma_window_keys_ascend,
    lemma_windows_divide_pages, signature_line, signatures_for, windows, windows_of, Signature,
    Window, DOC_PAGES_PER_SIGNATURE,
};
use crate::units::{lemma_units_for_is_least, units_for, units_needed};
use crate::validate::PageRange;
use vstd::prelude::*;

verus! {

/// Pages of the document that one sheet holds.
pub const DOC_PAGES_PER_SHEET: u32 = 4;

/// A document's layout as a plain value.
pub struct Layout {
    pub num_pages: int,
    pub num_sheets: int,
    pub num_signatures: int,
    pub signatures: Seq<Window>,
}

/// The layout of the document that runs from page `first` to page `last`,
/// both included.
pub open spec fn layout(first: int, last: int) -> Layout {
    let num_pages = last - first + 1;
    Layout {
        num_pages,
        num_sheets: units_for(num_pages, DOC_PAGES_PER_SHEET as int),
        num_signatures: signatures_for(num_pages),
        signatures: windows(first, num_pages, signatures_for(num_pages)),
    }
}

/// Whether `l` is the layout of some range of pages that starts at page one
/// or later.
pub open spec fn is_layout(l: Layout) -> bool {
    exists|first: int, last: int| 1 <= first <= last <= u32::MAX && l == layout(first, last)
}

/// In the layout of a range of pages the signatures divide the pages among
/// them, one signature to each window, and their keys ascend.
pub proof fn lemma_layout_divides_pages(first: int, last: int)
    requires
        first <= last,
    ensures
        layout(first, last).num_pages == last - first + 1,
        layout(first, last).num_sheets >= 1,
        layout(first, last).num_signatures >= 1,
        layout(first, last).signatures.len() == layout(first, last).num_signatures,
        divide_pages(layout(first, last).signatures, first, last),
        keys_ascend(layout(first, last).signatures),
{
    lemma_units_for_is_least(last - first + 1, DOC_PAGES_PER_SHEET as int);
    lemma_windows_divide_pages(first, last - first + 1);
    lemma_window_keys_ascend(first, last - first + 1, signatures_for(last - first + 1));
}

/// The lines that tell a layout: the three counts, then one line for each
/// signature.
pub open spec fn layout_lines(l: Layout) -> Seq<Seq<char>> {
    seq![
        "Number of document pages to print: "@ + number_text(l.num_pages as nat),
        "Number of sheets to print: "@ + number_text(l.num_sheets as nat),
        "Number of 4-sheet signatures to bind: "@ + number_text(l.num_signatures as nat),
    ] + l.signatures.map_values(|w: Window| signature_line(w))
}

/// The layout of a document.
#[derive(Debug)]
pub struct DocumentInfo {
    num_pages: u32,
    num_sheets: u32,
    num_signatures: u32,
    signatures: Vec<Signature>,
}

impl View for DocumentInfo {
    type V = Layout;

    closed spec fn view(&self) -> Layout {
        Layout {
            num_pages: self.num_pages as int,
            num_sheets: self.num_sheets as int,
            num_signatures: self.num_signatures as int,
            signatures: windows_of(self.signatures@),
        }
    }
}

impl DocumentInfo {
    #[verifier::type_invariant]
    spec fn calculated(self) -> bool {
        is_layout(self@)
    }

    /// Calculates the layout of the document that runs from page
    /// `first_number` to page `second_number`.
    pub fn new(first_number: u32, second_number: u32) -> (info: DocumentInfo)
        requires
            1 <= first_number <= second_number,
        ensures
            info@ == layout(first_number as int, second_number as int),
            info@.num_pages == second_number - first_number + 1,
            info@.signatures.len() == info@.num_signatures,
            divide_pages(info@.signatures, first_number as int, second_number as int),
            keys_ascend(info@.signatures),
    {
        let num_pages: u32 = second_number - first_number + 1;
        let num_sheets: u32 = units_needed(num_pages, DOC_PAGES_PER_SHEET);
        let num_signatures: u32 = units_needed(num_pages, DOC_PAGES_PER_SIGNATURE);
        proof {
            lemma_units_for_is_least(num_pages as int, DOC_PAGES_PER_SIGNATURE as int);
        }
        let signatures = get_signatures(first_number, num_pages, num_signatures);
        proof {
            let calculated = Layout {
                num_pages: num_pages as int,
                num_sheets: num_sheets as int,
                num_signatures: num_signatures as int,
                signatures: windows_of(signatures@),
            };
            assert(calculated == layout(first_number as int, second_number as int));
            assert(is_layout(calculated));
        }
        DocumentInfo { num_pages, num_sheets, num_signatures, signatures }
    }

    /// Calculates the layout of the document that has the pages of `range`.
    pub fn calculate(range: &PageRange) -> (info: DocumentInfo)
        ensures
            info@ == layout(range@.0, range@.1),
            info@.num_pages == range@.1 - range@.0 + 1,
            info@.signatures.len() == info@.num_signatures,
            divide_pages(info@.signatures, range@.0, range@.1),
            keys_ascend(info@.signatures),
    {
        DocumentInfo::new(range.first(), range.last())
    }

    /// The number of pages of the document.
    pub fn num_pages(&self) -> (count: u32)
        ensures
            count == self@.num_pages,
            is_layout(self@),
    {
        proof {
            use_type_invariant(self);
        }
        self.num_pages
    }

    /// The number of sheets that the document is printed on.
    pub fn num_sheets(&self) -> (count: u32)
        ensures
            count == self@.num_sheets,
            is_layout(self@),
    {
        proof {
            use_type_invariant(self);
        }
        self.num_sheets
    }

    /// The number of signatures that the document is bound into.
    pub fn num_signatures(&self) -> (count: u32)
        ensures
            count == self@.num_signatures,
            is_layout(self@),
    {
        proof {
            use_type_invariant(self);
        }
        self.num_signatures
    }

    /// Writes the layout out for a person to read, line by line: the three
    /// counts, then every signature with its key and pages.
    pub fn display_lines(&self) -> (lines: Vec<String>)
        ensures
            lines.deep_view() == layout_lines(self@),
    {
        let mut lines: Vec<String> = Vec::new();
        let mut pages_line = "Number of document pages to print: ".to_owned();
        pages_line.append(format_number(self.num_pages).as_str());
        lines.push(pages_line);
        let mut sheets_line = "Number of sheets to print: ".to_owned();
        sheets_line.append(format_number(self.num_sheets).as_str());
        lines.push(sheets_line);
        let mut signatures_line = "Number of 4-sheet signatures to bind: ".to_owned();
        signatures_line.append(format_number(self.num_signatures).as_str());
        lines.push(signatures_line);
        let mut i: usize = 0;
        while i < self.signatures.len()
            invariant
                i <= self.signatures.len(),
                lines.len() == 3 + i,
                lines.deep_view() == layout_lines(self@).take(3 + i),
            decreases self.signatures.len() - i,
        {
            let line = self.signatures[i].describe();
            lines.push(line);
            i = i + 1;
            assert(lines.deep_view() =~= layout_lines(self@).take(3 + i));
        }
        assert(layout_lines(self@).take(3 + i) =~= layout_lines(self@));
        lines
    }

    /// The signatures of the document, in order.
    pub fn signatures(&self) -> (signatures: &Vec<Signature>)
        ensures
            windows_of(signatures@) == self@.signatures,
            signatures.len() == self@.num_signatures,
            is_layout(self@),
    {
        proof {
            use_type_invariant(self);
            let (first, last) = choose|first: int, last: int|
                1 <= first <= last <= u32::MAX && self@ == layout(first, last);
            lemma_layout_divides_pages(first, last);
        }
        &self.signatures
    }
}

} // verus!
