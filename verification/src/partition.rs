//! Partition of a document's pages into signatures of a fixed size.

use crate::decimal::{format_number, number_text};
use crate::key::{get_signature_key, key_letters, lemma_key_order, sorts_before};
use crate::units::{lemma_units_for_is_least, units_for};
use vstd::prelude::*;

verus! {

/// Pages of the document that one signature holds.
pub const DOC_PAGES_PER_SIGNATURE: u32 = 16;

/// One signature as a plain value: its key and the pages it covers, both
/// ends included.
pub struct Window {
    pub first_page: int,
    pub last_page: int,
    pub key: Seq<char>,
}

/// The last page of a document of `num_pages` pages that starts at
/// `first_page_of_document`.
pub open spec fn last_page_of(first_page_of_document: int, num_pages: int) -> int {
    first_page_of_document + num_pages - 1
}

/// The window of signature `i` in a document of `num_pages` pages that starts
/// at `first_page_of_document`: sixteen pages from its first page on, cut off
/// at the document's last page.
pub open spec fn window(first_page_of_document: int, num_pages: int, i: int) -> Window {
    let first_page = first_page_of_document + i * DOC_PAGES_PER_SIGNATURE;
    let full_last_page = first_page_of_document + (i + 1) * DOC_PAGES_PER_SIGNATURE - 1;
    let document_last_page = last_page_of(first_page_of_document, num_pages);
    Window {
        first_page,
        last_page: if full_last_page < document_last_page {
            full_last_page
        } else {
            document_last_page
        },
        key: key_letters(i as nat),
    }
}

/// The windows of the first `num_signatures` signatures, in order.
pub open spec fn windows(first_page_of_document: int, num_pages: int, num_signatures: int) -> Seq<
    Window,
> {
    Seq::new(num_signatures as nat, |i: int| window(first_page_of_document, num_pages, i))
}

/// The line that tells a signature's key and pages.
pub open spec fn signature_line(w: Window) -> Seq<char> {
    "Signature "@ + w.key + ". First page: "@ + number_text(w.first_page as nat)
        + ", last page: "@ + number_text(w.last_page as nat)
}

/// A signature: a key and the inclusive range of pages bound under it.
#[derive(Debug)]
pub struct Signature {
    first_page: u32,
    last_page: u32,
    signature_key: String,
}

impl View for Signature {
    type V = Window;

    closed spec fn view(&self) -> Window {
        Window {
            first_page: self.first_page as int,
            last_page: self.last_page as int,
            key: self.signature_key@,
        }
    }
}

impl Signature {
    /// The first page of the signature.
    pub fn first_page(&self) -> (page: u32)
        ensures
            page == self@.first_page,
    {
        self.first_page
    }

    /// The last page of the signature.
    pub fn last_page(&self) -> (page: u32)
        ensures
            page == self@.last_page,
    {
        self.last_page
    }

    /// The key of the signature.
    pub fn signature_key(&self) -> (key: &str)
        ensures
            key@ == self@.key,
    {
        self.signature_key.as_str()
    }

    /// Writes the signature out for a person to read.
    pub fn describe(&self) -> (text: String)
        ensures
            text@ == signature_line(self@),
    {
        let mut text = "Signature ".to_owned();
        text.append(self.signature_key.as_str());
        text.append(". First page: ");
        text.append(format_number(self.first_page).as_str());
        text.append(", last page: ");
        text.append(format_number(self.last_page).as_str());
        text
    }
}

/// The windows that a sequence of signatures stands for.
pub open spec fn windows_of(signatures: Seq<Signature>) -> Seq<Window> {
    signatures.map_values(|s: Signature| s@)
}

/// Lists the first `num_signatures` signatures of a document of `num_pages`
/// pages that starts at `first_page_of_document`.
pub fn get_signatures(first_page_of_document: u32, num_pages: u32, num_signatures: u32) -> (signatures:
    Vec<Signature>)
    requires
        1 <= first_page_of_document,
        1 <= num_pages,
        last_page_of(first_page_of_document as int, num_pages as int) <= u32::MAX,
        num_signatures > 0 ==> first_page_of_document + (num_signatures - 1)
            * DOC_PAGES_PER_SIGNATURE <= u32::MAX,
    ensures
        signatures.len() == num_signatures,
        windows_of(signatures@) == windows(
            first_page_of_document as int,
            num_pages as int,
            num_signatures as int,
        ),
        keys_ascend(windows_of(signatures@)),
        num_signatures <= signatures_for(num_pages as int) ==> none_empty(windows_of(signatures@))
            && contiguous(windows_of(signatures@)),
        num_signatures == signatures_for(num_pages as int) ==> divide_pages(
            windows_of(signatures@),
            first_page_of_document as int,
            last_page_of(first_page_of_document as int, num_pages as int),
        ),
{
    proof {
        lemma_window_keys_ascend(
            first_page_of_document as int,
            num_pages as int,
            num_signatures as int,
        );
        if num_signatures <= signatures_for(num_pages as int) {
            lemma_windows_follow(
                first_page_of_document as int,
                num_pages as int,
                num_signatures as int,
            );
        }
        if num_signatures == signatures_for(num_pages as int) {
            lemma_windows_divide_pages(first_page_of_document as int, num_pages as int);
        }
    }
    let last_page_of_document: u32 = first_page_of_document + (num_pages - 1);
    let mut signatures: Vec<Signature> = Vec::new();
    let mut i: u32 = 0;
    while i < num_signatures
        invariant
            i <= num_signatures,
            signatures@.len() == i,
            num_signatures > 0 ==> first_page_of_document + (num_signatures - 1)
                * DOC_PAGES_PER_SIGNATURE <= u32::MAX,
            last_page_of_document == last_page_of(first_page_of_document as int, num_pages as int),
            windows_of(signatures@) == windows(
                first_page_of_document as int,
                num_pages as int,
                i as int,
            ),
        decreases num_signatures - i,
    {
        let first_page: u32 = first_page_of_document + DOC_PAGES_PER_SIGNATURE * i;
        let pages_per_signature: u64 = DOC_PAGES_PER_SIGNATURE as u64;
        let last_page_of_signature: u64 = (i as u64 + 1) * pages_per_signature
            + first_page_of_document as u64 - 1;
        let signature = Signature {
            first_page,
            last_page: if last_page_of_signature < last_page_of_document as u64 {
                last_page_of_signature as u32
            } else {
                last_page_of_document
            },
            signature_key: get_signature_key(i),
        };
        let ghost before = signatures@;
        signatures.push(signature);
        i = i + 1;
        assert forall|k: int| 0 <= k < i implies #[trigger] windows_of(signatures@)[k] == window(
            first_page_of_document as int,
            num_pages as int,
            k,
        ) by {
            if k < i - 1 {
                assert(windows_of(before)[k] == before[k]@);
            }
        }
    }
    signatures
}

/// The number of signatures that `num_pages` pages need.
pub open spec fn signatures_for(num_pages: int) -> int {
    units_for(num_pages, DOC_PAGES_PER_SIGNATURE as int)
}

/// The number of pages in a window.
pub open spec fn pages_in(w: Window) -> int {
    w.last_page - w.first_page + 1
}

/// The number of pages in all the windows together.
pub open spec fn total_pages(ws: Seq<Window>) -> int
    decreases ws.len(),
{
    if ws.len() == 0 {
        0
    } else {
        total_pages(ws.drop_last()) + pages_in(ws.last())
    }
}

/// Whether no window is empty: none ends before it starts.
pub open spec fn none_empty(ws: Seq<Window>) -> bool {
    forall|i: int| 0 <= i < ws.len() ==> (#[trigger] ws[i]).first_page <= ws[i].last_page
}

/// Whether each window starts on the page after the one before it ends:
/// no page between two windows is left out, and none is in both.
pub open spec fn contiguous(ws: Seq<Window>) -> bool {
    forall|i: int| 0 <= i < ws.len() - 1 ==> (#[trigger] ws[i]).last_page + 1 == ws[i
        + 1].first_page
}

/// Whether the windows divide the pages from `first_page` to `last_page`
/// among them, in order: the first window starts on `first_page`, the last
/// ends on `last_page`, none is empty, they are contiguous, and together they
/// hold as many pages as the range has.
pub open spec fn divide_pages(ws: Seq<Window>, first_page: int, last_page: int) -> bool {
    &&& ws.len() >= 1
    &&& ws[0].first_page == first_page
    &&& ws.last().last_page == last_page
    &&& none_empty(ws)
    &&& contiguous(ws)
    &&& total_pages(ws) == last_page - first_page + 1
}

/// Whether the keys of the windows ascend: each sorts before all that follow.
pub open spec fn keys_ascend(ws: Seq<Window>) -> bool {
    forall|i: int, j: int|
        0 <= i < j < ws.len() ==> sorts_before((#[trigger] ws[i]).key, (#[trigger] ws[j]).key)
}

/// The first signatures of a document hold a full signature's pages each,
/// until the document's pages run out.
proof fn lemma_total_pages_of_first(first_page_of_document: int, num_pages: int, count: int)
    requires
        1 <= num_pages,
        0 <= count <= signatures_for(num_pages),
    ensures
        total_pages(windows(first_page_of_document, num_pages, count)) == if count
            * DOC_PAGES_PER_SIGNATURE <= num_pages {
            count * DOC_PAGES_PER_SIGNATURE
        } else {
            num_pages
        },
    decreases count,
{
    let ws = windows(first_page_of_document, num_pages, count);
    if count > 0 {
        lemma_units_for_is_least(num_pages, DOC_PAGES_PER_SIGNATURE as int);
        lemma_total_pages_of_first(first_page_of_document, num_pages, count - 1);
        assert(ws.drop_last() =~= windows(first_page_of_document, num_pages, count - 1));
    }
}

/// As long as no more signatures are listed than the document needs, none
/// is empty and each starts where the one before it ended.
pub proof fn lemma_windows_follow(first_page_of_document: int, num_pages: int, num_signatures: int)
    requires
        1 <= num_pages,
        0 <= num_signatures <= signatures_for(num_pages),
    ensures
        none_empty(windows(first_page_of_document, num_pages, num_signatures)),
        contiguous(windows(first_page_of_document, num_pages, num_signatures)),
{
    lemma_units_for_is_least(num_pages, DOC_PAGES_PER_SIGNATURE as int);
}

/// The signatures that a document needs divide its pages among them.
pub proof fn lemma_windows_divide_pages(first_page_of_document: int, num_pages: int)
    requires
        1 <= num_pages,
    ensures
        windows(first_page_of_document, num_pages, signatures_for(num_pages)).len()
            == signatures_for(num_pages),
        divide_pages(
            windows(first_page_of_document, num_pages, signatures_for(num_pages)),
            first_page_of_document,
            last_page_of(first_page_of_document, num_pages),
        ),
{
    lemma_units_for_is_least(num_pages, DOC_PAGES_PER_SIGNATURE as int);
    lemma_total_pages_of_first(first_page_of_document, num_pages, signatures_for(num_pages));
}

/// The keys of a document's signatures ascend.
pub proof fn lemma_window_keys_ascend(
    first_page_of_document: int,
    num_pages: int,
    num_signatures: int,
)
    ensures
        keys_ascend(windows(first_page_of_document, num_pages, num_signatures)),
{
    let ws = windows(first_page_of_document, num_pages, num_signatures);
    assert forall|i: int, j: int| 0 <= i < j < ws.len() implies sorts_before(
        (#[trigger] ws[i]).key,
        (#[trigger] ws[j]).key,
    ) by {
        lemma_key_order(i as nat, j as nat);
    }
}

} // verus!
