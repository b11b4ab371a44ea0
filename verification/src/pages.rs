//! The pages that are extracted from documents: how their files are named,
//! which files of a directory are pages, and how an extraction is summed up.
//!
//! The converter writes the pages of a document `report` as `report_page-1.png`,
//! `report_page-2.png` and so on. They are stored as `report_page001.png`,
//! `report_page002.png` and so on.

use crate::naming::{append_padded, decimal, zero_padded};
use vstd::prelude::*;
use vstd::string::StringExecFns;

verus! {

/// The number of digits to which a page number is padded.
pub const PAGE_DIGITS: usize = 3;

/// What the converter is told to begin the names of its files with.
pub open spec fn page_prefix(document: Seq<char>) -> Seq<char> {
    document + "_page"@
}

/// The name under which the converter writes page `page` of `document`.
pub open spec fn converted_page_name(document: Seq<char>, page: nat) -> Seq<char> {
    document + "_page-"@ + decimal(page) + ".png"@
}

/// The name under which page `page` of `document` is stored.
pub open spec fn page_name(document: Seq<char>, page: nat) -> Seq<char> {
    document + "_page"@ + zero_padded(page, PAGE_DIGITS as nat) + ".png"@
}

/// Makes what the converter is told to begin the names of its files with.
pub fn output_prefix(document: &str) -> (prefix: String)
    ensures
        prefix@ == page_prefix(document@),
{
    let mut prefix = String::from_str(document);
    prefix.append("_page");
    prefix
}

/// Makes the name under which the converter writes page `page` of
/// `document`.
pub fn converted_page_file_name(document: &str, page: usize) -> (name: String)
    ensures
        name@ == converted_page_name(document@, page as nat),
{
    let mut name = String::from_str(document);
    name.append("_page-");
    append_padded(&mut name, page, 0);
    name.append(".png");
    name
}

/// Makes the name under which page `page` of `document` is stored.
pub fn page_file_name(document: &str, page: usize) -> (name: String)
    ensures
        name@ == page_name(document@, page as nat),
{
    let mut name = String::from_str(document);
    name.append("_page");
    append_padded(&mut name, page, PAGE_DIGITS);
    name.append(".png");
    name
}

/// The renaming of one page: from the name the converter wrote to the name
/// under which the page is stored.
pub struct PageRename {
    pub from: String,
    pub to: String,
}

/// Lists the renamings of the pages of a document, from the first page,
/// which has the number one, to the last.
pub fn page_renames(document: &str, page_count: usize) -> (renames: Vec<PageRename>)
    ensures
        renames@.len() == page_count,
        forall|i: int|
            0 <= i < page_count ==> {
                &&& (#[trigger] renames@[i]).from@ == converted_page_name(
                    document@,
                    (i + 1) as nat,
                )
                &&& renames@[i].to@ == page_name(document@, (i + 1) as nat)
            },
{
    let mut renames: Vec<PageRename> = Vec::new();
    let mut done: usize = 0;
    while done < page_count
        invariant
            done <= page_count,
            renames@.len() == done,
            forall|i: int|
                0 <= i < done ==> {
                    &&& (#[trigger] renames@[i]).from@ == converted_page_name(
                        document@,
                        (i + 1) as nat,
                    )
                    &&& renames@[i].to@ == page_name(document@, (i + 1) as nat)
                },
        decreases page_count - done,
    {
        done += 1;
        renames.push(
            PageRename {
                from: converted_page_file_name(document, done),
                to: page_file_name(document, done),
            },
        );
    }
    renames
}

/// `pattern` stands in `text` at `at`.
pub open spec fn stands_at(text: Seq<u8>, at: int, pattern: Seq<u8>) -> bool {
    0 <= at && at + pattern.len() <= text.len() && text.subrange(at, at + pattern.len())
        == pattern
}

/// The bytes of `_page-`, by which the converter's files are known.
pub open spec fn page_mark() -> Seq<u8> {
    seq![95u8, 112u8, 97u8, 103u8, 101u8, 45u8]
}

/// The bytes of `.png`.
pub open spec fn png_ending() -> Seq<u8> {
    seq![46u8, 112u8, 110u8, 103u8]
}

/// `file_name` names a page that the converter wrote for `document`: it
/// begins with the name of the document and `_page-`, and ends in `.png`.
pub open spec fn is_converted_page(file_name: Seq<u8>, document: Seq<u8>) -> bool {
    &&& stands_at(file_name, 0, document)
    &&& stands_at(file_name, document.len() as int, page_mark())
    &&& stands_at(file_name, file_name.len() - png_ending().len(), png_ending())
}

/// The number of names in `file_names` that name a page which the converter
/// wrote for `document`.
pub open spec fn converted_pages(file_names: Seq<Vec<u8>>, document: Seq<u8>) -> nat
    decreases file_names.len(),
{
    if file_names.len() == 0 {
        0
    } else {
        converted_pages(file_names.drop_last(), document) + if is_converted_page(
            file_names.last()@,
            document,
        ) {
            1nat
        } else {
            0nat
        }
    }
}

/// Says whether `pattern` stands in `text` at `at`.
pub fn matches_at(text: &[u8], at: usize, pattern: &[u8]) -> (found: bool)
    ensures
        found == stands_at(text@, at as int, pattern@),
{
    if at > text.len() || pattern.len() > text.len() - at {
        return false;
    }
    let len = text.len();
    let mut i: usize = 0;
    while i < pattern.len()
        invariant
            len == text@.len(),
            at + pattern@.len() <= text@.len(),
            i <= pattern@.len(),
            text@.subrange(at as int, at + i) == pattern@.take(i as int),
        decreases pattern@.len() - i,
    {
        if text[at + i] != pattern[i] {
            proof {
                let whole = text@.subrange(at as int, at + pattern@.len());
                assert(whole[i as int] != pattern@[i as int]);
            }
            return false;
        }
        i += 1;
        assert(text@.subrange(at as int, at + i) =~= pattern@.take(i as int));
    }
    assert(pattern@.take(i as int) =~= pattern@);
    true
}

/// Says whether `file_name` names a page that the converter wrote for
/// `document`.
pub fn is_converted_page_name(file_name: &[u8], document: &[u8]) -> (found: bool)
    ensures
        found == is_converted_page(file_name@, document@),
{
    let mark: [u8; 6] = [95, 112, 97, 103, 101, 45];
    let ending: [u8; 4] = [46, 112, 110, 103];
    assert(mark@ =~= page_mark());
    assert(ending@ =~= png_ending());
    if file_name.len() < 4 {
        return false;
    }
    matches_at(file_name, 0, document) && matches_at(
        file_name,
        document.len(),
        mark.as_slice(),
    ) && matches_at(file_name, file_name.len() - 4, ending.as_slice())
}

/// Counts the names in `file_names` that name a page which the converter
/// wrote for `document`.
pub fn count_generated_pages(file_names: &Vec<Vec<u8>>, document: &[u8]) -> (count: usize)
    ensures
        count == converted_pages(file_names@, document@),
        count <= file_names@.len(),
{
    let mut count: usize = 0;
    let mut i: usize = 0;
    while i < file_names.len()
        invariant
            i <= file_names@.len(),
            count <= i,
            count == converted_pages(file_names@.take(i as int), document@),
        decreases file_names@.len() - i,
    {
        proof {
            assert(file_names@.take(i + 1).drop_last() =~= file_names@.take(i as int));
        }
        if is_converted_page_name(file_names[i].as_slice(), document) {
            count += 1;
        }
        i += 1;
    }
    assert(file_names@.take(i as int) =~= file_names@);
    count
}

/// The letter as a small letter, where the byte is a capital letter of the
/// basic alphabet, and the byte itself otherwise.
pub open spec fn small_letter(byte: u8) -> u8 {
    if 65 <= byte <= 90 {
        (byte + 32) as u8
    } else {
        byte
    }
}

/// `extension` is `wanted` but for capital and small letters.
pub open spec fn is_extension(extension: Seq<u8>, wanted: Seq<u8>) -> bool {
    &&& extension.len() == wanted.len()
    &&& forall|i: int|
        0 <= i < extension.len() ==> small_letter(#[trigger] extension[i]) == small_letter(
            wanted[i],
        )
}

/// Says whether the extension of a file is the one wanted, whatever the case
/// of its letters.
pub fn extension_is(extension: &[u8], wanted: &[u8]) -> (same: bool)
    ensures
        same == is_extension(extension@, wanted@),
{
    if extension.len() != wanted.len() {
        return false;
    }
    let mut i: usize = 0;
    while i < extension.len()
        invariant
            extension@.len() == wanted@.len(),
            i <= extension@.len(),
            forall|k: int|
                0 <= k < i ==> small_letter(#[trigger] extension@[k]) == small_letter(wanted@[k]),
        decreases extension@.len() - i,
    {
        if to_small_letter(extension[i]) != to_small_letter(wanted[i]) {
            return false;
        }
        i += 1;
    }
    true
}

/// Makes a capital letter of the basic alphabet small.
fn to_small_letter(byte: u8) -> (small: u8)
    ensures
        small == small_letter(byte),
{
    if 65 <= byte && byte <= 90 {
        byte + 32
    } else {
        byte
    }
}

/// How the extraction of a document ended.
#[derive(Clone, Copy, Debug, PartialEq, Eq, Structural)]
pub enum ExtractionOutcome {
    /// The document had been extracted before and was passed over.
    Skipped,
    /// The document was extracted, to `pages` pages.
    Processed { pages: usize },
    /// The document could not be extracted.
    Failed,
}

/// The counts of an extraction: documents by outcome, and pages in all.
#[derive(Clone, Copy, Debug, PartialEq, Eq, Structural)]
pub struct ProcessingStats {
    pub processed: usize,
    pub skipped: usize,
    pub errors: usize,
    pub total_pages: usize,
}

/// The number of pages that the documents of `outcomes` were extracted to.
pub open spec fn pages_extracted(outcomes: Seq<ExtractionOutcome>) -> nat
    decreases outcomes.len(),
{
    if outcomes.len() == 0 {
        0
    } else {
        pages_extracted(outcomes.drop_last()) + match outcomes.last() {
            ExtractionOutcome::Processed { pages } => pages as nat,
            _ => 0nat,
        }
    }
}

/// The number of documents in `outcomes` that were extracted, for `kind`
/// zero, passed over, for `kind` one, or not extracted, for any other `kind`.
pub open spec fn documents_counted(outcomes: Seq<ExtractionOutcome>, kind: int) -> nat
    decreases outcomes.len(),
{
    if outcomes.len() == 0 {
        0
    } else {
        documents_counted(outcomes.drop_last(), kind) + if outcome_kind(outcomes.last())
            == kind {
            1nat
        } else {
            0nat
        }
    }
}

/// The kind of an outcome: zero for extracted, one for passed over, two for
/// not extracted.
pub open spec fn outcome_kind(outcome: ExtractionOutcome) -> int {
    match outcome {
        ExtractionOutcome::Processed { .. } => 0,
        ExtractionOutcome::Skipped => 1,
        ExtractionOutcome::Failed => 2,
    }
}

impl ProcessingStats {
    /// The counts before any document was looked at.
    pub fn new() -> (stats: ProcessingStats)
        ensures
            stats == (ProcessingStats { processed: 0, skipped: 0, errors: 0, total_pages: 0 }),
    {
        ProcessingStats { processed: 0, skipped: 0, errors: 0, total_pages: 0 }
    }

    /// Counts how the extractions ended and how many pages they brought.
    /// Nothing is returned where the pages are more than the machine's
    /// numbers count.
    pub fn tally(outcomes: &Vec<ExtractionOutcome>) -> (r: Option<ProcessingStats>)
        ensures
            r is Some <==> pages_extracted(outcomes@) <= usize::MAX,
            r matches Some(stats) ==> {
                &&& stats.processed == documents_counted(outcomes@, 0)
                &&& stats.skipped == documents_counted(outcomes@, 1)
                &&& stats.errors == documents_counted(outcomes@, 2)
                &&& stats.total_pages == pages_extracted(outcomes@)
                &&& stats.processed + stats.skipped + stats.errors == outcomes@.len()
            },
    {
        let mut stats = ProcessingStats::new();
        let mut i: usize = 0;
        while i < outcomes.len()
            invariant
                i <= outcomes@.len(),
                stats.processed == documents_counted(outcomes@.take(i as int), 0),
                stats.skipped == documents_counted(outcomes@.take(i as int), 1),
                stats.errors == documents_counted(outcomes@.take(i as int), 2),
                stats.total_pages == pages_extracted(outcomes@.take(i as int)),
                stats.processed + stats.skipped + stats.errors == i,
            decreases outcomes@.len() - i,
        {
            proof {
                assert(outcomes@.take(i + 1).drop_last() =~= outcomes@.take(i as int));
            }
            match outcomes[i] {
                ExtractionOutcome::Skipped => {
                    stats.skipped += 1;
                },
                ExtractionOutcome::Failed => {
                    stats.errors += 1;
                },
                ExtractionOutcome::Processed { pages } => {
                    stats.processed += 1;
                    match stats.total_pages.checked_add(pages) {
                        Some(total) => {
                            stats.total_pages = total;
                        },
                        None => {
                            proof {
                                lemma_pages_grow(outcomes@, i + 1);
                            }
                            return None;
                        },
                    }
                },
            }
            i += 1;
        }
        assert(outcomes@.take(i as int) =~= outcomes@);
        Some(stats)
    }
}

/// The pages of a part of the documents are no more than the pages of all.
proof fn lemma_pages_grow(outcomes: Seq<ExtractionOutcome>, part: int)
    requires
        0 <= part <= outcomes.len(),
    ensures
        pages_extracted(outcomes.take(part)) <= pages_extracted(outcomes),
    decreases outcomes.len() - part,
{
    if part < outcomes.len() {
        assert(outcomes.take(part + 1).drop_last() =~= outcomes.take(part));
        lemma_pages_grow(outcomes, part + 1);
    } else {
        assert(outcomes.take(part) =~= outcomes);
    }
}

} // verus!
