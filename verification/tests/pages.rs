use slideshow::pages::{
    converted_page_file_name, count_generated_pages, extension_is, is_converted_page_name,
    matches_at, output_prefix, page_file_name, page_renames, ExtractionOutcome, ProcessingStats,
};

#[test]
fn pages_are_named_with_three_digits() {
    assert_eq!(page_file_name("report", 1), "report_page001.png");
    assert_eq!(page_file_name("report", 42), "report_page042.png");
    assert_eq!(page_file_name("report", 999), "report_page999.png");
    assert_eq!(page_file_name("report", 1000), "report_page1000.png");
    assert_eq!(page_file_name("", 0), "_page000.png");
    assert_eq!(page_file_name("año 2013", 7), "año 2013_page007.png");
}

#[test]
fn converted_pages_are_named_without_padding() {
    assert_eq!(converted_page_file_name("report", 1), "report_page-1.png");
    assert_eq!(converted_page_file_name("report", 10), "report_page-10.png");
    assert_eq!(converted_page_file_name("report", 0), "report_page-0.png");
    assert_eq!(
        converted_page_file_name("a", usize::MAX),
        format!("a_page-{}.png", usize::MAX)
    );
    assert_eq!(output_prefix("report"), "report_page");
}

#[test]
fn renames_run_from_the_first_page_to_the_last() {
    let renames = page_renames("doc", 3);
    let pairs: Vec<(&str, &str)> =
        renames.iter().map(|rename| (rename.from.as_str(), rename.to.as_str())).collect();
    assert_eq!(
        pairs,
        vec![
            ("doc_page-1.png", "doc_page001.png"),
            ("doc_page-2.png", "doc_page002.png"),
            ("doc_page-3.png", "doc_page003.png"),
        ]
    );
    assert!(page_renames("doc", 0).is_empty());
}

#[test]
fn patterns_are_found_where_they_stand() {
    assert!(matches_at(b"hello", 0, b"he"));
    assert!(matches_at(b"hello", 3, b"lo"));
    assert!(matches_at(b"hello", 5, b""));
    assert!(matches_at(b"", 0, b""));
    assert!(!matches_at(b"hello", 4, b"lo"));
    assert!(!matches_at(b"hello", 6, b""));
    assert!(!matches_at(b"hello", 1, b"he"));
    assert!(!matches_at(b"hello", usize::MAX, b"h"));
    assert!(!matches_at(b"he", 0, b"hello"));
}

#[test]
fn converted_pages_are_told_from_other_files() {
    assert!(is_converted_page_name(b"report_page-1.png", b"report"));
    assert!(is_converted_page_name(b"report_page-023.png", b"report"));
    assert!(is_converted_page_name(b"report_page-.png", b"report"));
    assert!(!is_converted_page_name(b"report_page001.png", b"report"));
    assert!(!is_converted_page_name(b"report_page-1.jpg", b"report"));
    assert!(!is_converted_page_name(b"other_page-1.png", b"report"));
    assert!(!is_converted_page_name(b"report_page-1.png", b"repor"));
    assert!(!is_converted_page_name(b"report_page-1.PNG", b"report"));
    assert!(!is_converted_page_name(b"", b""));
    assert!(!is_converted_page_name(b"png", b""));
    assert!(is_converted_page_name(b"_page-.png", b""));
    assert!(!is_converted_page_name(b"_page-", b""));
}

#[test]
fn converted_pages_are_counted() {
    let names: Vec<Vec<u8>> = [
        "report_page-1.png",
        "report_page-2.png",
        "report_page001.png",
        "report2_page-1.png",
        "report_page-3.png",
        "notes.txt",
    ]
    .iter()
    .map(|name| name.as_bytes().to_vec())
    .collect();
    assert_eq!(count_generated_pages(&names, b"report"), 3);
    assert_eq!(count_generated_pages(&names, b"report2"), 1);
    assert_eq!(count_generated_pages(&names, b"notes"), 0);
    assert_eq!(count_generated_pages(&vec![], b"report"), 0);
}

#[test]
fn extensions_are_compared_whatever_the_case() {
    assert!(extension_is(b"png", b"png"));
    assert!(extension_is(b"PNG", b"png"));
    assert!(extension_is(b"Png", b"png"));
    assert!(extension_is(b"pdf", b"PDF"));
    assert!(extension_is(b"", b""));
    assert!(!extension_is(b"pn", b"png"));
    assert!(!extension_is(b"pngx", b"png"));
    assert!(!extension_is(b"jpg", b"png"));
    assert!(!extension_is(b"p{g", b"p[g"));
    assert!(!extension_is(b"@ng", b"`ng"));
}

#[test]
fn extractions_are_summed_up() {
    assert_eq!(
        ProcessingStats::new(),
        ProcessingStats { processed: 0, skipped: 0, errors: 0, total_pages: 0 }
    );
    let outcomes = vec![
        ExtractionOutcome::Processed { pages: 12 },
        ExtractionOutcome::Skipped,
        ExtractionOutcome::Failed,
        ExtractionOutcome::Processed { pages: 0 },
        ExtractionOutcome::Processed { pages: 3 },
        ExtractionOutcome::Skipped,
    ];
    assert_eq!(
        ProcessingStats::tally(&outcomes),
        Some(ProcessingStats { processed: 3, skipped: 2, errors: 1, total_pages: 15 })
    );
    assert_eq!(ProcessingStats::tally(&vec![]), Some(ProcessingStats::new()));
}

#[test]
fn pages_beyond_count_are_not_made_up() {
    let outcomes = vec![
        ExtractionOutcome::Processed { pages: usize::MAX },
        ExtractionOutcome::Skipped,
        ExtractionOutcome::Processed { pages: 1 },
    ];
    assert_eq!(ProcessingStats::tally(&outcomes), None);
    let outcomes = vec![
        ExtractionOutcome::Processed { pages: usize::MAX - 1 },
        ExtractionOutcome::Processed { pages: 1 },
    ];
    assert_eq!(ProcessingStats::tally(&outcomes).unwrap().total_pages, usize::MAX);
}
