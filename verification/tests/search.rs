//! Searching.

use rexedit::app::App;
use rexedit::codec::hex_string;
use rexedit::effects::Effect;
use rexedit::input::{KeyCode, KeyEvent, KeyModifiers};
use rexedit::model::SearchMatch;
use rexedit::search::{minimal_be_bytes, parse_hex, search, spawn, SearchMessage};

#[test]
fn searches_compact_and_spaced_hex() {
    let bytes = b"\xDE\xAD\xBE\xEF\xDE\xAD";
    assert_eq!(search(bytes, "DEAD").unwrap().len(), 2);
    assert_eq!(search(bytes, "DE AD BE EF").unwrap()[0].end, 3);
}

#[test]
fn supports_hex_wildcards() {
    assert_eq!(
        search(b"\xDE\x00\xBE\xDE\x11\xBE", "DE ?? BE").unwrap().len(),
        2
    );
}

#[test]
fn supports_decimal_binary_and_regex() {
    let bytes = b"\x01\x00AB\xFF";
    assert_eq!(search(bytes, "dec:256").unwrap()[0].start, 0);
    assert_eq!(search(bytes, "bin:01000001 01000010").unwrap()[0].start, 2);
    assert_eq!(search(bytes, r"re:A.").unwrap()[0].end, 3);
}

#[test]
fn streams_search_results_in_the_background() {
    let bytes = b"ABxxAB".to_vec();
    let mut scan = spawn(&bytes, "41 42").unwrap();
    let mut found = Vec::new();
    let mut done = false;
    while !done {
        for message in scan.advance(&bytes) {
            match message {
                SearchMessage::Batch(batch) => found.extend(batch),
                SearchMessage::Done => done = true,
                SearchMessage::Progress(_) => {}
                SearchMessage::Error(error) => panic!("{error}"),
            }
        }
    }
    assert_eq!(found.len(), 2);
}

#[test]
fn documented_formats_are_understood() {
    let bytes = b"..\xDE\xAD\xBE\xEF..\xFF\xFF..MZA\x00";
    for (query, start, end) in [
        ("DE AD BE EF", 2, 5),
        ("0xDEADBEEF", 2, 5),
        ("hex: DE AD ?? EF", 2, 5),
        ("dec: 65535", 8, 9),
        ("bin: 01001101 01011010", 12, 13),
        (r"re:\x4D\x5A.", 12, 14),
    ] {
        let hits = search(bytes, query).unwrap();
        assert_eq!(hits, [SearchMatch { start, end }], "{query}");
    }
}

#[test]
fn regular_expressions_match_bytes() {
    assert_eq!(
        search(b"\xFFa\xFFb", r"re:(?-u)\xFF.").unwrap(),
        [SearchMatch { start: 0, end: 1 }, SearchMatch { start: 2, end: 3 }]
    );
    assert!(search(b"abc", "re:x*").unwrap().is_empty());
    assert!(search(b"abc", "re:(").is_err());
}

#[test]
fn queries_that_make_no_sense_are_refused() {
    for query in ["", "   ", "hex:", "XYZ", "ABC", "dec:", "dec:12x", "bin:0101", "bin:2", "re:["] {
        assert!(search(b"abc", query).is_err(), "{query}");
    }
}

#[test]
fn numbers_become_their_shortest_bytes() {
    assert_eq!(minimal_be_bytes(0), [0]);
    assert_eq!(minimal_be_bytes(255), [255]);
    assert_eq!(minimal_be_bytes(256), [1, 0]);
    assert_eq!(minimal_be_bytes(u128::MAX), [255; 16]);
    assert_eq!(parse_hex("0x00 ff").unwrap(), [Some(0), Some(255)]);
    assert_eq!(parse_hex("??FF").unwrap(), [None, Some(255)]);
}

#[test]
fn overlapping_matches_are_all_found() {
    let hits = search(b"aaaa", "61 61").unwrap();
    assert_eq!(
        hits,
        [
            SearchMatch { start: 0, end: 1 },
            SearchMatch { start: 1, end: 2 },
            SearchMatch { start: 2, end: 3 },
        ]
    );
}

#[test]
fn a_search_runs_and_reports() {
    let mut app = App::new("sample.bin".into(), b"ABxxABxxAB".to_vec());
    app.start_search("41 42".into());
    assert!(matches!(&app.take_effects()[..], [Effect::StartSearch(query)] if query == "41 42"));
    assert!(app.search.running);
    app.next_search_result();
    assert_eq!(app.status, "Search is still running; no matches found yet");
    let bytes = app.bytes.as_slice().to_vec();
    let mut scan = spawn(&bytes, "41 42").unwrap();
    let mut messages = Vec::new();
    while !scan.finished {
        messages.extend(scan.advance(&bytes));
    }
    app.drain_search_messages(messages);
    assert!(!app.search.running);
    assert_eq!(app.status, "Search complete: 3 matches; n/N or Ctrl+Down/Up navigates");
    let next = KeyEvent::new(KeyCode::Char('n'), KeyModifiers::none());
    let previous = KeyEvent::new(KeyCode::Char('N'), KeyModifiers::shifted());
    app.handle_key(next);
    assert_eq!(app.status, "Match 1/3 at 0x0");
    app.handle_key(next);
    assert_eq!(app.status, "Match 2/3 at 0x4");
    app.handle_key(previous);
    assert_eq!(app.active_search_match(), Some(&SearchMatch { start: 0, end: 1 }));
    app.handle_key(previous);
    assert_eq!(app.status, "Match 3/3 at 0x8");
}

#[test]
fn reports_of_a_stopped_search_do_not_count() {
    let mut app = App::new("sample.bin".into(), b"AB".to_vec());
    app.start_search("41".into());
    app.cancel_search();
    assert!(matches!(
        &app.take_effects()[..],
        [Effect::StartSearch(_), Effect::CancelSearch]
    ));
    app.receive_search(SearchMessage::Batch(vec![SearchMatch { start: 0, end: 0 }]));
    assert!(app.search.results.is_empty());
    app.start_search("nonsense".into());
    assert!(!app.search.running);
    assert!(app.take_effects().is_empty());
    app.start_search("41".into());
    app.receive_search(SearchMessage::Error("lost".into()));
    assert_eq!(app.status, "Search failed: lost");
    app.start_search("43".into());
    app.receive_search(SearchMessage::Done);
    assert_eq!(app.status, "Search complete: no matches");
}

#[test]
fn written_digits_are_read_as_their_bytes() {
    let bytes = [0x00u8, 0xDE, 0xad, 0x0F, 0xFF];
    let wanted = bytes.iter().copied().map(Some).collect::<Vec<_>>();
    let compact = hex_string(&bytes);
    assert_eq!(parse_hex(&compact), Ok(wanted.clone()));
    assert_eq!(parse_hex(&compact.to_lowercase()), Ok(wanted.clone()));
    assert_eq!(parse_hex("00 DE,ad_0F-ff"), Ok(wanted));
    assert_eq!(parse_hex("5a"), Ok(vec![Some(0x5A)]));
}
