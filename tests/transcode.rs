use source_json::{
    render_record, resolve_all, transcode, validate_header, Column, RawRow, ResolvedRecord,
    TranscodeError, TranscoderState, Transcoder,
};

fn row(page: Option<i32>, scientific_name: &str, common_name_hu: &str) -> RawRow {
    RawRow {
        page,
        scientific_name: scientific_name.to_string(),
        common_name_hu: common_name_hu.to_string(),
    }
}

fn headers(names: &[&str]) -> Vec<String> {
    names.iter().map(|s| s.to_string()).collect()
}

fn standard_headers() -> Vec<String> {
    headers(&["page", "scientific_name", "common_name.hu"])
}

#[test]
fn carry_forward_keeps_first_page() {
    let rows = vec![row(Some(3), "Canis lupus", "farkas"), row(None, "Vulpes vulpes", "róka"), row(None, "Ursus arctos", "medve")];
    let recs = resolve_all(&rows).unwrap();
    assert_eq!(recs.len(), 3);
    for r in &recs {
        assert_eq!(r.page, 3);
    }
}

#[test]
fn carry_forward_takes_new_page() {
    let rows = vec![row(Some(3), "A", ""), row(None, "B", ""), row(Some(7), "C", ""), row(None, "D", "")];
    let pages: Vec<i32> = resolve_all(&rows).unwrap().iter().map(|r| r.page).collect();
    assert_eq!(pages, vec![3, 3, 7, 7]);
}

#[test]
fn missing_page_on_first_row() {
    let rows = vec![row(None, "Canis lupus", "farkas")];
    match resolve_all(&rows) {
        Err(TranscodeError::MissingPage { row }) => assert_eq!(row, 1),
        other => panic!("unexpected: {:?}", other.map(|v| v.len())),
    }
}

#[test]
fn reference_round_trip_scientific_name() {
    let rows = vec![row(Some(1), "&Ursus arctos", ""), row(None, "*", "")];
    let recs = resolve_all(&rows).unwrap();
    assert_eq!(recs[0].scientific_name, "Ursus arctos");
    assert_eq!(recs[1].scientific_name, "Ursus");
}

#[test]
fn reference_round_trip_common_name() {
    let rows = vec![row(Some(1), "Vulpes vulpes", "vörös &róka"), row(None, "Vulpes zerda", "sivatagi *")];
    let recs = resolve_all(&rows).unwrap();
    assert_eq!(recs[0].common_names_hu, vec!["vörös róka".to_string()]);
    assert_eq!(recs[1].common_names_hu, vec!["sivatagi róka".to_string()]);
}

#[test]
fn unused_reference_is_rejected() {
    let rows = vec![row(Some(1), "&Canis lupus", ""), row(None, "&Vulpes vulpes", "")];
    match resolve_all(&rows) {
        Err(TranscodeError::UnusedReference { row, column, value }) => {
            assert_eq!(row, 2);
            assert_eq!(column, Column::ScientificName);
            assert_eq!(value, "Canis");
        }
        other => panic!("unexpected: {:?}", other.map(|v| v.len())),
    }
}

#[test]
fn consumed_reference_may_be_replaced() {
    let rows = vec![row(Some(1), "&Canis lupus", ""), row(None, "* aureus", ""), row(None, "&Vulpes vulpes", ""), row(None, "* zerda", "")];
    let names: Vec<String> = resolve_all(&rows).unwrap().into_iter().map(|r| r.scientific_name).collect();
    assert_eq!(names, vec!["Canis lupus", "Canis aureus", "Vulpes vulpes", "Vulpes zerda"]);
}

#[test]
fn dangling_pointer_on_first_row() {
    let rows = vec![row(Some(1), "* lupus", "farkas")];
    match resolve_all(&rows) {
        Err(TranscodeError::DanglingPointer { row, column, text }) => {
            assert_eq!(row, 1);
            assert_eq!(column, Column::ScientificName);
            assert_eq!(text, "* lupus");
        }
        other => panic!("unexpected: {:?}", other.map(|v| v.len())),
    }
}

#[test]
fn dangling_pointer_in_common_name() {
    let rows = vec![row(Some(1), "Canis lupus", "*")];
    match resolve_all(&rows) {
        Err(TranscodeError::DanglingPointer { row, column, .. }) => {
            assert_eq!(row, 1);
            assert_eq!(column, Column::CommonName);
        }
        other => panic!("unexpected: {:?}", other.map(|v| v.len())),
    }
}

#[test]
fn mark_inside_a_word_establishes_nothing() {
    let rows = vec![row(Some(1), "Can&is", ""), row(None, "*", "")];
    match resolve_all(&rows) {
        Err(TranscodeError::DanglingPointer { row, .. }) => assert_eq!(row, 2),
        other => panic!("unexpected: {:?}", other.map(|v| v.len())),
    }
    let recs = resolve_all(&vec![row(Some(1), "Can&is", "")]).unwrap();
    assert_eq!(recs[0].scientific_name, "Canis");
}

#[test]
fn reference_holding_a_pointer_is_rejected() {
    let rows = vec![row(Some(1), "&Can*is lupus", "")];
    match resolve_all(&rows) {
        Err(TranscodeError::RecursiveReference { row, column, value }) => {
            assert_eq!(row, 1);
            assert_eq!(column, Column::ScientificName);
            assert_eq!(value, "Can*is");
        }
        other => panic!("unexpected: {:?}", other.map(|v| v.len())),
    }
}

#[test]
fn every_pointer_is_replaced() {
    let rows = vec![row(Some(1), "&Canis", "&farkas"), row(None, "* *", "*ok; kis*")];
    let recs = resolve_all(&rows).unwrap();
    assert_eq!(recs[1].scientific_name, "Canis Canis");
    assert_eq!(recs[1].common_names_hu, vec!["farkasok".to_string(), "kisfarkas".to_string()]);
}

#[test]
fn list_decomposition() {
    let recs = resolve_all(&vec![row(Some(1), "Vulpes vulpes", "fox; foxes")]).unwrap();
    assert_eq!(recs[0].common_names_hu, vec!["fox".to_string(), "foxes".to_string()]);
    let recs = resolve_all(&vec![row(Some(1), "Vulpes vulpes", "")]).unwrap();
    assert!(recs[0].common_names_hu.is_empty());
}

#[test]
fn list_items_are_trimmed_and_empty_ones_dropped() {
    let recs = resolve_all(&vec![row(Some(1), "X", "\u{3000}fox\u{a0};  ; foxes ;")]).unwrap();
    assert_eq!(recs[0].common_names_hu, vec!["fox".to_string(), "foxes".to_string()]);
}

#[test]
fn synonym_split() {
    let recs = resolve_all(&vec![row(Some(1), "Canis niger = Canis lupus", "")]).unwrap();
    assert_eq!(recs[0].synonym, Some("Canis niger".to_string()));
    assert_eq!(recs[0].scientific_name, "Canis lupus");
}

#[test]
fn synonym_split_at_first_separator() {
    let recs = resolve_all(&vec![row(Some(1), " A = B = C ", "")]).unwrap();
    assert_eq!(recs[0].synonym, Some("A".to_string()));
    assert_eq!(recs[0].scientific_name, "B = C");
}

#[test]
fn name_without_separator_is_kept_as_written() {
    let recs = resolve_all(&vec![row(Some(1), " Canis lupus ", "")]).unwrap();
    assert_eq!(recs[0].synonym, None);
    assert_eq!(recs[0].scientific_name, " Canis lupus ");
}

#[test]
fn end_to_end_scenario() {
    let rows = vec![row(Some(1), "&Canis lupus", "wolf"), row(None, "*", "wolves")];
    let out = transcode(&standard_headers(), &rows).unwrap();
    assert_eq!(
        out,
        "[{\"page\":1,\"scientific_name\":\"Canis lupus\",\"common_names\":{\"hu\":[\"wolf\"]}}\n\
         ,{\"page\":1,\"scientific_name\":\"Canis\",\"common_names\":{\"hu\":[\"wolves\"]}}\n]\n"
    );
}

#[test]
fn end_to_end_with_synonym_and_list() {
    let rows = vec![row(Some(12), "Canis niger = Canis lupus", "farkas; ordas")];
    let out = transcode(&standard_headers(), &rows).unwrap();
    assert_eq!(
        out,
        "[{\"page\":12,\"scientific_name\":\"Canis lupus\",\"synonym\":\"Canis niger\",\"common_names\":{\"hu\":[\"farkas\",\"ordas\"]}}\n]\n"
    );
}

#[test]
fn empty_input() {
    let out = transcode(&standard_headers(), &Vec::new()).unwrap();
    assert_eq!(out, "[\n]\n");
}

#[test]
fn header_without_page_column() {
    match transcode(&headers(&["scientific_name", "common_name.hu"]), &Vec::new()) {
        Err(TranscodeError::Schema { page_columns }) => assert_eq!(page_columns, 0),
        other => panic!("unexpected: {:?}", other),
    }
}

#[test]
fn header_with_two_page_columns() {
    match validate_header(&headers(&["page", "scientific_name", "page^^"])) {
        Err(TranscodeError::Schema { page_columns }) => assert_eq!(page_columns, 2),
        other => panic!("unexpected: {:?}", other),
    }
}

#[test]
fn header_page_suffix_is_ignored() {
    assert!(validate_header(&headers(&["page^", "scientific_name", "common_name.hu"])).is_ok());
    assert!(validate_header(&headers(&["pages", "^page"])).is_err());
}

#[test]
fn strings_are_escaped_as_json() {
    let rec = ResolvedRecord {
        page: -40,
        scientific_name: "a\"b\\c\nd\u{1}é".to_string(),
        synonym: Some("\t".to_string()),
        common_names_hu: vec![],
    };
    let out = render_record(&rec);
    assert_eq!(
        out,
        "{\"page\":-40,\"scientific_name\":\"a\\\"b\\\\c\\nd\\u0001é\",\"synonym\":\"\\t\",\"common_names\":{\"hu\":[]}}"
    );
}

#[test]
fn extreme_pages_in_decimal() {
    let rec = ResolvedRecord { page: i32::MIN, scientific_name: String::new(), synonym: None, common_names_hu: vec!["x".to_string()] };
    assert!(render_record(&rec).starts_with("{\"page\":-2147483648,"));
    let rec = ResolvedRecord { page: i32::MAX, scientific_name: String::new(), synonym: None, common_names_hu: vec![] };
    assert!(render_record(&rec).starts_with("{\"page\":2147483647,"));
}

#[test]
fn streaming_lines_and_fault_keep_state() {
    let mut t = Transcoder::new(&standard_headers()).unwrap();
    assert_eq!(t.start(), "[");
    assert_eq!(t.feed(&row(Some(2), "&Canis lupus", "farkas")).unwrap(), "{\"page\":2,\"scientific_name\":\"Canis lupus\",\"common_names\":{\"hu\":[\"farkas\"]}}\n");
    assert!(t.feed(&row(None, "&Vulpes", "")).is_err());
    assert_eq!(t.rows, 1);
    assert_eq!(t.feed(&row(None, "*", "")).unwrap(), ",{\"page\":2,\"scientific_name\":\"Canis\",\"common_names\":{\"hu\":[]}}\n");
    assert_eq!(t.finish(), "]\n");
}

#[test]
fn state_is_threaded_by_value() {
    let st = TranscoderState::new();
    let (next, rec) = st.resolve(&row(Some(5), "&Canis lupus", ""), 1).unwrap();
    assert_eq!(rec.page, 5);
    assert!(st.current_page.is_none());
    assert_eq!(next.current_page, Some(5));
    assert_eq!(next.scientific_name.value, Some("Canis".to_string()));
    assert!(!next.scientific_name.consumed);
}

#[test]
fn unused_reference_across_rows_without_pointers() {
    let rows = vec![
        row(Some(1), "&Canis lupus", ""),
        row(None, "Vulpes vulpes", ""),
        row(None, "&Ursus arctos", ""),
        row(None, "*", ""),
    ];
    match transcode(&standard_headers(), &rows) {
        Err(TranscodeError::UnusedReference { row, column, value }) => {
            assert_eq!(row, 3);
            assert_eq!(column, Column::ScientificName);
            assert_eq!(value, "Canis");
        }
        other => panic!("unexpected: {:?}", other),
    }
}

#[test]
fn run_reports_missing_page() {
    match transcode(&standard_headers(), &vec![row(None, "Canis lupus", "farkas")]) {
        Err(TranscodeError::MissingPage { row }) => assert_eq!(row, 1),
        other => panic!("unexpected: {:?}", other),
    }
}

#[test]
fn common_name_round_trip_in_run() {
    let rows = vec![row(Some(4), "Canis lupus", "szürke &farkas"), row(None, "Canis aureus", "*")];
    let out = transcode(&standard_headers(), &rows).unwrap();
    assert_eq!(
        out,
        "[{\"page\":4,\"scientific_name\":\"Canis lupus\",\"common_names\":{\"hu\":[\"szürke farkas\"]}}\n\
         ,{\"page\":4,\"scientific_name\":\"Canis aureus\",\"common_names\":{\"hu\":[\"farkas\"]}}\n]\n"
    );
}
