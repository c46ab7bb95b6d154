use source_json::dumps::{dump_stamp, dumps_from_links, job_is_done, latest_dump, mirror_dumps, DumpEntry};

fn entry(stamp: u32, url: &str) -> DumpEntry {
    DumpEntry { stamp, url: url.to_string() }
}

#[test]
fn dump_links_are_recognised() {
    assert_eq!(dump_stamp("20230101/"), Some(20230101));
    assert_eq!(dump_stamp("20230101"), Some(20230101));
    assert_eq!(dump_stamp("20240229/"), Some(20240229));
    assert_eq!(dump_stamp("20230229/"), None);
    assert_eq!(dump_stamp("20231301/"), None);
    assert_eq!(dump_stamp("20230100/"), None);
    assert_eq!(dump_stamp("2023010/"), None);
    assert_eq!(dump_stamp("20230101//"), None);
    assert_eq!(dump_stamp("2023o101/"), None);
    assert_eq!(dump_stamp("../"), None);
    assert_eq!(dump_stamp("latest/"), None);
}

#[test]
fn mirror_index_page_is_read() {
    let html = "<html><body><table>\
        <tr><td><a href=\"../\">Parent</a></td></tr>\
        <tr><td><a href=\"20230101/\">20230101</a></td></tr>\
        <tr><td><a>no link</a></td></tr>\
        <tr><td><a href=\"20230230/\">bad day</a></td></tr>\
        <tr><td><a href=\"20230201/\">20230201</a></td></tr>\
        </table><a href=\"20990101/\">outside the table</a></body></html>";
    let m = "https://mirror.example/specieswiki/";
    let dumps = mirror_dumps(m, html);
    let got: Vec<(u32, String)> = dumps.into_iter().map(|e| (e.stamp, e.url)).collect();
    assert_eq!(
        got,
        vec![
            (20230101, format!("{}20230101/dumpstatus.json", m)),
            (20230201, format!("{}20230201/dumpstatus.json", m)),
        ]
    );
}

#[test]
fn links_without_target_are_skipped() {
    let links = vec![None, Some("20230101/".to_string()), Some("x".to_string())];
    let got = dumps_from_links("m/", &links);
    assert_eq!(got.len(), 1);
    assert_eq!(got[0].stamp, 20230101);
    assert_eq!(got[0].url, "m/20230101/dumpstatus.json");
}

#[test]
fn newest_date_and_its_mirrors() {
    let listings = vec![
        vec![entry(20230101, "a1"), entry(20230201, "a2")],
        vec![],
        vec![entry(20230201, "c2"), entry(20230115, "c1")],
        vec![entry(20230101, "d1")],
    ];
    let (stamp, urls) = latest_dump(&listings).unwrap();
    assert_eq!(stamp, 20230201);
    assert_eq!(urls, vec!["a2".to_string(), "c2".to_string()]);
}

#[test]
fn repeated_date_keeps_last_url() {
    let listings = vec![vec![entry(20230201, "first"), entry(20230201, "second")]];
    let (stamp, urls) = latest_dump(&listings).unwrap();
    assert_eq!(stamp, 20230201);
    assert_eq!(urls, vec!["second".to_string()]);
}

#[test]
fn no_dumps_no_choice() {
    assert!(latest_dump(&vec![]).is_none());
    assert!(latest_dump(&vec![vec![], vec![]]).is_none());
}

#[test]
fn finished_job_status() {
    assert!(job_is_done("done"));
    assert!(!job_is_done("in-progress"));
    assert!(!job_is_done("Done"));
}

#[test]
fn non_ascii_digits_name_no_dump() {
    let links = vec![Some("٢٠٢٣٠١٠١/".to_string()), Some("20230101/x".to_string())];
    assert!(dumps_from_links("m/", &links).is_empty());
}
