use belt::benchmark::uprof::{parse_report_rows, AmdUprofTable};
use belt::common::output::report::{
    cache_table_indexes, header_index, markdown_cell, markdown_text, metadata_or_empty,
    render_markdown_table, render_report_metadata,
};

fn strings(v: &[&str]) -> Vec<String> {
    v.iter().map(|s| s.to_string()).collect()
}

#[test]
fn markdown_escaping() {
    assert_eq!(markdown_text("a\nb\rc|d"), "a b c|d");
    assert_eq!(markdown_cell("a\nb|c"), "a b\\|c");
}

#[test]
fn tables_are_padded_to_their_headers() {
    let mut md = String::from(">");
    render_markdown_table(&mut md, &strings(&["A", "B|C"]), &vec![strings(&["1"]), strings(&["2", "3", "4"])]);
    assert_eq!(md, ">| A | B\\|C |\n|------|------|\n| 1 |  |\n| 2 | 3 |\n\n");
    let mut empty = String::new();
    render_markdown_table(&mut empty, &Vec::new(), &vec![strings(&["x"])]);
    assert_eq!(empty, "");
}

#[test]
fn header_positions() {
    let table = AmdUprofTable {
        title: "t".into(),
        headers: strings(&[
            "L1_DC_ACCESSES_ALL.USER",
            "L1_DEMAND_DC_REFILLS_LOCAL_L2.USER",
            "L1_DEMAND_DC_REFILLS_LOCAL_CACHE.USER",
            "L1_DEMAND_DC_REFILLS_EXTERNAL_CACHE_LOCAL.USER",
            "L1_DEMAND_DC_REFILLS_LOCAL_DRAM.USER",
            "L1_DC_ACCESSES_ALL.USER",
        ]),
        rows: Vec::new(),
        truncated: false,
    };
    assert_eq!(header_index(&table, "L1_DC_ACCESSES_ALL.USER"), Some(0));
    assert_eq!(header_index(&table, "nope"), None);
    let idx = cache_table_indexes(&table).expect("all five");
    assert_eq!((idx.accesses, idx.local_l2, idx.local_dram), (0, 1, 4));
    let partial = AmdUprofTable { title: "t".into(), headers: strings(&["L1_DC_ACCESSES_ALL.USER"]), rows: Vec::new(), truncated: false };
    assert!(cache_table_indexes(&partial).is_none());
}

#[test]
fn promoted_metadata_table() {
    let parsed = parse_report_rows(&vec![strings(&["Thread Count", "24"]), strings(&["Profile Session Type:", "Hot|spots"])]);
    let mut md = String::new();
    render_report_metadata(&mut md, &parsed);
    assert_eq!(md, "| Field | Value |\n|-------|-------|\n| Profile Session Type | Hot\\|spots |\n| Thread Count | 24 |\n\n");
    assert_eq!(metadata_or_empty(Some(&parsed), "thread count"), "24");
    assert_eq!(metadata_or_empty(None, "thread count"), "");
    let bare = parse_report_rows(&vec![strings(&["Other", "x"])]);
    let mut none = String::new();
    render_report_metadata(&mut none, &bare);
    assert_eq!(none, "");
}
