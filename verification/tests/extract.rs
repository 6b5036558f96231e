use qq_group_name_extract::table::Table;

#[test]
fn headers_and_rows_with_header_row() {
    let html = "<table><tr><th>Name</th><th>Age</th></tr><tr><td>John</td><td>20</td></tr></table>";
    let table = Table::find_first(html).unwrap();
    let headers = table.headers();
    assert_eq!(headers.len(), 2);
    assert!(headers.contains(&("Name".to_string(), 0)));
    assert!(headers.contains(&("Age".to_string(), 1)));
    let mut it = table.iter();
    let row = it.next().unwrap();
    assert_eq!(row.len(), 2);
    assert!(!row.is_empty());
    assert_eq!(row.as_slice()[0], "John");
    assert_eq!(row.as_slice()[1], "20");
    assert!(it.next().is_none());
}

#[test]
fn no_header_row_yields_every_row() {
    let html = "<table><tr><td>a</td><td>b</td></tr><tr><td>c</td></tr></table>";
    let table = Table::find_first(html).unwrap();
    assert!(table.headers().is_empty());
    let mut it = table.iter();
    let r1 = it.next().unwrap();
    assert_eq!(r1.as_slice(), ["a".to_string(), "b".to_string()]);
    let r2 = it.next().unwrap();
    assert_eq!(r2.as_slice(), ["c".to_string()]);
    assert!(it.next().is_none());
}

#[test]
fn round_trip_name_age() {
    let html = "<table><tr><th>Name</th><th>Age</th></tr><tr><td>John</td><td>20</td></tr></table>";
    let table = Table::find_first(html).unwrap();
    let mut it = table.iter();
    let row = it.next().unwrap();
    assert_eq!(row.get("Name"), Some("John"));
    assert_eq!(row.get("Age"), Some("20"));
}

#[test]
fn find_first_none_without_table() {
    assert!(Table::find_first("<p>no tables here</p>").is_none());
}

#[test]
fn find_by_headers_empty_is_find_first() {
    let html = "<p>x</p><table><tr><td>1</td></tr></table><table><tr><td>2</td></tr></table>";
    assert_eq!(Table::find_by_headers(html, &vec![]), Table::find_first(html));
    let none_html = "<p>no tables here</p>";
    assert_eq!(Table::find_by_headers(none_html, &vec![]), None);
    assert_eq!(Table::find_first(none_html), None);
}

#[test]
fn find_by_headers_order_insensitive() {
    let html = "<table><tr><th>Age</th><th>Name</th></tr><tr><td>20</td><td>John</td></tr></table>";
    let query = vec!["Name".to_string(), "Age".to_string()];
    let table = Table::find_by_headers(html, &query).unwrap();
    let row = table.iter().next().unwrap();
    assert_eq!(row.get("Name"), Some("John"));
    assert_eq!(row.get("Age"), Some("20"));
}

#[test]
fn find_by_headers_skips_tables_without_them() {
    let html = "<table><tr><th>Other</th></tr></table>\
                <table><tr><th>Name</th><th>Age</th></tr><tr><td>John</td><td>20</td></tr></table>";
    let query = vec!["Age".to_string()];
    let table = Table::find_by_headers(html, &query).unwrap();
    assert_eq!(table.iter().next().unwrap().get("Name"), Some("John"));
    let missing = vec!["Absent".to_string()];
    assert!(Table::find_by_headers(html, &missing).is_none());
}

#[test]
fn find_by_id_matches_literal_id() {
    let html = "<table id=\"a\"><tr><td>1</td></tr></table>\
                <table id=\"b\"><tr><td>2</td></tr></table>";
    let table = Table::find_by_id(html, "b").unwrap();
    assert_eq!(table.iter().next().unwrap().as_slice()[0], "2");
    assert!(Table::find_by_id(html, "c").is_none());
}

#[test]
fn find_by_id_rejects_invalid_selector() {
    // A table with an empty id exists, but `table#` is not a valid selector,
    // so the lookup must answer absence rather than match it literally.
    let html = "<table id=\"\"><tr><td>1</td></tr></table>";
    assert!(Table::find_by_id(html, "").is_none());
}

#[test]
fn duplicate_header_overwrites_earlier_position() {
    let html = "<table><tr><th>X</th><th>X</th></tr><tr><td>a</td><td>b</td></tr></table>";
    let table = Table::find_first(html).unwrap();
    assert_eq!(table.headers().len(), 1);
    assert_eq!(table.headers()[0], ("X".to_string(), 1));
    let row = table.iter().next().unwrap();
    assert_eq!(row.get("X"), Some("b"));
}

#[test]
fn short_row_returns_none_for_far_header() {
    let html = "<table><tr><th>A</th><th>B</th></tr><tr><td>only</td></tr></table>";
    let table = Table::find_first(html).unwrap();
    let row = table.iter().next().unwrap();
    assert_eq!(row.get("A"), Some("only"));
    assert_eq!(row.get("B"), None);
    assert_eq!(row.get("C"), None);
}

#[test]
fn row_without_td_is_empty() {
    let html = "<table><tr><th>A</th></tr><tr><th>stray</th></tr><tr><td>x</td></tr></table>";
    let table = Table::find_first(html).unwrap();
    let mut it = table.iter();
    let empty = it.next().unwrap();
    assert!(empty.is_empty());
    assert_eq!(empty.len(), 0);
    let data = it.next().unwrap();
    assert_eq!(data.iter(), &vec!["x".to_string()]);
    assert!(it.next().is_none());
}

#[test]
fn cell_content_keeps_inner_markup_and_trims() {
    let html = "<table><tr><td>  <span> Alice </span>  </td></tr></table>";
    let table = Table::find_first(html).unwrap();
    let row = table.iter().next().unwrap();
    assert_eq!(row.as_slice()[0], "<span> Alice </span>");
}
