use qq_group_name_extract::qqtable::csv_records;
use qq_group_name_extract::qqtable::ExtractError;
use qq_group_name_extract::qqtable::Gender;
use qq_group_name_extract::qqtable::Member;

fn fixture(rows: &str) -> String {
    format!("<table id=\"groupMember\">{}</table>", rows)
}

fn member_row(name_cell: &str, group_cell: &str, qq: &str, gender: &str) -> String {
    format!(
        "<tr><td></td><td>1</td><td>{}</td><td>{}</td><td>{}</td><td>{}</td>\
         <td>11年</td><td>2018/02/26</td><td>2021/11/01</td></tr>",
        name_cell, group_cell, qq, gender
    )
}

#[test]
fn display_name_unwraps_span_and_trims() {
    let html = fixture(&member_row("<span> Alice </span>", "<span>nick</span>", "12345", "男"));
    let members = Member::from_html(&html).unwrap();
    assert_eq!(members.len(), 1);
    assert_eq!(members[0].qq_name, "Alice");
}

#[test]
fn group_nickname_unwraps_double_nested_span() {
    let html = fixture(&member_row(
        "<span>A</span>",
        "<span><span> X </span></span>",
        "1",
        "女",
    ));
    let members = Member::from_html(&html).unwrap();
    assert_eq!(members[0].group_name, "X");
}

#[test]
fn group_nickname_single_span_stays() {
    let html = fixture(&member_row("<span>A</span>", "<span> plain </span>", "1", "男"));
    let members = Member::from_html(&html).unwrap();
    assert_eq!(members[0].group_name, "plain");
}

#[test]
fn member_fields_are_verbatim() {
    let html = fixture(&member_row("<span>A</span>", "<span>n</span>", "12345", "男"));
    let members = Member::from_html(&html).unwrap();
    let m = &members[0];
    assert_eq!(m.qq_number, "12345");
    assert_eq!(m.gender, Gender::Male);
    assert_eq!(m.qq_age, "11年");
    assert_eq!(m.joined_date, "2018/02/26");
    assert_eq!(m.last_spoken_date, "2021/11/01");
}

#[test]
fn gender_tokens_map_to_variants() {
    assert_eq!(Gender::from_text("男"), Some(Gender::Male));
    assert_eq!(Gender::from_text("女"), Some(Gender::Female));
    assert_eq!(Gender::from_text("未知"), Some(Gender::Unknown));
    assert_eq!(Gender::from_text("boy"), None);
    assert_eq!(Gender::from_text(""), None);
}

#[test]
fn gender_text_round_trip() {
    assert_eq!(Gender::Male.text(), "男");
    assert_eq!(Gender::Female.text(), "女");
    assert_eq!(Gender::Unknown.text(), "未知");
    assert_eq!(Gender::from_text(&Gender::Female.text()), Some(Gender::Female));
}

#[test]
fn unrecognized_gender_is_reported_with_row() {
    let good = member_row("<span>A</span>", "<span>n</span>", "1", "男");
    let bad = member_row("<span>B</span>", "<span>n</span>", "2", "boy");
    let html = fixture(&format!("{}{}", good, bad));
    let got = Member::from_html(&html);
    assert!(matches!(got, Err(ExtractError::UnrecognizedGender { row: 1 })));
}

#[test]
fn short_row_is_missing_field() {
    let html = fixture("<tr><td>a</td><td>b</td></tr>");
    let got = Member::from_html(&html);
    assert!(matches!(got, Err(ExtractError::MissingField { row: 0, col: 2 })));
}

#[test]
fn missing_span_in_name_cell_fails() {
    let html = fixture(&member_row("plain text", "<span>n</span>", "1", "男"));
    let got = Member::from_html(&html);
    assert!(matches!(got, Err(ExtractError::SpanNotFound { row: 0, col: 2 })));
}

#[test]
fn missing_span_in_nickname_cell_fails() {
    let html = fixture(&member_row("<span>A</span>", "no markup", "1", "男"));
    let got = Member::from_html(&html);
    assert!(matches!(got, Err(ExtractError::SpanNotFound { row: 0, col: 3 })));
}

#[test]
fn members_keep_row_order() {
    let r1 = member_row("<span>A</span>", "<span>an</span>", "1", "男");
    let r2 = member_row("<span>B</span>", "<span>bn</span>", "2", "未知");
    let html = fixture(&format!("{}{}", r1, r2));
    let members = Member::from_html(&html).unwrap();
    assert_eq!(members.len(), 2);
    assert_eq!(members[0].qq_name, "A");
    assert_eq!(members[1].qq_name, "B");
    assert_eq!(members[1].gender, Gender::Unknown);
}

#[test]
fn missing_group_member_table_fails_not_found() {
    let html = "<table id=\"other\"><tr><td>x</td></tr></table>";
    assert!(matches!(Member::from_html(html), Err(ExtractError::TableNotFound)));
}

#[test]
fn end_to_end_single_member_records() {
    let html = fixture(&member_row("<span> Alice </span>", "<span>nick</span>", "12345", "男"));
    let members = Member::from_html(&html).unwrap();
    let records = csv_records(&members);
    assert_eq!(records.len(), 2);
    assert_eq!(records[0], ["成员", "群昵称", "QQ号", "性别", "Q龄", "入群时间"]);
    assert_eq!(records[1], ["Alice", "nick", "Alice", "男", "11年", "2018/02/26"]);
}

#[test]
fn csv_records_of_no_members_is_header_only() {
    let records = csv_records(&vec![]);
    assert_eq!(records.len(), 1);
    assert_eq!(records[0], ["成员", "群昵称", "QQ号", "性别", "Q龄", "入群时间"]);
}
