//! Conversion of an extracted group-member table into typed records.
//!
//! The member table of a group-member page snapshot is located by its
//! `groupMember` id. Each data row holds, at fixed positions two through
//! eight: the display-name cell (nested markup), the group-nickname cell
//! (nested markup, possibly one level deeper), the numeric identifier, the
//! gender token, the account-age tenure, the join date and the last-spoken
//! date. All fields stay verbatim strings except the gender, which must be
//! one of three recognized tokens.

use vstd::prelude::*;

use crate::html::first_span_content;
use crate::html::first_span_in;
use crate::html::id_selector_ok;
use crate::html::starts_with_lt;
use crate::html::tables_in;
use crate::table::data_of;
use crate::table::id_table;
use crate::table::Row;
use crate::table::Table;

verus! {

/// One converted group-membership record.
#[derive(Clone, Debug)]
pub struct Member {
    pub qq_name: String,
    pub group_name: String,
    pub qq_number: String,
    pub gender: Gender,
    pub qq_age: String,
    pub joined_date: String,
    pub last_spoken_date: String,
}

/// The gender field of a member record.
#[derive(Clone, Copy, Debug, PartialEq, Eq, Structural)]
pub enum Gender {
    Male,
    Female,
    Unknown,
}

/// The mathematical value of a [`Member`].
pub struct MemberV {
    pub qq_name: Seq<char>,
    pub group_name: Seq<char>,
    pub qq_number: Seq<char>,
    pub gender: Gender,
    pub qq_age: Seq<char>,
    pub joined_date: Seq<char>,
    pub last_spoken_date: Seq<char>,
}

impl DeepView for Member {
    type V = MemberV;

    open spec fn deep_view(&self) -> MemberV {
        MemberV {
            qq_name: self.qq_name@,
            group_name: self.group_name@,
            qq_number: self.qq_number@,
            gender: self.gender,
            qq_age: self.qq_age@,
            joined_date: self.joined_date@,
            last_spoken_date: self.last_spoken_date@,
        }
    }
}

/// Why a conversion failed: the expected table or nested element was not in
/// the document, a required positional cell was absent from a row, or a
/// gender cell held a token outside the recognized enumeration.
#[derive(Clone, Copy, Debug, PartialEq, Eq, Structural)]
pub enum ExtractError {
    TableNotFound,
    MissingField { row: usize, col: usize },
    SpanNotFound { row: usize, col: usize },
    UnrecognizedGender { row: usize },
}

/// The gender a cell token names, if it is one of the three recognized ones.
pub open spec fn spec_gender_of(s: Seq<char>) -> Option<Gender> {
    if s == "男"@ {
        Some(Gender::Male)
    } else if s == "女"@ {
        Some(Gender::Female)
    } else if s == "未知"@ {
        Some(Gender::Unknown)
    } else {
        None
    }
}

/// The token a gender is displayed as, as the source page writes it.
pub open spec fn spec_gender_text(g: Gender) -> Seq<char> {
    match g {
        Gender::Male => "男"@,
        Gender::Female => "女"@,
        Gender::Unknown => "未知"@,
    }
}

impl Gender {
    /// Maps a cell token to its gender; any other literal is unrecognized.
    pub fn from_text(s: &str) -> (g: Option<Gender>)
        ensures
            g == spec_gender_of(s@),
    {
        let t: String = s.to_owned();
        let male: String = "男".to_owned();
        let female: String = "女".to_owned();
        let unknown: String = "未知".to_owned();
        if t == male {
            Some(Gender::Male)
        } else if t == female {
            Some(Gender::Female)
        } else if t == unknown {
            Some(Gender::Unknown)
        } else {
            None
        }
    }

    /// The display token of the gender.
    pub fn text(&self) -> (r: String)
        ensures
            r@ == spec_gender_text(*self),
    {
        match self {
            Gender::Male => "男".to_owned(),
            Gender::Female => "女".to_owned(),
            Gender::Unknown => "未知".to_owned(),
        }
    }
}

/// The display name a row yields: the trimmed content of the first `<span>`
/// of the cell at position two.
pub open spec fn spec_display_name(cells: Seq<Seq<char>>, row: usize) -> Result<
    Seq<char>,
    ExtractError,
> {
    if cells.len() <= 2 {
        Err(ExtractError::MissingField { row, col: 2 })
    } else {
        match first_span_in(cells[2]) {
            Some(s) => Ok(s),
            None => Err(ExtractError::SpanNotFound { row, col: 2 }),
        }
    }
}

/// The group nickname a row yields: the trimmed content of the first
/// `<span>` of the cell at position three, unwrapped exactly once more when
/// that content itself still begins with markup.
pub open spec fn spec_group_name(cells: Seq<Seq<char>>, row: usize) -> Result<
    Seq<char>,
    ExtractError,
> {
    if cells.len() <= 3 {
        Err(ExtractError::MissingField { row, col: 3 })
    } else {
        match first_span_in(cells[3]) {
            None => Err(ExtractError::SpanNotFound { row, col: 3 }),
            Some(inner) => if inner.len() > 0 && inner[0] == '<' {
                match first_span_in(inner) {
                    None => Err(ExtractError::SpanNotFound { row, col: 3 }),
                    Some(x) => Ok(x),
                }
            } else {
                Ok(inner)
            },
        }
    }
}

/// The record one data row converts to, or the first failure met while
/// reading its fields in order.
pub open spec fn spec_member_row(cells: Seq<Seq<char>>, row: usize) -> Result<
    MemberV,
    ExtractError,
> {
    match spec_display_name(cells, row) {
        Err(e) => Err(e),
        Ok(qq_name) => match spec_group_name(cells, row) {
            Err(e) => Err(e),
            Ok(group_name) => if cells.len() <= 4 {
                Err(ExtractError::MissingField { row, col: 4 })
            } else if cells.len() <= 5 {
                Err(ExtractError::MissingField { row, col: 5 })
            } else {
                match spec_gender_of(cells[5]) {
                    None => Err(ExtractError::UnrecognizedGender { row }),
                    Some(gender) => if cells.len() <= 6 {
                        Err(ExtractError::MissingField { row, col: 6 })
                    } else if cells.len() <= 7 {
                        Err(ExtractError::MissingField { row, col: 7 })
                    } else if cells.len() <= 8 {
                        Err(ExtractError::MissingField { row, col: 8 })
                    } else {
                        Ok(
                            MemberV {
                                qq_name,
                                group_name,
                                qq_number: cells[4],
                                gender,
                                qq_age: cells[6],
                                joined_date: cells[7],
                                last_spoken_date: cells[8],
                            },
                        )
                    },
                }
            },
        },
    }
}

/// The records a whole data grid converts to, row by row in order, or the
/// failure of the earliest row that does not convert.
pub open spec fn spec_members(data: Seq<Seq<Seq<char>>>) -> Result<Seq<MemberV>, ExtractError>
    decreases data.len(),
{
    if data.len() == 0 {
        Ok(Seq::empty())
    } else {
        match spec_members(data.drop_last()) {
            Err(e) => Err(e),
            Ok(ms) => match spec_member_row(data.last(), (data.len() - 1) as usize) {
                Err(e) => Err(e),
                Ok(m) => Ok(ms.push(m)),
            },
        }
    }
}

/// The cell at position `col` of a row's cells; an absent cell is a
/// missing-field failure naming the row and the position.
pub fn get_header<'a>(cells: &'a [String], row: usize, col: usize) -> (r: Result<
    &'a String,
    ExtractError,
>)
    ensures
        match r {
            Ok(s) => col < cells@.len() && s@ == cells.deep_view()[col as int],
            Err(e) => cells@.len() <= col && e == (ExtractError::MissingField { row, col }),
        },
{
    if col < cells.len() {
        Ok(&cells[col])
    } else {
        Err(ExtractError::MissingField { row, col })
    }
}

fn map_row(row: &Row, rown: usize) -> (r: Result<Member, ExtractError>)
    requires
        row.wf(),
    ensures
        match r {
            Ok(m) => spec_member_row(row.spec_cells(), rown) == Ok::<MemberV, ExtractError>(
                m.deep_view(),
            ),
            Err(e) => spec_member_row(row.spec_cells(), rown) == Err::<MemberV, ExtractError>(e),
        },
{
    let cells = row.as_slice();
    let qq_name: String = match get_header(cells, rown, 2) {
        Err(e) => return Err(e),
        Ok(c) => match first_span_content(c.as_str()) {
            None => return Err(ExtractError::SpanNotFound { row: rown, col: 2 }),
            Some(s) => s,
        },
    };
    let group_name: String = match get_header(cells, rown, 3) {
        Err(e) => return Err(e),
        Ok(c) => match first_span_content(c.as_str()) {
            None => return Err(ExtractError::SpanNotFound { row: rown, col: 3 }),
            Some(s1) => if starts_with_lt(s1.as_str()) {
                match first_span_content(s1.as_str()) {
                    None => return Err(ExtractError::SpanNotFound { row: rown, col: 3 }),
                    Some(s2) => s2,
                }
            } else {
                s1
            },
        },
    };
    let qq_number: String = match get_header(cells, rown, 4) {
        Err(e) => return Err(e),
        Ok(c) => c.clone(),
    };
    let gender: Gender = match get_header(cells, rown, 5) {
        Err(e) => return Err(e),
        Ok(c) => match Gender::from_text(c.as_str()) {
            None => return Err(ExtractError::UnrecognizedGender { row: rown }),
            Some(g) => g,
        },
    };
    let qq_age: String = match get_header(cells, rown, 6) {
        Err(e) => return Err(e),
        Ok(c) => c.clone(),
    };
    let joined_date: String = match get_header(cells, rown, 7) {
        Err(e) => return Err(e),
        Ok(c) => c.clone(),
    };
    let last_spoken_date: String = match get_header(cells, rown, 8) {
        Err(e) => return Err(e),
        Ok(c) => c.clone(),
    };
    Ok(Member { qq_name, group_name, qq_number, gender, qq_age, joined_date, last_spoken_date })
}

proof fn lemma_spec_members_error_prefix(data: Seq<Seq<Seq<char>>>, i: usize, l: int)
    requires
        i < l <= data.len(),
        spec_members(data.take(i as int)) is Ok,
        spec_member_row(data[i as int], i) is Err,
    ensures
        spec_members(data.take(l)) matches Err(e) && spec_member_row(data[i as int], i)
            == Err::<MemberV, ExtractError>(e),
    decreases l,
{
    if l == i + 1 {
        assert(data.take(l).drop_last() =~= data.take(i as int));
        assert(data.take(l).last() == data[i as int]);
    } else {
        lemma_spec_members_error_prefix(data, i, l - 1);
        assert(data.take(l).drop_last() =~= data.take(l - 1));
    }
}

impl Member {
    /// Converts the group-member table of an HTML document into one record
    /// per data row, in row order. Fails when the document holds no table
    /// with the `groupMember` id, and otherwise exactly when some row fails,
    /// with the earliest such row's failure; no partial result is returned.
    pub fn from_html(html: &str) -> (r: Result<Vec<Member>, ExtractError>)
        ensures
            ({
                let ts = tables_in(html@);
                let sel = if id_selector_ok("groupMember"@) {
                    id_table(ts, "groupMember"@)
                } else {
                    None::<int>
                };
                match sel {
                    None => r == Err::<Vec<Member>, ExtractError>(ExtractError::TableNotFound),
                    Some(k) => match spec_members(data_of(ts[k])) {
                        Ok(ms) => r matches Ok(v) && v.deep_view() == ms,
                        Err(e) => r == Err::<Vec<Member>, ExtractError>(e),
                    },
                }
            }),
    {
        let table = match Table::find_by_id(html, "groupMember") {
            None => return Err(ExtractError::TableNotFound),
            Some(t) => t,
        };
        let ghost data = table.spec_data();
        let mut members: Vec<Member> = Vec::new();
        let mut it = table.iter();
        let mut i: usize = 0;
        proof {
            assert(data.take(0) =~= Seq::<Seq<Seq<char>>>::empty());
            assert(members.deep_view() =~= Seq::<MemberV>::empty());
        }
        loop
            invariant
                it.spec_table() == table,
                table.wf(),
                data == table.spec_data(),
                i == it.spec_pos(),
                0 <= i <= data.len(),
                spec_members(data.take(i as int)) == Ok::<Seq<MemberV>, ExtractError>(
                    members.deep_view(),
                ),
                ({
                    let ts = tables_in(html@);
                    &&& id_selector_ok("groupMember"@)
                    &&& id_table(ts, "groupMember"@) matches Some(k) && 0 <= k < ts.len()
                        && data == data_of(ts[k])
                }),
            decreases data.len() - i,
        {
            match it.next() {
                None => {
                    proof {
                        assert(data.take(i as int) =~= data);
                    }
                    return Ok(members);
                },
                Some(row) => {
                    match map_row(&row, i) {
                        Err(e) => {
                            proof {
                                lemma_spec_members_error_prefix(data, i, data.len() as int);
                                assert(data.take(data.len() as int) =~= data);
                            }
                            return Err(e);
                        },
                        Ok(m) => {
                            let ghost mv = members.deep_view();
                            members.push(m);
                            proof {
                                assert(members.deep_view() =~= mv.push(m.deep_view()));
                                assert(data.take(i as int + 1).drop_last() =~= data.take(i as int));
                                assert(data.take(i as int + 1).last() == data[i as int]);
                            }
                            i += 1;
                        },
                    }
                },
            }
        }
    }
}

/// The header record of the delimited output, in its fixed column order.
pub open spec fn spec_csv_header() -> Seq<Seq<char>> {
    seq!["成员"@, "群昵称"@, "QQ号"@, "性别"@, "Q龄"@, "入群时间"@]
}

/// The output record of one member: display name, group nickname, the
/// display name again (a quirk of the output format, kept as the original
/// exporter wrote it), the gender token, the tenure and the join date. The
/// last-spoken date is read into the record but not emitted.
pub open spec fn spec_csv_row(m: MemberV) -> Seq<Seq<char>> {
    seq![m.qq_name, m.group_name, m.qq_name, spec_gender_text(m.gender), m.qq_age, m.joined_date]
}

/// Lays members out as delimited-output records: the fixed header record,
/// then one record per member, in order.
pub fn csv_records(members: &Vec<Member>) -> (r: Vec<Vec<String>>)
    ensures
        r.deep_view().len() == members@.len() + 1,
        r.deep_view()[0] == spec_csv_header(),
        forall|i: int|
            0 <= i < members@.len() ==> r.deep_view()[i + 1] == spec_csv_row(
                members.deep_view()[i],
            ),
{
    let mut out: Vec<Vec<String>> = Vec::new();
    let mut header: Vec<String> = Vec::new();
    header.push("成员".to_owned());
    header.push("群昵称".to_owned());
    header.push("QQ号".to_owned());
    header.push("性别".to_owned());
    header.push("Q龄".to_owned());
    header.push("入群时间".to_owned());
    proof {
        assert(header.deep_view() =~= spec_csv_header());
    }
    out.push(header);
    let mut i: usize = 0;
    while i < members.len()
        invariant
            0 <= i <= members@.len(),
            out.deep_view().len() == i + 1,
            out.deep_view()[0] == spec_csv_header(),
            forall|k: int|
                0 <= k < i ==> out.deep_view()[k + 1] == spec_csv_row(members.deep_view()[k]),
        decreases members@.len() - i,
    {
        let m = &members[i];
        let mut rec: Vec<String> = Vec::new();
        rec.push(m.qq_name.clone());
        rec.push(m.group_name.clone());
        rec.push(m.qq_name.clone());
        rec.push(m.gender.text());
        rec.push(m.qq_age.clone());
        rec.push(m.joined_date.clone());
        proof {
            assert(rec.deep_view() =~= spec_csv_row(members.deep_view()[i as int]));
        }
        let ghost ov = out.deep_view();
        out.push(rec);
        proof {
            assert(out.deep_view() =~= ov.push(rec.deep_view()));
        }
        i += 1;
    }
    out
}

} // verus!
