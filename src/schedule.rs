//! Decoding the rows of a department's schedule table into courses.
use vstd::prelude::*;
use crate::model::{Course, CourseView, courses_view};
use crate::periods::{cell_periods, decode_periods};
use crate::text::{
    chars_of, parse_unsigned, parse_unsigned_chars, split, split_chars, string_of, strip_end,
    strip_end_chars, trim, trim_chars, chars_view,
};

verus! {

/// The number of child nodes of a genuine data row of the table.
pub const DATA_ROW_CHILDREN: usize = 21;

pub const SECTION_COLUMN: usize = 0;

pub const CODE_COLUMN: usize = 1;

pub const TITLE_COLUMN: usize = 2;

pub const TEACHER_COLUMN: usize = 6;

pub const DAYS_COLUMN: usize = 7;

pub const TIMES_COLUMN: usize = 8;

pub const ROOMS_COLUMN: usize = 9;

pub const SEATS_COLUMN: usize = 10;

/// One table cell: its text, its `bgcolor` attribute, and the inner markup
/// of its first `font` element.
#[derive(Debug, Clone)]
pub struct RawCell {
    pub text: String,
    pub bgcolor: Option<String>,
    pub font_html: Option<String>,
}

/// One table row: how many child nodes it has, and its cells in order.
#[derive(Debug, Clone)]
pub struct RawRow {
    pub children: usize,
    pub cells: Vec<RawCell>,
}

pub struct CellView {
    pub text: Seq<char>,
    pub bgcolor: Option<Seq<char>>,
    pub font_html: Option<Seq<char>>,
}

pub struct RowView {
    pub children: nat,
    pub cells: Seq<CellView>,
}

pub open spec fn opt_view(o: Option<String>) -> Option<Seq<char>> {
    match o {
        Some(s) => Some(s@),
        None => None,
    }
}

impl View for RawCell {
    type V = CellView;

    open spec fn view(&self) -> CellView {
        CellView { text: self.text@, bgcolor: opt_view(self.bgcolor), font_html: opt_view(self.font_html) }
    }
}

impl View for RawRow {
    type V = RowView;

    open spec fn view(&self) -> RowView {
        RowView { children: self.children as nat, cells: self.cells@.map_values(|c: RawCell| c@) }
    }
}

pub open spec fn rows_view(v: Seq<RawRow>) -> Seq<RowView> {
    v.map_values(|r: RawRow| r@)
}

/// The line separator inside a day, time or room cell.
pub open spec fn line_break() -> Seq<char> {
    seq!['<', 'b', 'r', '>']
}

/// The background colour that marks a recently changed section.
pub open spec fn highlight() -> Seq<char> {
    seq!['#', 'F', 'F', 'D', 'D', 'D', 'D']
}

/// The section number: the text with its trailing zeros stripped, read as
/// an integer.
pub open spec fn section_of(t: Seq<char>) -> Option<u16> {
    match parse_unsigned(strip_end(t, '0'), 0xffff) {
        Some(v) => Some(v as u16),
        None => None,
    }
}

/// The available seats, 0 where the text is no number.
pub open spec fn seats_of(t: Seq<char>) -> u8 {
    match parse_unsigned(t, 255) {
        Some(v) => v as u8,
        None => 0,
    }
}

/// The first teacher of a cell that lists one per line.
pub open spec fn teacher_of(t: Seq<char>) -> Seq<char> {
    trim(split(t, seq!['\n'])[0])
}

/// The course that a data row stands for, if it is well formed and has at
/// least one valid period.
pub open spec fn row_course(r: RowView) -> Option<CourseView> {
    let c = r.cells;
    if c.len() <= SEATS_COLUMN || c[DAYS_COLUMN as int].font_html is None
        || c[TIMES_COLUMN as int].font_html is None || c[ROOMS_COLUMN as int].font_html is None
        || section_of(c[SECTION_COLUMN as int].text) is None {
        None
    } else {
        let periods = cell_periods(
            c[DAYS_COLUMN as int].font_html->0,
            c[TIMES_COLUMN as int].font_html->0,
            c[ROOMS_COLUMN as int].font_html->0,
            line_break(),
        );
        if periods.len() == 0 {
            None
        } else {
            Some(
                CourseView {
                    section: section_of(c[SECTION_COLUMN as int].text)->0,
                    course: trim(c[CODE_COLUMN as int].text),
                    title: trim(c[TITLE_COLUMN as int].text),
                    teacher: teacher_of(c[TEACHER_COLUMN as int].text),
                    periods,
                    available_seats: seats_of(c[SEATS_COLUMN as int].text),
                    recently_changed: c[SECTION_COLUMN as int].bgcolor == Some(highlight()),
                },
            )
        }
    }
}

/// The rows with exactly as many children as a data row.
pub open spec fn data_rows(rows: Seq<RowView>) -> Seq<RowView>
    decreases rows.len(),
{
    if rows.len() == 0 {
        Seq::empty()
    } else {
        let d = data_rows(rows.drop_last());
        if rows.last().children == DATA_ROW_CHILDREN {
            d.push(rows.last())
        } else {
            d
        }
    }
}

/// The courses of the rows, in order, rows that stand for none left out.
pub open spec fn decode_rows(rows: Seq<RowView>) -> Seq<CourseView>
    decreases rows.len(),
{
    if rows.len() == 0 {
        Seq::empty()
    } else {
        let d = decode_rows(rows.drop_last());
        match row_course(rows.last()) {
            Some(c) => d.push(c),
            None => d,
        }
    }
}

/// The courses of a table: its data rows but the first, which is the
/// header, decoded in order.
pub open spec fn table_courses(rows: Seq<RowView>) -> Seq<CourseView> {
    let q = data_rows(rows);
    if q.len() == 0 {
        Seq::empty()
    } else {
        decode_rows(q.drop_first())
    }
}

/// Reads a section number: trailing zeros stripped, then read as an integer.
pub fn parse_section(t: &Vec<char>) -> (r: Option<u16>)
    ensures
        r == section_of(t@),
{
    let s = strip_end_chars(t, '0');
    match parse_unsigned_chars(&s, 0xffff) {
        Some(v) => Some(v as u16),
        None => None,
    }
}

/// Reads the available seats, 0 where the text is no number.
pub fn parse_seats(t: &Vec<char>) -> (r: u8)
    ensures
        r == seats_of(t@),
{
    match parse_unsigned_chars(t, 255) {
        Some(v) => v as u8,
        None => 0,
    }
}

/// Reads the first teacher of a cell that lists one per line.
pub fn parse_teacher(t: &Vec<char>) -> (r: Vec<char>)
    ensures
        r@ == teacher_of(t@),
{
    let nl = vec!['\n'];
    assert(nl@ =~= seq!['\n']);
    let lines = split_chars(t, &nl);
    assert(chars_view(lines@)[0] == lines@[0]@);
    trim_chars(&lines[0])
}

fn is_highlight(o: &Option<String>) -> (r: bool)
    ensures
        r == (opt_view(*o) == Some(highlight())),
{
    match o {
        Some(s) => {
            let v = chars_of(s.as_str());
            assert(opt_view(*o) == Some(v@));
            let h = vec!['#', 'F', 'F', 'D', 'D', 'D', 'D'];
            assert(h@ =~= highlight());
            if v.len() != 7 {
                return false;
            }
            let mut i: usize = 0;
            while i < 7
                invariant
                    i <= 7,
                    v@.len() == 7 && h@ == highlight(),
                    opt_view(*o) == Some(v@),
                    v@.subrange(0, i as int) =~= h@.subrange(0, i as int),
                decreases 7 - i,
            {
                if v[i] != h[i] {
                    assert(v@[i as int] != h@[i as int]);
                    assert(v@ != highlight());
                    return false;
                }
                i = i + 1;
            }
            assert(v@ =~= h@.subrange(0, 7));
            assert(h@.subrange(0, 7) =~= h@);
            true
        },
        None => false,
    }
}

/// Decodes one data row into a course; `None` where the row is malformed
/// (too few cells, a period cell without markup, no section number) or
/// where no valid period is left.
pub fn decode_row(row: &RawRow) -> (r: Option<Course>)
    ensures
        match r {
            Some(c) => row_course(row@) == Some(c@),
            None => row_course(row@) is None,
        },
{
    let c = &row.cells;
    let ghost cv = row@.cells;
    if c.len() <= SEATS_COLUMN {
        return None;
    }
    assert(cv[0] == c@[0]@ && cv[1] == c@[1]@ && cv[2] == c@[2]@ && cv[6] == c@[6]@);
    assert(cv[7] == c@[7]@ && cv[8] == c@[8]@ && cv[9] == c@[9]@ && cv[10] == c@[10]@);
    let (days, times, rooms) = match (&c[DAYS_COLUMN].font_html, &c[TIMES_COLUMN].font_html, &c[ROOMS_COLUMN].font_html) {
        (Some(d), Some(t), Some(r)) => (d, t, r),
        _ => {
            return None;
        },
    };
    let section = match parse_section(&chars_of(c[SECTION_COLUMN].text.as_str())) {
        Some(s) => s,
        None => {
            return None;
        },
    };
    let br = vec!['<', 'b', 'r', '>'];
    assert(br@ =~= line_break());
    let periods = decode_periods(
        &chars_of(days.as_str()),
        &chars_of(times.as_str()),
        &chars_of(rooms.as_str()),
        &br,
    );
    if periods.len() == 0 {
        return None;
    }
    let course = trim_chars(&chars_of(c[CODE_COLUMN].text.as_str()));
    let title = trim_chars(&chars_of(c[TITLE_COLUMN].text.as_str()));
    let teacher = parse_teacher(&chars_of(c[TEACHER_COLUMN].text.as_str()));
    let available_seats = parse_seats(&chars_of(c[SEATS_COLUMN].text.as_str()));
    let recently_changed = is_highlight(&c[SECTION_COLUMN].bgcolor);
    Some(
        Course {
            section,
            course: string_of(&course),
            title: string_of(&title),
            teacher: string_of(&teacher),
            periods,
            available_seats,
            recently_changed,
        },
    )
}

/// The courses of a table's rows: the rows with exactly
/// `DATA_ROW_CHILDREN` children but the first (the header), each decoded,
/// those that stand for no course left out, in row order.
pub fn courses_from_rows(rows: &Vec<RawRow>) -> (r: Vec<Course>)
    ensures
        courses_view(r@) == table_courses(rows_view(rows@)),
{
    let ghost rv = rows_view(rows@);
    let n = rows.len();
    let mut out: Vec<Course> = Vec::new();
    let mut seen_header = false;
    let mut i: usize = 0;
    assert(rv.subrange(0, 0) =~= Seq::<RowView>::empty());
    assert(courses_view(out@) =~= Seq::<CourseView>::empty());
    while i < n
        invariant
            i <= n == rows@.len(),
            rv == rows_view(rows@),
            seen_header == (data_rows(rv.subrange(0, i as int)).len() > 0),
            courses_view(out@) == table_courses(rv.subrange(0, i as int)),
        decreases n - i,
    {
        let ghost pre = rv.subrange(0, i as int);
        let ghost nxt = rv.subrange(0, i + 1);
        assert(nxt.drop_last() =~= pre);
        assert(nxt.last() == rows@[i as int]@);
        let ghost before = out@;
        if rows[i].children == DATA_ROW_CHILDREN {
            if !seen_header {
                seen_header = true;
                assert(data_rows(nxt).drop_first() =~= Seq::<RowView>::empty());
            } else {
                let ghost q = data_rows(pre);
                assert(data_rows(nxt).drop_first() =~= q.drop_first().push(rows@[i as int]@));
                assert(data_rows(nxt).drop_first().drop_last() =~= q.drop_first());
                match decode_row(&rows[i]) {
                    Some(c) => {
                        out.push(c);
                        assert(courses_view(out@) =~= courses_view(before).push(c@));
                    },
                    None => {},
                }
            }
        }
        i = i + 1;
    }
    assert(rv.subrange(0, n as int) =~= rv);
    out
}

proof fn lemma_decoded_rows_have_periods(rows: Seq<RowView>)
    ensures
        forall|k: int|
            0 <= k < decode_rows(rows).len() ==> (#[trigger] decode_rows(rows)[k]).periods.len()
                > 0,
    decreases rows.len(),
{
    if rows.len() > 0 {
        let p = rows.drop_last();
        lemma_decoded_rows_have_periods(p);
        assert forall|k: int| 0 <= k < decode_rows(rows).len() implies (#[trigger] decode_rows(
            rows,
        )[k]).periods.len() > 0 by {
            if k < decode_rows(p).len() {
                assert(decode_rows(rows)[k] == decode_rows(p)[k]);
            }
        }
    }
}

/// No course of a table is left with an empty list of periods.
pub proof fn lemma_courses_have_periods(rows: Seq<RowView>)
    ensures
        forall|k: int|
            0 <= k < table_courses(rows).len() ==> (#[trigger] table_courses(rows)[k]).periods.len()
                > 0,
{
    let q = data_rows(rows);
    if q.len() > 0 {
        lemma_decoded_rows_have_periods(q.drop_first());
    }
}

/// What the HTML parser finds in a page: every `tr` element in document
/// order, each with its number of child nodes and its descendant `td` cells.
pub uninterp spec fn table_rows_of(html: Seq<char>) -> Seq<RowView>;

/// Relies on scraper's `Html::parse_document`, `Selector` and `ElementRef`:
/// each `tr` element of the document in order, with the count of its child
/// nodes, and for each descendant `td` its text, its `bgcolor` attribute and
/// the inner HTML of its first descendant `font` element. The parser always
/// yields a document, whatever the input.
#[verifier::external_body]
fn table_rows(html: &str) -> (r: Vec<RawRow>)
    ensures
        rows_view(r@) == table_rows_of(html@),
{
    let doc = scraper::Html::parse_document(html);
    let (tr, td) = (scraper::Selector::parse("tr").unwrap(), scraper::Selector::parse("td").unwrap());
    let font = scraper::Selector::parse("font").unwrap();
    doc.select(&tr).map(|row| RawRow {
        children: row.children().count(),
        cells: row.select(&td).map(|c| RawCell {
            text: c.text().collect(),
            bgcolor: c.value().attr("bgcolor").map(|b| b.to_string()),
            font_html: c.select(&font).next().map(|f| f.inner_html()),
        }).collect(),
    }).collect()
}

/// The courses of a department's schedule page, in row order.
pub fn courses_from_page(html: &str) -> (r: Vec<Course>)
    ensures
        courses_view(r@) == table_courses(table_rows_of(html@)),
{
    let rows = table_rows(html);
    courses_from_rows(&rows)
}

} // verus!
