use vanier_courses::model::{Course, DayOfWeek, Period};
use vanier_courses::periods::{decode_periods, dedup_periods, parse_day, parse_time_range};
use vanier_courses::schedule::{
    courses_from_page, courses_from_rows, decode_row, parse_seats, parse_section, parse_teacher,
    RawCell, RawRow,
};

fn chars(s: &str) -> Vec<char> {
    s.chars().collect()
}

fn period(day: DayOfWeek, room: &str) -> Period {
    Period {
        day,
        room: room.to_string(),
        start_hour: 9,
        start_minute: 0,
        end_hour: 10,
        end_minute: 0,
    }
}

fn cell(text: &str) -> RawCell {
    RawCell { text: text.to_string(), bgcolor: None, font_html: None }
}

fn font_cell(html: &str) -> RawCell {
    RawCell { text: String::new(), bgcolor: None, font_html: Some(html.to_string()) }
}

fn row(section: &str, code: &str, days: &str, times: &str, rooms: &str) -> RawRow {
    let mut cells = vec![
        cell(section),
        cell(code),
        cell("  Calculus I  "),
        cell(""),
        cell(""),
        cell(""),
        cell(" Smith\nJones"),
    ];
    cells.push(font_cell(days));
    cells.push(font_cell(times));
    cells.push(font_cell(rooms));
    cells.push(cell("12"));
    RawRow { children: 21, cells }
}

#[test]
fn time_range_reads_its_digit_groups() {
    assert_eq!(parse_time_range(&chars("9:30-10:45")), Some((9, 30, 10, 45)));
    assert_eq!(parse_time_range(&chars(" 8:00 - 11:15 ")), Some((8, 0, 11, 15)));
    assert_eq!(parse_time_range(&chars("13:05-14:55-extra")), Some((13, 5, 14, 55)));
}

#[test]
fn time_range_malformed_is_rejected() {
    assert_eq!(parse_time_range(&chars("9:30")), None);
    assert_eq!(parse_time_range(&chars("9-10")), None);
    assert_eq!(parse_time_range(&chars("9:3x-10:45")), None);
    assert_eq!(parse_time_range(&chars("300:00-10:00")), None);
}

#[test]
fn section_strips_trailing_zeros() {
    assert_eq!(parse_section(&chars("0010")), Some(1));
    assert_eq!(parse_section(&chars("0100")), Some(1));
    assert_eq!(parse_section(&chars("5")), Some(5));
    assert_eq!(parse_section(&chars("00012")), Some(12));
    assert_eq!(parse_section(&chars("0000")), None);
}

#[test]
fn seats_default_to_zero() {
    assert_eq!(parse_seats(&chars("17")), 17);
    assert_eq!(parse_seats(&chars("full")), 0);
    assert_eq!(parse_seats(&chars("")), 0);
    assert_eq!(parse_seats(&chars("999")), 0);
}

#[test]
fn teacher_is_first_line_trimmed() {
    let t: String = parse_teacher(&chars("  Smith J. \nJones K.")).into_iter().collect();
    assert_eq!(t, "Smith J.");
}

#[test]
fn days_are_recognised_by_abbreviation() {
    assert_eq!(parse_day(&chars(" Mon ")), DayOfWeek::Monday);
    assert_eq!(parse_day(&chars("Thu")), DayOfWeek::Thursday);
    assert_eq!(parse_day(&chars("Sat")), DayOfWeek::Unknown);
    assert_eq!(parse_day(&chars("mon")), DayOfWeek::Unknown);
}

#[test]
fn invalid_triples_are_excluded() {
    let br = chars("<br>");
    let p = decode_periods(
        &chars("Mon<br>Sat<br>Wed<br>Fri"),
        &chars("9:00-10:00<br>9:00-10:00<br>11:00-12:30<br>13:00-14:00"),
        &chars("A-101<br>A-102<br> <br>B-201"),
        &br,
    );
    assert_eq!(p.len(), 2);
    assert_eq!(p[0].day, DayOfWeek::Monday);
    assert_eq!(p[0].room, "A-101");
    assert_eq!(p[1].day, DayOfWeek::Friday);
    assert_eq!((p[1].start_hour, p[1].start_minute, p[1].end_hour, p[1].end_minute), (13, 0, 14, 0));
}

#[test]
fn adjacent_duplicate_days_collapse() {
    let r = dedup_periods(vec![
        period(DayOfWeek::Monday, "A"),
        period(DayOfWeek::Monday, "B"),
        period(DayOfWeek::Tuesday, "C"),
    ]);
    assert_eq!(r.len(), 2);
    assert_eq!(r[0].room, "A");
    assert_eq!(r[1].day, DayOfWeek::Tuesday);
}

#[test]
fn non_adjacent_days_do_not_collapse() {
    let r = dedup_periods(vec![
        period(DayOfWeek::Monday, "A"),
        period(DayOfWeek::Tuesday, "B"),
        period(DayOfWeek::Monday, "C"),
    ]);
    assert_eq!(r.len(), 3);
}

#[test]
fn row_decodes_into_course() {
    let mut r = row("0010", " 201-NYA-05 ", "Mon<br>Mon<br>Wed", "8:30-10:00<br>10:00-11:30<br>14:00-15:30", "D-101<br>D-102<br>D-103");
    r.cells[0].bgcolor = Some("#FFDDDD".to_string());
    let c: Course = decode_row(&r).unwrap();
    assert_eq!(c.section, 1);
    assert_eq!(c.course, "201-NYA-05");
    assert_eq!(c.title, "Calculus I");
    assert_eq!(c.teacher, "Smith");
    assert_eq!(c.available_seats, 12);
    assert!(c.recently_changed);
    assert_eq!(c.periods.len(), 2);
    assert_eq!(c.periods[0].room, "D-101");
    assert_eq!(c.periods[1].day, DayOfWeek::Wednesday);
}

#[test]
fn course_without_valid_period_is_dropped() {
    let header = row("Sec", "Course", "Day", "Time", "Room");
    let good = row("0020", "201-NYA-05", "Tue", "9:00-10:00", "C-1");
    let empty = row("0030", "201-NYB-05", "Tue<br>Sat", "<br>9:00-10:00", "C-1<br>C-2");
    let rows = vec![header, good, empty];
    let courses = courses_from_rows(&rows);
    assert_eq!(courses.len(), 1);
    assert_eq!(courses[0].section, 2);
    assert!(!courses[0].recently_changed);
}

#[test]
fn only_data_rows_after_header_are_read() {
    let mut short = row("0040", "201-X", "Mon", "9:00-10:00", "A");
    short.children = 20;
    let header = row("0050", "201-H", "Mon", "9:00-10:00", "A");
    let body = row("0060", "201-B", "Fri", "9:00-10:00", "A");
    let courses = courses_from_rows(&vec![short, header, body]);
    assert_eq!(courses.len(), 1);
    assert_eq!(courses[0].course, "201-B");
}

fn html_row(section: &str, code: &str, days: &str) -> String {
    let cells = [
        format!("<td bgcolor=\"#FFDDDD\">{}</td>", section),
        format!("<td>{}</td>", code),
        "<td> Title </td>".to_string(),
        "<td></td>".to_string(),
        "<td></td>".to_string(),
        "<td></td>".to_string(),
        "<td>Doe\nRoe</td>".to_string(),
        format!("<td><font>{}</font></td>", days),
        "<td><font>9:00-10:30</font></td>".to_string(),
        "<td><font>R-1</font></td>".to_string(),
        "<td>7</td>".to_string(),
    ];
    format!("<tr>{}</tr>", cells.join("\n"))
}

#[test]
fn page_yields_qualifying_rows_in_order() {
    let mut page = String::from("<html><body><table>");
    page.push_str(&html_row("Section", "Course", "Day"));
    page.push_str("<tr><td>spacer</td></tr>");
    page.push_str(&html_row("0010", "201-A", "Mon"));
    page.push_str(&html_row("0020", "201-B", "Tue"));
    page.push_str("<tr><td>footer</td><td>x</td></tr>");
    page.push_str(&html_row("0030", "201-C", "Wed"));
    page.push_str("</table></body></html>");
    let courses = courses_from_page(&page);
    assert_eq!(courses.len(), 3);
    assert_eq!(courses[0].course, "201-A");
    assert_eq!(courses[1].course, "201-B");
    assert_eq!(courses[2].course, "201-C");
    assert_eq!(courses[2].section, 3);
    assert_eq!(courses[0].teacher, "Doe");
    assert_eq!(courses[0].title, "Title");
    assert_eq!(courses[0].available_seats, 7);
    assert!(courses[0].recently_changed);
    assert_eq!(courses[1].periods[0].day, DayOfWeek::Tuesday);
    assert_eq!(courses[1].periods[0].end_minute, 30);
}
