use vanier_courses::departments::{departments_from_page, departments_from_runs};
use vanier_courses::lookup::{courses_with_code, department_of_code, filter_by_folded};
use vanier_courses::model::{error_status, Course, ErrResponse, ScrapeError};
use vanier_courses::token::{cookie_program, landing_script, token_program};

fn course(code: &str, section: u16) -> Course {
    Course {
        section,
        course: code.to_string(),
        title: String::new(),
        teacher: String::new(),
        periods: Vec::new(),
        available_seats: 0,
        recently_changed: false,
    }
}

#[test]
fn department_of_course_code() {
    assert_eq!(department_of_code("420-123"), Ok(420));
    assert_eq!(department_of_code(" 201 -NYA"), Ok(201));
    assert_eq!(department_of_code("abc-123"), Err(ScrapeError::Validation));
    assert_eq!(department_of_code("70000-1"), Err(ScrapeError::Validation));
}

#[test]
fn find_course_matches_case_insensitively() {
    let courses = vec![course("420-123", 1), course("420-999", 2), course("420-123", 3)];
    let found = courses_with_code(courses, "420-123");
    assert_eq!(found.iter().map(|c| c.section).collect::<Vec<_>>(), vec![1, 3]);
    let courses = vec![course("420-ABC", 4), course("420-abd", 5)];
    let found = courses_with_code(courses, "420-abc");
    assert_eq!(found.len(), 1);
    assert_eq!(found[0].section, 4);
}

#[test]
fn filter_keeps_folded_matches() {
    let courses = vec![course("a", 1), course("b", 2)];
    let folded = vec!["A".to_string(), "B".to_string()];
    let kept = filter_by_folded(courses, &folded, "B");
    assert_eq!(kept.len(), 1);
    assert_eq!(kept[0].section, 2);
}

#[test]
fn departments_in_document_order() {
    let page = "<a href=\"x.asp?dv=201&dt=1\">Math</a> <a href=\"?dv=420&dt=2\">CS</a> <a href=\"?dv=201&dt=3\">Math</a>";
    assert_eq!(departments_from_page(page), Ok(vec![201, 420, 201]));
}

#[test]
fn departments_missing_or_malformed() {
    assert_eq!(departments_from_page("<html>nothing</html>"), Err(ScrapeError::Parse));
    assert_eq!(departments_from_page("?dv=\u{0663}&dt="), Err(ScrapeError::Parse));
    assert_eq!(departments_from_page("?dv=99999&dt="), Err(ScrapeError::Parse));
    assert_eq!(departments_from_runs(&vec!["7".to_string()]), Ok(vec![7]));
}

#[test]
fn landing_script_is_first_block() {
    let page = "<html><script>var a=1;\ne(r);</script><script>other</script></html>";
    assert_eq!(landing_script(page), Ok("var a=1;\ne(r);".to_string()));
    assert_eq!(landing_script("<html></html>"), Err(ScrapeError::Parse));
}

#[test]
fn token_programs_are_rewritten() {
    let stage1 = token_program("r='x';e(r);");
    assert_eq!(stage1, "function get_token() {r='x';;return r}");
    let stage2 = cookie_program("document.cookie='sucuri_cloudproxy_uuid_1=2';location.reload();");
    assert_eq!(
        stage2,
        "function get_cookie() {var cookie='sucuri_cloudproxy_uuid_1=2';;return cookie}"
    );
}

#[test]
fn errors_map_to_status() {
    assert_eq!(error_status(ScrapeError::Validation), 400);
    assert_eq!(error_status(ScrapeError::Fetch), 500);
    let e = ErrResponse::from_error(ScrapeError::Execution, "Failed".to_string());
    assert_eq!(e.code, 500);
    assert_eq!(e.message, "Failed");
}
