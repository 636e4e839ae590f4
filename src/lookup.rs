//! Looking a course up by its code.
use vstd::prelude::*;
use crate::model::{Course, CourseView, ScrapeError, courses_view};
use crate::text::{chars_of, parse_unsigned, parse_unsigned_chars, split, split_chars, strings_view, trim, trim_chars, chars_view};

verus! {

/// The department that a course code names: the text before its first `-`,
/// trimmed, read as an integer.
pub open spec fn department_prefix(code: Seq<char>) -> Option<u16> {
    match parse_unsigned(trim(split(code, seq!['-'])[0]), 0xffff) {
        Some(v) => Some(v as u16),
        None => None,
    }
}

/// The department of a course code such as `420-123`; `Validation` where
/// its prefix is no department code.
pub fn department_of_code(code: &str) -> (r: Result<u16, ScrapeError>)
    ensures
        match r {
            Ok(d) => department_prefix(code@) == Some(d),
            Err(e) => e == ScrapeError::Validation && department_prefix(code@) is None,
        },
{
    let dash = vec!['-'];
    assert(dash@ =~= seq!['-']);
    let pieces = split_chars(&chars_of(code), &dash);
    assert(chars_view(pieces@)[0] == pieces@[0]@);
    match parse_unsigned_chars(&trim_chars(&pieces[0]), 0xffff) {
        Some(v) => Ok(v as u16),
        None => Err(ScrapeError::Validation),
    }
}

/// The upper-case form of a string, as Unicode defines it.
pub uninterp spec fn upper_of(s: Seq<char>) -> Seq<char>;

/// Relies on `str::to_uppercase`: the result depends on the characters alone.
#[verifier::external_body]
fn uppercase(s: &str) -> (r: String)
    ensures
        r@ == upper_of(s@),
{
    s.to_uppercase()
}

/// The courses whose folded code (`folded`, position for position) is `key`.
pub open spec fn keep_folded(courses: Seq<CourseView>, folded: Seq<Seq<char>>, key: Seq<char>) -> Seq<
    CourseView,
>
    decreases courses.len(),
{
    if courses.len() == 0 {
        Seq::empty()
    } else {
        let d = keep_folded(courses.drop_last(), folded, key);
        if folded[courses.len() - 1] == key {
            d.push(courses.last())
        } else {
            d
        }
    }
}

/// The courses whose code equals `code` but for case.
pub open spec fn same_code(courses: Seq<CourseView>, code: Seq<char>) -> Seq<CourseView>
    decreases courses.len(),
{
    if courses.len() == 0 {
        Seq::empty()
    } else {
        let d = same_code(courses.drop_last(), code);
        if upper_of(courses.last().course) == upper_of(code) {
            d.push(courses.last())
        } else {
            d
        }
    }
}

/// Every course found for a code carries that code, but for case, and was
/// among the courses searched.
pub proof fn lemma_same_code_members(courses: Seq<CourseView>, code: Seq<char>)
    ensures
        forall|k: int|
            0 <= k < same_code(courses, code).len() ==> upper_of(
                (#[trigger] same_code(courses, code)[k]).course,
            ) == upper_of(code) && courses.contains(same_code(courses, code)[k]),
    decreases courses.len(),
{
    if courses.len() > 0 {
        let p = courses.drop_last();
        lemma_same_code_members(p, code);
        assert forall|k: int| 0 <= k < same_code(courses, code).len() implies upper_of(
            (#[trigger] same_code(courses, code)[k]).course,
        ) == upper_of(code) && courses.contains(same_code(courses, code)[k]) by {
            if k < same_code(p, code).len() {
                assert(same_code(courses, code)[k] == same_code(p, code)[k]);
                let j = choose|j: int| 0 <= j < p.len() && p[j] == same_code(p, code)[k];
                assert(courses[j] == p[j]);
            } else {
                assert(courses[courses.len() - 1] == courses.last());
            }
        }
    }
}

/// Keeps, in order, the courses whose folded code is `key`.
pub fn filter_by_folded(courses: Vec<Course>, folded: &Vec<String>, key: &str) -> (r: Vec<Course>)
    requires
        folded@.len() == courses@.len(),
    ensures
        courses_view(r@) == keep_folded(courses_view(courses@), strings_view(folded@), key@),
{
    let ghost all = courses_view(courses@);
    let ghost fv = strings_view(folded@);
    let n = courses.len();
    let mut rest = courses;
    let key_s = key.to_owned();
    let mut out: Vec<Course> = Vec::new();
    let mut i: usize = 0;
    assert(all.subrange(0, 0) =~= Seq::<CourseView>::empty());
    assert(courses_view(out@) =~= Seq::<CourseView>::empty());
    assert(all.subrange(0, n as int) =~= all);
    while i < n
        invariant
            i <= n == folded@.len() == all.len(),
            fv == strings_view(folded@),
            key_s@ == key@,
            rest@.len() == n - i,
            courses_view(rest@) == all.subrange(i as int, n as int),
            courses_view(out@) == keep_folded(all.subrange(0, i as int), fv, key@),
        decreases n - i,
    {
        let ghost pre = all.subrange(0, i as int);
        let ghost nxt = all.subrange(0, i + 1);
        assert(nxt.drop_last() =~= pre);
        assert(fv[i as int] == folded@[i as int]@);
        assert(courses_view(rest@)[0] == rest@[0]@);
        let ghost before = out@;
        let ghost old_rest = rest@;
        let c = rest.remove(0);
        assert(rest@ =~= old_rest.subrange(1, old_rest.len() as int));
        assert(courses_view(rest@) =~= courses_view(old_rest).subrange(1, old_rest.len() as int));
        assert(c@ == all[i as int]);
        assert(keep_folded(nxt, fv, key@) == (if fv[i as int] == key@ { keep_folded(pre, fv, key@).push(c@) } else { keep_folded(pre, fv, key@) }));
        if folded[i] == key_s {
            out.push(c);
            assert(courses_view(out@) =~= courses_view(before).push(c@));
        }
        i = i + 1;
    }
    assert(all.subrange(0, n as int) =~= all);
    out
}

pub proof fn lemma_same_code_is_keep_folded(courses: Seq<CourseView>, folded: Seq<Seq<char>>, code: Seq<char>)
    requires
        folded.len() >= courses.len(),
        forall|i: int| 0 <= i < courses.len() ==> #[trigger] folded[i] == upper_of(courses[i].course),
    ensures
        keep_folded(courses, folded, upper_of(code)) == same_code(courses, code),
    decreases courses.len(),
{
    if courses.len() > 0 {
        let p = courses.drop_last();
        assert forall|i: int| 0 <= i < p.len() implies #[trigger] folded[i] == upper_of(p[i].course) by {
            assert(p[i] == courses[i]);
        }
        lemma_same_code_is_keep_folded(p, folded, code);
        assert(folded[courses.len() - 1] == upper_of(courses[courses.len() - 1].course));
    }
}

/// The courses whose code equals `code` but for case, in order.
pub fn courses_with_code(courses: Vec<Course>, code: &str) -> (r: Vec<Course>)
    ensures
        courses_view(r@) == same_code(courses_view(courses@), code@),
{
    let ghost cv = courses_view(courses@);
    let mut folded: Vec<String> = Vec::new();
    let mut i: usize = 0;
    while i < courses.len()
        invariant
            i <= courses@.len(),
            cv == courses_view(courses@),
            folded@.len() == i,
            forall|k: int| 0 <= k < i ==> #[trigger] strings_view(folded@)[k] == upper_of(cv[k].course),
        decreases courses@.len() - i,
    {
        assert(cv[i as int] == courses@[i as int]@);
        let ghost before = folded@;
        folded.push(uppercase(courses[i].course.as_str()));
        assert forall|k: int| 0 <= k <= i implies #[trigger] strings_view(folded@)[k] == upper_of(cv[k].course) by {
            if k < i {
                assert(strings_view(before)[k] == strings_view(folded@)[k]);
            }
        }
        i = i + 1;
    }
    let key = uppercase(code);
    proof {
        lemma_same_code_is_keep_folded(cv, strings_view(folded@), code@);
    }
    filter_by_folded(courses, &folded, key.as_str())
}

} // verus!
