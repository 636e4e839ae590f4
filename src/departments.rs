//! Discovering the department codes that the landing page links to.
use vstd::prelude::*;
use crate::model::ScrapeError;
use crate::text::{chars_of, parse_unsigned, parse_unsigned_chars, strings_view};

verus! {

/// The digit runs of the department links of a page: for each match of
/// `?dv=<digits>&dt=`, left to right, its digits.
pub uninterp spec fn department_runs_of(page: Seq<char>) -> Seq<Seq<char>>;

/// Relies on regex's `Regex::captures_iter` with `\?dv=(\d+)&dt=`: the first
/// group of each match, in order (`\d` takes every Unicode decimal digit).
#[verifier::external_body]
fn department_runs(html: &str) -> (r: Vec<String>)
    ensures
        strings_view(r@) == department_runs_of(html@),
{
    let re = regex::Regex::new(r"\?dv=(\d+)&dt=").unwrap();
    re.captures_iter(html).map(|c| c[1].to_string()).collect()
}

/// Whether every run reads as a department code.
pub open spec fn all_codes(runs: Seq<Seq<char>>) -> bool {
    forall|i: int| 0 <= i < runs.len() ==> (#[trigger] parse_unsigned(runs[i], 0xffff)) is Some
}

/// The department codes that digit runs stand for, in order, without
/// deduplication; `Parse` where there is none, or where one is no code.
pub fn departments_from_runs(runs: &Vec<String>) -> (r: Result<Vec<u16>, ScrapeError>)
    ensures
        match r {
            Ok(v) => {
                &&& runs@.len() > 0
                &&& all_codes(strings_view(runs@))
                &&& v@.len() == runs@.len()
                &&& forall|i: int|
                    0 <= i < v@.len() ==> v@[i] as int == #[trigger] parse_unsigned(
                        runs@[i]@,
                        0xffff,
                    )->0
            },
            Err(e) => e == ScrapeError::Parse && (runs@.len() == 0 || !all_codes(
                strings_view(runs@),
            )),
        },
{
    if runs.len() == 0 {
        return Err(ScrapeError::Parse);
    }
    let ghost rv = strings_view(runs@);
    let mut out: Vec<u16> = Vec::new();
    let mut i: usize = 0;
    while i < runs.len()
        invariant
            i <= runs@.len(),
            rv == strings_view(runs@),
            out@.len() == i,
            forall|k: int| 0 <= k < i ==> (#[trigger] parse_unsigned(rv[k], 0xffff)) is Some,
            forall|k: int|
                0 <= k < i ==> out@[k] as int == #[trigger] parse_unsigned(runs@[k]@, 0xffff)->0,
        decreases runs@.len() - i,
    {
        assert(rv[i as int] == runs@[i as int]@);
        match parse_unsigned_chars(&chars_of(runs[i].as_str()), 0xffff) {
            Some(v) => {
                out.push(v as u16);
            },
            None => {
                assert(parse_unsigned(rv[i as int], 0xffff) is None);
                return Err(ScrapeError::Parse);
            },
        }
        i = i + 1;
    }
    Ok(out)
}

/// The department codes that a landing page links to, in document order.
pub fn departments_from_page(html: &str) -> (r: Result<Vec<u16>, ScrapeError>)
    ensures
        match r {
            Ok(v) => {
                &&& department_runs_of(html@).len() > 0
                &&& all_codes(department_runs_of(html@))
                &&& v@.len() == department_runs_of(html@).len()
                &&& forall|i: int|
                    0 <= i < v@.len() ==> v@[i] as int == #[trigger] parse_unsigned(
                        department_runs_of(html@)[i],
                        0xffff,
                    )->0
            },
            Err(e) => e == ScrapeError::Parse && (department_runs_of(html@).len() == 0
                || !all_codes(department_runs_of(html@))),
        },
{
    let runs = department_runs(html);
    let r = departments_from_runs(&runs);
    proof {
        assert forall|i: int| 0 <= i < runs@.len() implies strings_view(runs@)[i] == runs@[i]@ by {}
    }
    r
}

} // verus!
