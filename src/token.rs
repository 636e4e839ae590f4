//! Deriving the session token: the landing page's inline script is found
//! and rewritten, in two stages, into functions that return the token.
use vstd::prelude::*;
use crate::model::ScrapeError;
use crate::text::{chars_of, chars_view, occurs_at, split, split_chars, string_of};

verus! {

/// The name of the function that the first-stage program defines.
pub const TOKEN_FUNCTION: &'static str = "get_token";

/// The name of the function that the second-stage program defines.
pub const COOKIE_FUNCTION: &'static str = "get_cookie";

/// The pieces joined back together with `sep` between each two.
pub open spec fn join(pieces: Seq<Seq<char>>, sep: Seq<char>) -> Seq<char>
    decreases pieces.len(),
{
    if pieces.len() == 0 {
        Seq::empty()
    } else if pieces.len() == 1 {
        pieces[0]
    } else {
        join(pieces.drop_last(), sep) + sep + pieces.last()
    }
}

/// `s` with every occurrence of `from`, found left to right without
/// overlap, replaced by `to`.
pub open spec fn replace(s: Seq<char>, from: Seq<char>, to: Seq<char>) -> Seq<char> {
    join(split(s, from), to)
}

/// The first-stage program: the page's script with its final call replaced
/// by a return of the generated text, opened as a function body.
pub open spec fn stage_one(script: Seq<char>) -> Seq<char> {
    "function get_token() {"@ + replace(script, "e(r);"@, ";return r}"@)
}

/// The second-stage program: the generated text with its cookie write made a
/// local variable and its reload removed, wrapped in a function that returns
/// that variable.
pub open spec fn stage_two(generated: Seq<char>) -> Seq<char> {
    "function get_cookie() {"@ + replace(
        replace(generated, "document.cookie"@, "var cookie"@),
        "location.reload();"@,
        ""@,
    ) + ";return cookie}"@
}

pub open spec fn script_open() -> Seq<char> {
    "<script>"@
}

pub open spec fn script_close() -> Seq<char> {
    "</script>"@
}

/// An inline script block: `<script>` at `i`, and `</script>` at `j` after it.
pub open spec fn script_span(h: Seq<char>, i: int, j: int) -> bool {
    occurs_at(h, script_open(), i) && i + script_open().len() <= j && occurs_at(
        h,
        script_close(),
        j,
    )
}

/// The first inline script block: the one that opens first, and of those
/// the shortest.
pub open spec fn first_script_span(h: Seq<char>, i: int, j: int) -> bool {
    script_span(h, i, j) && forall|i2: int, j2: int| #[trigger]
        script_span(h, i2, j2) ==> (i < i2 || (i == i2 && j <= j2))
}

/// Relies on regex's `Regex::captures` with `<script>([\s\S]*?)</script>`:
/// the leftmost match, and at that start the shortest, since the repetition
/// is lazy; `[\s\S]` takes every character.
#[verifier::external_body]
fn first_script_block(html: &str) -> (r: Option<String>)
    ensures
        match r {
            Some(s) => exists|i: int, j: int|
                first_script_span(html@, i, j) && s@ == html@.subrange(i + 8, j),
            None => forall|i: int, j: int| !script_span(html@, i, j),
        },
{
    let re = regex::Regex::new(r"<script>([\s\S]*?)</script>").unwrap();
    re.captures(html).map(|c| c[1].to_string())
}

/// The text of the page's first inline script block, or `Parse` where it has
/// none.
pub fn landing_script(html: &str) -> (r: Result<String, ScrapeError>)
    ensures
        match r {
            Ok(s) => exists|i: int, j: int|
                first_script_span(html@, i, j) && s@ == html@.subrange(i + 8, j),
            Err(e) => e == ScrapeError::Parse && forall|i: int, j: int| !script_span(html@, i, j),
        },
{
    match first_script_block(html) {
        Some(s) => Ok(s),
        None => Err(ScrapeError::Parse),
    }
}

fn push_all(out: &mut Vec<char>, x: &Vec<char>)
    ensures
        final(out)@ == old(out)@ + x@,
{
    let mut i: usize = 0;
    while i < x.len()
        invariant
            i <= x@.len(),
            out@ == old(out)@ + x@.subrange(0, i as int),
        decreases x@.len() - i,
    {
        out.push(x[i]);
        assert(x@.subrange(0, i + 1) =~= x@.subrange(0, i as int).push(x@[i as int]));
        i = i + 1;
    }
    assert(x@.subrange(0, x@.len() as int) =~= x@);
}

/// `s` with every occurrence of `from` replaced by `to`.
pub fn replace_chars(s: &Vec<char>, from: &Vec<char>, to: &Vec<char>) -> (r: Vec<char>)
    requires
        from@.len() > 0,
    ensures
        r@ == replace(s@, from@, to@),
{
    let pieces = split_chars(s, from);
    let ghost pv = chars_view(pieces@);
    let mut out: Vec<char> = Vec::new();
    push_all(&mut out, &pieces[0]);
    let mut i: usize = 1;
    assert(pv.subrange(0, 1).drop_last().len() == 0);
    assert(out@ =~= pieces@[0]@);
    while i < pieces.len()
        invariant
            1 <= i <= pieces@.len(),
            pv == chars_view(pieces@),
            out@ == join(pv.subrange(0, i as int), to@),
        decreases pieces@.len() - i,
    {
        assert(pv.subrange(0, i + 1).drop_last() =~= pv.subrange(0, i as int));
        assert(pv[i as int] == pieces@[i as int]@);
        push_all(&mut out, to);
        push_all(&mut out, &pieces[i]);
        i = i + 1;
    }
    assert(pv.subrange(0, pv.len() as int) =~= pv);
    out
}

/// The first-stage program for a landing-page script.
pub fn token_program(script: &str) -> (r: String)
    ensures
        r@ == stage_one(script@),
{
    proof {
        reveal_strlit("e(r);");
    }
    let body = replace_chars(&chars_of(script), &chars_of("e(r);"), &chars_of(";return r}"));
    let mut out = chars_of("function get_token() {");
    push_all(&mut out, &body);
    string_of(&out)
}

/// The second-stage program for the text that the first stage returned.
pub fn cookie_program(generated: &str) -> (r: String)
    ensures
        r@ == stage_two(generated@),
{
    proof {
        reveal_strlit("document.cookie");
        reveal_strlit("location.reload();");
    }
    let a = replace_chars(
        &chars_of(generated),
        &chars_of("document.cookie"),
        &chars_of("var cookie"),
    );
    let b = replace_chars(&a, &chars_of("location.reload();"), &chars_of(""));
    let mut out = chars_of("function get_cookie() {");
    push_all(&mut out, &b);
    push_all(&mut out, &chars_of(";return cookie}"));
    string_of(&out)
}

} // verus!
