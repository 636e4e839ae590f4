//! Character-sequence utilities: whitespace trimming, splitting on a
//! separator and decimal parsing, each stated over `Seq<char>`.
use vstd::prelude::*;

verus! {

/// The Unicode `White_Space` characters, which `char::is_whitespace` accepts.
pub open spec fn is_space(c: char) -> bool {
    let u = c as u32;
    (0x09 <= u && u <= 0x0d) || u == 0x20 || u == 0x85 || u == 0xa0 || u == 0x1680 || (0x2000
        <= u && u <= 0x200a) || u == 0x2028 || u == 0x2029 || u == 0x202f || u == 0x205f || u
        == 0x3000
}

/// `s` without its leading whitespace.
pub open spec fn trim_start(s: Seq<char>) -> Seq<char>
    decreases s.len(),
{
    if s.len() > 0 && is_space(s[0]) {
        trim_start(s.drop_first())
    } else {
        s
    }
}

/// `s` without its trailing whitespace.
pub open spec fn trim_end(s: Seq<char>) -> Seq<char>
    decreases s.len(),
{
    if s.len() > 0 && is_space(s.last()) {
        trim_end(s.drop_last())
    } else {
        s
    }
}

/// `s` without surrounding whitespace.
pub open spec fn trim(s: Seq<char>) -> Seq<char> {
    trim_end(trim_start(s))
}

/// `s` without its trailing `c` characters.
pub open spec fn strip_end(s: Seq<char>, c: char) -> Seq<char>
    decreases s.len(),
{
    if s.len() > 0 && s.last() == c {
        strip_end(s.drop_last(), c)
    } else {
        s
    }
}

/// Whether `sep` occurs in `s` at position `i`.
pub open spec fn occurs_at(s: Seq<char>, sep: Seq<char>, i: int) -> bool {
    0 <= i && i + sep.len() <= s.len() && s.subrange(i, i + sep.len()) == sep
}

/// The pieces of `s` between the occurrences of `sep`, found left to right
/// without overlap; always at least one piece.
pub open spec fn split(s: Seq<char>, sep: Seq<char>) -> Seq<Seq<char>>
    decreases s.len(),
{
    if sep.len() == 0 || s.len() < sep.len() {
        seq![s]
    } else if s.subrange(0, sep.len() as int) == sep {
        seq![Seq::<char>::empty()] + split(s.subrange(sep.len() as int, s.len() as int), sep)
    } else {
        let rest = split(s.drop_first(), sep);
        rest.update(0, seq![s[0]] + rest[0])
    }
}

/// The value of a string of decimal digits.
pub open spec fn digits_value(s: Seq<char>) -> int
    decreases s.len(),
{
    if s.len() == 0 {
        0
    } else {
        digits_value(s.drop_last()) * 10 + ((s.last() as u32) - 48)
    }
}

pub open spec fn is_digit(c: char) -> bool {
    '0' <= c && c <= '9'
}

pub open spec fn all_digits(s: Seq<char>) -> bool {
    forall|i: int| 0 <= i < s.len() ==> is_digit(#[trigger] s[i])
}

/// What `str::parse` gives for an unsigned type whose largest value is
/// `max`: an optional `+`, then one or more ASCII digits whose value fits.
pub open spec fn parse_unsigned(s: Seq<char>, max: int) -> Option<int> {
    let d = if s.len() > 0 && s[0] == '+' {
        s.drop_first()
    } else {
        s
    };
    if d.len() > 0 && all_digits(d) && digits_value(d) <= max {
        Some(digits_value(d))
    } else {
        None
    }
}

pub open spec fn strings_view(v: Seq<String>) -> Seq<Seq<char>> {
    v.map_values(|x: String| x@)
}

pub open spec fn chars_view(v: Seq<Vec<char>>) -> Seq<Seq<char>> {
    v.map_values(|x: Vec<char>| x@)
}

/// Relies on `str::chars`: the characters of the string, in order.
#[verifier::external_body]
pub(crate) fn chars_of(s: &str) -> (r: Vec<char>)
    ensures
        r@ == s@,
{
    s.chars().collect()
}

/// Relies on `String::from_iter`: the string made of the characters, in order.
#[verifier::external_body]
pub(crate) fn string_of(v: &Vec<char>) -> (r: String)
    ensures
        r@ == v@,
{
    v.iter().collect()
}

pub fn is_space_char(c: char) -> (r: bool)
    ensures
        r == is_space(c),
{
    let u = c as u32;
    (0x09 <= u && u <= 0x0d) || u == 0x20 || u == 0x85 || u == 0xa0 || u == 0x1680 || (0x2000
        <= u && u <= 0x200a) || u == 0x2028 || u == 0x2029 || u == 0x202f || u == 0x205f || u
        == 0x3000
}

/// The characters `s[lo..hi]`.
pub fn slice(s: &Vec<char>, lo: usize, hi: usize) -> (r: Vec<char>)
    requires
        lo <= hi <= s@.len(),
    ensures
        r@ == s@.subrange(lo as int, hi as int),
{
    let mut r: Vec<char> = Vec::new();
    let mut i: usize = lo;
    while i < hi
        invariant
            lo <= i <= hi <= s@.len(),
            r@ == s@.subrange(lo as int, i as int),
        decreases hi - i,
    {
        r.push(s[i]);
        assert(s@.subrange(lo as int, i + 1) =~= s@.subrange(lo as int, i as int).push(s@[i as int]));
        i = i + 1;
    }
    r
}

/// `s` without surrounding whitespace.
pub fn trim_chars(s: &Vec<char>) -> (r: Vec<char>)
    ensures
        r@ == trim(s@),
{
    let n = s.len();
    let mut lo: usize = 0;
    assert(s@.subrange(0, n as int) =~= s@);
    while lo < n && is_space_char(s[lo])
        invariant
            lo <= n == s@.len(),
            trim_start(s@) == trim_start(s@.subrange(lo as int, n as int)),
        decreases n - lo,
    {
        assert(s@.subrange(lo as int, n as int).drop_first() =~= s@.subrange(lo + 1, n as int));
        lo = lo + 1;
    }
    let ghost t = s@.subrange(lo as int, n as int);
    assert(trim_start(s@) == t);
    let mut hi: usize = n;
    while hi > lo && is_space_char(s[hi - 1])
        invariant
            lo <= hi <= n == s@.len(),
            t == s@.subrange(lo as int, n as int),
            trim_end(t) == trim_end(s@.subrange(lo as int, hi as int)),
        decreases hi,
    {
        assert(s@.subrange(lo as int, hi as int).drop_last() =~= s@.subrange(lo as int, hi - 1));
        hi = hi - 1;
    }
    slice(s, lo, hi)
}

/// `s` without its trailing `c` characters.
pub fn strip_end_chars(s: &Vec<char>, c: char) -> (r: Vec<char>)
    ensures
        r@ == strip_end(s@, c),
{
    let mut hi: usize = s.len();
    assert(s@.subrange(0, hi as int) =~= s@);
    while hi > 0 && s[hi - 1] == c
        invariant
            hi <= s@.len(),
            strip_end(s@, c) == strip_end(s@.subrange(0, hi as int), c),
        decreases hi,
    {
        assert(s@.subrange(0, hi as int).drop_last() =~= s@.subrange(0, hi - 1));
        hi = hi - 1;
    }
    slice(s, 0, hi)
}

/// `r` with `cur` put in front of its first piece.
pub open spec fn glue(cur: Seq<char>, r: Seq<Seq<char>>) -> Seq<Seq<char>> {
    r.update(0, cur + r[0])
}

pub proof fn lemma_split_nonempty(s: Seq<char>, sep: Seq<char>)
    ensures
        split(s, sep).len() >= 1,
    decreases s.len(),
{
    if sep.len() == 0 || s.len() < sep.len() {
    } else if s.subrange(0, sep.len() as int) == sep {
        lemma_split_nonempty(s.subrange(sep.len() as int, s.len() as int), sep);
    } else {
        lemma_split_nonempty(s.drop_first(), sep);
    }
}

pub proof fn lemma_digits_nonneg(s: Seq<char>)
    requires
        all_digits(s),
    ensures
        digits_value(s) >= 0,
    decreases s.len(),
{
    if s.len() > 0 {
        assert(all_digits(s.drop_last())) by {
            assert forall|i: int| 0 <= i < s.drop_last().len() implies is_digit(
                #[trigger] s.drop_last()[i],
            ) by {
                assert(s.drop_last()[i] == s[i]);
            }
        }
        lemma_digits_nonneg(s.drop_last());
        assert(is_digit(s[s.len() - 1]));
    }
}

/// Whether `sep` occurs in `s` at position `i`.
pub fn occurs_at_exec(s: &Vec<char>, sep: &Vec<char>, i: usize) -> (r: bool)
    requires
        i + sep@.len() <= s@.len(),
    ensures
        r == occurs_at(s@, sep@, i as int),
{
    let k = sep.len();
    let n = s.len();
    let mut j: usize = 0;
    while j < k
        invariant
            j <= k == sep@.len(),
            i + k <= n == s@.len(),
            s@.subrange(i as int, i + j) =~= sep@.subrange(0, j as int),
        decreases k - j,
    {
        if s[i + j] != sep[j] {
            assert(s@.subrange(i as int, i + k)[j as int] != sep@[j as int]);
            return false;
        }
        j = j + 1;
    }
    assert(sep@.subrange(0, k as int) =~= sep@);
    true
}

/// The pieces of `s` between the occurrences of `sep`.
pub fn split_chars(s: &Vec<char>, sep: &Vec<char>) -> (r: Vec<Vec<char>>)
    requires
        sep@.len() > 0,
    ensures
        chars_view(r@) == split(s@, sep@),
        r@.len() >= 1,
{
    let n = s.len();
    let k = sep.len();
    let mut done: Vec<Vec<char>> = Vec::new();
    let mut cur: Vec<char> = Vec::new();
    let mut i: usize = 0;
    proof {
        lemma_split_nonempty(s@, sep@);
        assert(s@.subrange(0, n as int) =~= s@);
        assert(chars_view(done@) =~= Seq::<Seq<char>>::empty());
        assert(glue(cur@, split(s@, sep@)) =~= split(s@, sep@));
        assert(split(s@, sep@) =~= chars_view(done@) + glue(cur@, split(s@, sep@)));
    }
    while i < n
        invariant
            i <= n == s@.len(),
            k == sep@.len() > 0,
            split(s@, sep@) == chars_view(done@) + glue(cur@, split(s@.subrange(i as int, n as int), sep@)),
        decreases n - i,
    {
        let ghost sub = s@.subrange(i as int, n as int);
        proof {
            lemma_split_nonempty(sub, sep@);
        }
        if k <= n - i && occurs_at_exec(s, sep, i) {
            let ghost rest = split(sub.subrange(k as int, sub.len() as int), sep@);
            proof {
                assert(sub.subrange(0, k as int) =~= s@.subrange(i as int, i + k));
                assert(sub.subrange(k as int, sub.len() as int) =~= s@.subrange(i + k, n as int));
                lemma_split_nonempty(sub.subrange(k as int, sub.len() as int), sep@);
                assert(glue(Seq::<char>::empty(), rest) =~= rest);
                assert(glue(cur@, split(sub, sep@)) =~= seq![cur@] + rest);
            }
            let c = cur;
            let ghost done0 = done@;
            done.push(c);
            cur = Vec::new();
            i = i + k;
            proof {
                assert(chars_view(done@) =~= chars_view(done0).push(c@)) by {
                    assert(chars_view(done@).len() == chars_view(done0).len() + 1);
                }
                assert(split(s@, sep@) =~= chars_view(done@) + glue(cur@, split(s@.subrange(i as int, n as int), sep@)));
            }
        } else {
            let ch = s[i];
            let ghost old_cur = cur@;
            cur.push(ch);
            proof {
                assert(sub.drop_first() =~= s@.subrange(i + 1, n as int));
                let rest = split(sub.drop_first(), sep@);
                lemma_split_nonempty(sub.drop_first(), sep@);
                if sub.len() < k {
                    assert(sub.drop_first().len() < k);
                    assert(old_cur + sub =~= cur@ + sub.drop_first());
                    assert(glue(old_cur, split(sub, sep@)) =~= glue(cur@, rest));
                } else {
                    assert(sub.subrange(0, k as int) =~= s@.subrange(i as int, i + k));
                    assert(old_cur + (seq![ch] + rest[0]) =~= cur@ + rest[0]);
                    assert(glue(old_cur, split(sub, sep@)) =~= glue(cur@, rest));
                }
            }
            i = i + 1;
        }
    }
    proof {
        assert(s@.subrange(n as int, n as int) =~= Seq::<char>::empty());
        assert(cur@ + Seq::<char>::empty() =~= cur@);
    }
    let ghost before = done@;
    done.push(cur);
    proof {
        assert(chars_view(done@) =~= split(s@, sep@));
    }
    done
}

/// What `str::parse` gives for an unsigned type whose largest value is `max`.
pub fn parse_unsigned_chars(s: &Vec<char>, max: u32) -> (r: Option<u32>)
    requires
        max <= 0xffff,
    ensures
        r is Some <==> parse_unsigned(s@, max as int) is Some,
        r is Some ==> r->0 as int == parse_unsigned(s@, max as int)->0,
{
    let n = s.len();
    let st: usize = if n > 0 && s[0] == '+' { 1 } else { 0 };
    let ghost d = s@.subrange(st as int, n as int);
    proof {
        if st == 1 {
            assert(d =~= s@.drop_first());
        } else {
            assert(d =~= s@);
        }
        assert(d == (if s@.len() > 0 && s@[0] == '+' { s@.drop_first() } else { s@ }));
    }
    if st >= n {
        return None;
    }
    let mut val: u64 = 0;
    let mut over = false;
    let mut j: usize = st;
    assert(s@.subrange(st as int, st as int) =~= Seq::<char>::empty());
    while j < n
        invariant
            st <= j <= n == s@.len(),
            max <= 0xffff,
            d == s@.subrange(st as int, n as int),
            d == (if s@.len() > 0 && s@[0] == '+' { s@.drop_first() } else { s@ }),
            all_digits(s@.subrange(st as int, j as int)),
            over ==> digits_value(s@.subrange(st as int, j as int)) > max,
            !over ==> val == digits_value(s@.subrange(st as int, j as int)) && val <= max,
        decreases n - j,
    {
        let c = s[j];
        if !('0' <= c && c <= '9') {
            assert(d[j - st] == c);
            assert(!is_digit(d[j - st]));
            assert(!all_digits(d));
            return None;
        }
        let ghost pre = s@.subrange(st as int, j as int);
        let ghost nxt = s@.subrange(st as int, j + 1);
        assert(nxt.drop_last() =~= pre);
        assert(all_digits(nxt)) by {
            assert forall|m: int| 0 <= m < nxt.len() implies is_digit(#[trigger] nxt[m]) by {
                if m < pre.len() {
                    assert(nxt[m] == pre[m]);
                }
            }
        }
        let dv = (c as u32 - 48) as u64;
        if over {
            proof {
                lemma_digits_nonneg(pre);
                let p = digits_value(pre);
                assert(p * 10 + dv >= p) by (nonlinear_arith)
                    requires p >= 0, dv >= 0;
            }
        } else {
            let nv = val * 10 + dv;
            if nv > max as u64 {
                over = true;
            } else {
                val = nv;
            }
        }
        j = j + 1;
    }
    assert(s@.subrange(st as int, n as int) == d);
    if over {
        None
    } else {
        Some(val as u32)
    }
}

} // verus!
