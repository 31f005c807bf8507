//! Text values and the search/replace engine the prompt expander is built on.
//!
//! The library works on `Vec<char>` so that every operation has an exact
//! functional specification over `Seq<char>`; `&str` and `String` appear only
//! at the crate boundary.

use vstd::prelude::*;

verus! {

/// Relies on `String::push`: appends exactly one character at the end.
#[verifier::external_body]
fn push_char(s: &mut String, c: char)
    ensures
        final(s)@ == old(s)@.push(c),
{
    s.push(c);
}

/// Collects the characters of a string slice, in order.
pub fn chars_of_str(s: &str) -> (r: Vec<char>)
    ensures
        r@ == s@,
{
    let n = s.unicode_len();
    let mut r: Vec<char> = Vec::new();
    for i in 0..n
        invariant
            n == s@.len(),
            r@ == s@.take(i as int),
    {
        r.push(s.get_char(i));
        proof {
            assert(r@ =~= s@.take(i as int + 1));
        }
    }
    proof {
        assert(r@ =~= s@);
    }
    r
}

/// Builds a `String` whose view is exactly the given character sequence.
pub fn string_of_chars(t: &Vec<char>) -> (r: String)
    ensures
        r@ == t@,
{
    let mut r = String::new();
    for i in 0..t.len()
        invariant
            r@ == t@.take(i as int),
    {
        push_char(&mut r, t[i]);
        proof {
            assert(r@ =~= t@.take(i as int + 1));
        }
    }
    proof {
        assert(r@ =~= t@);
    }
    r
}

/// The pattern `pat` occurs in `t` starting at position `i`.
pub open spec fn matches_at(t: Seq<char>, pat: Seq<char>, i: int) -> bool {
    &&& 0 <= i
    &&& i + pat.len() <= t.len()
    &&& t.subrange(i, i + pat.len()) == pat
}

/// Position of the first occurrence of `pat` in `t` at or after `from`.
pub open spec fn find_from(t: Seq<char>, pat: Seq<char>, from: int) -> Option<int>
    decreases t.len() - from,
{
    if from < 0 || from + pat.len() > t.len() {
        None
    } else if pat.len() == 0 {
        Some(from)
    } else if matches_at(t, pat, from) {
        Some(from)
    } else {
        find_from(t, pat, from + 1)
    }
}

/// Position of the first occurrence of `pat` in `t`.
pub open spec fn find_first(t: Seq<char>, pat: Seq<char>) -> Option<int> {
    find_from(t, pat, 0)
}

/// `pat` occurs somewhere in `t`.
pub open spec fn occurs(t: Seq<char>, pat: Seq<char>) -> bool {
    find_first(t, pat) is Some
}

pub proof fn lemma_find_from_bounds(t: Seq<char>, pat: Seq<char>, from: int)
    ensures
        find_from(t, pat, from) matches Some(i) ==> {
            &&& from <= i
            &&& i + pat.len() <= t.len()
            &&& matches_at(t, pat, i)
        },
    decreases t.len() - from,
{
    if from < 0 || from + pat.len() > t.len() {
    } else if pat.len() == 0 {
        assert(t.subrange(from, from) =~= pat);
    } else if matches_at(t, pat, from) {
    } else {
        lemma_find_from_bounds(t, pat, from + 1);
    }
}

/// Searching in a suffix is searching from an offset.
pub proof fn lemma_find_shift(t: Seq<char>, pat: Seq<char>, off: int, from: int)
    requires
        0 <= off <= t.len(),
        0 <= from,
    ensures
        find_from(t, pat, off + from) == match find_from(t.skip(off), pat, from) {
            Some(i) => Some(i + off),
            None => None::<int>,
        },
    decreases t.len() - from - off,
{
    let s = t.skip(off);
    if from + pat.len() > s.len() {
        assert(off + from + pat.len() > t.len());
    } else if pat.len() == 0 {
    } else {
        assert(s.subrange(from, from + pat.len()) =~= t.subrange(
            off + from,
            off + from + pat.len(),
        ));
        if matches_at(s, pat, from) {
            assert(matches_at(t, pat, off + from));
        } else {
            assert(!matches_at(t, pat, off + from));
            lemma_find_shift(t, pat, off, from + 1);
        }
    }
}

/// Every occurrence of `pat` in `t` replaced by `repl`, scanning left to
/// right over non-overlapping matches; the replacement text is not rescanned.
/// An empty pattern replaces nothing.
pub open spec fn spec_replace_all(t: Seq<char>, pat: Seq<char>, repl: Seq<char>) -> Seq<char>
    decreases t.len(),
{
    if pat.len() == 0 {
        t
    } else {
        match find_first(t, pat) {
            Some(i) => if 0 <= i && i + pat.len() <= t.len() {
                t.take(i) + repl + spec_replace_all(t.skip(i + pat.len()), pat, repl)
            } else {
                t
            },
            None => t,
        }
    }
}

/// The first occurrence of `pat` in `t` replaced by `repl`; `t` unchanged
/// when `pat` is empty or does not occur.
pub open spec fn spec_replace_first(t: Seq<char>, pat: Seq<char>, repl: Seq<char>) -> Seq<char> {
    if pat.len() == 0 {
        t
    } else {
        match find_first(t, pat) {
            Some(i) => if 0 <= i && i + pat.len() <= t.len() {
                t.take(i) + repl + t.skip(i + pat.len())
            } else {
                t
            },
            None => t,
        }
    }
}

/// `t` split on a non-empty separator; fragments between matches are kept in
/// order, so the result of splitting on a missing separator is the whole text.
/// By convention an empty separator yields the whole text as one fragment.
pub open spec fn spec_split(t: Seq<char>, sep: Seq<char>) -> Seq<Seq<char>>
    decreases t.len(),
{
    if sep.len() == 0 {
        seq![t]
    } else {
        match find_first(t, sep) {
            Some(i) => if 0 <= i && i + sep.len() <= t.len() {
                seq![t.take(i)] + spec_split(t.skip(i + sep.len()), sep)
            } else {
                seq![t]
            },
            None => seq![t],
        }
    }
}

/// The parts joined with `sep` between consecutive parts.
pub open spec fn spec_join(parts: Seq<Seq<char>>, sep: Seq<char>) -> Seq<char>
    decreases parts.len(),
{
    if parts.len() == 0 {
        Seq::empty()
    } else if parts.len() == 1 {
        parts[0]
    } else {
        spec_join(parts.drop_last(), sep) + sep + parts.last()
    }
}

/// `t` with every NUL character removed.
pub open spec fn spec_strip_nul(t: Seq<char>) -> Seq<char>
    decreases t.len(),
{
    if t.len() == 0 {
        t
    } else if t.first() == '\u{0000}' {
        spec_strip_nul(t.drop_first())
    } else {
        seq![t.first()] + spec_strip_nul(t.drop_first())
    }
}

/// Character-for-character equality of two texts.
pub fn chars_eq(a: &Vec<char>, b: &Vec<char>) -> (r: bool)
    ensures
        r == (a@ == b@),
{
    if a.len() != b.len() {
        return false;
    }
    for i in 0..a.len()
        invariant
            a@.len() == b@.len(),
            forall|m: int| 0 <= m < i ==> a@[m] == b@[m],
    {
        if a[i] != b[i] {
            return false;
        }
    }
    proof {
        assert(a@ =~= b@);
    }
    true
}

/// Whether `pat` occurs in `t` starting exactly at `i`.
pub fn starts_with_at(t: &Vec<char>, pat: &Vec<char>, i: usize) -> (b: bool)
    requires
        i <= t@.len(),
    ensures
        b == matches_at(t@, pat@, i as int),
{
    if t.len() - i < pat.len() {
        return false;
    }
    for k in 0..pat.len()
        invariant
            i + pat@.len() <= t@.len() <= usize::MAX,
            forall|m: int| 0 <= m < k ==> t@[i + m] == pat@[m],
    {
        if t[i + k] != pat[k] {
            assert(t@.subrange(i as int, i + pat@.len())[k as int] != pat@[k as int]);
            return false;
        }
    }
    proof {
        assert(t@.subrange(i as int, i + pat@.len()) =~= pat@);
    }
    true
}

/// Position of the first occurrence of `pat` in `t` at or after `from`.
pub fn find_from_exec(t: &Vec<char>, pat: &Vec<char>, from: usize) -> (r: Option<usize>)
    ensures
        match r {
            Some(i) => find_from(t@, pat@, from as int) == Some(i as int),
            None => find_from(t@, pat@, from as int) is None,
        },
{
    if pat.len() == 0 {
        if from <= t.len() {
            proof {
                assert(t@.subrange(from as int, from as int) =~= pat@);
            }
            return Some(from);
        }
        return None;
    }
    let tlen = t.len();
    let mut i = from;
    loop
        invariant
            from <= i,
            pat@.len() > 0,
            tlen == t@.len() <= usize::MAX,
            find_from(t@, pat@, from as int) == find_from(t@, pat@, i as int),
        decreases t@.len() + 1 - i,
    {
        if i > t.len() || pat.len() > t.len() - i {
            return None;
        }
        if starts_with_at(t, pat, i) {
            return Some(i);
        }
        i = i + 1;
    }
}

/// Appends `t[from..to]` onto `out`.
pub fn push_range(out: &mut Vec<char>, t: &Vec<char>, from: usize, to: usize)
    requires
        from <= to <= t@.len(),
    ensures
        final(out)@ == old(out)@ + t@.subrange(from as int, to as int),
{
    for k in from..to
        invariant
            from <= k <= to <= t@.len(),
            out@ == old(out)@ + t@.subrange(from as int, k as int),
    {
        out.push(t[k]);
        proof {
            assert(out@ =~= old(out)@ + t@.subrange(from as int, k as int + 1));
        }
    }
}

/// Appends all of `src` onto `out`.
pub fn push_all(out: &mut Vec<char>, src: &Vec<char>)
    ensures
        final(out)@ == old(out)@ + src@,
{
    push_range(out, src, 0, src.len());
    proof {
        assert(src@.subrange(0, src@.len() as int) =~= src@);
    }
}

/// Every occurrence of `pat` in `t` replaced by `repl`.
pub fn replace_all(t: &Vec<char>, pat: &Vec<char>, repl: &Vec<char>) -> (r: Vec<char>)
    ensures
        r@ == spec_replace_all(t@, pat@, repl@),
{
    if pat.len() == 0 {
        return t.clone();
    }
    let tlen = t.len();
    let mut out: Vec<char> = Vec::new();
    let mut pos: usize = 0;
    proof {
        assert(t@.skip(0) =~= t@);
    }
    loop
        invariant
            pat@.len() > 0,
            tlen == t@.len(),
            pos <= t@.len() <= usize::MAX,
            spec_replace_all(t@, pat@, repl@) == out@ + spec_replace_all(
                t@.skip(pos as int),
                pat@,
                repl@,
            ),
        decreases t@.len() - pos,
    {
        match find_from_exec(t, pat, pos) {
            None => {
                proof {
                    lemma_find_shift(t@, pat@, pos as int, 0);
                }
                push_range(&mut out, t, pos, tlen);
                proof {
                    assert(t@.subrange(pos as int, t@.len() as int) =~= t@.skip(pos as int));
                    assert(spec_replace_all(t@.skip(pos as int), pat@, repl@) == t@.skip(
                        pos as int,
                    ));
                }
                return out;
            },
            Some(i) => {
                proof {
                    lemma_find_from_bounds(t@, pat@, pos as int);
                    lemma_find_shift(t@, pat@, pos as int, 0);
                    let suffix = t@.skip(pos as int);
                    let j = i - pos;
                    assert(find_first(suffix, pat@) == Some(j));
                    assert(suffix.take(j) =~= t@.subrange(pos as int, i as int));
                    assert(suffix.skip(j + pat@.len()) =~= t@.skip(i + pat@.len()));
                }
                push_range(&mut out, t, pos, i);
                push_all(&mut out, repl);
                pos = i + pat.len();
            },
        }
    }
}

/// The first occurrence of `pat` in `t` replaced by `repl`.
pub fn replace_first(t: &Vec<char>, pat: &Vec<char>, repl: &Vec<char>) -> (r: Vec<char>)
    ensures
        r@ == spec_replace_first(t@, pat@, repl@),
{
    let tlen = t.len();
    if pat.len() == 0 {
        return t.clone();
    }
    match find_from_exec(t, pat, 0) {
        None => t.clone(),
        Some(i) => {
            proof {
                lemma_find_from_bounds(t@, pat@, 0);
            }
            let mut out: Vec<char> = Vec::new();
            push_range(&mut out, t, 0, i);
            push_all(&mut out, repl);
            push_range(&mut out, t, i + pat.len(), tlen);
            proof {
                assert(t@.subrange(0, i as int) =~= t@.take(i as int));
                assert(t@.subrange((i + pat@.len()) as int, t@.len() as int) =~= t@.skip(
                    i + pat@.len(),
                ));
            }
            out
        },
    }
}

/// Whether `pat` occurs anywhere in `t`.
pub fn contains_pat(t: &Vec<char>, pat: &Vec<char>) -> (b: bool)
    ensures
        b == occurs(t@, pat@),
{
    find_from_exec(t, pat, 0).is_some()
}

/// `t` split on `sep`.
pub fn split_by(t: &Vec<char>, sep: &Vec<char>) -> (r: Vec<Vec<char>>)
    ensures
        r.deep_view() == spec_split(t@, sep@),
{
    let mut out: Vec<Vec<char>> = Vec::new();
    if sep.len() == 0 {
        out.push(t.clone());
        proof {
            assert(out.deep_view() =~~= spec_split(t@, sep@));
        }
        return out;
    }
    let tlen = t.len();
    let mut pos: usize = 0;
    proof {
        assert(t@.skip(0) =~= t@);
        assert(out.deep_view() =~~= Seq::<Seq<char>>::empty());
    }
    loop
        invariant
            sep@.len() > 0,
            tlen == t@.len(),
            pos <= t@.len() <= usize::MAX,
            spec_split(t@, sep@) == out.deep_view() + spec_split(t@.skip(pos as int), sep@),
        decreases t@.len() - pos,
    {
        match find_from_exec(t, sep, pos) {
            None => {
                proof {
                    lemma_find_shift(t@, sep@, pos as int, 0);
                }
                let mut last: Vec<char> = Vec::new();
                push_range(&mut last, t, pos, tlen);
                proof {
                    assert(last@ =~= t@.skip(pos as int));
                }
                let ghost prev = out.deep_view();
                out.push(last);
                proof {
                    assert(out.deep_view() =~~= prev + seq![t@.skip(pos as int)]);
                    assert(spec_split(t@.skip(pos as int), sep@) =~~= seq![t@.skip(pos as int)]);
                }
                return out;
            },
            Some(i) => {
                proof {
                    lemma_find_from_bounds(t@, sep@, pos as int);
                    lemma_find_shift(t@, sep@, pos as int, 0);
                    let suffix = t@.skip(pos as int);
                    let j = i - pos;
                    assert(find_first(suffix, sep@) == Some(j));
                    assert(suffix.take(j) =~= t@.subrange(pos as int, i as int));
                    assert(suffix.skip(j + sep@.len()) =~= t@.skip(i + sep@.len()));
                }
                let mut part: Vec<char> = Vec::new();
                push_range(&mut part, t, pos, i);
                let ghost prev = out.deep_view();
                out.push(part);
                proof {
                    assert(out.deep_view() =~~= prev + seq![t@.subrange(pos as int, i as int)]);
                }
                pos = i + sep.len();
            },
        }
    }
}

/// The parts joined with `sep`.
pub fn join_with(parts: &Vec<Vec<char>>, sep: &Vec<char>) -> (r: Vec<char>)
    ensures
        r@ == spec_join(parts.deep_view(), sep@),
{
    let mut out: Vec<char> = Vec::new();
    proof {
        assert(parts.deep_view().take(0) =~~= Seq::<Seq<char>>::empty());
        assert(out@ =~= spec_join(parts.deep_view().take(0), sep@));
    }
    for i in 0..parts.len()
        invariant
            out@ == spec_join(parts.deep_view().take(i as int), sep@),
    {
        if i > 0 {
            push_all(&mut out, sep);
        }
        push_all(&mut out, &parts[i]);
        proof {
            let pv = parts.deep_view();
            assert(pv.take(i as int + 1).drop_last() =~= pv.take(i as int));
            assert(pv.take(i as int + 1).last() == pv[i as int]);
            if i == 0 {
                assert(out@ =~= spec_join(pv.take(1), sep@));
            }
        }
    }
    proof {
        assert(parts.deep_view().take(parts@.len() as int) =~= parts.deep_view());
    }
    out
}

/// `t` with every NUL character removed.
pub fn strip_nul(t: &Vec<char>) -> (r: Vec<char>)
    ensures
        r@ == spec_strip_nul(t@),
{
    let mut out: Vec<char> = Vec::new();
    proof {
        assert(t@.skip(0) =~= t@);
    }
    for i in 0..t.len()
        invariant
            spec_strip_nul(t@) == out@ + spec_strip_nul(t@.skip(i as int)),
    {
        proof {
            lemma_strip_nul_step(t@, i as int);
        }
        if t[i] != '\u{0000}' {
            out.push(t[i]);
        }
    }
    proof {
        assert(t@.skip(t@.len() as int) =~= Seq::<char>::empty());
    }
    out
}

proof fn lemma_strip_nul_step(t: Seq<char>, i: int)
    requires
        0 <= i < t.len(),
    ensures
        spec_strip_nul(t.skip(i)) == if t[i] == '\u{0000}' {
            spec_strip_nul(t.skip(i + 1))
        } else {
            seq![t[i]] + spec_strip_nul(t.skip(i + 1))
        },
{
    let s = t.skip(i);
    assert(s.len() > 0);
    assert(s.first() == t[i]);
    assert(s.drop_first() =~= t.skip(i + 1));
}

/// Numeric value of a decimal digit sequence; `None` when `t` is empty,
/// holds a non-digit, or denotes a value above `usize::MAX`.
pub open spec fn spec_parse_decimal(t: Seq<char>) -> Option<int>
    decreases t.len(),
{
    if t.len() == 0 {
        None
    } else if !('0' <= t.last() <= '9') {
        None
    } else if t.len() == 1 {
        Some(t.last() as int - '0' as int)
    } else {
        match spec_parse_decimal(t.drop_last()) {
            Some(high) => {
                let v = high * 10 + (t.last() as int - '0' as int);
                if v <= usize::MAX as int {
                    Some(v)
                } else {
                    None
                }
            },
            None => None,
        }
    }
}

/// Parses a decimal numeral.
pub fn parse_decimal(t: &Vec<char>) -> (r: Option<usize>)
    ensures
        match r {
            Some(v) => spec_parse_decimal(t@) == Some(v as int),
            None => spec_parse_decimal(t@) is None,
        },
{
    if t.len() == 0 {
        return None;
    }
    let mut acc: usize = 0;
    let mut i: usize = 0;
    while i < t.len()
        invariant
            0 <= i <= t@.len(),
            t@.len() > 0,
            i == 0 ==> acc == 0,
            i > 0 ==> spec_parse_decimal(t@.take(i as int)) == Some(acc as int),
        decreases t@.len() - i,
    {
        let c = t[i];
        if !('0' <= c && c <= '9') {
            proof {
                lemma_parse_decimal_bad(t@, i as int);
            }
            return None;
        }
        let d = (c as u32 - '0' as u32) as usize;
        proof {
            assert(t@.take(i as int + 1).drop_last() =~= t@.take(i as int));
            assert(t@.take(i as int + 1).last() == t@[i as int]);
        }
        if acc > usize::MAX / 10 || (acc == usize::MAX / 10 && d > usize::MAX % 10) {
            proof {
                assert(acc * 10 + d > usize::MAX as int) by (nonlinear_arith)
                    requires
                        d < 10,
                        acc > usize::MAX / 10 || (acc == usize::MAX / 10 && d > usize::MAX % 10),
                        usize::MAX == usize::MAX / 10 * 10 + usize::MAX % 10,
                ;
                lemma_parse_decimal_overflow(t@, i as int, acc as int, d as int);
            }
            return None;
        }
        proof {
            assert(acc * 10 + d <= usize::MAX as int) by (nonlinear_arith)
                requires
                    d < 10,
                    0 <= acc,
                    !(acc > usize::MAX / 10 || (acc == usize::MAX / 10 && d > usize::MAX % 10)),
                    usize::MAX == usize::MAX / 10 * 10 + usize::MAX % 10,
            ;
        }
        acc = acc * 10 + d;
        i = i + 1;
    }
    proof {
        assert(t@.take(t@.len() as int) =~= t@);
    }
    Some(acc)
}

/// A numeral with a non-digit at position `i` does not parse, nor does any
/// extension of it.
proof fn lemma_parse_decimal_bad(t: Seq<char>, i: int)
    requires
        0 <= i < t.len(),
        !('0' <= t[i] <= '9'),
    ensures
        spec_parse_decimal(t) is None,
    decreases t.len(),
{
    if t.len() == 0 {
    } else if i == t.len() - 1 {
    } else {
        lemma_parse_decimal_bad(t.drop_last(), i);
    }
}

/// Once the accumulated value would exceed `usize::MAX`, the parse fails,
/// however many digits follow.
proof fn lemma_parse_decimal_overflow(t: Seq<char>, i: int, acc: int, d: int)
    requires
        0 <= i < t.len(),
        i > 0 ==> spec_parse_decimal(t.take(i)) == Some(acc),
        i == 0 ==> acc == 0,
        '0' <= t[i] <= '9',
        d == t[i] as int - '0' as int,
        acc * 10 + d > usize::MAX as int,
    ensures
        spec_parse_decimal(t) is None,
    decreases t.len() - i,
{
    assert(t.take(i + 1).drop_last() =~= t.take(i));
    assert(t.take(i + 1).last() == t[i]);
    assert(spec_parse_decimal(t.take(i + 1)) is None);
    lemma_parse_decimal_none_extends(t, i + 1);
}

/// A failed parse of a prefix fails for the whole numeral.
proof fn lemma_parse_decimal_none_extends(t: Seq<char>, i: int)
    requires
        0 < i <= t.len(),
        spec_parse_decimal(t.take(i)) is None,
    ensures
        spec_parse_decimal(t) is None,
    decreases t.len() - i,
{
    if i == t.len() {
        assert(t.take(i) =~= t);
    } else {
        assert(t.take(i + 1).drop_last() =~= t.take(i));
        lemma_parse_decimal_none_extends(t, i + 1);
    }
}

/// Decimal numeral of `n`, without sign or leading zeros.
pub open spec fn spec_decimal_of(n: int) -> Seq<char>
    decreases n,
{
    if n <= 0 {
        if n == 0 {
            seq!['0']
        } else {
            Seq::empty()
        }
    } else if n < 10 {
        seq![spec_digit_char(n)]
    } else {
        spec_decimal_of(n / 10) + seq![spec_digit_char(n % 10)]
    }
}

pub open spec fn spec_digit_char(d: int) -> char {
    if d == 0 {
        '0'
    } else if d == 1 {
        '1'
    } else if d == 2 {
        '2'
    } else if d == 3 {
        '3'
    } else if d == 4 {
        '4'
    } else if d == 5 {
        '5'
    } else if d == 6 {
        '6'
    } else if d == 7 {
        '7'
    } else if d == 8 {
        '8'
    } else {
        '9'
    }
}

fn digit_char(d: usize) -> (c: char)
    requires
        d < 10,
    ensures
        c == spec_digit_char(d as int),
{
    if d == 0 {
        '0'
    } else if d == 1 {
        '1'
    } else if d == 2 {
        '2'
    } else if d == 3 {
        '3'
    } else if d == 4 {
        '4'
    } else if d == 5 {
        '5'
    } else if d == 6 {
        '6'
    } else if d == 7 {
        '7'
    } else if d == 8 {
        '8'
    } else {
        '9'
    }
}

/// Renders `n` as a decimal numeral.
pub fn decimal_of(n: usize) -> (r: Vec<char>)
    ensures
        r@ == spec_decimal_of(n as int),
    decreases n,
{
    if n < 10 {
        let mut r: Vec<char> = Vec::new();
        r.push(digit_char(n));
        proof {
            assert(r@ =~= spec_decimal_of(n as int));
        }
        r
    } else {
        let mut r = decimal_of(n / 10);
        r.push(digit_char(n % 10));
        proof {
            assert(r@ =~= spec_decimal_of(n as int));
        }
        r
    }
}

} // verus!
