//! Character- and byte-level helpers shared by the parsers and writers.

use vstd::prelude::*;
use vstd::string::*;

verus! {

broadcast use vstd::string::group_string_axioms;

/// Unicode `White_Space` characters, the set that `str::trim` removes.
pub open spec fn is_ws(c: char) -> bool {
    ||| ('\u{9}' <= c && c <= '\u{d}')
    ||| c == ' '
    ||| c == '\u{85}'
    ||| c == '\u{a0}'
    ||| c == '\u{1680}'
    ||| ('\u{2000}' <= c && c <= '\u{200a}')
    ||| c == '\u{2028}'
    ||| c == '\u{2029}'
    ||| c == '\u{202f}'
    ||| c == '\u{205f}'
    ||| c == '\u{3000}'
}

/// `s` without its leading white space.
pub open spec fn trim_start(s: Seq<char>) -> Seq<char>
    decreases s.len(),
{
    if s.len() > 0 && is_ws(s[0]) {
        trim_start(s.drop_first())
    } else {
        s
    }
}

/// `s` without its trailing white space.
pub open spec fn trim_end(s: Seq<char>) -> Seq<char>
    decreases s.len(),
{
    if s.len() > 0 && is_ws(s.last()) {
        trim_end(s.drop_last())
    } else {
        s
    }
}

/// `s` without leading and trailing white space.
pub open spec fn trim(s: Seq<char>) -> Seq<char> {
    trim_end(trim_start(s))
}

/// ASCII lower-casing of one character; other characters are unchanged.
pub open spec fn lower_char(c: char) -> char {
    if 'A' <= c && c <= 'Z' {
        ((c as u8) + 32) as char
    } else {
        c
    }
}

/// ASCII lower-casing of a string.
pub open spec fn lower(s: Seq<char>) -> Seq<char> {
    s.map_values(|c: char| lower_char(c))
}

pub open spec fn is_digit(c: char) -> bool {
    '0' <= c && c <= '9'
}

pub open spec fn digit_value(c: char) -> int {
    (c as int) - ('0' as int)
}

/// The number that a string of decimal digits denotes (most significant first).
pub open spec fn digits_value(s: Seq<char>) -> int
    decreases s.len(),
{
    if s.len() == 0 {
        0
    } else {
        digits_value(s.drop_last()) * 10 + digit_value(s.last())
    }
}

/// The first index in `s` at or after `from` that holds `c`.
pub open spec fn find_from(s: Seq<char>, c: char, from: int) -> Option<int>
    decreases s.len() - from,
{
    if from < 0 || from >= s.len() {
        None
    } else if s[from] == c {
        Some(from)
    } else {
        find_from(s, c, from + 1)
    }
}

/// The characters of `s`, in order.
pub fn chars_of(s: &str) -> (out: Vec<char>)
    ensures
        out@ == s@,
{
    let mut out: Vec<char> = Vec::new();
    for c in it: s.chars()
        invariant
            out@ == it.seq().take(it.index() as int),
    {
        out.push(c);
    }
    out
}

/// `String::push`.
#[verifier::external_body]
pub(crate) fn push_char(s: &mut String, c: char)
    ensures
        final(s)@ == old(s)@.push(c),
{
    s.push(c);
}

/// A `String` holding the characters `v[from..to]`.
pub fn string_of(v: &Vec<char>, from: usize, to: usize) -> (out: String)
    requires
        from <= to <= v.len(),
    ensures
        out@ == v@.subrange(from as int, to as int),
{
    let mut out = String::new();
    let mut i = from;
    while i < to
        invariant
            from <= i <= to <= v.len(),
            out@ == v@.subrange(from as int, i as int),
        decreases to - i,
    {
        push_char(&mut out, v[i]);
        i += 1;
        assert(out@ == v@.subrange(from as int, i as int));
    }
    out
}

/// Appends the characters `v[from..to]` to `out`.
pub fn push_chars(out: &mut String, v: &Vec<char>, from: usize, to: usize)
    requires
        from <= to <= v.len(),
    ensures
        final(out)@ == old(out)@ + v@.subrange(from as int, to as int),
{
    let ghost start = out@;
    let mut i = from;
    while i < to
        invariant
            from <= i <= to <= v.len(),
            out@ == start + v@.subrange(from as int, i as int),
        decreases to - i,
    {
        push_char(out, v[i]);
        i += 1;
        assert(out@ == start + v@.subrange(from as int, i as int));
    }
}

/// A new `String` with the characters of `s`.
pub fn string_from(s: &str) -> (out: String)
    ensures
        out@ == s@,
{
    String::from_str(s)
}

/// The index of the first character of `v` that is not white space (or `v.len()`).
fn first_non_ws(v: &Vec<char>) -> (i: usize)
    ensures
        i <= v.len(),
        trim_start(v@) == v@.skip(i as int),
{
    let mut i: usize = 0;
    assert(v@.skip(0) == v@);
    while i < v.len() && is_ws_exec(v[i])
        invariant
            i <= v.len(),
            trim_start(v@) == trim_start(v@.skip(i as int)),
        decreases v.len() - i,
    {
        assert(v@.skip(i as int).drop_first() == v@.skip(i + 1));
        i += 1;
    }
    assert(v@.skip(i as int).len() > 0 ==> v@.skip(i as int)[0] == v@[i as int]);
    i
}

/// The exclusive end of `v[from..]` once trailing white space is removed.
fn last_non_ws(v: &Vec<char>, from: usize) -> (j: usize)
    requires
        from <= v.len(),
    ensures
        from <= j <= v.len(),
        trim_end(v@.skip(from as int)) == v@.subrange(from as int, j as int),
{
    let mut j: usize = v.len();
    assert(v@.skip(from as int) == v@.subrange(from as int, j as int));
    while j > from && is_ws_exec(v[j - 1])
        invariant
            from <= j <= v.len(),
            trim_end(v@.skip(from as int)) == trim_end(v@.subrange(from as int, j as int)),
        decreases j,
    {
        assert(v@.subrange(from as int, j as int).drop_last() == v@.subrange(from as int, j - 1));
        j -= 1;
    }
    j
}

/// The bounds `[i, j)` of `v` once white space is trimmed from both ends.
pub fn trim_bounds(v: &Vec<char>) -> (r: (usize, usize))
    ensures
        r.0 <= r.1 <= v.len(),
        trim(v@) == v@.subrange(r.0 as int, r.1 as int),
{
    let i = first_non_ws(v);
    let j = last_non_ws(v, i);
    (i, j)
}

pub fn is_ws_exec(c: char) -> (b: bool)
    ensures
        b == is_ws(c),
{
    ('\u{9}' <= c && c <= '\u{d}') || c == ' ' || c == '\u{85}' || c == '\u{a0}' || c == '\u{1680}'
        || ('\u{2000}' <= c && c <= '\u{200a}') || c == '\u{2028}' || c == '\u{2029}' || c
        == '\u{202f}' || c == '\u{205f}' || c == '\u{3000}'
}

pub fn lower_char_exec(c: char) -> (r: char)
    ensures
        r == lower_char(c),
{
    if 'A' <= c && c <= 'Z' {
        ((c as u8) + 32) as char
    } else {
        c
    }
}

/// Whether `v[from..to]`, ASCII lower-cased, equals `lit`.
pub fn lower_eq(v: &Vec<char>, from: usize, to: usize, lit: &str) -> (b: bool)
    requires
        from <= to <= v.len(),
    ensures
        b == (lower(v@.subrange(from as int, to as int)) == lit@),
{
    let w = chars_of(lit);
    let ghost sub = v@.subrange(from as int, to as int);
    if to - from != w.len() {
        return false;
    }
    let mut k: usize = 0;
    while k < w.len()
        invariant
            from <= to <= v.len(),
            to - from == w.len(),
            w@ == lit@,
            sub == v@.subrange(from as int, to as int),
            k <= w.len(),
            forall|m: int| 0 <= m < k ==> lower_char(#[trigger] sub[m]) == w@[m],
        decreases w.len() - k,
    {
        if lower_char_exec(v[from + k]) != w[k] {
            assert(lower(sub)[k as int] != lit@[k as int]);
            return false;
        }
        k += 1;
    }
    assert(lower(sub) =~= lit@);
    true
}

/// Whether `v[from..to]` equals `lit`.
pub fn chars_eq(v: &Vec<char>, from: usize, to: usize, lit: &str) -> (b: bool)
    requires
        from <= to <= v.len(),
    ensures
        b == (v@.subrange(from as int, to as int) == lit@),
{
    let w = chars_of(lit);
    let ghost sub = v@.subrange(from as int, to as int);
    if to - from != w.len() {
        return false;
    }
    let mut k: usize = 0;
    while k < w.len()
        invariant
            from <= to <= v.len(),
            to - from == w.len(),
            w@ == lit@,
            sub == v@.subrange(from as int, to as int),
            k <= w.len(),
            forall|m: int| 0 <= m < k ==> #[trigger] sub[m] == w@[m],
        decreases w.len() - k,
    {
        if v[from + k] != w[k] {
            assert(sub[k as int] != lit@[k as int]);
            return false;
        }
        k += 1;
    }
    assert(sub =~= lit@);
    true
}

} // verus!

verus! {

pub proof fn lemma_find_from_range(s: Seq<char>, c: char, from: int)
    ensures
        find_from(s, c, from) matches Some(j) ==> from <= j < s.len() && s[j] == c && 0 <= from && (
        forall|k: int| from <= k < j ==> s[k] != c),
        find_from(s, c, from) is None && 0 <= from ==> forall|k: int| from <= k < s.len() ==> s[k] != c,
    decreases s.len() - from,
{
    if 0 <= from < s.len() && s[from] != c {
        lemma_find_from_range(s, c, from + 1);
    }
}

} // verus!

verus! {

pub open spec fn pow10(n: nat) -> int
    decreases n,
{
    if n == 0 {
        1
    } else {
        10 * pow10((n - 1) as nat)
    }
}

pub open spec fn all_digits(s: Seq<char>) -> bool {
    forall|i: int| 0 <= i < s.len() ==> is_digit(#[trigger] s[i])
}

pub proof fn lemma_pow10_pos(n: nat)
    ensures
        pow10(n) >= 1,
    decreases n,
{
    if n > 0 {
        lemma_pow10_pos((n - 1) as nat);
    }
}

pub proof fn lemma_dv_concat(a: Seq<char>, b: Seq<char>)
    ensures
        digits_value(a + b) == digits_value(a) * pow10(b.len()) + digits_value(b),
    decreases b.len(),
{
    if b.len() == 0 {
        assert(a + b =~= a);
    } else {
        assert((a + b).drop_last() =~= a + b.drop_last());
        assert((a + b).last() == b.last());
        lemma_dv_concat(a, b.drop_last());
        let x = digits_value(a);
        let p = pow10(b.drop_last().len());
        let y = digits_value(b.drop_last());
        assert((x * p + y) * 10 == x * (10 * p) + y * 10) by (nonlinear_arith);
    }
}

pub proof fn lemma_dv_bounds(s: Seq<char>)
    requires
        all_digits(s),
    ensures
        0 <= digits_value(s) < pow10(s.len()),
    decreases s.len(),
{
    if s.len() > 0 {
        let d = s.drop_last();
        assert(all_digits(d)) by {
            assert forall|i: int| 0 <= i < d.len() implies is_digit(#[trigger] d[i]) by {
                assert(d[i] == s[i]);
            }
        }
        assert(is_digit(s[s.len() - 1]));
        lemma_dv_bounds(d);
        let v = digits_value(d);
        let p = pow10(d.len());
        let x = digit_value(s.last());
        assert(0 <= x <= 9);
        assert(v * 10 + x < 10 * p) by (nonlinear_arith)
            requires
                0 <= v < p,
                0 <= x <= 9,
        ;
        assert(v * 10 + x >= 0) by (nonlinear_arith)
            requires
                0 <= v,
                0 <= x,
        ;
    }
}

pub proof fn lemma_dv_zeros(z: Seq<char>)
    requires
        forall|i: int| 0 <= i < z.len() ==> #[trigger] z[i] == '0',
    ensures
        digits_value(z) == 0,
    decreases z.len(),
{
    if z.len() > 0 {
        let d = z.drop_last();
        assert forall|i: int| 0 <= i < d.len() implies #[trigger] d[i] == '0' by {
            assert(d[i] == z[i]);
        }
        lemma_dv_zeros(d);
        assert(z.last() == z[z.len() - 1]);
    }
}

/// A digit string whose first digit is not zero is at least 10^(len-1).
pub proof fn lemma_dv_lead(s: Seq<char>)
    requires
        all_digits(s),
        s.len() > 0,
        s[0] != '0',
    ensures
        digits_value(s) >= pow10((s.len() - 1) as nat),
{
    let a = s.take(1);
    let b = s.skip(1);
    assert(s =~= a + b);
    lemma_dv_concat(a, b);
    assert(a.drop_last() =~= seq![]);
    assert(digits_value(a.drop_last()) == 0);
    assert(a.last() == s[0]);
    assert(digits_value(a) == digit_value(s[0]));
    assert(is_digit(s[0]));
    assert(digits_value(a) >= 1);
    assert(all_digits(b)) by {
        assert forall|i: int| 0 <= i < b.len() implies is_digit(#[trigger] b[i]) by {
            assert(b[i] == s[i + 1]);
        }
    }
    lemma_dv_bounds(b);
    lemma_pow10_pos(b.len());
    let x = digits_value(a);
    let p = pow10(b.len());
    assert(x * p >= p) by (nonlinear_arith)
        requires
            x >= 1,
            p >= 1,
    ;
}

/// Of two digit strings of equal length, the one with the smaller digit at
/// the first difference has the smaller value.
pub proof fn lemma_dv_lex(s: Seq<char>, t: Seq<char>, p: int)
    requires
        all_digits(s),
        all_digits(t),
        s.len() == t.len(),
        0 <= p < s.len(),
        s.take(p) == t.take(p),
        s[p] < t[p],
    ensures
        digits_value(s) < digits_value(t),
{
    let n = s.len();
    let sa = s.take(p + 1);
    let ta = t.take(p + 1);
    let sb = s.skip(p + 1);
    let tb = t.skip(p + 1);
    assert(s =~= sa + sb);
    assert(t =~= ta + tb);
    lemma_dv_concat(sa, sb);
    lemma_dv_concat(ta, tb);
    assert(sa.drop_last() =~= s.take(p));
    assert(ta.drop_last() =~= t.take(p));
    assert(sa.last() == s[p] && ta.last() == t[p]);
    assert(digits_value(sa) + 1 <= digits_value(ta));
    assert(all_digits(sb)) by {
        assert forall|i: int| 0 <= i < sb.len() implies is_digit(#[trigger] sb[i]) by {
            assert(sb[i] == s[i + p + 1]);
        }
    }
    assert(all_digits(tb)) by {
        assert forall|i: int| 0 <= i < tb.len() implies is_digit(#[trigger] tb[i]) by {
            assert(tb[i] == t[i + p + 1]);
        }
    }
    lemma_dv_bounds(sb);
    lemma_dv_bounds(tb);
    let q = pow10(sb.len());
    let x = digits_value(sa);
    let y = digits_value(ta);
    assert(x * q + digits_value(sb) < y * q + digits_value(tb)) by (nonlinear_arith)
        requires
            x + 1 <= y,
            0 <= digits_value(sb) < q,
            0 <= digits_value(tb),
    ;
}

} // verus!

verus! {

pub proof fn lemma_pow10_mono(a: nat, b: nat)
    requires
        a <= b,
    ensures
        pow10(a) <= pow10(b),
    decreases b,
{
    if a < b {
        lemma_pow10_mono(a, (b - 1) as nat);
        lemma_pow10_pos((b - 1) as nat);
    }
}

/// Whether the digit string `v[from..to]` (no leading zero) denotes a value
/// of at least that of `lim` (a digit string without leading zero).
pub fn digits_at_least(v: &Vec<char>, from: usize, to: usize, lim: &Vec<char>) -> (b: bool)
    requires
        from <= to <= v@.len(),
        all_digits(v@.subrange(from as int, to as int)),
        from < to ==> v@[from as int] != '0',
        all_digits(lim@),
        lim@.len() > 0,
        lim@[0] != '0',
    ensures
        b == (digits_value(v@.subrange(from as int, to as int)) >= digits_value(lim@)),
{
    let ghost s = v@.subrange(from as int, to as int);
    let n = to - from;
    proof {
        lemma_dv_bounds(s);
        lemma_dv_bounds(lim@);
        lemma_dv_lead(lim@);
    }
    if n > lim.len() {
        proof {
            assert(s[0] == v@[from as int]);
            lemma_dv_lead(s);
            lemma_pow10_mono(lim@.len(), (s.len() - 1) as nat);
        }
        return true;
    }
    if n < lim.len() {
        proof {
            lemma_pow10_mono(s.len(), (lim@.len() - 1) as nat);
        }
        return false;
    }
    let mut p: usize = 0;
    while p < n
        invariant
            n == to - from == lim@.len(),
            from <= to <= v@.len(),
            s == v@.subrange(from as int, to as int),
            all_digits(s),
            all_digits(lim@),
            p <= n,
            s.take(p as int) == lim@.take(p as int),
        decreases n - p,
    {
        assert(s[p as int] == v@[from + p]);
        let a = v[from + p];
        let b = lim[p];
        if a != b {
            proof {
                if a < b {
                    lemma_dv_lex(s, lim@, p as int);
                } else {
                    lemma_dv_lex(lim@, s, p as int);
                }
            }
            return a > b;
        }
        assert(s.take(p + 1) =~= lim@.take(p + 1)) by {
            assert(s.take(p + 1) =~= s.take(p as int).push(s[p as int]));
            assert(lim@.take(p + 1) =~= lim@.take(p as int).push(lim@[p as int]));
        }
        p += 1;
    }
    assert(s =~= s.take(n as int));
    assert(lim@ =~= lim@.take(n as int));
    true
}

} // verus!

verus! {

/// A new vector with the characters `v[from..to]`.
pub fn chars_of_range(v: &Vec<char>, from: usize, to: usize) -> (out: Vec<char>)
    requires
        from <= to <= v@.len(),
    ensures
        out@ == v@.subrange(from as int, to as int),
{
    let mut out: Vec<char> = Vec::new();
    push_range_chars(&mut out, v, from, to);
    out
}

/// Appends `v[from..to]` to `out`.
pub fn push_range_chars(out: &mut Vec<char>, v: &Vec<char>, from: usize, to: usize)
    requires
        from <= to <= v@.len(),
    ensures
        final(out)@ == old(out)@ + v@.subrange(from as int, to as int),
{
    let ghost start = out@;
    let mut k = from;
    while k < to
        invariant
            from <= k <= to <= v@.len(),
            out@ == start + v@.subrange(from as int, k as int),
        decreases to - k,
    {
        out.push(v[k]);
        k += 1;
        assert(out@ =~= start + v@.subrange(from as int, k as int));
    }
}

/// The value of a digit string, or (with the flag set) a number above
/// `u64::MAX` when the value exceeds it.
pub fn digits_value_capped(v: &Vec<char>) -> (r: (u128, bool))
    requires
        all_digits(v@),
    ensures
        r.1 <==> digits_value(v@) > u64::MAX,
        !r.1 ==> r.0 == digits_value(v@),
{
    let mut acc: u128 = 0;
    let mut sat = false;
    let mut k: usize = 0;
    while k < v.len()
        invariant
            k <= v@.len(),
            all_digits(v@),
            sat <==> digits_value(v@.take(k as int)) > u64::MAX,
            !sat ==> acc == digits_value(v@.take(k as int)),
        decreases v@.len() - k,
    {
        assert(v@.take(k + 1).drop_last() =~= v@.take(k as int));
        assert(v@.take(k + 1).last() == v@[k as int]);
        assert(is_digit(v@[k as int]));
        if !sat {
            acc = acc * 10 + ((v[k] as u32) - 48) as u128;
            if acc > u64::MAX as u128 {
                sat = true;
            }
        } else {
            proof {
                lemma_dv_bounds(v@.take(k as int));
            }
        }
        k += 1;
    }
    assert(v@.take(v@.len() as int) =~= v@);
    (acc, sat)
}

} // verus!

verus! {

/// `s` with every occurrence of `pat` replaced by `rep`, matching left to
/// right without overlap (`str::replace`, for a non-empty `pat`).
pub open spec fn replace_all(s: Seq<char>, pat: Seq<char>, rep: Seq<char>) -> Seq<char>
    decreases s.len(),
{
    if pat.len() == 0 || s.len() < pat.len() {
        s
    } else if s.take(pat.len() as int) == pat {
        rep + replace_all(s.skip(pat.len() as int), pat, rep)
    } else {
        seq![s[0]] + replace_all(s.drop_first(), pat, rep)
    }
}

/// Whether `v[i..]` begins with `p`.
fn matches_at(v: &Vec<char>, i: usize, p: &Vec<char>) -> (b: bool)
    requires
        i <= v@.len(),
    ensures
        b == (p@.len() <= v@.len() - i && v@.skip(i as int).take(p@.len() as int) == p@),
{
    if p.len() > v.len() - i {
        return false;
    }
    let ghost t = v@.skip(i as int).take(p@.len() as int);
    let mut k: usize = 0;
    while k < p.len()
        invariant
            i + p@.len() <= v@.len(),
            v@.len() == v.len(),
            t == v@.skip(i as int).take(p@.len() as int),
            k <= p@.len(),
            forall|m: int| 0 <= m < k ==> #[trigger] t[m] == p@[m],
        decreases p.len() - k,
    {
        if v[i + k] != p[k] {
            assert(t[k as int] == v@[i + k]);
            return false;
        }
        k += 1;
    }
    assert(t =~= p@);
    true
}

/// `str::replace` on character vectors (for a non-empty `pat`).
pub fn replace_chars(s: &Vec<char>, pat: &Vec<char>, rep: &Vec<char>) -> (out: Vec<char>)
    ensures
        out@ == replace_all(s@, pat@, rep@),
{
    let mut out: Vec<char> = Vec::new();
    if pat.len() == 0 {
        push_range_chars(&mut out, s, 0, s.len());
        assert(s@.subrange(0, s@.len() as int) =~= s@);
        return out;
    }
    let mut i: usize = 0;
    assert(s@.skip(0) =~= s@);
    while i < s.len()
        invariant
            i <= s@.len(),
            pat@.len() > 0,
            out@ + replace_all(s@.skip(i as int), pat@, rep@) == replace_all(s@, pat@, rep@),
        decreases s@.len() - i,
    {
        let ghost rest = s@.skip(i as int);
        if matches_at(s, i, pat) {
            push_range_chars(&mut out, rep, 0, rep.len());
            assert(rep@.subrange(0, rep@.len() as int) =~= rep@);
            assert(rest.skip(pat@.len() as int) =~= s@.skip(i + pat@.len()));
            i += pat.len();
            assert(out@ + replace_all(s@.skip(i as int), pat@, rep@) =~= replace_all(s@, pat@, rep@));
        } else {
            out.push(s[i]);
            assert(rest[0] == s@[i as int]);
            assert(rest.drop_first() =~= s@.skip(i + 1));
            proof {
                if rest.len() < pat@.len() {
                    // No further match fits: the rest is copied unchanged.
                    assert(replace_all(rest, pat@, rep@) == rest);
                    assert(replace_all(rest.drop_first(), pat@, rep@) == rest.drop_first());
                    assert(rest =~= seq![rest[0]] + rest.drop_first());
                }
            }
            i += 1;
            assert(out@ + replace_all(s@.skip(i as int), pat@, rep@) =~= replace_all(s@, pat@, rep@));
        }
    }
    assert(replace_all(s@.skip(i as int), pat@, rep@) =~= seq![]);
    assert(out@ + seq![] =~= out@);
    out
}

/// The decimal digits of `n`, most significant first, without leading zeros.
pub open spec fn decimal(n: nat) -> Seq<char>
    decreases n,
{
    if n < 10 {
        seq![(n + 48) as char]
    } else {
        decimal(n / 10) + seq![((n % 10) + 48) as char]
    }
}

/// The decimal rendering of `n` (`to_string` of an unsigned integer).
pub fn decimal_chars(n: u64) -> (out: Vec<char>)
    ensures
        out@ == decimal(n as nat),
    decreases n,
{
    if n < 10 {
        let c = ((n as u8) + 48) as char;
        let v = vec![c];
        assert(v@ =~= decimal(n as nat));
        v
    } else {
        let mut v = decimal_chars(n / 10);
        let c = (((n % 10) as u8) + 48) as char;
        v.push(c);
        v
    }
}

/// A `String` with the characters of `v`.
pub fn string_of_chars(v: &Vec<char>) -> (out: String)
    ensures
        out@ == v@,
{
    let out = string_of(v, 0, v.len());
    assert(v@.subrange(0, v@.len() as int) =~= v@);
    out
}

} // verus!
