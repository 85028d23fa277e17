//! Command-line values and the small parsers behind them: output formats,
//! `--background`, `--target-size`, `--name-template`, `--jobs`.

use vstd::prelude::*;
use crate::text::{all_digits, is_ws, trim, lower, lower_char, is_digit, digit_value, digits_value, find_from, chars_of, trim_bounds, lower_eq, chars_eq, lower_char_exec, push_chars, string_from, string_of};
use vstd::string::*;

verus! {

broadcast use vstd::string::group_string_axioms;

/// An output format.
#[derive(Clone, Copy, Debug, PartialEq, Eq, Structural)]
pub enum OutputFormat {
    Jpeg,
    Png,
    Webp,
    Avif,
    Gif,
}

impl OutputFormat {
    /// The file extension written for this format.
    pub fn extension(self) -> (e: &'static str)
        ensures
            e@ == match self {
                OutputFormat::Jpeg => "jpg"@,
                OutputFormat::Png => "png"@,
                OutputFormat::Webp => "webp"@,
                OutputFormat::Avif => "avif"@,
                OutputFormat::Gif => "gif"@,
            },
    {
        match self {
            OutputFormat::Jpeg => "jpg",
            OutputFormat::Png => "png",
            OutputFormat::Webp => "webp",
            OutputFormat::Avif => "avif",
            OutputFormat::Gif => "gif",
        }
    }

    /// The format's name, as `--format` spells it.
    pub fn name(self) -> (n: &'static str)
        ensures
            n@ == match self {
                OutputFormat::Jpeg => "jpeg"@,
                OutputFormat::Png => "png"@,
                OutputFormat::Webp => "webp"@,
                OutputFormat::Avif => "avif"@,
                OutputFormat::Gif => "gif"@,
            },
    {
        match self {
            OutputFormat::Jpeg => "jpeg",
            OutputFormat::Png => "png",
            OutputFormat::Webp => "webp",
            OutputFormat::Avif => "avif",
            OutputFormat::Gif => "gif",
        }
    }

    /// Formats that keep a full alpha channel (JPEG and GIF are flattened).
    pub fn supports_alpha(self) -> (b: bool)
        ensures
            b == (self == OutputFormat::Png || self == OutputFormat::Webp || self == OutputFormat::Avif),
    {
        match self {
            OutputFormat::Png | OutputFormat::Webp | OutputFormat::Avif => true,
            _ => false,
        }
    }

    /// Formats whose quality can be searched to meet a target size (the lossy ones).
    pub fn supports_target_size(self) -> (b: bool)
        ensures
            b == (self == OutputFormat::Jpeg || self == OutputFormat::Webp || self == OutputFormat::Avif),
    {
        match self {
            OutputFormat::Jpeg | OutputFormat::Webp | OutputFormat::Avif => true,
            _ => false,
        }
    }
}

/// JPEG chroma subsampling.
#[derive(Clone, Copy, Debug, PartialEq, Eq, Structural)]
pub enum ChromaSubsampling {
    S444,
    S422,
    S420,
}

/// Resampling filter.
#[derive(Clone, Copy, Debug, PartialEq, Eq, Structural)]
pub enum Filter {
    Nearest,
    Triangle,
    CatmullRom,
    Lanczos3,
}

impl Default for Filter {
    fn default() -> (f: Self)
        ensures
            f == Filter::Lanczos3,
    {
        Filter::Lanczos3
    }
}

// ---------------------------------------------------------------- --background

pub open spec fn is_hex(c: char) -> bool {
    ('0' <= c && c <= '9') || ('a' <= c && c <= 'f') || ('A' <= c && c <= 'F')
}

pub open spec fn hex_value(c: char) -> int {
    if '0' <= c && c <= '9' {
        (c as int) - ('0' as int)
    } else if 'a' <= c && c <= 'f' {
        (c as int) - ('a' as int) + 10
    } else {
        (c as int) - ('A' as int) + 10
    }
}

pub open spec fn all_hex(h: Seq<char>) -> bool {
    forall|i: int| 0 <= i < h.len() ==> is_hex(#[trigger] h[i])
}

/// The byte written by the two hex digits `h[i]`, `h[i+1]`.
pub open spec fn hex_byte(h: Seq<char>, i: int) -> u8 {
    (hex_value(h[i]) * 16 + hex_value(h[i + 1])) as u8
}

/// The color that `parse_background` accepts `s` as: after trimming, one of
/// the names white, black, red, green (#008000), blue (any ASCII case), or
/// six hex digits with an optional leading `#`.
pub open spec fn background_spec(s: Seq<char>) -> Option<Seq<u8>> {
    let t = trim(s);
    let l = lower(t);
    if l == "white"@ {
        Some(seq![0xFFu8, 0xFF, 0xFF])
    } else if l == "black"@ {
        Some(seq![0x00u8, 0x00, 0x00])
    } else if l == "red"@ {
        Some(seq![0xFFu8, 0x00, 0x00])
    } else if l == "green"@ {
        Some(seq![0x00u8, 0x80, 0x00])
    } else if l == "blue"@ {
        Some(seq![0x00u8, 0x00, 0xFF])
    } else {
        let hex = if t.len() > 0 && t[0] == '#' { t.drop_first() } else { t };
        if hex.len() == 6 && all_hex(hex) {
            Some(seq![hex_byte(hex, 0), hex_byte(hex, 2), hex_byte(hex, 4)])
        } else {
            None
        }
    }
}

fn hex_value_exec(c: char) -> (r: Option<u8>)
    ensures
        r is Some <==> is_hex(c),
        r matches Some(v) ==> v as int == hex_value(c) && v < 16,
{
    if '0' <= c && c <= '9' {
        Some((c as u8) - 48)
    } else if 'a' <= c && c <= 'f' {
        Some((c as u8) - 97 + 10)
    } else if 'A' <= c && c <= 'F' {
        Some((c as u8) - 65 + 10)
    } else {
        None
    }
}

/// Parses a background color: `#RRGGBB`/`RRGGBB` or one of the names white,
/// black, red, green, blue (ASCII case-insensitive), surrounding white space ignored.
pub fn parse_background(s: &str) -> (r: Result<[u8; 3], String>)
    ensures
        r is Ok <==> background_spec(s@) is Some,
        r matches Ok(c) ==> c@ == background_spec(s@).unwrap(),
        r matches Err(msg) ==> msg@ == "invalid color '"@ + s@
            + "': expected #RRGGBB or one of white, black, red, green, blue"@,
{
    let v = chars_of(s);
    let (i, j) = trim_bounds(&v);
    let ghost t = v@.subrange(i as int, j as int);
    if lower_eq(&v, i, j, "white") {
        let c = [0xFFu8, 0xFF, 0xFF];
        assert(c@ =~= seq![0xFFu8, 0xFF, 0xFF]);
        return Ok(c);
    }
    if lower_eq(&v, i, j, "black") {
        let c = [0x00u8, 0x00, 0x00];
        assert(c@ =~= seq![0x00u8, 0x00, 0x00]);
        return Ok(c);
    }
    if lower_eq(&v, i, j, "red") {
        let c = [0xFFu8, 0x00, 0x00];
        assert(c@ =~= seq![0xFFu8, 0x00, 0x00]);
        return Ok(c);
    }
    if lower_eq(&v, i, j, "green") {
        let c = [0x00u8, 0x80, 0x00];
        assert(c@ =~= seq![0x00u8, 0x80, 0x00]);
        return Ok(c);
    }
    if lower_eq(&v, i, j, "blue") {
        let c = [0x00u8, 0x00, 0xFF];
        assert(c@ =~= seq![0x00u8, 0x00, 0xFF]);
        return Ok(c);
    }
    let h = if i < j && v[i] == '#' { i + 1 } else { i };
    let ghost hex = v@.subrange(h as int, j as int);
    assert(hex == (if t.len() > 0 && t[0] == '#' { t.drop_first() } else { t }));
    if j - h == 6 {
        let mut vals: Vec<u8> = Vec::new();
        let mut k: usize = 0;
        let mut ok = true;
        while k < 6
            invariant
                j - h == 6,
                h <= j <= v@.len(),
                hex == v@.subrange(h as int, j as int),
                k <= 6,
                ok ==> vals@.len() == k,
                ok ==> forall|m: int| 0 <= m < k ==> is_hex(#[trigger] hex[m]) && vals@[m] as int
                    == hex_value(hex[m]) && vals@[m] < 16,
                !ok ==> exists|m: int| 0 <= m < 6 && !is_hex(#[trigger] hex[m]),
            decreases 6 - k,
        {
            if ok {
                match hex_value_exec(v[h + k]) {
                    Some(x) => vals.push(x),
                    None => {
                        assert(hex[k as int] == v@[h + k]);
                        ok = false;
                    },
                }
            }
            k += 1;
        }
        if ok {
            let c = [vals[0] * 16 + vals[1], vals[2] * 16 + vals[3], vals[4] * 16 + vals[5]];
            assert(c@ =~= seq![hex_byte(hex, 0), hex_byte(hex, 2), hex_byte(hex, 4)]);
            return Ok(c);
        }
    }
    proof {
        assert(t == trim(s@));
        if hex.len() == 6 {
            assert(!(forall|m: int| 0 <= m < 6 ==> is_hex(#[trigger] hex[m])));
        }
    }
    let mut msg = string_from("invalid color '");
    msg.append(s);
    msg.append("': expected #RRGGBB or one of white, black, red, green, blue");
    Err(msg)
}

// ---------------------------------------------------------------- --name-template

/// The placeholders a name template may use.
pub open spec fn template_var(v: Seq<char>) -> bool {
    v == "name"@ || v == "ext"@ || v == "format"@ || v == "width"@ || v == "height"@ || v == "index"@
        || v == "parent"@
}

/// Why a name template is rejected.
pub enum TemplateFault {
    /// A `{` without a later `}`.
    Unclosed,
    /// A placeholder that is not one of the known names.
    Unknown(Seq<char>),
    /// A `}` outside a placeholder.
    Unmatched,
}

/// The first fault of the template `s` (the part not yet checked), read left to right.
pub open spec fn template_fault(s: Seq<char>) -> Option<TemplateFault>
    decreases s.len(),
{
    if s.len() == 0 {
        None
    } else if s[0] == '{' {
        proof {
            crate::text::lemma_find_from_range(s, '}', 0);
        }
        match find_from(s, '}', 0) {
            None => Some(TemplateFault::Unclosed),
            Some(e) => if !template_var(s.subrange(1, e)) {
                Some(TemplateFault::Unknown(s.subrange(1, e)))
            } else {
                template_fault(s.skip(e + 1))
            },
        }
    } else if s[0] == '}' {
        Some(TemplateFault::Unmatched)
    } else {
        template_fault(s.drop_first())
    }
}

/// The message reported for a template fault.
pub open spec fn template_message(f: TemplateFault) -> Seq<char> {
    match f {
        TemplateFault::Unclosed => "unclosed '{' in name template"@,
        TemplateFault::Unknown(v) => "unknown template placeholder '{"@ + v
            + "}' (allowed: name, ext, format, width, height, index, parent)"@,
        TemplateFault::Unmatched => "unmatched '}' in name template"@,
    }
}

proof fn lemma_find_from_skip(s: Seq<char>, c: char, i: int, k: int)
    requires
        0 <= i <= s.len(),
        0 <= k,
    ensures
        find_from(s.skip(i), c, k) == (match find_from(s, c, i + k) {
            Some(j) => Some(j - i),
            None => None,
        }),
    decreases s.len() - i - k,
{
    if i + k < s.len() {
        assert(s.skip(i)[k] == s[i + k]);
        lemma_find_from_skip(s, c, i, k + 1);
    }
}

fn find_char(v: &Vec<char>, c: char, from: usize) -> (r: Option<usize>)
    requires
        from <= v@.len(),
    ensures
        r matches Some(j) ==> find_from(v@, c, from as int) == Some(j as int) && from <= j < v@.len()
            && v@[j as int] == c,
        r is None ==> find_from(v@, c, from as int) is None,
{
    let mut j = from;
    while j < v.len()
        invariant
            from <= j <= v@.len(),
            find_from(v@, c, from as int) == find_from(v@, c, j as int),
        decreases v@.len() - j,
    {
        if v[j] == c {
            return Some(j);
        }
        j += 1;
    }
    None
}

fn is_template_var(v: &Vec<char>, from: usize, to: usize) -> (b: bool)
    requires
        from <= to <= v@.len(),
    ensures
        b == template_var(v@.subrange(from as int, to as int)),
{
    chars_eq(v, from, to, "name") || chars_eq(v, from, to, "ext") || chars_eq(v, from, to, "format")
        || chars_eq(v, from, to, "width") || chars_eq(v, from, to, "height") || chars_eq(
        v,
        from,
        to,
        "index",
    ) || chars_eq(v, from, to, "parent")
}

/// Validates a `--name-template`: every `{...}` must be a known placeholder
/// (`name`, `ext`, `format`, `width`, `height`, `index`, `parent`), and
/// braces must match. The first fault, left to right, is reported.
pub fn validate_template(template: &str) -> (r: Result<(), String>)
    ensures
        r is Ok <==> template_fault(template@) is None,
        r matches Err(msg) ==> msg@ == template_message(template_fault(template@).unwrap()),
{
    let v = chars_of(template);
    let mut i: usize = 0;
    assert(v@.skip(0) =~= v@);
    while i < v.len()
        invariant
            i <= v@.len(),
            v@ == template@,
            template_fault(v@) == template_fault(v@.skip(i as int)),
        decreases v@.len() - i,
    {
        let ghost s = v@.skip(i as int);
        assert(s[0] == v@[i as int]);
        if v[i] == '{' {
            proof {
                lemma_find_from_skip(v@, '}', i as int, 0);
            }
            let end = match find_char(&v, '}', i) {
                Some(e) => e,
                None => return Err(string_from("unclosed '{' in name template")),
            };
            assert(s.subrange(1, end - i) =~= v@.subrange(i + 1, end as int));
            if !is_template_var(&v, i + 1, end) {
                let mut msg = string_from("unknown template placeholder '{");
                push_chars(&mut msg, &v, i + 1, end);
                msg.append("}' (allowed: name, ext, format, width, height, index, parent)");
                return Err(msg);
            }
            assert(s.skip(end - i + 1) =~= v@.skip(end + 1));
            i = end + 1;
        } else if v[i] == '}' {
            return Err(string_from("unmatched '}' in name template"));
        } else {
            assert(s.drop_first() =~= v@.skip(i + 1));
            i += 1;
        }
    }
    Ok(())
}

} // verus!

verus! {

// ---------------------------------------------------------------- --target-size

/// The end of the run of digits and dots that starts at `k`.
pub open spec fn numeric_end(t: Seq<char>, k: int) -> int
    decreases t.len() - k,
{
    if k < 0 || k >= t.len() {
        t.len() as int
    } else if is_digit(t[k]) || t[k] == '.' {
        numeric_end(t, k + 1)
    } else {
        k
    }
}

/// The integer and fraction digits of a number made of digits and dots, or
/// `None` when it has more than one dot or no digit.
pub open spec fn number_parts(num: Seq<char>) -> Option<(Seq<char>, Seq<char>)> {
    match find_from(num, '.', 0) {
        None => Some((num, seq![])),
        Some(k) => {
            let f = num.skip(k + 1);
            if find_from(f, '.', 0) is Some || (k == 0 && f.len() == 0) {
                None
            } else {
                Some((num.take(k), f))
            }
        },
    }
}

/// The power of ten of a size suffix (B, K/KB, M/MB, any ASCII case, white
/// space around it ignored; none means bytes).
pub open spec fn unit_exponent(u: Seq<char>) -> Option<nat> {
    let l = lower(trim(u));
    if l == ""@ || l == "b"@ {
        Some(0)
    } else if l == "k"@ || l == "kb"@ {
        Some(3)
    } else if l == "m"@ || l == "mb"@ {
        Some(6)
    } else {
        None
    }
}

/// 2^1024 - 2^970, the least decimal value that rounds to infinity as an
/// `f64`: a size number at least this large is rejected, as the parse of the
/// number gives infinity.
pub open spec fn f64_limit_digits() -> Seq<char> {
    "179769313486231580793728971405303415079934132710037826936173778980444968292764750946649017977587207096330286416692887910946555547851940402630657488671505820681908902000708383676273854845817711531764475730270069855571366959622842914819860834936475292719074168444365510704342711559699508093042880177904174497792"@
}

/// Why a size is rejected.
pub enum SizeFault {
    MissingNumber,
    BadNumber(Seq<char>),
    Infinite,
    UnknownSuffix(Seq<char>),
}

/// How `split_size` reads `s`: the number (digits with at most one dot)
/// and the power of ten of its unit, or why it is not a size. The number's
/// value as an `f64` times the unit, rounded, is the byte count; that
/// arithmetic is floating point and is not done here.
pub open spec fn size_split_spec(s: Seq<char>) -> Result<(Seq<char>, nat), SizeFault> {
    let t = trim(s);
    let n = numeric_end(t, 0);
    let num = t.take(n);
    let unit = t.skip(n);
    if n == 0 {
        Err(SizeFault::MissingNumber)
    } else {
        match number_parts(num) {
            None => Err(SizeFault::BadNumber(num)),
            Some((ip, fp)) => if digits_value(ip) >= digits_value(f64_limit_digits()) {
                Err(SizeFault::Infinite)
            } else {
                match unit_exponent(unit) {
                    None => Err(SizeFault::UnknownSuffix(lower(trim(unit)))),
                    Some(e) => Ok((num, e)),
                }
            },
        }
    }
}

/// The message reported for a size fault of input `s`.
pub open spec fn size_message(s: Seq<char>, f: SizeFault) -> Seq<char> {
    match f {
        SizeFault::MissingNumber => "invalid size '"@ + s + "': missing number"@,
        SizeFault::BadNumber(num) => "invalid size number: '"@ + num + "'"@,
        SizeFault::Infinite => "invalid size '"@ + s + "'"@,
        SizeFault::UnknownSuffix(u) => "unknown size suffix '"@ + u + "' (use B, K/KB or M/MB)"@,
    }
}

proof fn lemma_limit_digits()
    ensures
        all_digits(f64_limit_digits()),
        f64_limit_digits().len() == 309,
        f64_limit_digits()[0] == '1',
{
    reveal_strlit("179769313486231580793728971405303415079934132710037826936173778980444968292764750946649017977587207096330286416692887910946555547851940402630657488671505820681908902000708383676273854845817711531764475730270069855571366959622842914819860834936475292719074168444365510704342711559699508093042880177904174497792");
}

pub open spec fn digits_from(v: Seq<char>, from: int, to: int) -> bool {
    forall|k: int| from <= k < to ==> is_digit(#[trigger] v[k])
}
} // verus!

verus! {

fn find_char_between(v: &Vec<char>, c: char, from: usize, to: usize) -> (r: Option<usize>)
    requires
        from <= to <= v@.len(),
    ensures
        r matches Some(j) ==> from <= j < to && find_from(v@.subrange(from as int, to as int), c, 0) == Some(
            j - from,
        ),
        r is None ==> find_from(v@.subrange(from as int, to as int), c, 0) is None,
{
    let ghost s = v@.subrange(from as int, to as int);
    let mut j = from;
    while j < to
        invariant
            from <= j <= to <= v@.len(),
            s == v@.subrange(from as int, to as int),
            find_from(s, c, 0) == find_from(s, c, j - from),
        decreases to - j,
    {
        assert(s[j - from] == v@[j as int]);
        if v[j] == c {
            return Some(j);
        }
        j += 1;
    }
    None
}

/// `lower(v[from..to])` as a new `String`.
fn lowered_string(v: &Vec<char>, from: usize, to: usize) -> (out: String)
    requires
        from <= to <= v@.len(),
    ensures
        out@ == lower(v@.subrange(from as int, to as int)),
{
    let mut out = String::new();
    let mut k = from;
    while k < to
        invariant
            from <= k <= to <= v@.len(),
            out@ == lower(v@.subrange(from as int, k as int)),
        decreases to - k,
    {
        crate::text::push_char(&mut out, lower_char_exec(v[k]));
        k += 1;
        assert(out@ =~= lower(v@.subrange(from as int, k as int)));
    }
    out
}

/// The end of the leading run of digits and dots of `v[i..j]`.
fn numeric_prefix(v: &Vec<char>, i: usize, j: usize) -> (n: usize)
    requires
        i <= j <= v@.len(),
    ensures
        i <= n <= j,
        numeric_end(v@.subrange(i as int, j as int), 0) == n - i,
        forall|k: int| i <= k < n ==> is_digit(#[trigger] v@[k]) || v@[k] == '.',
{
    let ghost t = v@.subrange(i as int, j as int);
    let mut n = i;
    while n < j && (('0' <= v[n] && v[n] <= '9') || v[n] == '.')
        invariant
            i <= n <= j <= v@.len(),
            t == v@.subrange(i as int, j as int),
            numeric_end(t, 0) == numeric_end(t, n - i),
            forall|k: int| i <= k < n ==> is_digit(#[trigger] v@[k]) || v@[k] == '.',
        decreases j - n,
    {
        assert(t[n - i] == v@[n as int]);
        n += 1;
    }
    assert(n < j ==> t[n - i] == v@[n as int]);
    n
}

/// Splits the number `v[i..n]` (digits and dots) into integer digits
/// `[i, ip_end)` and fraction digits `[fp_start, n)`.
fn split_number(v: &Vec<char>, i: usize, n: usize) -> (r: Option<(usize, usize)>)
    requires
        i < n <= v@.len(),
        forall|k: int| i <= k < n ==> is_digit(#[trigger] v@[k]) || v@[k] == '.',
    ensures
        r is None <==> number_parts(v@.subrange(i as int, n as int)) is None,
        r matches Some((a, b)) ==> i <= a <= b <= n && number_parts(v@.subrange(i as int, n as int))
            == Some((v@.subrange(i as int, a as int), v@.subrange(b as int, n as int))) && all_digits(
            v@.subrange(i as int, a as int),
        ) && all_digits(v@.subrange(b as int, n as int)),
{
    let ghost num = v@.subrange(i as int, n as int);
    proof {
        crate::text::lemma_find_from_range(num, '.', 0);
    }
    match find_char_between(&v, '.', i, n) {
        None => {
            assert(all_digits(num)) by {
                assert forall|k: int| 0 <= k < num.len() implies is_digit(#[trigger] num[k]) by {
                    assert(num[k] == v@[i + k]);
                }
            }
            assert(v@.subrange(n as int, n as int) =~= seq![]);
            Some((n, n))
        },
        Some(k) => {
            let second = find_char_between(&v, '.', k + 1, n);
            let ghost f = num.skip(k - i + 1);
            assert(f =~= v@.subrange(k + 1, n as int));
            if second.is_some() || (k == i && k + 1 == n) {
                return None;
            }
            proof {
                crate::text::lemma_find_from_range(f, '.', 0);
            }
            assert(num.take(k - i) =~= v@.subrange(i as int, k as int));
            let ghost ip = v@.subrange(i as int, k as int);
            assert(all_digits(ip)) by {
                assert forall|m: int| 0 <= m < ip.len() implies is_digit(#[trigger] ip[m]) by {
                    assert(ip[m] == v@[i + m]);
                    assert(num[m] == v@[i + m]);
                }
            }
            assert(all_digits(f)) by {
                assert forall|m: int| 0 <= m < f.len() implies is_digit(#[trigger] f[m]) by {
                    assert(f[m] == v@[k + 1 + m]);
                }
            }
            Some((k, k + 1))
        },
    }
}

/// Whether the integer digits `v[i..ip_end]` reach the `f64` overflow limit.
fn too_large(v: &Vec<char>, i: usize, ip_end: usize) -> (b: bool)
    requires
        i <= ip_end <= v@.len(),
        all_digits(v@.subrange(i as int, ip_end as int)),
    ensures
        b == (digits_value(v@.subrange(i as int, ip_end as int)) >= digits_value(f64_limit_digits())),
{
    let ghost ip = v@.subrange(i as int, ip_end as int);
    let mut z = i;
    while z < ip_end && v[z] == '0'
        invariant
            i <= z <= ip_end <= v@.len(),
            forall|k: int| i <= k < z ==> #[trigger] v@[k] == '0',
        decreases ip_end - z,
    {
        z += 1;
    }
    let lim = chars_of("179769313486231580793728971405303415079934132710037826936173778980444968292764750946649017977587207096330286416692887910946555547851940402630657488671505820681908902000708383676273854845817711531764475730270069855571366959622842914819860834936475292719074168444365510704342711559699508093042880177904174497792");
    proof {
        lemma_limit_digits();
        let zs = v@.subrange(i as int, z as int);
        let sig = v@.subrange(z as int, ip_end as int);
        assert(ip =~= zs + sig);
        crate::text::lemma_dv_concat(zs, sig);
        assert forall|k: int| 0 <= k < zs.len() implies #[trigger] zs[k] == '0' by {
            assert(zs[k] == v@[i + k]);
        }
        crate::text::lemma_dv_zeros(zs);
        assert(all_digits(sig)) by {
            assert forall|k: int| 0 <= k < sig.len() implies is_digit(#[trigger] sig[k]) by {
                assert(sig[k] == ip[z - i + k]);
            }
        }
    }
    crate::text::digits_at_least(v, z, ip_end, &lim)
}

/// The power of ten of the unit `u` (see `unit_exponent`).
fn unit_exp_exec(u: &Vec<char>) -> (r: Option<usize>)
    ensures
        r is Some <==> unit_exponent(u@) is Some,
        r matches Some(e) ==> unit_exponent(u@) == Some(e as nat) && e <= 6,
{
    let (ua, ub) = trim_bounds(u);
    if lower_eq(u, ua, ub, "") || lower_eq(u, ua, ub, "b") {
        Some(0)
    } else if lower_eq(u, ua, ub, "k") || lower_eq(u, ua, ub, "kb") {
        Some(3)
    } else if lower_eq(u, ua, ub, "m") || lower_eq(u, ua, ub, "mb") {
        Some(6)
    } else {
        None
    }
}

/// Splits a human size like `200KB`, `1.5MB`, `500K`, `1048576` into its
/// number and the power of ten of its SI unit (B: 0, K/KB: 3, M/MB: 6);
/// white space around the size and between number and suffix is ignored.
/// A number too large for an `f64` (its parse gives infinity) is refused.
pub fn split_size(s: &str) -> (r: Result<(String, u8), String>)
    ensures
        r is Ok <==> size_split_spec(s@) is Ok,
        r matches Ok((num, e)) ==> size_split_spec(s@) == Ok::<(Seq<char>, nat), SizeFault>((num@, e as nat)),
        r matches Err(msg) ==> msg@ == size_message(s@, size_split_spec(s@)->Err_0),
{
    let v = chars_of(s);
    let (i, j) = trim_bounds(&v);
    let ghost t = v@.subrange(i as int, j as int);
    let n = numeric_prefix(&v, i, j);
    assert(t.take(n - i) =~= v@.subrange(i as int, n as int));
    assert(t.skip(n - i) =~= v@.subrange(n as int, j as int));
    if n == i {
        let mut msg = string_from("invalid size '");
        msg.append(s);
        msg.append("': missing number");
        return Err(msg);
    }
    let (ip_end, _fp_start) = match split_number(&v, i, n) {
        Some(p) => p,
        None => {
            let mut msg = string_from("invalid size number: '");
            push_chars(&mut msg, &v, i, n);
            msg.append("'");
            return Err(msg);
        },
    };
    // Too large for an f64: the parse gives infinity.
    if too_large(&v, i, ip_end) {
        let mut msg = string_from("invalid size '");
        msg.append(s);
        msg.append("'");
        return Err(msg);
    }
    let u = crate::text::chars_of_range(&v, n, j);
    let e = match unit_exp_exec(&u) {
        Some(e) => e,
        None => {
            let (ua, ub) = trim_bounds(&u);
            let mut msg = string_from("unknown size suffix '");
            let l = lowered_string(&u, ua, ub);
            msg.append(l.as_str());
            msg.append("' (use B, K/KB or M/MB)");
            return Err(msg);
        },
    };
    let mut num = String::new();
    push_chars(&mut num, &v, i, n);
    Ok((num, e as u8))
}

proof fn lemma_find_from_none(s: Seq<char>, c: char, from: int, k: int)
    requires
        0 <= from <= k < s.len(),
        s[k] == c,
    ensures
        find_from(s, c, from) is Some,
    decreases k - from,
{
    if s[from] != c {
        lemma_find_from_none(s, c, from + 1, k);
    }
}

} // verus!

verus! {

// ---------------------------------------------------------------- --jobs

/// Value of `--jobs`: an explicit worker count, or `auto` for all CPU cores.
#[derive(Clone, Copy, Debug, PartialEq, Eq, Structural)]
pub enum Jobs {
    Auto,
    N(usize),
}

/// What `usize` parsing accepts: an optional `+`, then one or more decimal
/// digits, the value at most `usize::MAX`.
pub open spec fn usize_spec(s: Seq<char>) -> Option<int> {
    let d = if s.len() > 0 && s[0] == '+' { s.drop_first() } else { s };
    if d.len() > 0 && all_digits(d) && digits_value(d) <= usize::MAX {
        Some(digits_value(d))
    } else {
        None
    }
}

/// What `--jobs` accepts: `auto` (any ASCII case) or a number of at least 1.
pub open spec fn jobs_spec(s: Seq<char>) -> Option<Jobs> {
    if lower(s) == "auto"@ {
        Some(Jobs::Auto)
    } else {
        match usize_spec(s) {
            Some(n) => if n >= 1 {
                Some(Jobs::N(n as usize))
            } else {
                None
            },
            None => None,
        }
    }
}

/// Parses a `--jobs` value.
pub fn parse_jobs(s: &str) -> (r: Result<Jobs, String>)
    ensures
        r is Ok <==> jobs_spec(s@) is Some,
        r matches Ok(j) ==> jobs_spec(s@) == Some(j),
        r matches Err(msg) ==> msg@ == "invalid jobs value `"@ + s@ + "`: expected `auto` or a number >= 1"@,
{
    let v = chars_of(s);
    if lower_eq(&v, 0, v.len(), "auto") {
        assert(v@.subrange(0, v@.len() as int) =~= v@);
        return Ok(Jobs::Auto);
    }
    assert(v@.subrange(0, v@.len() as int) =~= v@);
    let start: usize = if v.len() > 0 && v[0] == '+' { 1 } else { 0 };
    let ghost d = v@.subrange(start as int, v@.len() as int);
    assert(d == (if s@.len() > 0 && s@[0] == '+' { s@.drop_first() } else { s@ }));
    let mut ok = start < v.len();
    let mut k = start;
    while k < v.len()
        invariant
            start <= k <= v@.len(),
            d == v@.subrange(start as int, v@.len() as int),
            ok == (start < v@.len() && forall|m: int| start <= m < k ==> is_digit(#[trigger] v@[m])),
        decreases v@.len() - k,
    {
        if !('0' <= v[k] && v[k] <= '9') {
            ok = false;
        }
        k += 1;
    }
    if ok {
        assert(all_digits(d)) by {
            assert forall|m: int| 0 <= m < d.len() implies is_digit(#[trigger] d[m]) by {
                assert(d[m] == v@[start + m]);
            }
        }
        let digits = crate::text::chars_of_range(&v, start, v.len());
        let (acc, sat) = crate::text::digits_value_capped(&digits);
        if !sat && acc <= usize::MAX as u128 && acc >= 1 {
            return Ok(Jobs::N(acc as usize));
        }
    } else {
        proof {
            if d.len() > 0 {
                let m = choose|m: int| start <= m < v@.len() && !is_digit(#[trigger] v@[m]);
                assert(d[m - start] == v@[m]);
            }
        }
    }
    let mut msg = string_from("invalid jobs value `");
    msg.append(s);
    msg.append("`: expected `auto` or a number >= 1");
    Err(msg)
}

impl std::str::FromStr for Jobs {
    type Err = String;

    fn from_str(s: &str) -> (r: Result<Self, Self::Err>)
        ensures
            r is Ok <==> jobs_spec(s@) is Some,
            r matches Ok(j) ==> jobs_spec(s@) == Some(j),
            r matches Err(msg) ==> msg@ == "invalid jobs value `"@ + s@ + "`: expected `auto` or a number >= 1"@,
    {
        parse_jobs(s)
    }
}

} // verus!
