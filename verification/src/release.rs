//! Reading the local Debian release from `/etc/os-release` and the current
//! `stable` / `testing` releases from the archive's `Release` files.
use vstd::prelude::*;
use crate::text::{
    chars_of, find_char, first_index, line_ranges, lines, opt_view, range_starts_with, slice_of,
    starts_with, string_of, trim, trim_char, trim_end_char, trim_range, trim_start_char,
};

verus! {

// ---------------------------------------------------------------------------
// Unsigned decimal parsing, as `str::parse::<u32>` accepts it
// ---------------------------------------------------------------------------

pub open spec fn is_digit(c: char) -> bool {
    '0' <= c && c <= '9'
}

pub open spec fn digit_value(c: char) -> nat {
    ((c as u32) - ('0' as u32)) as nat
}

/// Value of a sequence of decimal digits.
pub open spec fn digits_value(d: Seq<char>) -> nat
    decreases d.len(),
{
    if d.len() == 0 {
        0
    } else {
        digits_value(d.drop_last()) * 10 + digit_value(d.last())
    }
}

/// The digits after an optional leading `'+'`.
pub open spec fn unsigned_digits(s: Seq<char>) -> Seq<char> {
    if s.len() > 0 && s[0] == '+' {
        s.drop_first()
    } else {
        s
    }
}

/// `str::parse::<u32>`: an optional `'+'`, then one or more ASCII digits
/// whose value fits in 32 bits.
pub open spec fn parse_u32(s: Seq<char>) -> Option<u32> {
    let d = unsigned_digits(s);
    if d.len() > 0 && (forall|i: int| 0 <= i < d.len() ==> is_digit(#[trigger] d[i]))
        && digits_value(d) <= u32::MAX {
        Some(digits_value(d) as u32)
    } else {
        None
    }
}

/// Why `str::parse::<u32>` refuses a text.
#[derive(Clone, Copy, Debug, PartialEq, Eq, Structural)]
pub enum IntError {
    /// The text is empty.
    Empty,
    /// A character is not a digit (or the sign stands alone).
    InvalidDigit,
    /// The value does not fit in 32 bits.
    PosOverflow,
}

/// Index of the first character of `d` that is not a digit, or its length.
pub open spec fn first_non_digit(d: Seq<char>) -> int
    decreases d.len(),
{
    if d.len() == 0 {
        0
    } else if !is_digit(d[0]) {
        0
    } else {
        1 + first_non_digit(d.drop_first())
    }
}

/// The error of `str::parse::<u32>` on a text it refuses: digits are read
/// from the left, and the first problem met decides.
pub open spec fn u32_error(s: Seq<char>) -> IntError {
    let d = unsigned_digits(s);
    if s.len() == 0 {
        IntError::Empty
    } else if d.len() == 0 {
        IntError::InvalidDigit
    } else if digits_value(d.take(first_non_digit(d))) > u32::MAX {
        IntError::PosOverflow
    } else {
        IntError::InvalidDigit
    }
}

/// How the error displays.
pub open spec fn int_error_text(e: IntError) -> Seq<char> {
    match e {
        IntError::Empty => "cannot parse integer from empty string"@,
        IntError::InvalidDigit => "invalid digit found in string"@,
        IntError::PosOverflow => "number too large to fit in target type"@,
    }
}

pub fn int_error_str(e: IntError) -> (s: &'static str)
    ensures
        s@ == int_error_text(e),
{
    match e {
        IntError::Empty => "cannot parse integer from empty string",
        IntError::InvalidDigit => "invalid digit found in string",
        IntError::PosOverflow => "number too large to fit in target type",
    }
}

proof fn lemma_first_non_digit_is(d: Seq<char>, k: int)
    requires
        0 <= k <= d.len(),
        forall|i: int| 0 <= i < k ==> is_digit(#[trigger] d[i]),
        k < d.len() ==> !is_digit(d[k]),
    ensures
        first_non_digit(d) == k,
    decreases d.len(),
{
    if d.len() > 0 && is_digit(d[0]) {
        assert forall|i: int| 0 <= i < k - 1 implies is_digit(#[trigger] d.drop_first()[i]) by {
            assert(d.drop_first()[i] == d[i + 1]);
        }
        lemma_first_non_digit_is(d.drop_first(), k - 1);
    }
}

/// The error `str::parse::<u32>` gives on `cs[a..b]`, which it refuses.
pub fn u32_error_text(cs: &Vec<char>, a: usize, b: usize) -> (e: IntError)
    requires
        a <= b <= cs.len(),
        parse_u32(cs@.subrange(a as int, b as int)) is None,
    ensures
        e == u32_error(cs@.subrange(a as int, b as int)),
{
    let ghost s = cs@.subrange(a as int, b as int);
    if a == b {
        return IntError::Empty;
    }
    let mut start: usize = a;
    if cs[a] == '+' {
        start = a + 1;
    }
    let ghost d = unsigned_digits(s);
    proof {
        assert(d =~= cs@.subrange(start as int, b as int));
    }
    if start == b {
        return IntError::InvalidDigit;
    }
    let mut acc: u64 = 0;
    let mut overflow = false;
    let mut i: usize = start;
    while i < b && '0' <= cs[i] && cs[i] <= '9'
        invariant
            a <= start <= i <= b <= cs.len(),
            d == cs@.subrange(start as int, b as int),
            forall|t: int| 0 <= t < i - start ==> is_digit(#[trigger] d[t]),
            overflow ==> digits_value(d.take(i - start)) > u32::MAX,
            !overflow ==> acc == digits_value(d.take(i - start)) && acc <= u32::MAX,
        decreases b - i,
    {
        proof {
            assert(d[i - start] == cs@[i as int]);
            lemma_digits_value_push(d, i - start);
        }
        if !overflow {
            let c = cs[i];
            let dv: u64 = (c as u64) - ('0' as u64);
            let next: u64 = acc * 10 + dv;
            if next > 0xFFFF_FFFF {
                overflow = true;
            } else {
                acc = next;
            }
        }
        i = i + 1;
    }
    proof {
        if i < b {
            assert(d[i - start] == cs@[i as int]);
        }
        lemma_first_non_digit_is(d, i - start);
        if i == b && !overflow {
            assert(d.take(i - start) =~= d);
            assert(parse_u32(s) is Some);
        }
    }
    if overflow {
        IntError::PosOverflow
    } else {
        IntError::InvalidDigit
    }
}

/// The first piece of `s.split(c)`: everything before the first `c`.
pub open spec fn before_char(s: Seq<char>, c: char) -> Seq<char> {
    s.take(first_index(s, c))
}

proof fn lemma_digits_value_push(d: Seq<char>, i: int)
    requires
        0 <= i < d.len(),
    ensures
        digits_value(d.take(i + 1)) == digits_value(d.take(i)) * 10 + digit_value(d[i]),
{
    assert(d.take(i + 1).drop_last() =~= d.take(i));
}

/// Parses an unsigned 32-bit integer exactly as `str::parse::<u32>` accepts it.
pub fn parse_u32_text(cs: &Vec<char>, a: usize, b: usize) -> (r: Option<u32>)
    requires
        a <= b <= cs.len(),
    ensures
        r == parse_u32(cs@.subrange(a as int, b as int)),
{
    let ghost s = cs@.subrange(a as int, b as int);
    let mut start: usize = a;
    if a < b && cs[a] == '+' {
        start = a + 1;
    }
    let ghost d = unsigned_digits(s);
    proof {
        assert(d =~= cs@.subrange(start as int, b as int));
    }
    if start == b {
        return None;
    }
    let mut acc: u64 = 0;
    let mut overflow = false;
    let mut i: usize = start;
    while i < b
        invariant
            a <= start <= i <= b <= cs.len(),
            d == cs@.subrange(start as int, b as int),
            s == cs@.subrange(a as int, b as int),
            d == unsigned_digits(s),
            forall|t: int| 0 <= t < i - start ==> is_digit(#[trigger] d[t]),
            overflow ==> digits_value(d.take(i - start)) > u32::MAX,
            !overflow ==> acc == digits_value(d.take(i - start)) && acc <= u32::MAX,
        decreases b - i,
    {
        let c = cs[i];
        proof {
            assert(d[i - start] == c);
        }
        if !('0' <= c && c <= '9') {
            proof {
                let t = i - start;
                assert(!is_digit(d[t]));
                assert(!(forall|u: int| 0 <= u < d.len() ==> is_digit(#[trigger] d[u])));
                assert(parse_u32(s) is None);
            }
            return None;
        }
        proof {
            lemma_digits_value_push(d, i - start);
        }
        if !overflow {
            let dv: u64 = (c as u64) - ('0' as u64);
            let next: u64 = acc * 10 + dv;
            if next > 0xFFFF_FFFF {
                overflow = true;
            } else {
                acc = next;
            }
        }
        i = i + 1;
    }
    proof {
        assert(d.take(i - start) =~= d);
    }
    if overflow {
        None
    } else {
        Some(acc as u32)
    }
}

// ---------------------------------------------------------------------------
// /etc/os-release
// ---------------------------------------------------------------------------

/// `VERSION_ID` and the last non-empty `VERSION_CODENAME` of the lines, each
/// stripped of surrounding double quotes (a later `VERSION_ID` wins).
pub open spec fn os_release_fields(ls: Seq<Seq<char>>) -> (Option<Seq<char>>, Option<Seq<char>>)
    decreases ls.len(),
{
    if ls.len() == 0 {
        (None, None)
    } else {
        let prev = os_release_fields(ls.drop_last());
        let line = ls.last();
        let v = if starts_with(line, "VERSION_ID="@) {
            Some(trim_char(line.skip("VERSION_ID="@.len() as int), '"'))
        } else {
            prev.0
        };
        let c = if starts_with(line, "VERSION_CODENAME="@) && trim_char(
            line.skip("VERSION_CODENAME="@.len() as int),
            '"',
        ).len() > 0 {
            Some(trim_char(line.skip("VERSION_CODENAME="@.len() as int), '"'))
        } else {
            prev.1
        };
        (v, c)
    }
}

/// Why `/etc/os-release` could not give a major version.
#[derive(Clone, Copy, Debug, PartialEq, Eq, Structural)]
pub enum OsReleaseError {
    /// No `VERSION_ID=` line.
    MissingVersionId,
    /// `VERSION_ID` does not start with an unsigned integer.
    BadMajor(IntError),
}

/// The major version (digits of `VERSION_ID` before the first `.`) and the codename.
pub open spec fn os_release_spec(content: Seq<char>) -> Result<(u32, Option<Seq<char>>), OsReleaseError> {
    let f = os_release_fields(lines(content));
    match f.0 {
        None => Err(OsReleaseError::MissingVersionId),
        Some(v) => match parse_u32(before_char(v, '.')) {
            None => Err(OsReleaseError::BadMajor(u32_error(before_char(v, '.')))),
            Some(m) => Ok((m, f.1)),
        },
    }
}

/// Bounds of `trim_char(cs[a..b], c)`.
fn trim_char_range(cs: &Vec<char>, a: usize, b: usize, c: char) -> (r: (usize, usize))
    requires
        a <= b <= cs.len(),
    ensures
        a <= r.0 <= r.1 <= b,
        cs@.subrange(r.0 as int, r.1 as int) == trim_char(cs@.subrange(a as int, b as int), c),
{
    let mut i: usize = a;
    while i < b && cs[i] == c
        invariant
            a <= i <= b <= cs.len(),
            trim_start_char(cs@.subrange(i as int, b as int), c) == trim_start_char(
                cs@.subrange(a as int, b as int),
                c,
            ),
        decreases b - i,
    {
        proof {
            let s = cs@.subrange(i as int, b as int);
            assert(s.drop_first() =~= cs@.subrange(i + 1, b as int));
        }
        i = i + 1;
    }
    proof {
        let s = cs@.subrange(i as int, b as int);
        if s.len() > 0 {
            assert(s[0] == cs@[i as int]);
        }
    }
    let mut j: usize = b;
    while j > i && cs[j - 1] == c
        invariant
            a <= i <= j <= b <= cs.len(),
            trim_end_char(cs@.subrange(i as int, j as int), c) == trim_end_char(
                cs@.subrange(i as int, b as int),
                c,
            ),
        decreases j - i,
    {
        proof {
            let s = cs@.subrange(i as int, j as int);
            assert(s.drop_last() =~= cs@.subrange(i as int, j - 1));
        }
        j = j - 1;
    }
    proof {
        let s = cs@.subrange(i as int, j as int);
        if s.len() > 0 {
            assert(s.last() == cs@[j - 1]);
        }
    }
    (i, j)
}

/// Reads the local major version and codename from the text of `/etc/os-release`.
pub fn parse_os_release(content: &str) -> (r: Result<(u32, Option<String>), OsReleaseError>)
    ensures
        match os_release_spec(content@) {
            Ok((m, c)) => r matches Ok((m2, c2)) && m2 == m && opt_view(c2) == c,
            Err(e) => r == Err::<(u32, Option<String>), OsReleaseError>(e),
        },
{
    let cs = chars_of(content);
    let ranges = line_ranges(&cs);
    let ghost ls = lines(cs@);
    let p_version = chars_of("VERSION_ID=");
    let p_codename = chars_of("VERSION_CODENAME=");
    let mut version: Option<(usize, usize)> = None;
    let mut codename: Option<(usize, usize)> = None;
    let mut k: usize = 0;
    while k < ranges.len()
        invariant
            cs@ == content@,
            ls == lines(cs@),
            ranges.len() == ls.len(),
            p_version@ == "VERSION_ID="@,
            p_codename@ == "VERSION_CODENAME="@,
            forall|t: int|
                0 <= t < ranges.len() ==> (#[trigger] ranges@[t]).0 <= ranges@[t].1 <= cs.len()
                    && cs@.subrange(ranges@[t].0 as int, ranges@[t].1 as int) == ls[t],
            0 <= k <= ranges.len(),
            match version {
                None => os_release_fields(ls.take(k as int)).0 is None,
                Some((x, y)) => x <= y <= cs.len() && os_release_fields(ls.take(k as int)).0 == Some(
                    cs@.subrange(x as int, y as int),
                ),
            },
            match codename {
                None => os_release_fields(ls.take(k as int)).1 is None,
                Some((x, y)) => x <= y <= cs.len() && os_release_fields(ls.take(k as int)).1 == Some(
                    cs@.subrange(x as int, y as int),
                ),
            },
        decreases ranges.len() - k,
    {
        let (a, b) = ranges[k];
        let ghost line = ls[k as int];
        proof {
            assert(ls.take(k + 1).drop_last() =~= ls.take(k as int));
            assert(ls.take(k + 1).last() == line);
        }
        if range_starts_with(&cs, a, b, &p_version) {
            let (x, y) = trim_char_range(&cs, a + p_version.len(), b, '"');
            proof {
                assert(line.skip(p_version.len() as int) =~= cs@.subrange(
                    a + p_version.len(),
                    b as int,
                ));
            }
            version = Some((x, y));
        }
        if range_starts_with(&cs, a, b, &p_codename) {
            let (x, y) = trim_char_range(&cs, a + p_codename.len(), b, '"');
            proof {
                assert(line.skip(p_codename.len() as int) =~= cs@.subrange(
                    a + p_codename.len(),
                    b as int,
                ));
            }
            if y > x {
                codename = Some((x, y));
            }
        }
        k = k + 1;
    }
    proof {
        assert(ls.take(ranges.len() as int) =~= ls);
    }
    match version {
        None => Err(OsReleaseError::MissingVersionId),
        Some((x, y)) => {
            let dot = find_char(&cs, x, y, '.');
            proof {
                let v = cs@.subrange(x as int, y as int);
                assert(before_char(v, '.') =~= cs@.subrange(x as int, dot as int));
            }
            match parse_u32_text(&cs, x, dot) {
                None => Err(OsReleaseError::BadMajor(u32_error_text(&cs, x, dot))),
                Some(m) => {
                    let c = match codename {
                        None => None,
                        Some((u, w)) => Some(string_of(slice_of(content, u, w))),
                    };
                    Ok((m, c))
                },
            }
        },
    }
}

// ---------------------------------------------------------------------------
// dists/<suite>/Release
// ---------------------------------------------------------------------------

/// The major version (from the last `Version: ` line, whose parse may fail)
/// and the last non-empty `Codename: ` of a `Release` file.
pub open spec fn release_fields(ls: Seq<Seq<char>>) -> (Option<u32>, Option<Seq<char>>)
    decreases ls.len(),
{
    if ls.len() == 0 {
        (None, None)
    } else {
        let prev = release_fields(ls.drop_last());
        let line = ls.last();
        let m = if starts_with(line, "Version: "@) {
            parse_u32(before_char(trim(line.skip("Version: "@.len() as int)), '.'))
        } else {
            prev.0
        };
        let c = if starts_with(line, "Codename: "@) && trim(
            line.skip("Codename: "@.len() as int),
        ).len() > 0 {
            Some(trim(line.skip("Codename: "@.len() as int)))
        } else {
            prev.1
        };
        (m, c)
    }
}

/// The codename given by the first `Codename: ` line, if any.
pub open spec fn first_codename(ls: Seq<Seq<char>>) -> Option<Seq<char>>
    decreases ls.len(),
{
    if ls.len() == 0 {
        None
    } else if starts_with(ls[0], "Codename: "@) {
        Some(trim(ls[0].skip("Codename: "@.len() as int)))
    } else {
        first_codename(ls.drop_first())
    }
}

/// Reads the major version and codename of the `stable` suite from its `Release` file.
pub fn parse_stable_release(body: &str) -> (r: (Option<u32>, Option<String>))
    ensures
        r.0 == release_fields(lines(body@)).0,
        opt_view(r.1) == release_fields(lines(body@)).1,
{
    let cs = chars_of(body);
    let ranges = line_ranges(&cs);
    let ghost ls = lines(cs@);
    let p_version = chars_of("Version: ");
    let p_codename = chars_of("Codename: ");
    let mut major: Option<u32> = None;
    let mut codename: Option<(usize, usize)> = None;
    let mut k: usize = 0;
    while k < ranges.len()
        invariant
            cs@ == body@,
            ls == lines(cs@),
            ranges.len() == ls.len(),
            p_version@ == "Version: "@,
            p_codename@ == "Codename: "@,
            forall|t: int|
                0 <= t < ranges.len() ==> (#[trigger] ranges@[t]).0 <= ranges@[t].1 <= cs.len()
                    && cs@.subrange(ranges@[t].0 as int, ranges@[t].1 as int) == ls[t],
            0 <= k <= ranges.len(),
            major == release_fields(ls.take(k as int)).0,
            match codename {
                None => release_fields(ls.take(k as int)).1 is None,
                Some((x, y)) => x <= y <= cs.len() && release_fields(ls.take(k as int)).1 == Some(
                    cs@.subrange(x as int, y as int),
                ),
            },
        decreases ranges.len() - k,
    {
        let (a, b) = ranges[k];
        let ghost line = ls[k as int];
        proof {
            assert(ls.take(k + 1).drop_last() =~= ls.take(k as int));
            assert(ls.take(k + 1).last() == line);
        }
        if range_starts_with(&cs, a, b, &p_version) {
            let (x, y) = trim_range(&cs, a + p_version.len(), b);
            let dot = find_char(&cs, x, y, '.');
            proof {
                assert(line.skip(p_version.len() as int) =~= cs@.subrange(
                    a + p_version.len(),
                    b as int,
                ));
                let v = cs@.subrange(x as int, y as int);
                assert(before_char(v, '.') =~= cs@.subrange(x as int, dot as int));
            }
            major = parse_u32_text(&cs, x, dot);
        }
        if range_starts_with(&cs, a, b, &p_codename) {
            let (x, y) = trim_range(&cs, a + p_codename.len(), b);
            proof {
                assert(line.skip(p_codename.len() as int) =~= cs@.subrange(
                    a + p_codename.len(),
                    b as int,
                ));
            }
            if y > x {
                codename = Some((x, y));
            }
        }
        k = k + 1;
    }
    proof {
        assert(ls.take(ranges.len() as int) =~= ls);
    }
    let c = match codename {
        None => None,
        Some((u, w)) => Some(string_of(slice_of(body, u, w))),
    };
    (major, c)
}

proof fn lemma_first_codename_step(ls: Seq<Seq<char>>, k: int)
    requires
        0 <= k < ls.len(),
    ensures
        first_codename(ls.skip(k)) == if starts_with(ls[k], "Codename: "@) {
            Some(trim(ls[k].skip("Codename: "@.len() as int)))
        } else {
            first_codename(ls.skip(k + 1))
        },
{
    assert(ls.skip(k)[0] == ls[k]);
    assert(ls.skip(k).drop_first() =~= ls.skip(k + 1));
}

/// Reads the codename of the `testing` suite: the first `Codename: ` line, trimmed.
pub fn parse_testing_codename(body: &str) -> (r: Option<String>)
    ensures
        opt_view(r) == first_codename(lines(body@)),
{
    let cs = chars_of(body);
    let ranges = line_ranges(&cs);
    let ghost ls = lines(cs@);
    let p_codename = chars_of("Codename: ");
    let mut k: usize = 0;
    let mut found: Option<(usize, usize)> = None;
    proof {
        assert(ls.skip(0) =~= ls);
    }
    while k < ranges.len() && found.is_none()
        invariant
            cs@ == body@,
            ls == lines(cs@),
            ranges.len() == ls.len(),
            p_codename@ == "Codename: "@,
            forall|t: int|
                0 <= t < ranges.len() ==> (#[trigger] ranges@[t]).0 <= ranges@[t].1 <= cs.len()
                    && cs@.subrange(ranges@[t].0 as int, ranges@[t].1 as int) == ls[t],
            0 <= k <= ranges.len(),
            match found {
                None => first_codename(ls) == first_codename(ls.skip(k as int)),
                Some((x, y)) => x <= y <= cs.len() && first_codename(ls) == Some(
                    cs@.subrange(x as int, y as int),
                ),
            },
        decreases ranges.len() - k,
    {
        let (a, b) = ranges[k];
        proof {
            lemma_first_codename_step(ls, k as int);
        }
        if range_starts_with(&cs, a, b, &p_codename) {
            let (x, y) = trim_range(&cs, a + p_codename.len(), b);
            proof {
                assert(ls[k as int].skip(p_codename.len() as int) =~= cs@.subrange(
                    a + p_codename.len(),
                    b as int,
                ));
            }
            found = Some((x, y));
        }
        k = k + 1;
    }
    match found {
        Some((x, y)) => Some(string_of(slice_of(body, x, y))),
        None => {
            proof {
                assert(ls.skip(k as int).len() == 0);
            }
            None
        },
    }
}

} // verus!
