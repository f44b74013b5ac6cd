//! Tolerant version parsing with a total order.
//!
//! Registry version strings are not reliably strict three-component
//! versions, so parsing tries an ordered chain of forms and never fails:
//! strict `major.minor.patch[-prerelease]`, then `major.minor.patch.mini`
//! (the fourth numeric component folded into the prerelease slot), then
//! `major.minor-prerelease`, then `major.minor`, and finally a `0.0.0`
//! fallback. The source text is always kept verbatim, since it is the
//! authoritative identifier for registry downloads.

use vstd::prelude::*;

use crate::text::find_char;
use crate::text::lemma_text_lt_trichotomy;
use crate::text::lemma_text_lt_transitive;
use crate::text::text_lt;
use crate::text::text_less;
use crate::text::find_char_from;
use crate::text::lemma_find_char;

verus! {

/// A decimal digit.
pub open spec fn is_digit(c: char) -> bool {
    '0' <= c && c <= '9'
}

/// The numeric value of one decimal digit.
pub open spec fn digit_val(c: char) -> nat {
    (c as int - '0' as int) as nat
}

/// A nonempty sequence of decimal digits.
pub open spec fn is_digits(s: Seq<char>) -> bool {
    s.len() > 0 && forall|i: int| 0 <= i < s.len() ==> is_digit(#[trigger] s[i])
}

/// The numeric value of a digit sequence, most significant digit first.
pub open spec fn digits_val(s: Seq<char>) -> nat
    decreases s.len(),
{
    if s.len() == 0 {
        0
    } else {
        digits_val(s.drop_last()) * 10 + digit_val(s.last())
    }
}

/// Whether a digit sequence's value fits a 64-bit component.
pub open spec fn fits_u64(s: Seq<char>) -> bool {
    digits_val(s) <= u64::MAX
}

/// The comparable form of a version: three numeric components and a
/// prerelease tag compared as text.
#[verifier::ext_equal]
pub struct Ordinal {
    pub major: nat,
    pub minor: nat,
    pub patch: nat,
    pub prerelease: Seq<char>,
}

/// The parts a version string splits into at its first dot, second dot
/// and first following dash: `(major, minor, patch, prerelease)`.
/// Meaningful only where the corresponding match predicate holds.
pub open spec fn strict3_parts(s: Seq<char>) -> (Seq<char>, Seq<char>, Seq<char>, Seq<char>) {
    let i1 = find_char(s, '.');
    let r1 = s.skip(i1 + 1);
    let i2 = find_char(r1, '.');
    let r2 = r1.skip(i2 + 1);
    let i3 = find_char(r2, '-');
    (
        s.take(i1),
        r1.take(i2),
        r2.take(i3),
        if i3 < r2.len() {
            r2.skip(i3 + 1)
        } else {
            Seq::<char>::empty()
        },
    )
}

/// Strict form: `major.minor.patch`, optionally `-prerelease` after.
pub open spec fn matches_strict3(s: Seq<char>) -> bool {
    let i1 = find_char(s, '.');
    let r1 = s.skip(i1 + 1);
    let i2 = find_char(r1, '.');
    let r2 = r1.skip(i2 + 1);
    let i3 = find_char(r2, '-');
    let (a, b, c, _) = strict3_parts(s);
    i1 < s.len() && i2 < r1.len() && is_digits(a) && fits_u64(a) && is_digits(b) && fits_u64(b)
        && is_digits(c) && fits_u64(c)
}

/// The parts of a four-component version `major.minor.patch.mini`.
pub open spec fn four_parts(s: Seq<char>) -> (Seq<char>, Seq<char>, Seq<char>, Seq<char>) {
    let i1 = find_char(s, '.');
    let r1 = s.skip(i1 + 1);
    let i2 = find_char(r1, '.');
    let r2 = r1.skip(i2 + 1);
    let i3 = find_char(r2, '.');
    (s.take(i1), r1.take(i2), r2.take(i3), r2.skip(i3 + 1))
}

/// Four-component form: `major.minor.patch.mini`, all numeric.
pub open spec fn matches_four(s: Seq<char>) -> bool {
    let i1 = find_char(s, '.');
    let r1 = s.skip(i1 + 1);
    let i2 = find_char(r1, '.');
    let r2 = r1.skip(i2 + 1);
    let i3 = find_char(r2, '.');
    let (a, b, c, d) = four_parts(s);
    i1 < s.len() && i2 < r1.len() && i3 < r2.len() && is_digits(a) && fits_u64(a) && is_digits(b)
        && fits_u64(b) && is_digits(c) && fits_u64(c) && is_digits(d)
}

/// The parts of a two-component prerelease form `major.minor-prerelease`.
pub open spec fn two_pre_parts(s: Seq<char>) -> (Seq<char>, Seq<char>, Seq<char>) {
    let i1 = find_char(s, '.');
    let r1 = s.skip(i1 + 1);
    let j = find_char(r1, '-');
    (s.take(i1), r1.take(j), r1.skip(j + 1))
}

/// Two-component prerelease form: `major.minor-prerelease`.
pub open spec fn matches_two_pre(s: Seq<char>) -> bool {
    let i1 = find_char(s, '.');
    let r1 = s.skip(i1 + 1);
    let j = find_char(r1, '-');
    let (a, b, _) = two_pre_parts(s);
    i1 < s.len() && j < r1.len() && is_digits(a) && fits_u64(a) && is_digits(b) && fits_u64(b)
}

/// Two-component form: `major.minor`, both numeric.
pub open spec fn matches_two(s: Seq<char>) -> bool {
    let i1 = find_char(s, '.');
    let r1 = s.skip(i1 + 1);
    i1 < s.len() && is_digits(s.take(i1)) && fits_u64(s.take(i1)) && is_digits(r1) && fits_u64(r1)
}

/// No form matches: the string falls back to the `0.0.0` ordinal.
pub open spec fn matches_none(s: Seq<char>) -> bool {
    !matches_strict3(s) && !matches_four(s) && !matches_two_pre(s) && !matches_two(s)
}

/// The ordinal a version string parses to, by the ordered chain of forms.
pub open spec fn spec_ordinal(s: Seq<char>) -> Ordinal {
    if matches_strict3(s) {
        let (a, b, c, pre) = strict3_parts(s);
        Ordinal { major: digits_val(a), minor: digits_val(b), patch: digits_val(c), prerelease: pre }
    } else if matches_four(s) {
        let (a, b, c, d) = four_parts(s);
        Ordinal { major: digits_val(a), minor: digits_val(b), patch: digits_val(c), prerelease: d }
    } else if matches_two_pre(s) {
        let (a, b, pre) = two_pre_parts(s);
        Ordinal { major: digits_val(a), minor: digits_val(b), patch: 0, prerelease: pre }
    } else if matches_two(s) {
        let i1 = find_char(s, '.');
        Ordinal {
            major: digits_val(s.take(i1)),
            minor: digits_val(s.skip(i1 + 1)),
            patch: 0,
            prerelease: Seq::<char>::empty(),
        }
    } else {
        Ordinal { major: 0, minor: 0, patch: 0, prerelease: Seq::<char>::empty() }
    }
}

/// A parsed version: the verbatim source text beside its ordinal.
#[derive(Clone, Debug)]
pub struct ParsedVersion {
    pub original: String,
    pub major: u64,
    pub minor: u64,
    pub patch: u64,
    pub prerelease: String,
}

/// The ordinal a parsed version carries.
pub open spec fn ord_of(v: &ParsedVersion) -> Ordinal {
    Ordinal {
        major: v.major as nat,
        minor: v.minor as nat,
        patch: v.patch as nat,
        prerelease: v.prerelease@,
    }
}

/// A digit sequence's value never shrinks when digits are appended.
pub proof fn lemma_digits_val_prefix(s: Seq<char>, m: int)
    requires
        0 <= m <= s.len(),
    ensures
        digits_val(s.take(m)) <= digits_val(s),
    decreases s.len() - m,
{
    if m < s.len() {
        assert(s.take(m + 1).drop_last() =~= s.take(m));
        assert(s.take(m + 1).last() == s[m]);
        assert(digits_val(s.take(m + 1)) == digits_val(s.take(m)) * 10 + digit_val(s[m]));
        lemma_digits_val_prefix(s, m + 1);
    } else {
        assert(s.take(m) =~= s);
    }
}

/// The numeric value of the digits of `s` between `from` and `to`:
/// `Some` exactly when that range is all digits, is nonempty, and its
/// value fits a 64-bit component.
pub fn parse_digits(s: &str, from: usize, to: usize) -> (r: Option<u64>)
    requires
        from <= to <= s@.len(),
    ensures
        match r {
            Some(v) => {
                let seg = s@.subrange(from as int, to as int);
                is_digits(seg) && v as nat == digits_val(seg)
            },
            None => {
                let seg = s@.subrange(from as int, to as int);
                !(is_digits(seg) && fits_u64(seg))
            },
        },
{
    let ghost seg = s@.subrange(from as int, to as int);
    if from == to {
        return None;
    }
    let mut acc: u64 = 0;
    let mut i = from;
    while i < to
        invariant
            from <= i <= to <= s@.len(),
            seg == s@.subrange(from as int, to as int),
            forall|j: int| 0 <= j < i - from ==> is_digit(#[trigger] seg[j]),
            acc as nat == digits_val(seg.take(i - from)),
        decreases to - i,
    {
        let c = s.get_char(i);
        proof {
            assert(seg[i - from] == c);
        }
        if c < '0' || c > '9' {
            return None;
        }
        let d: u64 = (c as u32 - 48) as u64;
        proof {
            assert(seg.take(i - from + 1).drop_last() =~= seg.take(i - from));
            assert(seg.take(i - from + 1).last() == seg[i - from]);
            assert(digits_val(seg.take(i - from + 1)) == digits_val(seg.take(i - from)) * 10
                + digit_val(seg[i - from]));
        }
        let next = match acc.checked_mul(10) {
            Some(x) => x.checked_add(d),
            None => None,
        };
        match next {
            Some(y) => {
                acc = y;
            },
            None => {
                proof {
                    lemma_digits_val_prefix(seg, i - from + 1);
                }
                return None;
            },
        }
        i = i + 1;
    }
    proof {
        assert(seg.take(to - from) =~= seg);
    }
    Some(acc)
}

/// Whether the characters of `s` between `from` and `to` are a nonempty
/// run of decimal digits.
pub fn all_digits(s: &str, from: usize, to: usize) -> (r: bool)
    requires
        from <= to <= s@.len(),
    ensures
        r == is_digits(s@.subrange(from as int, to as int)),
{
    let ghost seg = s@.subrange(from as int, to as int);
    if from == to {
        return false;
    }
    let mut i = from;
    while i < to
        invariant
            from <= i <= to <= s@.len(),
            seg == s@.subrange(from as int, to as int),
            forall|j: int| 0 <= j < i - from ==> is_digit(#[trigger] seg[j]),
        decreases to - i,
    {
        let c = s.get_char(i);
        proof {
            assert(seg[i - from] == c);
        }
        if c < '0' || c > '9' {
            return false;
        }
        i = i + 1;
    }
    true
}

/// The strict three-component reading of a version string, when it fits.
fn try_strict3(s: &str) -> (r: Option<(u64, u64, u64, String)>)
    ensures
        r is Some <==> matches_strict3(s@),
        r matches Some(t) ==> {
            let (a, b, c, pre) = strict3_parts(s@);
            t.0 as nat == digits_val(a) && t.1 as nat == digits_val(b) && t.2 as nat
                == digits_val(c) && t.3@ == pre
        },
{
    let n = s.unicode_len();
    proof {
        assert(s@.skip(0) =~= s@);
    }
    let i1 = find_char_from(s, '.', 0);
    if i1 == n {
        return None;
    }
    let ghost r1 = s@.skip(i1 + 1);
    let i2 = find_char_from(s, '.', i1 + 1);
    proof {
        assert(s@.take(i1 as int) =~= s@.subrange(0, i1 as int));
    }
    if i2 == n {
        return None;
    }
    let ghost i2r = i2 - (i1 + 1);
    proof {
        assert(r1.take(i2r) =~= s@.subrange(i1 + 1, i2 as int));
        assert(r1.skip(i2r + 1) =~= s@.skip(i2 + 1));
    }
    let ghost r2 = r1.skip(i2r + 1);
    let major = parse_digits(s, 0, i1);
    let minor = parse_digits(s, i1 + 1, i2);
    let i3 = find_char_from(s, '-', i2 + 1);
    let ghost i3r = i3 - (i2 + 1);
    proof {
        assert(r2.take(i3r) =~= s@.subrange(i2 + 1, i3 as int));
    }
    let patch = parse_digits(s, i2 + 1, i3);
    match (major, minor, patch) {
        (Some(a), Some(b), Some(c)) => {
            let pre: String = if i3 < n {
                proof {
                    assert(r2.skip(i3r + 1) =~= s@.subrange(i3 + 1, n as int));
                }
                s.substring_char(i3 + 1, n).to_owned()
            } else {
                String::new()
            };
            Some((a, b, c, pre))
        },
        _ => None,
    }
}

/// The four-component reading `major.minor.patch.mini`, when it fits.
fn try_four(s: &str) -> (r: Option<(u64, u64, u64, String)>)
    ensures
        r is Some <==> matches_four(s@),
        r matches Some(t) ==> {
            let (a, b, c, d) = four_parts(s@);
            t.0 as nat == digits_val(a) && t.1 as nat == digits_val(b) && t.2 as nat
                == digits_val(c) && t.3@ == d
        },
{
    let n = s.unicode_len();
    proof {
        assert(s@.skip(0) =~= s@);
    }
    let i1 = find_char_from(s, '.', 0);
    if i1 == n {
        return None;
    }
    let ghost r1 = s@.skip(i1 + 1);
    let i2 = find_char_from(s, '.', i1 + 1);
    proof {
        assert(s@.take(i1 as int) =~= s@.subrange(0, i1 as int));
    }
    if i2 == n {
        return None;
    }
    let ghost i2r = i2 - (i1 + 1);
    proof {
        assert(r1.take(i2r) =~= s@.subrange(i1 + 1, i2 as int));
        assert(r1.skip(i2r + 1) =~= s@.skip(i2 + 1));
    }
    let ghost r2 = r1.skip(i2r + 1);
    let i3 = find_char_from(s, '.', i2 + 1);
    if i3 == n {
        return None;
    }
    let ghost i3r = i3 - (i2 + 1);
    proof {
        assert(r2.take(i3r) =~= s@.subrange(i2 + 1, i3 as int));
        assert(r2.skip(i3r + 1) =~= s@.subrange(i3 + 1, n as int));
    }
    let major = parse_digits(s, 0, i1);
    let minor = parse_digits(s, i1 + 1, i2);
    let patch = parse_digits(s, i2 + 1, i3);
    match (major, minor, patch) {
        (Some(a), Some(b), Some(c)) => {
            if all_digits(s, i3 + 1, n) {
                let mini = s.substring_char(i3 + 1, n).to_owned();
                Some((a, b, c, mini))
            } else {
                None
            }
        },
        _ => None,
    }
}

/// The two-component prerelease reading `major.minor-prerelease`.
fn try_two_pre(s: &str) -> (r: Option<(u64, u64, String)>)
    ensures
        r is Some <==> matches_two_pre(s@),
        r matches Some(t) ==> {
            let (a, b, pre) = two_pre_parts(s@);
            t.0 as nat == digits_val(a) && t.1 as nat == digits_val(b) && t.2@ == pre
        },
{
    let n = s.unicode_len();
    proof {
        assert(s@.skip(0) =~= s@);
    }
    let i1 = find_char_from(s, '.', 0);
    if i1 == n {
        return None;
    }
    let ghost r1 = s@.skip(i1 + 1);
    let j = find_char_from(s, '-', i1 + 1);
    proof {
        assert(s@.take(i1 as int) =~= s@.subrange(0, i1 as int));
    }
    if j == n {
        return None;
    }
    let ghost jr = j - (i1 + 1);
    proof {
        assert(r1.take(jr) =~= s@.subrange(i1 + 1, j as int));
        assert(r1.skip(jr + 1) =~= s@.subrange(j + 1, n as int));
    }
    let major = parse_digits(s, 0, i1);
    let minor = parse_digits(s, i1 + 1, j);
    match (major, minor) {
        (Some(a), Some(b)) => {
            let pre = s.substring_char(j + 1, n).to_owned();
            Some((a, b, pre))
        },
        _ => None,
    }
}

/// The two-component reading `major.minor`.
fn try_two(s: &str) -> (r: Option<(u64, u64)>)
    ensures
        r is Some <==> matches_two(s@),
        r matches Some(t) ==> t.0 as nat == digits_val(s@.take(find_char(s@, '.'))) && t.1 as nat
            == digits_val(s@.skip(find_char(s@, '.') + 1)),
{
    let n = s.unicode_len();
    proof {
        assert(s@.skip(0) =~= s@);
    }
    let i1 = find_char_from(s, '.', 0);
    if i1 == n {
        return None;
    }
    proof {
        assert(s@.take(i1 as int) =~= s@.subrange(0, i1 as int));
        assert(s@.skip(i1 + 1) =~= s@.subrange(i1 + 1, n as int));
    }
    let major = parse_digits(s, 0, i1);
    let minor = parse_digits(s, i1 + 1, n);
    match (major, minor) {
        (Some(a), Some(b)) => Some((a, b)),
        _ => None,
    }
}

/// Parses a version string by the ordered chain of forms. Never fails:
/// when no form matches, the ordinal is `0.0.0` with an empty prerelease,
/// and the source text is kept verbatim in `original` either way.
pub fn parse(text: &str) -> (r: ParsedVersion)
    ensures
        r.original@ == text@,
        ord_of(&r) =~= spec_ordinal(text@),
{
    let original = text.to_owned();
    if let Some((a, b, c, pre)) = try_strict3(text) {
        return ParsedVersion { original, major: a, minor: b, patch: c, prerelease: pre };
    }
    if let Some((a, b, c, mini)) = try_four(text) {
        return ParsedVersion { original, major: a, minor: b, patch: c, prerelease: mini };
    }
    if let Some((a, b, pre)) = try_two_pre(text) {
        return ParsedVersion { original, major: a, minor: b, patch: 0, prerelease: pre };
    }
    if let Some((a, b)) = try_two(text) {
        return ParsedVersion { original, major: a, minor: b, patch: 0, prerelease: String::new() };
    }
    ParsedVersion { original, major: 0, minor: 0, patch: 0, prerelease: String::new() }
}

/// Strict order on ordinals: numeric on the three components, then
/// lexicographic on the prerelease text.
pub open spec fn ord_lt(x: Ordinal, y: Ordinal) -> bool {
    x.major < y.major || (x.major == y.major && (x.minor < y.minor || (x.minor == y.minor && (
    x.patch < y.patch || (x.patch == y.patch && text_lt(x.prerelease, y.prerelease))))))
}

/// Ordinal order is a strict total order: exactly one of `x < y`,
/// `y < x`, `x == y` holds.
pub proof fn lemma_ord_lt_trichotomy(x: Ordinal, y: Ordinal)
    ensures
        ord_lt(x, y) || ord_lt(y, x) || x =~= y,
        ord_lt(x, y) ==> !ord_lt(y, x) && !(x =~= y),
        ord_lt(y, x) ==> !ord_lt(x, y) && !(x =~= y),
{
    lemma_text_lt_trichotomy(x.prerelease, y.prerelease);
}

/// Ordinal order is transitive.
pub proof fn lemma_ord_lt_transitive(x: Ordinal, y: Ordinal, z: Ordinal)
    requires
        ord_lt(x, y),
        ord_lt(y, z),
    ensures
        ord_lt(x, z),
{
    if x.major == z.major && x.minor == z.minor && x.patch == z.patch && text_lt(x.prerelease,
        y.prerelease) && text_lt(y.prerelease, z.prerelease) {
        lemma_text_lt_transitive(x.prerelease, y.prerelease, z.prerelease);
    }
}

/// Whether one parsed version precedes another in ordinal order.
pub fn version_less(x: &ParsedVersion, y: &ParsedVersion) -> (r: bool)
    ensures
        r == ord_lt(ord_of(x), ord_of(y)),
{
    if x.major != y.major {
        x.major < y.major
    } else if x.minor != y.minor {
        x.minor < y.minor
    } else if x.patch != y.patch {
        x.patch < y.patch
    } else {
        text_less(x.prerelease.as_str(), y.prerelease.as_str())
    }
}

/// Law: a strict three-component version string parses to exactly its
/// literal components, so ordinal comparison of two such strings agrees
/// with comparing their literal components in order.
pub proof fn lemma_strict_parse_components(s: Seq<char>)
    requires
        matches_strict3(s),
    ensures
        ({
            let (a, b, c, pre) = strict3_parts(s);
            spec_ordinal(s) =~= Ordinal {
                major: digits_val(a),
                minor: digits_val(b),
                patch: digits_val(c),
                prerelease: pre,
            }
        }),
{
}

/// Law: for two strict three-component version strings, ordinal order is
/// the lexicographic order of their literal `(major, minor, patch,
/// prerelease)` components.
pub proof fn lemma_strict_order_consistent(s: Seq<char>, t: Seq<char>)
    requires
        matches_strict3(s),
        matches_strict3(t),
    ensures
        ({
            let (sa, sb, sc, sp) = strict3_parts(s);
            let (ta, tb, tc, tp) = strict3_parts(t);
            ord_lt(spec_ordinal(s), spec_ordinal(t)) <==> (digits_val(sa) < digits_val(ta) || (
            digits_val(sa) == digits_val(ta) && (digits_val(sb) < digits_val(tb) || (digits_val(sb)
                == digits_val(tb) && (digits_val(sc) < digits_val(tc) || (digits_val(sc)
                == digits_val(tc) && text_lt(sp, tp)))))))
        }),
{
}

/// A four-component version string never matches the strict form: its
/// third dot-separated run always holds another dot.
pub proof fn lemma_four_not_strict3(s: Seq<char>)
    requires
        matches_four(s),
    ensures
        !matches_strict3(s),
{
    let i1 = find_char(s, '.');
    let r1 = s.skip(i1 + 1);
    let i2 = find_char(r1, '.');
    let r2 = r1.skip(i2 + 1);
    let i3d = find_char(r2, '.');
    let i3 = find_char(r2, '-');
    lemma_find_char(r2, '.');
    lemma_find_char(r2, '-');
    if matches_strict3(s) {
        let c = r2.take(i3);
        if i3d < i3 {
            assert(c[i3d] == '.');
            assert(is_digit(c[i3d]));
        } else {
            let (_, _, c4, d4) = four_parts(s);
            if i3 < i3d {
                assert(c4[i3] == '-');
                assert(is_digit(c4[i3]));
            } else {
                assert(r2[i3d] == '.');
                assert(r2[i3] == '-');
            }
        }
    }
}

/// Law: a four-component version `a.b.c.d` sorts strictly above the
/// ordinal of `a.b.c` and strictly below the ordinal of `a.b.(c+1)`.
pub proof fn lemma_four_component_between(s: Seq<char>)
    requires
        matches_four(s),
    ensures
        ({
            let (a, b, c, d) = four_parts(s);
            ord_lt(
                Ordinal {
                    major: digits_val(a),
                    minor: digits_val(b),
                    patch: digits_val(c),
                    prerelease: Seq::<char>::empty(),
                },
                spec_ordinal(s),
            ) && ord_lt(
                spec_ordinal(s),
                Ordinal {
                    major: digits_val(a),
                    minor: digits_val(b),
                    patch: digits_val(c) + 1,
                    prerelease: Seq::<char>::empty(),
                },
            )
        }),
{
    lemma_four_not_strict3(s);
    let (a, b, c, d) = four_parts(s);
    assert(d.len() > 0);
    assert(text_lt(Seq::<char>::empty(), d));
}

/// Law: a string matching no form parses to the `0.0.0` ordinal with an
/// empty prerelease; `parse` keeps its text verbatim all the same.
pub proof fn lemma_malformed_is_default(s: Seq<char>)
    requires
        (matches_none(s)),
    ensures
        (spec_ordinal(s) =~= Ordinal {
            major: 0,
            minor: 0,
            patch: 0,
            prerelease: Seq::<char>::empty(),
        }),
{
}

} // verus!
