//! Character-level text utilities shared by the version parser, the
//! descriptor parsers and the path mapper: searching, splitting into
//! lines and `key=value` pairs, and trimming.

use vstd::prelude::*;

verus! {

/// Relies on `String::push`: appends the given character to the string.
pub assume_specification[ String::push ](s: &mut String, c: char)
    ensures
        final(s)@ == old(s)@.push(c),
;

/// Index of the first occurrence of `x` in `s`, or `s.len()` when absent.
pub open spec fn find_idx<A>(s: Seq<A>, x: A) -> int
    decreases s.len(),
{
    if s.len() == 0 {
        0
    } else if s[0] == x {
        0
    } else {
        1 + find_idx(s.drop_first(), x)
    }
}

pub proof fn lemma_find_idx<A>(s: Seq<A>, x: A)
    ensures
        0 <= find_idx(s, x) <= s.len(),
        forall|i: int| 0 <= i < find_idx(s, x) ==> s[i] != x,
        find_idx(s, x) < s.len() ==> s[find_idx(s, x)] == x,
    decreases s.len(),
{
    if s.len() > 0 && s[0] != x {
        lemma_find_idx(s.drop_first(), x);
        assert forall|i: int| 0 <= i < find_idx(s, x) implies s[i] != x by {
            if i > 0 {
                assert(s.drop_first()[i - 1] == s[i]);
            }
        }
    }
}

/// Index of the first occurrence of `c` in `s`, or `s.len()` when absent.
pub open spec fn find_char(s: Seq<char>, c: char) -> int {
    find_idx(s, c)
}

pub proof fn lemma_find_char(s: Seq<char>, c: char)
    ensures
        0 <= find_char(s, c) <= s.len(),
        forall|i: int| 0 <= i < find_char(s, c) ==> s[i] != c,
        find_char(s, c) < s.len() ==> s[find_char(s, c)] == c,
{
    lemma_find_idx(s, c);
}

/// Index of the first occurrence of `c` in `s` at or after `from`,
/// or `s@.len()` when absent.
pub fn find_char_from(s: &str, c: char, from: usize) -> (r: usize)
    requires
        from <= s@.len(),
    ensures
        r == from + find_char(s@.skip(from as int), c),
        from <= r <= s@.len(),
        forall|i: int| from <= i < r ==> s@[i] != c,
        r < s@.len() ==> s@[r as int] == c,
{
    let n = s.unicode_len();
    let mut i = from;
    proof {
        lemma_find_char(s@.skip(from as int), c);
    }
    while i < n
        invariant
            from <= i <= n,
            n == s@.len(),
            forall|j: int| from <= j < i ==> s@[j] != c,
            find_char(s@.skip(from as int), c) >= i - from,
        decreases n - i,
    {
        proof {
            lemma_find_char(s@.skip(from as int), c);
        }
        if s.get_char(i) == c {
            proof {
                assert(s@.skip(from as int)[i - from] == c);
            }
            return i;
        }
        proof {
            assert(s@.skip(from as int)[i - from] != c);
        }
        i = i + 1;
    }
    proof {
        if find_char(s@.skip(from as int), c) < n - from {
            assert(s@.skip(from as int)[find_char(s@.skip(from as int), c)] == c);
        }
    }
    n
}

/// Index of the first occurrence of `b` in `v` at or after `from`,
/// or `v@.len()` when absent.
pub fn find_byte_from(v: &Vec<u8>, b: u8, from: usize) -> (r: usize)
    requires
        from <= v@.len(),
    ensures
        r == from + find_idx(v@.skip(from as int), b),
        from <= r <= v@.len(),
        forall|i: int| from <= i < r ==> v@[i] != b,
        r < v@.len() ==> v@[r as int] == b,
{
    let n = v.len();
    let mut i = from;
    proof {
        lemma_find_idx(v@.skip(from as int), b);
    }
    while i < n
        invariant
            from <= i <= n,
            n == v@.len(),
            forall|j: int| from <= j < i ==> v@[j] != b,
            find_idx(v@.skip(from as int), b) >= i - from,
        decreases n - i,
    {
        proof {
            lemma_find_idx(v@.skip(from as int), b);
        }
        if v[i] == b {
            proof {
                assert(v@.skip(from as int)[i - from] == b);
            }
            return i;
        }
        proof {
            assert(v@.skip(from as int)[i - from] != b);
        }
        i = i + 1;
    }
    proof {
        if find_idx(v@.skip(from as int), b) < n - from {
            assert(v@.skip(from as int)[find_idx(v@.skip(from as int), b)] == b);
        }
    }
    n
}

/// A copy of the bytes of `v` between `from` and `to`.
pub fn bytes_range(v: &Vec<u8>, from: usize, to: usize) -> (r: Vec<u8>)
    requires
        from <= to <= v@.len(),
    ensures
        r@ == v@.subrange(from as int, to as int),
{
    let mut out: Vec<u8> = Vec::new();
    let mut i = from;
    while i < to
        invariant
            from <= i <= to <= v@.len(),
            out@ =~= v@.subrange(from as int, i as int),
        decreases to - i,
    {
        out.push(v[i]);
        i = i + 1;
    }
    proof {
        assert(out@ =~= v@.subrange(from as int, to as int));
    }
    out
}

/// The view of an optional byte buffer.
pub open spec fn option_bytes_view(b: &Option<Vec<u8>>) -> Option<Seq<u8>> {
    match b {
        Some(d) => Some(d@),
        None => None,
    }
}

/// Appends a copy of `src` to `dst`.
pub fn push_bytes(dst: &mut Vec<u8>, src: &Vec<u8>)
    ensures
        final(dst)@ == old(dst)@ + src@,
{
    let mut i: usize = 0;
    while i < src.len()
        invariant
            i <= src@.len(),
            dst@ =~= old(dst)@ + src@.take(i as int),
        decreases src@.len() - i,
    {
        dst.push(src[i]);
        i = i + 1;
    }
    proof {
        assert(dst@ =~= old(dst)@ + src@);
    }
}

/// The text a byte sequence stands for, each byte read by code point.
pub open spec fn decode_latin1(b: Seq<u8>) -> Seq<char> {
    b.map_values(|x: u8| x as char)
}

/// The bytes a text's characters stand for, by code point; meaningful
/// only for characters below 256.
pub open spec fn encode_latin1(s: Seq<char>) -> Seq<u8> {
    s.map_values(|c: char| c as u8)
}

/// The string a byte sequence stands for, each byte read by code point.
pub fn bytes_to_string(b: &Vec<u8>) -> (r: String)
    ensures
        r@ =~= decode_latin1(b@),
{
    let mut out = String::new();
    let mut i: usize = 0;
    while i < b.len()
        invariant
            i <= b@.len(),
            out@ =~= decode_latin1(b@.take(i as int)),
        decreases b@.len() - i,
    {
        out.push(b[i] as char);
        proof {
            assert(decode_latin1(b@.take(i + 1)) =~= decode_latin1(b@.take(i as int)).push(
                b@[i as int] as char,
            ));
        }
        i = i + 1;
    }
    proof {
        assert(b@.take(b@.len() as int) =~= b@);
    }
    out
}

/// Appends to a string the text a byte sequence stands for, each byte
/// read by code point.
pub fn append_decoded(s: &mut String, b: &Vec<u8>)
    ensures
        final(s)@ =~= old(s)@ + decode_latin1(b@),
{
    let mut i: usize = 0;
    while i < b.len()
        invariant
            i <= b@.len(),
            s@ =~= old(s)@ + decode_latin1(b@.take(i as int)),
        decreases b@.len() - i,
    {
        s.push(b[i] as char);
        proof {
            assert(decode_latin1(b@.take(i + 1)) =~= decode_latin1(b@.take(i as int)).push(
                b@[i as int] as char,
            ));
        }
        i = i + 1;
    }
    proof {
        assert(b@.take(b@.len() as int) =~= b@);
    }
}

/// The bytes of a string whose characters all lie below 256.
pub fn narrow_bytes(s: &str) -> (r: Vec<u8>)
    requires
        forall|i: int| 0 <= i < s@.len() ==> (s@[i] as nat) < 256,
    ensures
        r@ =~= encode_latin1(s@),
{
    let n = s.unicode_len();
    let mut out: Vec<u8> = Vec::new();
    let mut i: usize = 0;
    while i < n
        invariant
            i <= n,
            n == s@.len(),
            forall|j: int| 0 <= j < s@.len() ==> (s@[j] as nat) < 256,
            out@ =~= encode_latin1(s@.take(i as int)),
        decreases n - i,
    {
        let c = s.get_char(i);
        let u = c as u32;
        out.push(u as u8);
        proof {
            assert(encode_latin1(s@.take(i + 1)) =~= encode_latin1(s@.take(i as int)).push(
                s@[i as int] as u8,
            ));
        }
        i = i + 1;
    }
    proof {
        assert(s@.take(n as int) =~= s@);
    }
    out
}

/// Whether two strings hold the same characters.
pub fn str_eq(a: &str, b: &str) -> (r: bool)
    ensures
        r == (a@ == b@),
{
    let an = a.unicode_len();
    let bn = b.unicode_len();
    if an != bn {
        return false;
    }
    let mut i: usize = 0;
    while i < an
        invariant
            i <= an,
            an == a@.len() == b@.len(),
            forall|j: int| 0 <= j < i ==> a@[j] == b@[j],
        decreases an - i,
    {
        if a.get_char(i) != b.get_char(i) {
            return false;
        }
        i = i + 1;
    }
    proof {
        assert(a@ =~= b@);
    }
    true
}

/// Whether the bytes of `b`, read by code point, are the characters of `s`.
pub fn bytes_match_str(b: &Vec<u8>, s: &str) -> (r: bool)
    ensures
        r == (decode_latin1(b@) == s@),
{
    let n = s.unicode_len();
    if b.len() != n {
        return false;
    }
    let mut i: usize = 0;
    while i < n
        invariant
            i <= n,
            n == s@.len() == b@.len(),
            forall|j: int| 0 <= j < i ==> b@[j] as char == s@[j],
        decreases n - i,
    {
        if (b[i] as char) != s.get_char(i) {
            proof {
                assert(decode_latin1(b@)[i as int] != s@[i as int]);
            }
            return false;
        }
        i = i + 1;
    }
    proof {
        assert(decode_latin1(b@) =~= s@);
    }
    true
}

/// Whether the bytes of `line`, read by code point, begin with the
/// characters of `p`.
pub open spec fn bytes_start_with(line: Seq<u8>, p: Seq<char>) -> bool {
    line.len() >= p.len() && decode_latin1(line).take(p.len() as int) == p
}

/// Whether a byte line begins with the characters of a marker.
pub fn line_starts_with(line: &Vec<u8>, p: &str) -> (r: bool)
    ensures
        r == bytes_start_with(line@, p@),
{
    let n = p.unicode_len();
    if line.len() < n {
        return false;
    }
    let mut i: usize = 0;
    while i < n
        invariant
            i <= n,
            n == p@.len() <= line@.len(),
            forall|j: int| 0 <= j < i ==> line@[j] as char == p@[j],
        decreases n - i,
    {
        if (line[i] as char) != p.get_char(i) {
            proof {
                assert(decode_latin1(line@).take(n as int)[i as int] != p@[i as int]);
            }
            return false;
        }
        i = i + 1;
    }
    proof {
        assert(decode_latin1(line@).take(n as int) =~= p@);
    }
    true
}

/// An ASCII whitespace byte.
pub open spec fn is_ws(b: u8) -> bool {
    b == 32 || (9 <= b && b <= 13)
}

/// `s` without its leading whitespace.
pub open spec fn trim_start(s: Seq<u8>) -> Seq<u8>
    decreases s.len(),
{
    if s.len() > 0 && is_ws(s[0]) {
        trim_start(s.drop_first())
    } else {
        s
    }
}

/// `s` without its trailing whitespace.
pub open spec fn trim_end(s: Seq<u8>) -> Seq<u8>
    decreases s.len(),
{
    if s.len() > 0 && is_ws(s.last()) {
        trim_end(s.drop_last())
    } else {
        s
    }
}

/// `s` without leading and trailing whitespace.
pub open spec fn trim_bytes(s: Seq<u8>) -> Seq<u8> {
    trim_end(trim_start(s))
}

/// The index where a line's leading whitespace ends.
fn ws_prefix_end(line: &Vec<u8>) -> (lo: usize)
    ensures
        lo <= line@.len(),
        trim_start(line@) == line@.skip(lo as int),
{
    let n = line.len();
    let mut lo: usize = 0;
    proof {
        assert(line@.skip(0) =~= line@);
    }
    while lo < n
        invariant
            lo <= n,
            n == line@.len(),
            trim_start(line@) == trim_start(line@.skip(lo as int)),
        decreases n - lo,
    {
        let b = line[lo];
        if b == 32 || (9 <= b && b <= 13) {
            proof {
                assert(line@.skip(lo as int).drop_first() =~= line@.skip(lo + 1));
            }
            lo = lo + 1;
        } else {
            return lo;
        }
    }
    proof {
        assert(line@.skip(n as int) =~= Seq::<u8>::empty());
    }
    n
}

/// The index where a line's trailing whitespace begins, at or after `lo`.
fn ws_suffix_start(line: &Vec<u8>, lo: usize) -> (hi: usize)
    requires
        lo <= line@.len(),
    ensures
        lo <= hi <= line@.len(),
        trim_end(line@.skip(lo as int)) == line@.skip(lo as int).take(hi - lo),
{
    let ghost t = line@.skip(lo as int);
    let n = line.len();
    let mut hi: usize = n;
    proof {
        assert(t.take(n - lo) =~= t);
    }
    while hi > lo
        invariant
            lo <= hi <= n,
            n == line@.len(),
            t == line@.skip(lo as int),
            trim_end(t) == trim_end(t.take(hi - lo)),
        decreases hi,
    {
        let b = line[hi - 1];
        proof {
            assert(t.take(hi - lo).last() == line@[hi - 1]);
        }
        if b == 32 || (9 <= b && b <= 13) {
            proof {
                assert(t.take(hi - lo).drop_last() =~= t.take(hi - 1 - lo));
            }
            hi = hi - 1;
        } else {
            return hi;
        }
    }
    hi
}

/// A copy of a byte line without leading and trailing whitespace.
pub fn trimmed(line: &Vec<u8>) -> (r: Vec<u8>)
    ensures
        r@ == trim_bytes(line@),
{
    let lo = ws_prefix_end(line);
    let hi = ws_suffix_start(line, lo);
    proof {
        assert(line@.skip(lo as int).take(hi - lo) =~= line@.subrange(lo as int, hi as int));
    }
    bytes_range(line, lo, hi)
}

/// The lines of a byte text: split at each newline, a carriage return
/// directly before a newline stripped, a final unterminated line kept,
/// and nothing yielded after a terminating final newline.
pub open spec fn split_lines(s: Seq<u8>) -> Seq<Seq<u8>>
    decreases s.len(),
    via split_lines_decreases
{
    if s.len() == 0 {
        Seq::<Seq<u8>>::empty()
    } else {
        let i = find_idx(s, 10u8);
        if i < s.len() {
            seq![strip_cr(s.take(i))] + split_lines(s.skip(i + 1))
        } else {
            seq![s]
        }
    }
}

#[via_fn]
proof fn split_lines_decreases(s: Seq<u8>) {
    lemma_find_idx(s, 10u8);
}

/// A newline-terminated line without its trailing carriage return.
pub open spec fn strip_cr(l: Seq<u8>) -> Seq<u8> {
    if l.len() > 0 && l.last() == 13 {
        l.drop_last()
    } else {
        l
    }
}

/// The lines of a byte text.
pub fn byte_lines(data: &Vec<u8>) -> (r: Vec<Vec<u8>>)
    ensures
        r@.map_values(|l: Vec<u8>| l@) =~= split_lines(data@),
{
    let n = data.len();
    let mut out: Vec<Vec<u8>> = Vec::new();
    let mut pos: usize = 0;
    proof {
        assert(data@.skip(0) =~= data@);
    }
    while pos < n
        invariant
            pos <= n,
            n == data@.len(),
            out@.map_values(|l: Vec<u8>| l@) + split_lines(data@.skip(pos as int)) =~= split_lines(
                data@,
            ),
        decreases n - pos,
    {
        let ghost rest = data@.skip(pos as int);
        let j = find_byte_from(data, 10, pos);
        proof {
            assert(find_idx(rest, 10u8) == j - pos);
        }
        let mut seg = bytes_range(data, pos, j);
        proof {
            assert(seg@ =~= rest.take(j - pos));
        }
        if j < n {
            if seg.len() > 0 && seg[seg.len() - 1] == 13 {
                let _ = seg.pop();
                proof {
                    assert(seg@ =~= strip_cr(rest.take(j - pos)));
                }
            }
            proof {
                assert(rest.skip(j - pos + 1) =~= data@.skip(j + 1));
                assert(split_lines(rest) =~= seq![strip_cr(rest.take(j - pos))] + split_lines(
                    data@.skip(j + 1),
                ));
            }
            let ghost old_out = out@;
            out.push(seg);
            proof {
                assert(out@.map_values(|l: Vec<u8>| l@) =~= old_out.map_values(|l: Vec<u8>| l@)
                    + seq![strip_cr(rest.take(j - pos))]);
            }
            pos = j + 1;
        } else {
            proof {
                assert(rest.take(j - pos) =~= rest);
                assert(split_lines(rest) =~= seq![rest]);
            }
            let ghost old_out = out@;
            out.push(seg);
            proof {
                assert(out@.map_values(|l: Vec<u8>| l@) =~= old_out.map_values(|l: Vec<u8>| l@)
                    + seq![rest]);
                assert(data@.skip(n as int) =~= Seq::<u8>::empty());
            }
            pos = n;
        }
    }
    proof {
        assert(data@.skip(n as int) =~= Seq::<u8>::empty());
    }
    out
}

/// The `key=value` reading of a line: `Some` exactly when the line holds
/// exactly one `=`, the key before it and the value after it.
pub open spec fn kv_of(line: Seq<u8>) -> Option<(Seq<u8>, Seq<u8>)> {
    let i = find_idx(line, 61u8);
    if i == line.len() {
        None
    } else if find_idx(line.skip(i + 1), 61u8) < line.len() - (i + 1) {
        None
    } else {
        Some((line.take(i), line.skip(i + 1)))
    }
}

/// Splits a line at its `=` into key and value; `None` unless the line
/// holds exactly one `=`.
pub fn split_kv(line: &Vec<u8>) -> (r: Option<(Vec<u8>, Vec<u8>)>)
    ensures
        match r {
            Some(p) => kv_of(line@) == Some((p.0@, p.1@)),
            None => kv_of(line@) is None,
        },
{
    let n = line.len();
    proof {
        assert(line@.skip(0) =~= line@);
    }
    let i = find_byte_from(line, 61, 0);
    if i == n {
        return None;
    }
    let j = find_byte_from(line, 61, i + 1);
    proof {
        assert(find_idx(line@, 61u8) == i);
        assert(find_idx(line@.skip(i + 1), 61u8) == j - (i + 1));
    }
    if j < n {
        return None;
    }
    let key = bytes_range(line, 0, i);
    let value = bytes_range(line, i + 1, n);
    proof {
        assert(key@ =~= line@.take(i as int));
        assert(value@ =~= line@.skip(i + 1));
    }
    Some((key, value))
}

/// Strict lexicographic order on text, by code point.
pub open spec fn text_lt(a: Seq<char>, b: Seq<char>) -> bool
    decreases a.len(),
{
    if b.len() == 0 {
        false
    } else if a.len() == 0 {
        true
    } else if a[0] != b[0] {
        a[0] < b[0]
    } else {
        text_lt(a.drop_first(), b.drop_first())
    }
}

/// Whether `a` precedes `b` in lexicographic order.
pub fn text_less(a: &str, b: &str) -> (r: bool)
    ensures
        r == text_lt(a@, b@),
{
    let an = a.unicode_len();
    let bn = b.unicode_len();
    let mut i: usize = 0;
    proof {
        assert(a@.skip(0) =~= a@);
        assert(b@.skip(0) =~= b@);
    }
    loop
        invariant
            i <= an <= a@.len(),
            i <= bn <= b@.len(),
            an == a@.len(),
            bn == b@.len(),
            text_lt(a@, b@) == text_lt(a@.skip(i as int), b@.skip(i as int)),
        decreases an - i,
    {
        if i == bn {
            return false;
        }
        if i == an {
            return true;
        }
        let ca = a.get_char(i);
        let cb = b.get_char(i);
        if ca != cb {
            return ca < cb;
        }
        proof {
            assert(a@.skip(i as int).drop_first() =~= a@.skip(i + 1));
            assert(b@.skip(i as int).drop_first() =~= b@.skip(i + 1));
        }
        i = i + 1;
    }
}

/// Lexicographic order on text is a strict total order: exactly one of
/// `a < b`, `b < a`, `a == b` holds.
pub proof fn lemma_text_lt_trichotomy(a: Seq<char>, b: Seq<char>)
    ensures
        text_lt(a, b) || text_lt(b, a) || a =~= b,
        text_lt(a, b) ==> !text_lt(b, a) && !(a =~= b),
        text_lt(b, a) ==> !text_lt(a, b) && !(a =~= b),
    decreases a.len(),
{
    if a.len() > 0 && b.len() > 0 && a[0] == b[0] {
        lemma_text_lt_trichotomy(a.drop_first(), b.drop_first());
        if a.drop_first() =~= b.drop_first() {
            assert forall|i: int| 0 <= i < a.len() implies a[i] == b[i] by {
                if i > 0 {
                    assert(a.drop_first()[i - 1] == a[i]);
                    assert(b.drop_first()[i - 1] == b[i]);
                }
            }
            assert(a =~= b);
        }
    }
}

/// Lexicographic order on text is transitive.
pub proof fn lemma_text_lt_transitive(a: Seq<char>, b: Seq<char>, c: Seq<char>)
    requires
        text_lt(a, b),
        text_lt(b, c),
    ensures
        text_lt(a, c),
    decreases a.len(),
{
    if a.len() > 0 && b.len() > 0 && c.len() > 0 && a[0] == b[0] && b[0] == c[0] {
        lemma_text_lt_transitive(a.drop_first(), b.drop_first(), c.drop_first());
    }
}

} // verus!
