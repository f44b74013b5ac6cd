//! Path mapping: archive-internal path prefixes remapped to deployment
//! path prefixes.
//!
//! A mapping always starts from the built-in prefix table and may be
//! extended or overridden, entry by entry, from an in-archive
//! `key=value` descriptor. When a path is mapped, the longest matching
//! prefix wins and is replaced by its target; a path no prefix matches
//! is used unchanged.

use vstd::prelude::*;

use crate::text::bytes_to_string;
use crate::text::decode_latin1;
use crate::text::kv_of;
use crate::text::split_kv;
use crate::text::split_lines;
use crate::text::str_eq;

verus! {

/// Whether `p` is a prefix of `s`.
pub open spec fn is_prefix(p: Seq<char>, s: Seq<char>) -> bool {
    p.len() <= s.len() && p == s.take(p.len() as int)
}

/// Whether `s` begins with the characters of `p`.
pub fn str_starts_with(s: &str, p: &str) -> (r: bool)
    ensures
        r == is_prefix(p@, s@),
{
    let n = p.unicode_len();
    if s.unicode_len() < n {
        return false;
    }
    let mut i: usize = 0;
    while i < n
        invariant
            i <= n,
            n == p@.len() <= s@.len(),
            forall|j: int| 0 <= j < i ==> s@[j] == p@[j],
        decreases n - i,
    {
        if s.get_char(i) != p.get_char(i) {
            proof {
                assert(s@.take(n as int)[i as int] != p@[i as int]);
            }
            return false;
        }
        i = i + 1;
    }
    proof {
        assert(s@.take(n as int) =~= p@);
    }
    true
}

/// The mathematical shape of a mapping: prefix/target pairs of text.
pub open spec fn pairs_view(m: Seq<(String, String)>) -> Seq<(Seq<char>, Seq<char>)> {
    m.map_values(|p: (String, String)| (p.0@, p.1@))
}

/// No two entries share a prefix key.
pub open spec fn uniq_keys(m: Seq<(Seq<char>, Seq<char>)>) -> bool {
    forall|i: int, j: int| 0 <= i < j < m.len() ==> (#[trigger] m[i]).0 != (#[trigger] m[j]).0
}

/// The built-in prefix table: configuration to classes, libraries and
/// licenses under the web application's internal tree, web resources
/// under the web root, and a passthrough to the web root itself.
pub open spec fn spec_default_mapping() -> Seq<(Seq<char>, Seq<char>)> {
    seq![
        ("/config"@, "/WEB-INF/classes"@),
        ("/lib"@, "/WEB-INF/lib"@),
        ("/licenses"@, "/WEB-INF/licenses"@),
        ("/web/jsp"@, "/jsp"@),
        ("/web/css"@, "/css"@),
        ("/web/images"@, "/images"@),
        ("/web/scripts"@, "/scripts"@),
        ("/web/php"@, "/"@),
    ]
}

/// The built-in prefix table.
pub fn default_mapping() -> (r: Vec<(String, String)>)
    ensures
        pairs_view(r@) =~= spec_default_mapping(),
        uniq_keys(pairs_view(r@)),
{
    let mut m: Vec<(String, String)> = Vec::new();
    m.push((String::from_str("/config"), String::from_str("/WEB-INF/classes")));
    m.push((String::from_str("/lib"), String::from_str("/WEB-INF/lib")));
    m.push((String::from_str("/licenses"), String::from_str("/WEB-INF/licenses")));
    m.push((String::from_str("/web/jsp"), String::from_str("/jsp")));
    m.push((String::from_str("/web/css"), String::from_str("/css")));
    m.push((String::from_str("/web/images"), String::from_str("/images")));
    m.push((String::from_str("/web/scripts"), String::from_str("/scripts")));
    m.push((String::from_str("/web/php"), String::from_str("/")));
    proof {
        reveal_strlit("/config");
        reveal_strlit("/lib");
        reveal_strlit("/licenses");
        reveal_strlit("/web/jsp");
        reveal_strlit("/web/css");
        reveal_strlit("/web/images");
        reveal_strlit("/web/scripts");
        reveal_strlit("/web/php");
        assert(pairs_view(m@) =~= spec_default_mapping());
        let pm = pairs_view(m@);
        assert(pm[0].0 == "/config"@ && pm[1].0 == "/lib"@ && pm[2].0 == "/licenses"@ && pm[3].0
            == "/web/jsp"@ && pm[4].0 == "/web/css"@ && pm[5].0 == "/web/images"@ && pm[6].0
            == "/web/scripts"@ && pm[7].0 == "/web/php"@);
        assert("/web/jsp"@[5] != "/web/css"@[5]);
        assert("/web/jsp"@[5] != "/web/php"@[5]);
        assert("/web/css"@[5] != "/web/php"@[5]);
        assert forall|i: int, j: int| 0 <= i < j < pm.len() implies (#[trigger] pm[i]).0 != (
        #[trigger] pm[j]).0 by {
            assert(pm[i].0.len() != pm[j].0.len() || pm[i].0[5] != pm[j].0[5]);
        }
    }
    m
}

/// The index of the entry holding key `k`, or `m.len()` when absent.
pub open spec fn key_idx(m: Seq<(Seq<char>, Seq<char>)>, k: Seq<char>) -> int
    decreases m.len(),
{
    if m.len() == 0 {
        0
    } else if m[0].0 == k {
        0
    } else {
        1 + key_idx(m.drop_first(), k)
    }
}

pub proof fn lemma_key_idx(m: Seq<(Seq<char>, Seq<char>)>, k: Seq<char>)
    ensures
        0 <= key_idx(m, k) <= m.len(),
        forall|i: int| 0 <= i < key_idx(m, k) ==> (#[trigger] m[i]).0 != k,
        key_idx(m, k) < m.len() ==> m[key_idx(m, k)].0 == k,
    decreases m.len(),
{
    if m.len() > 0 && m[0].0 != k {
        lemma_key_idx(m.drop_first(), k);
        assert forall|i: int| 0 <= i < key_idx(m, k) implies (#[trigger] m[i]).0 != k by {
            if i > 0 {
                assert(m.drop_first()[i - 1] == m[i]);
            }
        }
    }
}

/// Inserting a pair: the entry with the same key is overwritten if one
/// exists, else the pair is appended.
pub open spec fn map_insert(
    m: Seq<(Seq<char>, Seq<char>)>,
    k: Seq<char>,
    v: Seq<char>,
) -> Seq<(Seq<char>, Seq<char>)> {
    let i = key_idx(m, k);
    if i < m.len() {
        m.update(i, (k, v))
    } else {
        m.push((k, v))
    }
}

/// Insertion keeps the keys of a mapping distinct.
pub proof fn lemma_map_insert_uniq(m: Seq<(Seq<char>, Seq<char>)>, k: Seq<char>, v: Seq<char>)
    requires
        uniq_keys(m),
    ensures
        uniq_keys(map_insert(m, k, v)),
{
    lemma_key_idx(m, k);
}

/// Inserts a pair into a mapping, overwriting the entry with the same
/// key if one exists.
pub fn insert_mapping(m: &mut Vec<(String, String)>, k: String, v: String)
    ensures
        pairs_view(final(m)@) =~= map_insert(pairs_view(old(m)@), k@, v@),
{
    let ghost mv = pairs_view(m@);
    proof {
        lemma_key_idx(mv, k@);
    }
    let mut i: usize = 0;
    while i < m.len()
        invariant
            i <= m@.len(),
            m@ == old(m)@,
            mv == pairs_view(m@),
            mv.len() == m@.len(),
            forall|j: int| 0 <= j < i ==> (#[trigger] mv[j]).0 != k@,
        decreases m@.len() - i,
    {
        proof {
            assert(mv[i as int] == (m@[i as int].0@, m@[i as int].1@));
        }
        if str_eq(m[i].0.as_str(), k.as_str()) {
            proof {
                lemma_key_idx(mv, k@);
                assert(key_idx(mv, k@) == i);
            }
            m.remove(i);
            m.insert(i, (k, v));
            proof {
                assert(pairs_view(m@) =~= map_insert(mv, k@, v@));
            }
            return ;
        }
        i = i + 1;
    }
    proof {
        lemma_key_idx(mv, k@);
        assert(key_idx(mv, k@) == mv.len());
    }
    m.push((k, v));
    proof {
        assert(pairs_view(m@) =~= map_insert(mv, k@, v@));
    }
}

/// The entry at `k` matches `path` and no entry matches with a longer
/// prefix.
pub open spec fn is_longest_match(
    m: Seq<(Seq<char>, Seq<char>)>,
    path: Seq<char>,
    k: int,
) -> bool {
    &&& 0 <= k < m.len()
    &&& is_prefix(m[k].0, path)
    &&& forall|j: int|
        0 <= j < m.len() && is_prefix((#[trigger] m[j]).0, path) ==> m[j].0.len() <= m[k].0.len()
}

/// Where a path goes under a mapping: the longest prefix entry matching
/// it is replaced by its target; a path no entry matches is unchanged.
pub open spec fn mapped_path(m: Seq<(Seq<char>, Seq<char>)>, path: Seq<char>) -> Seq<char> {
    if exists|i: int| 0 <= i < m.len() && is_prefix((#[trigger] m[i]).0, path) {
        let k = choose|k: int| is_longest_match(m, path, k);
        m[k].1 + path.skip(m[k].0.len() as int)
    } else {
        path
    }
}

/// Maps one path: the longest matching prefix is replaced by its target;
/// with no match the path comes back unchanged.
pub fn apply_mapping(m: &Vec<(String, String)>, path: &String) -> (r: String)
    requires
        uniq_keys(pairs_view(m@)),
    ensures
        r@ == mapped_path(pairs_view(m@), path@),
{
    let ghost mv = pairs_view(m@);
    let mut best: Option<usize> = None;
    let mut i: usize = 0;
    while i < m.len()
        invariant
            i <= m@.len(),
            mv == pairs_view(m@),
            mv.len() == m@.len(),
            match best {
                None => forall|j: int| 0 <= j < i ==> !is_prefix((#[trigger] mv[j]).0, path@),
                Some(k) => {
                    &&& k < i
                    &&& is_prefix(mv[k as int].0, path@)
                    &&& forall|j: int|
                        0 <= j < i && is_prefix((#[trigger] mv[j]).0, path@) ==> mv[j].0.len()
                            <= mv[k as int].0.len()
                },
            },
        decreases m@.len() - i,
    {
        proof {
            assert(mv[i as int] == (m@[i as int].0@, m@[i as int].1@));
        }
        if str_starts_with(path.as_str(), m[i].0.as_str()) {
            match best {
                None => {
                    best = Some(i);
                },
                Some(k) => {
                    if m[k].0.as_str().unicode_len() < m[i].0.as_str().unicode_len() {
                        best = Some(i);
                    }
                },
            }
        }
        i = i + 1;
    }
    match best {
        Some(k) => {
            proof {
                assert(is_longest_match(mv, path@, k as int));
                let kk = choose|kk: int| is_longest_match(mv, path@, kk);
                assert(mv[kk].0.len() == mv[k as int].0.len());
                assert(mv[kk].0 =~= path@.take(mv[kk].0.len() as int));
                assert(mv[k as int].0 =~= path@.take(mv[k as int].0.len() as int));
                assert(mv[kk].0 == mv[k as int].0);
                if kk != k as int {
                    assert(false);
                }
            }
            let klen = m[k].0.as_str().unicode_len();
            let n = path.as_str().unicode_len();
            let r = m[k].1.clone().concat(path.as_str().substring_char(klen, n));
            proof {
                assert(path@.subrange(klen as int, n as int) =~= path@.skip(klen as int));
            }
            r
        },
        None => {
            let r = path.clone();
            r
        },
    }
}

/// A mapping file's overrides applied in order: each `key=value` line
/// overwrites or adds an entry; a line without exactly one `=` is
/// skipped.
pub open spec fn apply_overrides(
    m: Seq<(Seq<char>, Seq<char>)>,
    lines: Seq<Seq<u8>>,
) -> Seq<(Seq<char>, Seq<char>)>
    decreases lines.len(),
{
    if lines.len() == 0 {
        m
    } else {
        let rest = apply_overrides(m, lines.drop_last());
        match kv_of(lines.last()) {
            Some(kv) => map_insert(rest, decode_latin1(kv.0), decode_latin1(kv.1)),
            None => rest,
        }
    }
}

/// Overrides keep the keys of a mapping distinct.
pub proof fn lemma_apply_overrides_uniq(m: Seq<(Seq<char>, Seq<char>)>, lines: Seq<Seq<u8>>)
    requires
        uniq_keys(m),
    ensures
        uniq_keys(apply_overrides(m, lines)),
    decreases lines.len(),
{
    if lines.len() > 0 {
        lemma_apply_overrides_uniq(m, lines.drop_last());
        match kv_of(lines.last()) {
            Some(kv) => {
                lemma_map_insert_uniq(
                    apply_overrides(m, lines.drop_last()),
                    decode_latin1(kv.0),
                    decode_latin1(kv.1),
                );
            },
            None => {},
        }
    }
}

/// The mapping an archive's mapping descriptor yields: the built-in
/// table, with each `key=value` line of the descriptor overwriting or
/// adding an entry in order.
pub open spec fn spec_decorated_mapping(data: Seq<u8>) -> Seq<(Seq<char>, Seq<char>)> {
    apply_overrides(spec_default_mapping(), split_lines(data))
}

/// Builds the mapping an archive's mapping descriptor yields.
pub fn decorate_map(data: &Vec<u8>) -> (r: Vec<(String, String)>)
    ensures
        pairs_view(r@) =~= spec_decorated_mapping(data@),
        uniq_keys(pairs_view(r@)),
{
    let mut m = default_mapping();
    let lines = crate::text::byte_lines(data);
    let ghost lviews = lines@.map_values(|l: Vec<u8>| l@);
    let mut i: usize = 0;
    while i < lines.len()
        invariant
            i <= lines@.len(),
            lviews == lines@.map_values(|l: Vec<u8>| l@),
            lviews =~= split_lines(data@),
            pairs_view(m@) =~= apply_overrides(spec_default_mapping(), lviews.take(i as int)),
        decreases lines@.len() - i,
    {
        proof {
            assert(lviews[i as int] == lines@[i as int]@);
            assert(lviews.take(i + 1).drop_last() =~= lviews.take(i as int));
            assert(lviews.take(i + 1).last() == lviews[i as int]);
        }
        match split_kv(&lines[i]) {
            Some(kv) => {
                let key = bytes_to_string(&kv.0);
                let value = bytes_to_string(&kv.1);
                insert_mapping(&mut m, key, value);
            },
            None => {},
        }
        i = i + 1;
    }
    proof {
        assert(lviews.take(lviews.len() as int) =~= lviews);
        lemma_apply_overrides_uniq(spec_default_mapping(), lviews);
    }
    m
}

} // verus!
