//! Module identities: a vendor-named, versioned deployable unit,
//! optionally specialized by a deployment kind (for example `repo` or
//! `share`), written `vendor:name:version[:kind]`.

use vstd::prelude::*;

use crate::text::find_char;
use crate::text::find_char_from;
use crate::text::str_eq;
use crate::text::text_less;
use crate::text::lemma_text_lt_trichotomy;
use crate::text::text_lt;

verus! {

/// A module identity.
#[derive(Clone, Debug, PartialEq, Eq)]
pub struct AmpModule {
    pub vendor: String,
    pub name: String,
    pub version: String,
    pub module_type: String,
}

/// The mathematical shape of a module identity.
#[verifier::ext_equal]
pub struct ModuleView {
    pub vendor: Seq<char>,
    pub name: Seq<char>,
    pub version: Seq<char>,
    pub module_type: Seq<char>,
}

impl View for AmpModule {
    type V = ModuleView;

    open spec fn view(&self) -> ModuleView {
        ModuleView {
            vendor: self.vendor@,
            name: self.name@,
            version: self.version@,
            module_type: self.module_type@,
        }
    }
}

/// Whether a module string holds the three colon-separated identity
/// fields `vendor:name:version`.
pub open spec fn has_identity_fields(s: Seq<char>) -> bool {
    let i1 = find_char(s, ':');
    let r1 = s.skip(i1 + 1);
    let i2 = find_char(r1, ':');
    i1 < s.len() && i2 < r1.len()
}

/// The identity a module string and a kind describe: the first three
/// colon-separated fields, anything after a third colon ignored.
pub open spec fn spec_identity(s: Seq<char>, module_type: Seq<char>) -> ModuleView {
    let i1 = find_char(s, ':');
    let r1 = s.skip(i1 + 1);
    let i2 = find_char(r1, ':');
    let r2 = r1.skip(i2 + 1);
    let i3 = find_char(r2, ':');
    ModuleView { vendor: s.take(i1), name: r1.take(i2), version: r2.take(i3), module_type }
}

impl AmpModule {
    /// Reads `vendor:name:version` out of a module string; a fourth
    /// colon-separated field, if any, is ignored.
    pub fn new(module: &str, module_type: &str) -> (m: AmpModule)
        requires
            has_identity_fields(module@),
        ensures
            m@ =~= spec_identity(module@, module_type@),
    {
        let n = module.unicode_len();
        proof {
            assert(n == module@.len());
            assert(module@.skip(0) =~= module@);
        }
        let i1 = find_char_from(module, ':', 0);
        let ghost r1 = module@.skip(i1 + 1);
        let i2 = find_char_from(module, ':', i1 + 1);
        proof {
            assert(module@.take(i1 as int) =~= module@.subrange(0, i1 as int));
            assert(r1.take(i2 - (i1 + 1)) =~= module@.subrange(i1 + 1, i2 as int));
            assert(r1.skip(i2 - (i1 + 1) + 1) =~= module@.skip(i2 + 1));
        }
        let ghost r2 = r1.skip(i2 - (i1 + 1) + 1);
        let i3 = find_char_from(module, ':', i2 + 1);
        proof {
            assert(r2.take(i3 - (i2 + 1)) =~= module@.subrange(i2 + 1, i3 as int));
        }
        AmpModule {
            vendor: module.substring_char(0, i1).to_owned(),
            name: module.substring_char(i1 + 1, i2).to_owned(),
            version: module.substring_char(i2 + 1, i3).to_owned(),
            module_type: module_type.to_owned(),
        }
    }

    /// The display form of an identity: `vendor:name:version`, with
    /// `:kind` appended when the kind is set.
    pub fn display_string(&self) -> (r: String)
        ensures
            r@ =~= spec_display(self@),
    {
        proof {
            reveal_strlit(":");
        }
        let base = self.vendor.clone().concat(":").concat(self.name.as_str()).concat(":").concat(
            self.version.as_str(),
        );
        if self.module_type.as_str().is_empty() {
            base
        } else {
            base.concat(":").concat(self.module_type.as_str())
        }
    }
}

/// The total order on identities: lexicographic over
/// `(vendor, name, version, kind)`, each field compared as text.
pub open spec fn identity_lt(a: ModuleView, b: ModuleView) -> bool {
    text_lt(a.vendor, b.vendor) || (a.vendor == b.vendor && (text_lt(a.name, b.name) || (a.name
        == b.name && (text_lt(a.version, b.version) || (a.version == b.version && text_lt(
        a.module_type,
        b.module_type,
    ))))))
}

/// Identity order is a strict total order: exactly one of `a < b`,
/// `b < a`, `a == b` holds.
pub proof fn lemma_identity_lt_trichotomy(a: ModuleView, b: ModuleView)
    ensures
        identity_lt(a, b) || identity_lt(b, a) || a =~= b,
        identity_lt(a, b) ==> !identity_lt(b, a) && !(a =~= b),
        identity_lt(b, a) ==> !identity_lt(a, b) && !(a =~= b),
{
    lemma_text_lt_trichotomy(a.vendor, b.vendor);
    lemma_text_lt_trichotomy(a.name, b.name);
    lemma_text_lt_trichotomy(a.version, b.version);
    lemma_text_lt_trichotomy(a.module_type, b.module_type);
}

/// Whether one identity precedes another in the total order.
pub fn identity_less(a: &AmpModule, b: &AmpModule) -> (r: bool)
    ensures
        r == identity_lt(a@, b@),
{
    proof {
        lemma_text_lt_trichotomy(a@.vendor, b@.vendor);
        lemma_text_lt_trichotomy(a@.name, b@.name);
        lemma_text_lt_trichotomy(a@.version, b@.version);
        lemma_text_lt_trichotomy(a@.module_type, b@.module_type);
    }
    if !str_eq(a.vendor.as_str(), b.vendor.as_str()) {
        text_less(a.vendor.as_str(), b.vendor.as_str())
    } else if !str_eq(a.name.as_str(), b.name.as_str()) {
        text_less(a.name.as_str(), b.name.as_str())
    } else if !str_eq(a.version.as_str(), b.version.as_str()) {
        text_less(a.version.as_str(), b.version.as_str())
    } else {
        text_less(a.module_type.as_str(), b.module_type.as_str())
    }
}

/// Whether two identities hold the same four fields.
pub fn identity_eq(a: &AmpModule, b: &AmpModule) -> (r: bool)
    ensures
        r == (a@ =~= b@),
{
    str_eq(a.vendor.as_str(), b.vendor.as_str()) && str_eq(a.name.as_str(), b.name.as_str())
        && str_eq(a.version.as_str(), b.version.as_str()) && str_eq(
        a.module_type.as_str(),
        b.module_type.as_str(),
    )
}

/// A strictly ascending module list: sorted, with no duplicates.
pub open spec fn strictly_sorted(s: Seq<AmpModule>) -> bool {
    forall|i: int| 0 <= i && i + 1 < s.len() ==> identity_lt((#[trigger] s[i])@, s[i + 1]@)
}

/// Whether an identity occurs in a module list.
pub open spec fn list_has(s: Seq<AmpModule>, x: ModuleView) -> bool {
    exists|i: int| 0 <= i < s.len() && (#[trigger] s[i])@ == x
}

/// Where an identity belongs in a strictly ascending list: everything
/// before the position sorts below it, and the flag says a duplicate
/// already sits there.
fn find_insert_pos(list: &Vec<AmpModule>, m: &AmpModule) -> (r: (usize, bool))
    requires
        strictly_sorted(list@),
    ensures
        r.0 <= list@.len(),
        forall|j: int| 0 <= j < r.0 ==> identity_lt((#[trigger] list@[j])@, m@),
        r.1 ==> r.0 < list@.len() && list@[r.0 as int]@ == m@,
        !r.1 && r.0 < list@.len() ==> identity_lt(m@, list@[r.0 as int]@),
{
    let mut i: usize = 0;
    while i < list.len()
        invariant
            i <= list@.len(),
            forall|j: int| 0 <= j < i ==> identity_lt((#[trigger] list@[j])@, m@),
        decreases list@.len() - i,
    {
        if identity_less(&list[i], m) {
            i = i + 1;
        } else if identity_eq(&list[i], m) {
            return (i, true);
        } else {
            proof {
                lemma_identity_lt_trichotomy(list@[i as int]@, m@);
            }
            return (i, false);
        }
    }
    (i, false)
}

/// Inserts an identity into a strictly ascending module list, keeping it
/// strictly ascending: a duplicate is dropped, so sorting and
/// deduplication are one pass of these inserts.
pub fn insert_module_sorted(list: &mut Vec<AmpModule>, m: AmpModule)
    requires
        strictly_sorted(old(list)@),
    ensures
        strictly_sorted(final(list)@),
        forall|x: ModuleView|
            #[trigger] list_has(final(list)@, x) <==> list_has(old(list)@, x) || x == m@,
{
    let ghost mv = m@;
    let (pos, dup) = find_insert_pos(list, &m);
    if dup {
        proof {
            assert forall|x: ModuleView|
                list_has(list@, x) <==> list_has(old(list)@, x) || x == mv by {
                if x == mv {
                    assert(list@[pos as int]@ == x);
                }
            }
        }
        return ;
    }
    list.insert(pos, m);
    proof {
        let s = list@;
        let olds = old(list)@;
        let p = pos as int;
        assert forall|j: int| 0 <= j && j + 1 < s.len() implies identity_lt((#[trigger] s[j])@, s[j
            + 1]@) by {
            if j + 1 < p {
                assert(s[j] == olds[j] && s[j + 1] == olds[j + 1]);
            } else if j + 1 == p {
                assert(s[j] == olds[j] && s[j + 1]@ == mv);
            } else if j == p {
                assert(s[j]@ == mv && s[j + 1] == olds[j]);
            } else {
                assert(s[j] == olds[j - 1] && s[j + 1] == olds[j]);
            }
        }
        assert forall|x: ModuleView|
            list_has(s, x) <==> list_has(olds, x) || x == mv by {
            if list_has(s, x) {
                let k = choose|k: int| 0 <= k < s.len() && (#[trigger] s[k])@ == x;
                if k < p {
                    assert(olds[k]@ == x);
                } else if k > p {
                    assert(olds[k - 1]@ == x);
                }
            }
            if list_has(olds, x) {
                let k = choose|k: int| 0 <= k < olds.len() && (#[trigger] olds[k])@ == x;
                if k < p {
                    assert(s[k]@ == x);
                } else {
                    assert(s[k + 1]@ == x);
                }
            }
            if x == mv {
                assert(s[p]@ == x);
            }
        }
    }
}

/// The display form of an identity.
pub open spec fn spec_display(m: ModuleView) -> Seq<char> {
    let base = m.vendor + seq![':'] + m.name + seq![':'] + m.version;
    if m.module_type.len() == 0 {
        base
    } else {
        base + seq![':'] + m.module_type
    }
}

/// The suggestion line an identity gets in a module list:
/// `  - vendor:name:version`.
pub open spec fn spec_list_line(m: ModuleView) -> Seq<char> {
    seq![' ', ' ', '-', ' '] + m.vendor + seq![':'] + m.name + seq![':'] + m.version
}

/// The module-list lines for a set of identities, one per module, in
/// order, ready to paste into a configuration file.
pub fn module_list_lines(modules: &Vec<AmpModule>) -> (r: Vec<String>)
    ensures
        r@.len() == modules@.len(),
        forall|i: int| 0 <= i < r@.len() ==> (#[trigger] r@[i])@ =~= spec_list_line(modules@[i]@),
{
    let mut out: Vec<String> = Vec::new();
    let mut i: usize = 0;
    while i < modules.len()
        invariant
            i <= modules@.len(),
            out@.len() == i,
            forall|j: int| 0 <= j < i ==> (#[trigger] out@[j])@ =~= spec_list_line(modules@[j]@),
        decreases modules@.len() - i,
    {
        let m = &modules[i];
        let line = String::from_str("  - ").concat(m.vendor.as_str()).concat(":").concat(
            m.name.as_str(),
        ).concat(":").concat(m.version.as_str());
        proof {
            reveal_strlit("  - ");
            reveal_strlit(":");
            assert(line@ =~= spec_list_line(modules@[i as int]@));
        }
        out.push(line);
        i = i + 1;
    }
    out
}

} // verus!
