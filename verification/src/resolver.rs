//! Upgrade resolution: picking, per module, the best version the
//! registry publishes.
//!
//! A candidate is eligible when its ordinal strictly exceeds the pinned
//! one. Among eligible candidates the maximum ordinal wins, ties going to
//! the earliest in the registry's list, and the pinned version string is
//! replaced by the winner's verbatim text. A module with no published
//! versions at all is dropped; one with candidates but no eligible one is
//! kept unchanged.

use vstd::prelude::*;

use crate::identity::AmpModule;
use crate::identity::ModuleView;
use crate::version::Ordinal;
use crate::version::lemma_ord_lt_transitive;
use crate::version::lemma_ord_lt_trichotomy;
use crate::version::ord_lt;
use crate::version::ord_of;
use crate::version::parse;
use crate::version::spec_ordinal;
use crate::version::version_less;
use crate::version::ParsedVersion;

verus! {

/// The candidate at `k` is eligible, no eligible candidate beats it, and
/// every earlier eligible candidate sorts strictly below it.
pub open spec fn is_best_candidate(p: Ordinal, cands: Seq<Seq<char>>, k: int) -> bool {
    &&& 0 <= k < cands.len()
    &&& ord_lt(p, spec_ordinal(cands[k]))
    &&& forall|j: int|
        0 <= j < cands.len() && ord_lt(p, #[trigger] spec_ordinal(cands[j])) ==> !ord_lt(
            spec_ordinal(cands[k]),
            spec_ordinal(cands[j]),
        )
    &&& forall|j: int|
        0 <= j < k && ord_lt(p, #[trigger] spec_ordinal(cands[j])) ==> ord_lt(
            spec_ordinal(cands[j]),
            spec_ordinal(cands[k]),
        )
}

/// What resolving a module against the registry's candidate version list
/// yields: dropped when the list is empty, unchanged when no candidate's
/// ordinal exceeds the pinned one, and otherwise the same identity with
/// the best candidate's verbatim version string.
pub open spec fn resolution_spec(
    m: ModuleView,
    cands: Seq<Seq<char>>,
    r: Option<ModuleView>,
) -> bool {
    let p = spec_ordinal(m.version);
    if cands.len() == 0 {
        r is None
    } else if forall|j: int|
        0 <= j < cands.len() ==> !ord_lt(p, #[trigger] spec_ordinal(cands[j])) {
        r == Some(m)
    } else {
        match r {
            Some(u) => {
                &&& u.vendor == m.vendor
                &&& u.name == m.name
                &&& u.module_type == m.module_type
                &&& exists|k: int| #[trigger] is_best_candidate(p, cands, k) && u.version == cands[k]
            },
            None => false,
        }
    }
}

/// The view an optional resolved module presents.
pub open spec fn option_module_view(r: Option<AmpModule>) -> Option<ModuleView> {
    match r {
        Some(u) => Some(u@),
        None => None,
    }
}

/// Resolves one module against the version strings the registry lists
/// for it.
pub fn resolve_module(pinned: &AmpModule, candidates: &Vec<String>) -> (r: Option<AmpModule>)
    ensures
        resolution_spec(
            pinned@,
            candidates@.map_values(|s: String| s@),
            option_module_view(r),
        ),
{
    let ghost cviews = candidates@.map_values(|s: String| s@);
    let ghost p = spec_ordinal(pinned@.version);
    let pinned_v = parse(pinned.version.as_str());
    let mut best: Option<ParsedVersion> = None;
    let ghost mut best_idx: int = 0;
    let mut i: usize = 0;
    while i < candidates.len()
        invariant
            i <= candidates@.len(),
            cviews == candidates@.map_values(|s: String| s@),
            ord_of(&pinned_v) == p,
            match best {
                None => forall|j: int|
                    0 <= j < i ==> !ord_lt(p, #[trigger] spec_ordinal(cviews[j])),
                Some(b) => {
                    &&& 0 <= best_idx < i
                    &&& b.original@ == cviews[best_idx]
                    &&& ord_of(&b) == spec_ordinal(cviews[best_idx])
                    &&& ord_lt(p, ord_of(&b))
                    &&& forall|j: int|
                        0 <= j < i && ord_lt(p, #[trigger] spec_ordinal(cviews[j])) ==> !ord_lt(
                            ord_of(&b),
                            spec_ordinal(cviews[j]),
                        )
                    &&& forall|j: int|
                        0 <= j < best_idx && ord_lt(p, #[trigger] spec_ordinal(cviews[j]))
                            ==> ord_lt(spec_ordinal(cviews[j]), ord_of(&b))
                },
            },
        decreases candidates@.len() - i,
    {
        proof {
            assert(cviews[i as int] == candidates@[i as int]@);
        }
        let cv = parse(candidates[i].as_str());
        proof {
            assert(ord_of(&cv) == spec_ordinal(cviews[i as int]));
        }
        if version_less(&pinned_v, &cv) {
            let replace = match &best {
                None => true,
                Some(b) => version_less(b, &cv),
            };
            if replace {
                proof {
                    lemma_ord_lt_trichotomy(ord_of(&cv), ord_of(&cv));
                    if let Some(b) = best {
                        let ob = ord_of(&b);
                        let oc = ord_of(&cv);
                        assert forall|j: int|
                            0 <= j <= i && ord_lt(p, #[trigger] spec_ordinal(cviews[j]))
                                implies !ord_lt(oc, spec_ordinal(cviews[j])) && (j < i ==> ord_lt(
                            spec_ordinal(cviews[j]),
                            oc,
                        )) by {
                            if j < i {
                                let oj = spec_ordinal(cviews[j]);
                                lemma_ord_lt_trichotomy(ob, oj);
                                if ord_lt(oj, ob) {
                                    lemma_ord_lt_transitive(oj, ob, oc);
                                }
                                lemma_ord_lt_trichotomy(oc, oj);
                            } else {
                                lemma_ord_lt_trichotomy(oc, spec_ordinal(cviews[j]));
                            }
                        }
                    }
                    best_idx = i as int;
                }
                best = Some(cv);
            }
        }
        i = i + 1;
    }
    proof {
        assert(cviews.len() == candidates@.len());
    }
    match best {
        Some(b) => {
            let u = AmpModule {
                vendor: pinned.vendor.clone(),
                name: pinned.name.clone(),
                version: b.original,
                module_type: pinned.module_type.clone(),
            };
            proof {
                assert(is_best_candidate(p, cviews, best_idx) && u@.version == cviews[best_idx]);
            }
            Some(u)
        },
        None => {
            if candidates.len() > 0 {
                let u = AmpModule {
                    vendor: pinned.vendor.clone(),
                    name: pinned.name.clone(),
                    version: pinned.version.clone(),
                    module_type: pinned.module_type.clone(),
                };
                proof {
                    assert(u@ =~= pinned@);
                }
                Some(u)
            } else {
                None
            }
        },
    }
}

/// Why a version check fails the whole run.
#[derive(Clone, Copy, Debug, PartialEq, Eq, Structural)]
pub enum ResolveError {
    /// The registry answered the version query with this non-success
    /// status.
    RegistryStatus(u16),
    /// The registry's body did not decode as a JSON array of strings.
    DecodeFailed,
}

/// Names the reading `serde_json::from_slice` gives a byte body as a
/// JSON array of strings, `None` where the body is not one: it depends
/// on the bytes alone.
pub uninterp spec fn json_string_list(b: Seq<u8>) -> Option<Seq<Seq<char>>>;

/// Relies on `serde_json::from_slice::<Vec<String>>`: decodes a JSON
/// array of strings, failing exactly where the body is not one.
#[verifier::external_body]
fn parse_version_list(body: &Vec<u8>) -> (r: Option<Vec<String>>)
    ensures
        match r {
            Some(v) => json_string_list(body@) == Some(v@.map_values(|s: String| s@)),
            None => json_string_list(body@) is None,
        },
{
    serde_json::from_slice::<Vec<String>>(body.as_slice()).ok()
}

/// The registry URL listing a module's published versions:
/// `{base}/module/{vendor}/{name}`, asking for development builds too
/// when `dev` is set.
pub open spec fn spec_versions_url(base: Seq<char>, m: ModuleView, dev: bool) -> Seq<char> {
    let plain = base + "/module/"@ + m.vendor + seq!['/'] + m.name;
    if dev {
        plain + "?dev=true"@
    } else {
        plain
    }
}

/// The registry URL a module's published versions are listed at.
pub fn versions_url(base: &String, m: &AmpModule, dev: bool) -> (r: String)
    ensures
        r@ =~= spec_versions_url(base@, m@, dev),
{
    proof {
        reveal_strlit("/");
    }
    let plain = base.clone().concat("/module/").concat(m.vendor.as_str()).concat("/").concat(
        m.name.as_str(),
    );
    if dev {
        plain.concat("?dev=true")
    } else {
        plain
    }
}

/// Resolves one module from the registry's response to its version
/// query: a non-success status or an undecodable body fails the run;
/// otherwise the decoded version list decides the upgrade.
pub fn evaluate_version_response(module: &AmpModule, status: u16, body: &Vec<u8>) -> (r: Result<
    Option<AmpModule>,
    ResolveError,
>)
    ensures
        status != 200 ==> r == Err::<Option<AmpModule>, ResolveError>(
            ResolveError::RegistryStatus(status),
        ),
        status == 200 && json_string_list(body@) is None ==> r == Err::<
            Option<AmpModule>,
            ResolveError,
        >(ResolveError::DecodeFailed),
        status == 200 && json_string_list(body@) is Some ==> (r matches Ok(m) && resolution_spec(
            module@,
            json_string_list(body@)->0,
            option_module_view(m),
        )),
{
    if status != 200 {
        return Err(ResolveError::RegistryStatus(status));
    }
    match parse_version_list(body) {
        Some(list) => Ok(resolve_module(module, &list)),
        None => Err(ResolveError::DecodeFailed),
    }
}

/// Law: resolving a module whose pinned version is the maximum available
/// never changes it — no candidate is eligible, so the identity comes
/// back as it went in.
pub proof fn lemma_pinned_maximum_unchanged(
    m: ModuleView,
    cands: Seq<Seq<char>>,
    r: Option<ModuleView>,
)
    requires
        resolution_spec(m, cands, r),
        cands.len() > 0,
        forall|j: int|
            0 <= j < cands.len() ==> !ord_lt(
                spec_ordinal(m.version),
                #[trigger] spec_ordinal(cands[j]),
            ),
    ensures
        r == Some(m),
{
}

/// Law: a module the registry lists no versions for at all yields no
/// entry in the resolved set — dropped, not errored.
pub proof fn lemma_absent_module_dropped(
    m: ModuleView,
    cands: Seq<Seq<char>>,
    r: Option<ModuleView>,
)
    requires
        resolution_spec(m, cands, r),
        cands.len() == 0,
    ensures
        r is None,
{
}

} // verus!
