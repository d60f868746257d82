//! Choosing among candidate modules for a required API version.

use vstd::prelude::*;
use super::versioning::{is_compatible, ApiVersion};

verus! {

/// How a required API version was resolved to a module.
#[derive(Debug, Clone, PartialEq, Eq)]
pub enum Resolution {
    /// A candidate provides exactly the required version.
    ExactMatch(String),
    /// A candidate provides a compatible (newer minor) version.
    CompatibleVersion(String),
    /// No candidate fits; the manifest's fallback module is used.
    Fallback(String),
    /// No candidate fits and there is no fallback.
    Incompatible,
}

/// Index of the first candidate whose version satisfies `pred`.
pub open spec fn first_exact(required: ApiVersion, candidates: Seq<(String, ApiVersion)>) -> Option<int>
    decreases candidates.len(),
{
    if candidates.len() == 0 {
        None
    } else if candidates[0].1 == required {
        Some(0)
    } else {
        match first_exact(required, candidates.drop_first()) {
            Some(i) => Some(i + 1),
            None => None,
        }
    }
}

/// Index of the first candidate compatible with `required`.
pub open spec fn first_compatible(required: ApiVersion, candidates: Seq<(String, ApiVersion)>) -> Option<int>
    decreases candidates.len(),
{
    if candidates.len() == 0 {
        None
    } else if candidates[0].1.major == required.major && candidates[0].1.minor >= required.minor {
        Some(0)
    } else {
        match first_compatible(required, candidates.drop_first()) {
            Some(i) => Some(i + 1),
            None => None,
        }
    }
}

/// What `resolve` answers, by name of the chosen module.
pub open spec fn spec_resolve(
    required: ApiVersion,
    candidates: Seq<(String, ApiVersion)>,
    fallback: Option<Seq<char>>,
) -> (Option<Seq<char>>, int) {
    match first_exact(required, candidates) {
        Some(i) => (Some(candidates[i].0@), 0),
        None => match first_compatible(required, candidates) {
            Some(i) => (Some(candidates[i].0@), 1),
            None => match fallback {
                Some(name) => (Some(name), 2),
                None => (None, 3),
            },
        },
    }
}

/// The shape of a `Resolution` as the pair `spec_resolve` produces.
pub open spec fn resolution_view(r: Resolution) -> (Option<Seq<char>>, int) {
    match r {
        Resolution::ExactMatch(n) => (Some(n@), 0),
        Resolution::CompatibleVersion(n) => (Some(n@), 1),
        Resolution::Fallback(n) => (Some(n@), 2),
        Resolution::Incompatible => (None, 3),
    }
}

proof fn lemma_first_exact_step(required: ApiVersion, c: Seq<(String, ApiVersion)>, i: int)
    requires
        0 <= i < c.len(),
        forall|j: int| 0 <= j < i ==> c[j].1 != required,
    ensures
        first_exact(required, c) == (if c[i].1 == required { Some(i) } else {
            match first_exact(required, c.skip(i + 1)) {
                Some(k) => Some(k + i + 1),
                None => None,
            }
        }),
    decreases i,
{
    if i > 0 {
        lemma_first_exact_step(required, c.drop_first(), i - 1);
        assert(c.drop_first().skip(i) =~= c.skip(i + 1));
    } else {
        assert(c.skip(1) =~= c.drop_first());
    }
}

proof fn lemma_first_compatible_step(required: ApiVersion, c: Seq<(String, ApiVersion)>, i: int)
    requires
        0 <= i < c.len(),
        forall|j: int| 0 <= j < i ==> !(c[j].1.major == required.major && c[j].1.minor >= required.minor),
    ensures
        first_compatible(required, c) == (if c[i].1.major == required.major && c[i].1.minor
            >= required.minor {
            Some(i)
        } else {
            match first_compatible(required, c.skip(i + 1)) {
                Some(k) => Some(k + i + 1),
                None => None,
            }
        }),
    decreases i,
{
    if i > 0 {
        lemma_first_compatible_step(required, c.drop_first(), i - 1);
        assert(c.drop_first().skip(i) =~= c.skip(i + 1));
    } else {
        assert(c.skip(1) =~= c.drop_first());
    }
}

/// Resolve `required` against `(module name, provided version)` candidates:
/// the first exact match, else the first compatible one, else the fallback.
pub fn resolve(
    required: ApiVersion,
    candidates: &[(String, ApiVersion)],
    fallback: Option<&str>,
) -> (r: Resolution)
    ensures
        resolution_view(r) == spec_resolve(
            required,
            candidates@,
            match fallback {
                Some(f) => Some(f@),
                None => None,
            },
        ),
{
    let mut i: usize = 0;
    while i < candidates.len()
        invariant
            i <= candidates@.len(),
            forall|j: int| 0 <= j < i ==> candidates@[j].1 != required,
        decreases candidates@.len() - i,
    {
        proof {
            lemma_first_exact_step(required, candidates@, i as int);
        }
        if candidates[i].1 == required {
            return Resolution::ExactMatch(candidates[i].0.clone());
        }
        i += 1;
    }
    proof {
        assert forall|j: int| 0 <= j < candidates@.len() implies candidates@[j].1 != required by {}
        lemma_no_exact(required, candidates@);
    }
    let mut i: usize = 0;
    while i < candidates.len()
        invariant
            i <= candidates@.len(),
            first_exact(required, candidates@) is None,
            forall|j: int| 0 <= j < i ==> !(candidates@[j].1.major == required.major
                && candidates@[j].1.minor >= required.minor),
        decreases candidates@.len() - i,
    {
        proof {
            lemma_first_compatible_step(required, candidates@, i as int);
        }
        if is_compatible(required, candidates[i].1) {
            return Resolution::CompatibleVersion(candidates[i].0.clone());
        }
        i += 1;
    }
    proof {
        lemma_no_compatible(required, candidates@);
    }
    match fallback {
        Some(name) => Resolution::Fallback(name.to_owned()),
        None => Resolution::Incompatible,
    }
}

proof fn lemma_no_exact(required: ApiVersion, c: Seq<(String, ApiVersion)>)
    requires
        forall|j: int| 0 <= j < c.len() ==> c[j].1 != required,
    ensures
        first_exact(required, c) is None,
    decreases c.len(),
{
    if c.len() > 0 {
        assert forall|j: int| 0 <= j < c.drop_first().len() implies c.drop_first()[j].1
            != required by {
            assert(c.drop_first()[j] == c[j + 1]);
        }
        lemma_no_exact(required, c.drop_first());
    }
}

proof fn lemma_no_compatible(required: ApiVersion, c: Seq<(String, ApiVersion)>)
    requires
        forall|j: int| 0 <= j < c.len() ==> !(c[j].1.major == required.major && c[j].1.minor
            >= required.minor),
    ensures
        first_compatible(required, c) is None,
    decreases c.len(),
{
    if c.len() > 0 {
        assert forall|j: int| 0 <= j < c.drop_first().len() implies !(c.drop_first()[j].1.major
            == required.major && c.drop_first()[j].1.minor >= required.minor) by {
            assert(c.drop_first()[j] == c[j + 1]);
        }
        lemma_no_compatible(required, c.drop_first());
    }
}

} // verus!
