//! What holds of the sources of zones in an archive.

use crate::spanning::zone::lawful_identity;
use crate::tar::path::{same_part, same_path, PathPart};
use crate::tar::recovery::RecoveryEntry;
use vstd::prelude::*;
use vstd::std_specs::cmp::PartialEqSpec;

verus! {

/// Having the same components is an equivalence among paths.
pub proof fn lemma_same_path_is_equivalence(a: Seq<PathPart>, b: Seq<PathPart>, c: Seq<PathPart>)
    ensures
        same_path(a, a),
        same_path(a, b) ==> same_path(b, a),
        same_path(a, b) && same_path(b, c) ==> same_path(a, c),
{
    assert forall|i: int| 0 <= i < a.len() implies same_part(#[trigger] a[i], a[i]) by {}
    if same_path(a, b) {
        assert forall|i: int| 0 <= i < b.len() implies same_part(#[trigger] b[i], a[i]) by {
            assert(same_part(a[i], b[i]));
        }
        if same_path(b, c) {
            assert forall|i: int| 0 <= i < a.len() implies same_part(#[trigger] a[i], c[i]) by {
                assert(same_part(a[i], b[i]));
                assert(same_part(b[i], c[i]));
            }
        }
    }
}

/// The sources of zones in an archive are lawful identities: their equality
/// is an equivalence, and a clone of an entry is equal to the entry.
pub proof fn lemma_entries_are_lawful()
    ensures
        lawful_identity::<RecoveryEntry>(),
{
    assert forall|a: RecoveryEntry| #[trigger] a.eq_spec(&a) by {
        lemma_same_path_is_equivalence(a.original_path@, a.original_path@, a.original_path@);
        lemma_same_path_is_equivalence(a.canonical_path@, a.canonical_path@, a.canonical_path@);
    }
    assert forall|a: RecoveryEntry, b: RecoveryEntry| #[trigger] a.eq_spec(&b) implies b.eq_spec(
        &a,
    ) by {
        lemma_same_path_is_equivalence(a.original_path@, b.original_path@, a.original_path@);
        lemma_same_path_is_equivalence(a.canonical_path@, b.canonical_path@, a.canonical_path@);
    }
    assert forall|a: RecoveryEntry, b: RecoveryEntry, c: RecoveryEntry| #[trigger]
        a.eq_spec(&b) && #[trigger] b.eq_spec(&c) implies a.eq_spec(&c) by {
        lemma_same_path_is_equivalence(a.original_path@, b.original_path@, c.original_path@);
        lemma_same_path_is_equivalence(a.canonical_path@, b.canonical_path@, c.canonical_path@);
    }
    assert forall|a: RecoveryEntry, b: RecoveryEntry| #[trigger] cloned(a, b) implies a.eq_spec(
        &b,
    ) by {
        lemma_same_path_is_equivalence(a.original_path@, a.original_path@, a.original_path@);
        lemma_same_path_is_equivalence(a.canonical_path@, a.canonical_path@, a.canonical_path@);
        if a != b {
            assert(b.same_entry(a));
            lemma_same_path_is_equivalence(b.original_path@, a.original_path@, b.original_path@);
            lemma_same_path_is_equivalence(
                b.canonical_path@,
                a.canonical_path@,
                b.canonical_path@,
            );
        }
    }
}

} // verus!
