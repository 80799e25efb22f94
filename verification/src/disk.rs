//! What the library asks of the disk: whether a path exists, or is a directory.
//! Both read the machine's state at the time of the call, so no answer is claimed;
//! what a caller makes of a run of such answers is `first_existing`.
use vstd::prelude::*;

verus! {

/// `Path::exists`: whether something is at `path` now.
#[verifier::external_body]
pub(crate) fn path_exists(path: &str) -> bool {
    std::path::Path::new(path).exists()
}

/// `Path::is_dir`: whether a directory is at `path` now.
#[verifier::external_body]
pub(crate) fn dir_exists(path: &str) -> bool {
    std::path::Path::new(path).is_dir()
}

} // verus!

verus! {

/// The index of the first `true` among probe answers, taken in order.
pub open spec fn first_true(found: Seq<bool>) -> Option<nat>
    decreases found.len(),
{
    if found.len() == 0 {
        None
    } else if found[0] {
        Some(0)
    } else {
        match first_true(found.drop_first()) {
            Some(i) => Some(i + 1),
            None => None,
        }
    }
}

/// `first_true` is the smallest index holding `true`, and `None` only when none does.
pub proof fn lemma_first_true(found: Seq<bool>)
    ensures
        match first_true(found) {
            Some(i) => i < found.len() && found[i as int] && forall|j: int| 0 <= j < i ==> !found[j],
            None => forall|j: int| 0 <= j < found.len() ==> !found[j],
        },
    decreases found.len(),
{
    if found.len() > 0 && !found[0] {
        let rest = found.drop_first();
        lemma_first_true(rest);
        assert forall|j: int| 1 <= j < found.len() implies found[j] == rest[j - 1] by {}
    }
}

/// The first of several probes that answered yes: its index, or `None` when none did.
pub fn first_existing(found: &[bool]) -> (r: Option<usize>)
    ensures
        match r {
            Some(i) => first_true(found@) == Some(i as nat),
            None => first_true(found@) is None,
        },
{
    let mut i: usize = 0;
    while i < found.len()
        invariant
            i <= found@.len(),
            forall|j: int| 0 <= j < i ==> !found@[j],
        decreases found.len() - i,
    {
        if found[i] {
            proof {
                lemma_first_true(found@);
            }
            return Some(i);
        }
        i += 1;
    }
    proof {
        lemma_first_true(found@);
    }
    None
}

} // verus!
