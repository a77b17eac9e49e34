//! Change detection over the digest of the configuration files, and the
//! decisions of the compile pipeline that hang on it.
use vstd::prelude::*;

verus! {

pub open spec fn opt_bytes(o: Option<Vec<u8>>) -> Option<Seq<u8>> {
    match o {
        Some(v) => Some(v@),
        None => None,
    }
}

/// The configuration changed unless a previous digest exists and equals the
/// current one.
pub open spec fn changed(current: Seq<u8>, previous: Option<Seq<u8>>) -> bool {
    match previous {
        Some(p) => p != current,
        None => true,
    }
}

/// Compares the current digest with the previous run's, if there was one.
pub fn config_changed(current: &Vec<u8>, previous: &Option<Vec<u8>>) -> (r: bool)
    ensures
        r == changed(current@, opt_bytes(*previous)),
{
    match previous {
        None => true,
        Some(p) => {
            proof {
                assert(opt_bytes(*previous) == Some(p@));
            }
            if p.len() != current.len() {
                return true;
            }
            let mut i: usize = 0;
            while i < p.len()
                invariant
                    opt_bytes(*previous) == Some(p@),
                    p@.len() == current@.len(),
                    i <= p@.len(),
                    forall|k: int| 0 <= k < i ==> p@[k] == current@[k],
                decreases p@.len() - i,
            {
                if p[i] != current[i] {
                    proof {
                        assert(p@[i as int] != current@[i as int]);
                        assert(p@ != current@);
                    }
                    return true;
                }
                i = i + 1;
            }
            proof {
                assert(p@ =~= current@);
            }
            false
        },
    }
}

/// Reconciliation runs only on a change, and only on a server.
pub fn should_reconcile(changed: bool, client: bool) -> (r: bool)
    ensures
        r == (changed && !client),
{
    changed && !client
}

/// The daily signal pass runs on a server when today's marker is absent.
pub fn daily_pass_due(client: bool, marker_exists: bool) -> (r: bool)
    ensures
        r == (!client && !marker_exists),
{
    !client && !marker_exists
}

/// Running again on unchanged input finds the digest equal to the one
/// recorded by the previous run, so nothing is reconciled; a first run,
/// with no digest recorded, always counts as a change.
pub proof fn lemma_rerun_unchanged(digest: Seq<u8>)
    ensures
        !changed(digest, Some(digest)),
        changed(digest, None),
{
}

} // verus!
