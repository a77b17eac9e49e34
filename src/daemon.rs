//! Reload signalling of the daemons that use the compiled configuration.
use crate::fields::{fields, split_blank};
use crate::text::texts;
use vstd::prelude::*;

verus! {

/// A daemon, found by process name, and the signal that makes it reload.
pub struct Daemon {
    pub process: String,
    pub signal: String,
}

pub open spec fn hostapd() -> Seq<char> {
    seq!['h', 'o', 's', 't', 'a', 'p', 'd']
}

pub open spec fn radiucal() -> Seq<char> {
    seq!['r', 'a', 'd', 'i', 'u', 'c', 'a', 'l']
}

/// The daemons to signal, in order: the authentication daemon on `HUP`,
/// then the RADIUS companion on signal 2.
pub fn daemons() -> (r: Vec<Daemon>)
    ensures
        r@.len() == 2,
        r@[0].process@ == hostapd(),
        r@[0].signal@ == seq!['H', 'U', 'P'],
        r@[1].process@ == radiucal(),
        r@[1].signal@ == seq!['2'],
{
    proof {
        reveal_strlit("hostapd");
        reveal_strlit("HUP");
        reveal_strlit("radiucal");
        reveal_strlit("2");
    }
    let mut r: Vec<Daemon> = Vec::new();
    r.push(Daemon { process: String::from_str("hostapd"), signal: String::from_str("HUP") });
    r.push(Daemon { process: String::from_str("radiucal"), signal: String::from_str("2") });
    r
}

/// The option that selects `signal` for `kill`: the signal after a dash.
pub fn kill_flag(signal: &String) -> (r: String)
    ensures
        r@ == seq!['-'] + signal@,
{
    let mut s = String::from_str("-");
    proof {
        reveal_strlit("-");
    }
    s.append(signal.as_str());
    s
}

/// The process ids listed by a process lookup, separated by white space.
pub fn process_ids(listing: &String) -> (r: Vec<String>)
    ensures
        texts(r@) == fields(listing@, false),
{
    split_blank(listing)
}

/// A daemon counts as signalled when every one of its processes was.
pub fn all_delivered(results: &Vec<bool>) -> (r: bool)
    ensures
        r == forall|k: int| 0 <= k < results@.len() ==> #[trigger] results@[k],
{
    let mut i: usize = 0;
    while i < results.len()
        invariant
            i <= results@.len(),
            forall|k: int| 0 <= k < i ==> #[trigger] results@[k],
        decreases results@.len() - i,
    {
        if !results[i] {
            return false;
        }
        i = i + 1;
    }
    true
}

/// The next step of signalling all daemons.
#[derive(Debug, PartialEq, Eq, Structural)]
pub enum SignalStep {
    /// Signal the daemon at this index of `daemons()` and report back.
    Deliver(usize),
    /// Signalling is over; whether every daemon was signalled.
    Finished(bool),
}

/// Decides the next step of signalling all daemons, given the outcomes of
/// the daemons signalled so far in the order of `daemons()`. Every daemon
/// is signalled in turn whatever happened to the earlier ones; the pass
/// succeeds only if all of them were signalled.
pub fn signal_all(outcomes: &Vec<bool>) -> (r: SignalStep)
    ensures
        outcomes@.len() < 2 ==> r == SignalStep::Deliver(outcomes@.len() as usize),
        outcomes@.len() >= 2 ==> r == SignalStep::Finished(
            forall|k: int| 0 <= k < 2 ==> #[trigger] outcomes@[k],
        ),
{
    if outcomes.len() < 2 {
        SignalStep::Deliver(outcomes.len())
    } else {
        let ok = outcomes[0] && outcomes[1];
        proof {
            assert(ok == forall|k: int| 0 <= k < 2 ==> #[trigger] outcomes@[k]) by {
                if !ok {
                    if !outcomes@[0] {
                        assert(!outcomes@[0]);
                    } else {
                        assert(!outcomes@[1]);
                    }
                }
            }
        }
        SignalStep::Finished(ok)
    }
}

} // verus!
