//! Bringing the live per-user directory into exact correspondence with the
//! current user set.
use crate::fields::{fields, split_lines};
use crate::text::texts;
use vstd::prelude::*;

verus! {

/// What reconciliation does to the live directory: which files go and
/// which are created. Files in neither list are left untouched.
pub struct ReconcilePlan {
    pub remove: Vec<String>,
    pub create: Vec<String>,
}

/// `remove` and `create` are a plan that takes the directory holding
/// `existing` to one holding `target`: stale files go, missing ones are
/// created once each, and nothing else is touched.
pub open spec fn is_plan(
    target: Seq<Seq<char>>,
    existing: Seq<Seq<char>>,
    remove: Seq<Seq<char>>,
    create: Seq<Seq<char>>,
) -> bool {
    &&& forall|x: Seq<char>| #[trigger]
        remove.contains(x) <==> existing.contains(x) && !target.contains(x)
    &&& forall|x: Seq<char>| #[trigger]
        create.contains(x) <==> target.contains(x) && !existing.contains(x)
    &&& create.no_duplicates()
}

/// The directory after a plan is carried out.
pub open spec fn after_plan(
    existing: Set<Seq<char>>,
    remove: Set<Seq<char>>,
    create: Set<Seq<char>>,
) -> Set<Seq<char>> {
    existing.difference(remove).union(create)
}

fn contains_text(v: &Vec<String>, x: &String) -> (r: bool)
    ensures
        r == texts(v@).contains(x@),
{
    let mut i: usize = 0;
    while i < v.len()
        invariant
            i <= v@.len(),
            forall|k: int| 0 <= k < i ==> v@[k]@ != x@,
        decreases v@.len() - i,
    {
        if v[i] == *x {
            proof {
                assert(texts(v@)[i as int] == x@);
            }
            return true;
        }
        i = i + 1;
    }
    proof {
        if texts(v@).contains(x@) {
            let k = choose|k: int| 0 <= k < texts(v@).len() && texts(v@)[k] == x@;
            assert(v@[k]@ == x@);
        }
    }
    false
}

/// An element is in a sequence with `e` pushed iff it was in the sequence
/// or is `e`.
proof fn lemma_push_contains(s: Seq<Seq<char>>, e: Seq<char>, x: Seq<char>)
    ensures
        s.push(e).contains(x) <==> s.contains(x) || x == e,
{
    if s.push(e).contains(x) && x != e {
        let k = choose|k: int| 0 <= k < s.push(e).len() && s.push(e)[k] == x;
        assert(s[k] == x);
    }
    if x == e {
        assert(s.push(e)[s.len() as int] == x);
    }
    if s.contains(x) {
        let k = choose|k: int| 0 <= k < s.len() && s[k] == x;
        assert(s.push(e)[k] == x);
    }
}

/// Plans the reconciliation of a live directory holding the files
/// `existing` against the user names `target`.
pub fn plan_reconcile(target: &Vec<String>, existing: &Vec<String>) -> (r: ReconcilePlan)
    ensures
        is_plan(texts(target@), texts(existing@), texts(r.remove@), texts(r.create@)),
{
    let mut remove: Vec<String> = Vec::new();
    let mut i: usize = 0;
    while i < existing.len()
        invariant
            i <= existing@.len(),
            forall|x: Seq<char>| #[trigger]
                texts(remove@).contains(x) <==> texts(existing@.take(i as int)).contains(x)
                    && !texts(target@).contains(x),
        decreases existing@.len() - i,
    {
        let e = &existing[i];
        let ghost before = texts(remove@);
        proof {
            assert(texts(existing@.take(i + 1)) =~= texts(existing@.take(i as int)).push(e@));
        }
        if !contains_text(target, e) {
            remove.push(e.clone());
            proof {
                assert(texts(remove@) =~= before.push(e@));
            }
        }
        proof {
            assert forall|x: Seq<char>| #[trigger]
                texts(remove@).contains(x) <==> texts(existing@.take(i + 1)).contains(x)
                    && !texts(target@).contains(x) by {
                let t = texts(existing@.take(i as int));
                lemma_push_contains(t, e@, x);
                if texts(remove@).len() != before.len() {
                    lemma_push_contains(before, e@, x);
                }
            }
        }
        i = i + 1;
    }
    proof {
        assert(existing@.take(i as int) =~= existing@);
    }
    let mut create: Vec<String> = Vec::new();
    let mut j: usize = 0;
    while j < target.len()
        invariant
            j <= target@.len(),
            texts(create@).no_duplicates(),
            forall|x: Seq<char>| #[trigger]
                texts(create@).contains(x) <==> texts(target@.take(j as int)).contains(x)
                    && !texts(existing@).contains(x),
        decreases target@.len() - j,
    {
        let t = &target[j];
        let ghost before = texts(create@);
        proof {
            assert(texts(target@.take(j + 1)) =~= texts(target@.take(j as int)).push(t@));
        }
        if !contains_text(existing, t) && !contains_text(&create, t) {
            create.push(t.clone());
            proof {
                assert(texts(create@) =~= before.push(t@));
            }
        }
        proof {
            assert forall|x: Seq<char>| #[trigger]
                texts(create@).contains(x) <==> texts(target@.take(j + 1)).contains(x)
                    && !texts(existing@).contains(x) by {
                let s = texts(target@.take(j as int));
                lemma_push_contains(s, t@, x);
                if texts(create@).len() != before.len() {
                    lemma_push_contains(before, t@, x);
                }
            }
        }
        j = j + 1;
    }
    proof {
        assert(target@.take(j as int) =~= target@);
    }
    ReconcilePlan { remove, create }
}

/// Plans the reconciliation of the live directory against the user names
/// listed one per line in the compiled manifest; blank lines are skipped.
pub fn plan_update(manifest: &String, existing: &Vec<String>) -> (r: ReconcilePlan)
    ensures
        is_plan(fields(manifest@, true), texts(existing@), texts(r.remove@), texts(r.create@)),
{
    let users = split_lines(manifest);
    plan_reconcile(&users, existing)
}

/// The content written to a newly created per-user file.
pub fn placeholder_content() -> (r: String)
    ensures
        r@ == seq!['u', 's', 'e', 'r'],
{
    let s = String::from_str("user");
    proof {
        reveal_strlit("user");
    }
    s
}

/// Carrying out a plan leaves exactly the target files; files present in
/// both are neither removed nor rewritten; and on a directory that already
/// matches, a plan has nothing to do.
pub proof fn lemma_reconcile_converges(
    target: Seq<Seq<char>>,
    existing: Seq<Seq<char>>,
    remove: Seq<Seq<char>>,
    create: Seq<Seq<char>>,
)
    requires
        is_plan(target, existing, remove, create),
    ensures
        after_plan(existing.to_set(), remove.to_set(), create.to_set()) == target.to_set(),
        forall|x: Seq<char>|
            existing.contains(x) && target.contains(x) ==> !#[trigger] remove.contains(x)
                && !create.contains(x),
        forall|x: Seq<char>| #[trigger] create.contains(x) ==> !existing.contains(x),
        existing.to_set() == target.to_set() ==> remove.len() == 0 && create.len() == 0,
{
    assert(after_plan(existing.to_set(), remove.to_set(), create.to_set()) =~= target.to_set());
    if existing.to_set() == target.to_set() {
        if remove.len() > 0 {
            assert(remove.contains(remove[0]));
            assert(existing.to_set().contains(remove[0]));
        }
        if create.len() > 0 {
            assert(create.contains(create[0]));
            assert(target.to_set().contains(create[0]));
        }
    }
}

} // verus!
