//! The audit artifact: one `user,vlan,mac` line per audit record, sorted.
use crate::text::{lemma_text_order_total, sort_texts, text_order, texts};
use crate::model::{occurrences, User};
use crate::validate::{audit_views, audits_of, Audit, AuditView, Manifest};
use vstd::prelude::*;
use vstd::relations::sorted_by;
use vstd::seq_lib::{lemma_seq_union_to_multiset_commutative, lemma_sorted_unique};

verus! {

/// The rendered line of one audit record, newline included.
pub open spec fn audit_text(a: AuditView) -> Seq<char> {
    a.user + seq![','] + a.vlan + seq![','] + a.mac + seq!['\n']
}

pub open spec fn audit_texts(rows: Seq<AuditView>) -> Seq<Seq<char>> {
    rows.map_values(|a: AuditView| audit_text(a))
}

/// The lines of the audit artifact for the given records, in order.
pub open spec fn audit_artifact(rows: Seq<AuditView>) -> Seq<Seq<char>> {
    audit_texts(rows).sort_by(text_order())
}

/// Renders one audit record as `user,vlan,mac` followed by a newline.
pub fn audit_line(a: &Audit) -> (r: String)
    ensures
        r@ == audit_text(a@),
{
    let mut s = String::new();
    s.append(a.user.as_str());
    s.append(",");
    s.append(a.vlan.as_str());
    s.append(",");
    s.append(a.mac.as_str());
    s.append("\n");
    proof {
        reveal_strlit(",");
        reveal_strlit("\n");
        assert(s@ =~= audit_text(a@));
    }
    s
}

impl Manifest {
    /// The audit artifact's lines: every audit record rendered, sorted in
    /// text order.
    pub fn audits(&self) -> (r: Vec<String>)
        ensures
            texts(r@) == audit_artifact(audit_views(self.audit@)),
            sorted_by(texts(r@), text_order()),
            texts(r@).to_multiset() == audit_texts(audit_views(self.audit@)).to_multiset(),
    {
        let mut lines: Vec<String> = Vec::new();
        let mut i: usize = 0;
        while i < self.audit.len()
            invariant
                i <= self.audit@.len(),
                texts(lines@) == audit_texts(audit_views(self.audit@.take(i as int))),
            decreases self.audit@.len() - i,
        {
            let line = audit_line(&self.audit[i]);
            let ghost before = lines@;
            lines.push(line);
            proof {
                assert(texts(lines@) =~= texts(before).push(line@));
                assert(audit_views(self.audit@.take(i + 1)) =~= audit_views(
                    self.audit@.take(i as int),
                ).push(self.audit@[i as int]@));
                assert(audit_texts(audit_views(self.audit@.take(i + 1))) =~= audit_texts(
                    audit_views(self.audit@.take(i as int)),
                ).push(line@));
            }
            i = i + 1;
        }
        proof {
            assert(self.audit@.take(i as int) =~= self.audit@);
        }
        sort_texts(lines)
    }
}

/// The audit artifact depends only on which lines there are, not on the
/// order the records came in: two record lists whose lines are the same
/// up to order give the same artifact, and it is sorted.
pub proof fn lemma_audit_artifact_order_free(a: Seq<AuditView>, b: Seq<AuditView>)
    requires
        audit_texts(a).to_multiset() == audit_texts(b).to_multiset(),
    ensures
        audit_artifact(a) == audit_artifact(b),
        sorted_by(audit_artifact(a), text_order()),
{
    lemma_text_order_total();
    audit_texts(a).lemma_sort_by_ensures(text_order());
    audit_texts(b).lemma_sort_by_ensures(text_order());
    lemma_sorted_unique(audit_artifact(a), audit_artifact(b), text_order());
}

/// Records gathered from two sources give the same artifact whichever
/// source is read first.
pub proof fn lemma_audit_artifact_source_order(a: Seq<AuditView>, b: Seq<AuditView>)
    ensures
        audit_artifact(a + b) == audit_artifact(b + a),
{
    assert(audit_texts(a + b) =~= audit_texts(a) + audit_texts(b));
    assert(audit_texts(b + a) =~= audit_texts(b) + audit_texts(a));
    lemma_seq_union_to_multiset_commutative(audit_texts(a), audit_texts(b));
    lemma_audit_artifact_order_free(a + b, b + a);
}


proof fn lemma_occurrences_concat(a: Seq<User>, b: Seq<User>)
    ensures
        occurrences(a + b) == occurrences(a) + occurrences(b),
    decreases b.len(),
{
    if b.len() == 0 {
        assert(a + b =~= a);
        assert(occurrences(a) + occurrences(b) =~= occurrences(a));
    } else {
        assert((a + b).drop_last() =~= a + b.drop_last());
        assert((a + b).last() == b.last());
        lemma_occurrences_concat(a, b.drop_last());
        assert(occurrences(a + b) =~= occurrences(a) + occurrences(b));
    }
}

/// Users read from two sources give the same audit artifact whichever
/// source is read first.
pub proof fn lemma_audit_artifact_user_source_order(a: Seq<User>, b: Seq<User>)
    ensures
        audit_artifact(audits_of(a + b)) == audit_artifact(audits_of(b + a)),
{
    lemma_occurrences_concat(a, b);
    lemma_occurrences_concat(b, a);
    assert(audits_of(a + b) =~= audits_of(a) + audits_of(b));
    assert(audits_of(b + a) =~= audits_of(b) + audits_of(a));
    lemma_audit_artifact_source_order(audits_of(a), audits_of(b));
}

} // verus!
