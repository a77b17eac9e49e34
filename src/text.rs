//! Byte-wise (code point) ordering of text and sorting of lines by it.
use vstd::prelude::*;
use vstd::relations::{sorted_by, total_ordering};
use vstd::seq_lib::{lemma_sorted_unique, to_multiset_build, to_multiset_insert};

verus! {

/// Lexicographic order on text by code point, the order of `String`'s `<=`.
pub open spec fn text_le(a: Seq<char>, b: Seq<char>) -> bool
    decreases a.len(),
{
    if a.len() == 0 {
        true
    } else if b.len() == 0 {
        false
    } else if a[0] != b[0] {
        a[0] < b[0]
    } else {
        text_le(a.drop_first(), b.drop_first())
    }
}

pub open spec fn text_order() -> spec_fn(Seq<char>, Seq<char>) -> bool {
    |a: Seq<char>, b: Seq<char>| text_le(a, b)
}

pub open spec fn texts(s: Seq<String>) -> Seq<Seq<char>> {
    s.map_values(|x: String| x@)
}

proof fn lemma_text_le_reflexive(a: Seq<char>)
    ensures
        text_le(a, a),
    decreases a.len(),
{
    if a.len() > 0 {
        lemma_text_le_reflexive(a.drop_first());
    }
}

proof fn lemma_text_le_antisymmetric(a: Seq<char>, b: Seq<char>)
    requires
        text_le(a, b),
        text_le(b, a),
    ensures
        a == b,
    decreases a.len(),
{
    if a.len() > 0 && b.len() > 0 {
        lemma_text_le_antisymmetric(a.drop_first(), b.drop_first());
        assert(a =~= seq![a[0]] + a.drop_first());
        assert(b =~= seq![b[0]] + b.drop_first());
    } else {
        assert(a =~= b);
    }
}

proof fn lemma_text_le_transitive(a: Seq<char>, b: Seq<char>, c: Seq<char>)
    requires
        text_le(a, b),
        text_le(b, c),
    ensures
        text_le(a, c),
    decreases a.len(),
{
    if a.len() > 0 && b.len() > 0 && c.len() > 0 && a[0] == b[0] && b[0] == c[0] {
        lemma_text_le_transitive(a.drop_first(), b.drop_first(), c.drop_first());
    }
}

proof fn lemma_text_le_total(a: Seq<char>, b: Seq<char>)
    ensures
        text_le(a, b) || text_le(b, a),
    decreases a.len(),
{
    if a.len() > 0 && b.len() > 0 {
        if a[0] == b[0] {
            lemma_text_le_total(a.drop_first(), b.drop_first());
        }
    }
}

/// Text order is a total order.
pub proof fn lemma_text_order_total()
    ensures
        total_ordering(text_order()),
{
    assert forall|a: Seq<char>| #[trigger] text_order()(a, a) by {
        lemma_text_le_reflexive(a);
    }
    assert forall|a: Seq<char>, b: Seq<char>|
        #[trigger] text_order()(a, b) && #[trigger] text_order()(b, a) implies a == b by {
        lemma_text_le_antisymmetric(a, b);
    }
    assert forall|a: Seq<char>, b: Seq<char>, c: Seq<char>|
        #[trigger] text_order()(a, b) && #[trigger] text_order()(b, c) implies text_order()(
        a,
        c,
    ) by {
        lemma_text_le_transitive(a, b, c);
    }
    assert forall|a: Seq<char>, b: Seq<char>|
        #[trigger] text_order()(a, b) || #[trigger] text_order()(b, a) by {
        lemma_text_le_total(a, b);
    }
}

/// Compares two texts in code point order.
pub fn text_le_exec(a: &String, b: &String) -> (r: bool)
    ensures
        r == text_le(a@, b@),
{
    let x = a.as_str();
    let y = b.as_str();
    let n = x.unicode_len();
    let m = y.unicode_len();
    let mut i: usize = 0;
    proof {
        assert(a@.skip(0) =~= a@);
        assert(b@.skip(0) =~= b@);
    }
    while i < n && i < m
        invariant
            x@ == a@,
            y@ == b@,
            n == a@.len(),
            m == b@.len(),
            i <= n,
            i <= m,
            text_le(a@, b@) == text_le(a@.skip(i as int), b@.skip(i as int)),
        decreases n - i,
    {
        let c = x.get_char(i);
        let d = y.get_char(i);
        proof {
            assert(a@.skip(i as int)[0] == c);
            assert(b@.skip(i as int)[0] == d);
        }
        if c != d {
            return c < d;
        }
        proof {
            assert(a@.skip(i as int).drop_first() =~= a@.skip(i + 1));
            assert(b@.skip(i as int).drop_first() =~= b@.skip(i + 1));
        }
        i = i + 1;
    }
    i == n
}

/// Sorts lines in text order.
pub fn sort_texts(lines: Vec<String>) -> (r: Vec<String>)
    ensures
        sorted_by(texts(r@), text_order()),
        texts(r@).to_multiset() == texts(lines@).to_multiset(),
        texts(r@) == texts(lines@).sort_by(text_order()),
{
    proof {
        lemma_text_order_total();
    }
    let mut out: Vec<String> = Vec::new();
    let mut k: usize = 0;
    proof {
        assert(texts(out@) =~= texts(lines@.take(0)));
    }
    while k < lines.len()
        invariant
            k <= lines@.len(),
            total_ordering(text_order()),
            sorted_by(texts(out@), text_order()),
            texts(out@).to_multiset() == texts(lines@.take(k as int)).to_multiset(),
        decreases lines@.len() - k,
    {
        let x = lines[k].clone();
        let mut p: usize = 0;
        while p < out.len() && text_le_exec(&out[p], &x)
            invariant
                p <= out@.len(),
                k < lines@.len(),
                x == lines@[k as int],
                forall|q: int| 0 <= q < p ==> text_le(#[trigger] out@[q]@, x@),
            decreases out@.len() - p,
        {
            p = p + 1;
        }
        let ghost before = texts(out@);
        out.insert(p, x);
        proof {
            assert(texts(out@) =~= before.insert(p as int, x@));
            assert(texts(lines@.take(k + 1)) =~= texts(lines@.take(k as int)).push(x@));
            to_multiset_insert(before, p as int, x@);
            to_multiset_build(texts(lines@.take(k as int)), x@);
            assert(texts(lines@.take(k as int)).push(x@).to_multiset() == texts(
                lines@.take(k as int),
            ).to_multiset().insert(x@));
            if p < before.len() {
                lemma_text_le_total(x@, before[p as int]);
            }
            let t = texts(out@);
            assert(forall|i: int| 0 <= i < p ==> text_le(#[trigger] before[i], x@));
            assert(p < before.len() ==> !text_le(before[p as int], x@));
            assert forall|i: int, j: int| 0 <= i < j < t.len() implies #[trigger] text_order()(
                t[i],
                t[j],
            ) by {
                let ti = if i < p { before[i] } else if i == p { x@ } else { before[i - 1] };
                let tj = if j < p { before[j] } else if j == p { x@ } else { before[j - 1] };
                assert(t[i] == ti && t[j] == tj);
                if j < p {
                    assert(text_order()(before[i], before[j]));
                } else if j == p {
                } else if i < p {
                    assert(text_order()(before[i], before[j - 1]));
                } else if i == p {
                    if p < j - 1 {
                        assert(text_order()(before[p as int], before[j - 1]));
                        lemma_text_le_transitive(x@, before[p as int], before[j - 1]);
                    }
                } else {
                    assert(text_order()(before[i - 1], before[j - 1]));
                }
            }
        }
        k = k + 1;
    }
    proof {
        assert(lines@.take(k as int) =~= lines@);
        texts(lines@).lemma_sort_by_ensures(text_order());
        lemma_sorted_unique(texts(out@), texts(lines@).sort_by(text_order()), text_order());
    }
    out
}

} // verus!
