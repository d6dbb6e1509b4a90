use vstd::prelude::*;

verus! {

/// A sort key: primary order, tie-breaking identifier, and the position of the
/// ranked item in its source sequence.
pub type RankKey = (i128, u128, usize);

/// `a` may stand before `b`: smaller primary, or equal primary and no larger identifier.
pub open spec fn key_le(a: RankKey, b: RankKey) -> bool {
    a.0 < b.0 || (a.0 == b.0 && a.1 <= b.1)
}

/// `x` placed into `s` before the first key that it may precede.
pub open spec fn insert_ranked(s: Seq<RankKey>, x: RankKey) -> Seq<RankKey>
    decreases s.len(),
{
    if s.len() == 0 {
        seq![x]
    } else if key_le(x, s[0]) {
        seq![x] + s
    } else {
        seq![s[0]] + insert_ranked(s.drop_first(), x)
    }
}

/// The keys of `s` in ascending order; among equal keys the earlier one comes first.
pub open spec fn ranked(s: Seq<RankKey>) -> Seq<RankKey>
    decreases s.len(),
{
    if s.len() == 0 {
        s
    } else {
        insert_ranked(ranked(s.drop_last()), s.last())
    }
}

pub open spec fn is_ascending(s: Seq<RankKey>) -> bool {
    forall|i: int, j: int| 0 <= i < j < s.len() ==> key_le(#[trigger] s[i], #[trigger] s[j])
}

proof fn lemma_insert_contents(s: Seq<RankKey>, x: RankKey)
    ensures
        insert_ranked(s, x).len() == s.len() + 1,
        forall|y: RankKey| #[trigger] insert_ranked(s, x).contains(y) <==> (y == x || s.contains(y)),
        s.no_duplicates() && !s.contains(x) ==> insert_ranked(s, x).no_duplicates(),
    decreases s.len(),
{
    if s.len() > 0 && !key_le(x, s[0]) {
        let t = s.drop_first();
        lemma_insert_contents(t, x);
        let r = insert_ranked(s, x);
        assert(r == seq![s[0]] + insert_ranked(t, x));
        assert forall|y: RankKey| r.contains(y) <==> (y == x || s.contains(y)) by {
            if r.contains(y) {
                let k = choose|k: int| 0 <= k < r.len() && r[k] == y;
                if k > 0 {
                    assert(insert_ranked(t, x)[k - 1] == y);
                    assert(insert_ranked(t, x).contains(y));
                }
            }
            if s.contains(y) {
                let k = choose|k: int| 0 <= k < s.len() && s[k] == y;
                if k > 0 {
                    assert(t[k - 1] == y);
                    assert(t.contains(y));
                    assert(insert_ranked(t, x).contains(y));
                    let m = choose|m: int| 0 <= m < insert_ranked(t, x).len() && insert_ranked(t, x)[m] == y;
                    assert(r[m + 1] == y);
                } else {
                    assert(r[0] == y);
                }
            }
            if y == x {
                assert(insert_ranked(t, x).contains(x));
                let m = choose|m: int| 0 <= m < insert_ranked(t, x).len() && insert_ranked(t, x)[m] == x;
                assert(r[m + 1] == x);
            }
        }
        if s.no_duplicates() && !s.contains(x) {
            assert(t.no_duplicates()) by {
                assert forall|i: int, j: int| 0 <= i < t.len() && 0 <= j < t.len() && i != j implies t[i] != t[j] by {
                    assert(t[i] == s[i + 1] && t[j] == s[j + 1]);
                }
            }
            assert(!t.contains(x)) by {
                if t.contains(x) {
                    let k = choose|k: int| 0 <= k < t.len() && t[k] == x;
                    assert(s[k + 1] == x);
                }
            }
            assert(!insert_ranked(t, x).contains(s[0])) by {
                if t.contains(s[0]) {
                    let k = choose|k: int| 0 <= k < t.len() && t[k] == s[0];
                    assert(s[k + 1] == s[0]);
                }
                assert(s.contains(s[0]));
            }
            assert forall|i: int, j: int| 0 <= i < r.len() && 0 <= j < r.len() && i != j implies r[i] != r[j] by {
                let q = insert_ranked(t, x);
                if i > 0 && j > 0 {
                    assert(r[i] == q[i - 1] && r[j] == q[j - 1]);
                } else if i == 0 {
                    assert(r[j] == q[j - 1]);
                    assert(q.contains(q[j - 1]));
                } else {
                    assert(r[i] == q[i - 1]);
                    assert(q.contains(q[i - 1]));
                }
            }
        }
    } else if s.len() > 0 {
        let r = insert_ranked(s, x);
        assert(r == seq![x] + s);
        assert forall|y: RankKey| r.contains(y) <==> (y == x || s.contains(y)) by {
            if r.contains(y) {
                let k = choose|k: int| 0 <= k < r.len() && r[k] == y;
                if k > 0 {
                    assert(s[k - 1] == y);
                }
            }
            if s.contains(y) {
                let k = choose|k: int| 0 <= k < s.len() && s[k] == y;
                assert(r[k + 1] == y);
            }
            assert(r[0] == x);
        }
        if s.no_duplicates() && !s.contains(x) {
            assert forall|i: int, j: int| 0 <= i < r.len() && 0 <= j < r.len() && i != j implies r[i] != r[j] by {
                if i > 0 && j > 0 {
                    assert(r[i] == s[i - 1] && r[j] == s[j - 1]);
                } else if i == 0 {
                    assert(r[j] == s[j - 1]);
                } else {
                    assert(r[i] == s[i - 1]);
                }
            }
        }
    } else {
        let r = insert_ranked(s, x);
        assert(r == seq![x]);
        assert(r[0] == x);
    }
}

proof fn lemma_insert_ascending(s: Seq<RankKey>, x: RankKey)
    requires
        is_ascending(s),
    ensures
        is_ascending(insert_ranked(s, x)),
    decreases s.len(),
{
    lemma_insert_contents(s, x);
    if s.len() > 0 {
        let r = insert_ranked(s, x);
        if key_le(x, s[0]) {
            assert(r == seq![x] + s);
            assert forall|i: int, j: int| 0 <= i < j < r.len() implies key_le(#[trigger] r[i], #[trigger] r[j]) by {
                assert(r[j] == s[j - 1]);
                if i > 0 {
                    assert(r[i] == s[i - 1]);
                } else {
                    assert(key_le(s[0], s[j - 1]) || j - 1 == 0);
                }
            }
        } else {
            let t = s.drop_first();
            assert(is_ascending(t)) by {
                assert forall|i: int, j: int| 0 <= i < j < t.len() implies key_le(#[trigger] t[i], #[trigger] t[j]) by {
                    assert(t[i] == s[i + 1] && t[j] == s[j + 1]);
                }
            }
            lemma_insert_ascending(t, x);
            lemma_insert_contents(t, x);
            let q = insert_ranked(t, x);
            assert(r == seq![s[0]] + q);
            assert forall|i: int, j: int| 0 <= i < j < r.len() implies key_le(#[trigger] r[i], #[trigger] r[j]) by {
                assert(r[j] == q[j - 1]);
                if i > 0 {
                    assert(r[i] == q[i - 1]);
                } else {
                    assert(q.contains(q[j - 1]));
                    assert(q[j - 1] == x || t.contains(q[j - 1]));
                    if q[j - 1] != x {
                        let k = choose|k: int| 0 <= k < t.len() && t[k] == q[j - 1];
                        assert(s[k + 1] == q[j - 1]);
                    }
                }
            }
        }
    }
}

/// The ranked order is ascending, holds the same keys, and keeps distinct keys distinct.
pub proof fn lemma_ranked(s: Seq<RankKey>)
    ensures
        is_ascending(ranked(s)),
        ranked(s).len() == s.len(),
        forall|y: RankKey| #[trigger] ranked(s).contains(y) <==> s.contains(y),
        s.no_duplicates() ==> ranked(s).no_duplicates(),
    decreases s.len(),
{
    if s.len() > 0 {
        let t = s.drop_last();
        lemma_ranked(t);
        lemma_insert_ascending(ranked(t), s.last());
        lemma_insert_contents(ranked(t), s.last());
        assert forall|y: RankKey| ranked(s).contains(y) <==> s.contains(y) by {
            if s.contains(y) {
                let k = choose|k: int| 0 <= k < s.len() && s[k] == y;
                if k < s.len() - 1 {
                    assert(t[k] == y);
                }
            }
            if t.contains(y) {
                let k = choose|k: int| 0 <= k < t.len() && t[k] == y;
                assert(s[k] == y);
            }
        }
        if s.no_duplicates() {
            assert(t.no_duplicates()) by {
                assert forall|i: int, j: int| 0 <= i < t.len() && 0 <= j < t.len() && i != j implies t[i] != t[j] by {
                    assert(t[i] == s[i] && t[j] == s[j]);
                }
            }
            assert(!t.contains(s.last())) by {
                if t.contains(s.last()) {
                    let k = choose|k: int| 0 <= k < t.len() && t[k] == s.last();
                    assert(s[k] == s.last());
                }
            }
        }
    }
}

proof fn lemma_insert_at(s: Seq<RankKey>, x: RankKey, p: int)
    requires
        0 <= p <= s.len(),
        forall|k: int| 0 <= k < p ==> !key_le(x, #[trigger] s[k]),
        p == s.len() || key_le(x, s[p]),
    ensures
        insert_ranked(s, x) == s.insert(p, x),
    decreases p,
{
    if p == 0 {
        if s.len() == 0 {
            assert(s.insert(0, x) =~= seq![x]);
        } else {
            assert(s.insert(0, x) =~= seq![x] + s);
        }
    } else {
        let t = s.drop_first();
        assert forall|k: int| 0 <= k < p - 1 implies !key_le(x, #[trigger] t[k]) by {
            assert(t[k] == s[k + 1]);
        }
        lemma_insert_at(t, x, p - 1);
        assert(s.insert(p, x) =~= seq![s[0]] + t.insert(p - 1, x));
    }
}

fn precedes(a: RankKey, b: RankKey) -> (r: bool)
    ensures
        r == key_le(a, b),
{
    a.0 < b.0 || (a.0 == b.0 && a.1 <= b.1)
}

/// Sorts keys into their ranked order.
pub fn rank(keys: &Vec<RankKey>) -> (r: Vec<RankKey>)
    ensures
        r@ == ranked(keys@),
{
    let mut out: Vec<RankKey> = Vec::new();
    let mut i: usize = 0;
    while i < keys.len()
        invariant
            i <= keys.len(),
            out@ == ranked(keys@.take(i as int)),
        decreases keys.len() - i,
    {
        let x = keys[i];
        let mut p: usize = 0;
        while p < out.len() && !precedes(x, out[p])
            invariant
                p <= out.len(),
                forall|k: int| 0 <= k < p ==> !key_le(x, #[trigger] out@[k]),
            decreases out.len() - p,
        {
            p = p + 1;
        }
        proof {
            lemma_insert_at(out@, x, p as int);
            let s = keys@.take(i + 1);
            assert(s.drop_last() =~= keys@.take(i as int));
            assert(s.last() == x);
        }
        out.insert(p, x);
        i = i + 1;
    }
    assert(keys@.take(keys.len() as int) =~= keys@);
    out
}

} // verus!
