//! Facts about sequences of amounts and of account lists that the ledger's
//! bookkeeping rests on.
use vstd::prelude::*;

verus! {

/// The sum of a sequence of amounts.
pub open spec fn seq_sum(s: Seq<u128>) -> int
    decreases s.len(),
{
    if s.len() == 0 {
        0
    } else {
        seq_sum(s.drop_last()) + s.last()
    }
}

/// The amount recorded for `a` in the parallel lists `accs` and `amts`, zero
/// where `a` is not listed.
pub open spec fn record_in(accs: Seq<u64>, amts: Seq<u128>, a: u64) -> nat {
    if accs.contains(a) {
        amts[accs.index_of(a)] as nat
    } else {
        0
    }
}

pub proof fn lemma_seq_sum_push(s: Seq<u128>, v: u128)
    ensures
        seq_sum(s.push(v)) == seq_sum(s) + v,
{
    assert(s.push(v).drop_last() =~= s);
}

pub proof fn lemma_seq_sum_nonneg(s: Seq<u128>)
    ensures
        seq_sum(s) >= 0,
    decreases s.len(),
{
    if s.len() > 0 {
        lemma_seq_sum_nonneg(s.drop_last());
    }
}

pub proof fn lemma_seq_sum_update(s: Seq<u128>, j: int, v: u128)
    requires
        0 <= j < s.len(),
    ensures
        seq_sum(s.update(j, v)) == seq_sum(s) - s[j] + v,
    decreases s.len(),
{
    if j == s.len() - 1 {
        assert(s.update(j, v).drop_last() =~= s.drop_last());
    } else {
        assert(s.update(j, v).drop_last() =~= s.drop_last().update(j, v));
        lemma_seq_sum_update(s.drop_last(), j, v);
    }
}

/// A prefix sums to no more than the whole.
pub proof fn lemma_seq_sum_prefix(s: Seq<u128>, k: int)
    requires
        0 <= k <= s.len(),
    ensures
        seq_sum(s.subrange(0, k)) <= seq_sum(s),
        k < s.len() ==> seq_sum(s.subrange(0, k + 1)) == seq_sum(s.subrange(0, k)) + s[k],
    decreases s.len(),
{
    if k < s.len() {
        assert(s.subrange(0, k + 1).drop_last() =~= s.subrange(0, k));
    }
    if k == s.len() {
        assert(s.subrange(0, k) =~= s);
    } else {
        assert(s.drop_last().subrange(0, k) =~= s.subrange(0, k));
        lemma_seq_sum_prefix(s.drop_last(), k);
    }
}

/// In a list without duplicates, the position of a listed account is the one
/// that holds it.
pub proof fn lemma_index_of_unique(accs: Seq<u64>, j: int)
    requires
        accs.no_duplicates(),
        0 <= j < accs.len(),
    ensures
        accs.contains(accs[j]),
        accs.index_of(accs[j]) == j,
{
    assert(accs.contains(accs[j]));
    let i = accs.index_of(accs[j]);
    assert(0 <= i < accs.len() && accs[i] == accs[j]);
}

/// Appending an account that is not listed yet records `v` for it and leaves
/// every other record as it was.
pub proof fn lemma_record_push(accs: Seq<u64>, amts: Seq<u128>, a: u64, v: u128)
    requires
        accs.no_duplicates(),
        accs.len() == amts.len(),
        !accs.contains(a),
    ensures
        accs.push(a).no_duplicates(),
        forall|b: u64|
            #[trigger] record_in(accs.push(a), amts.push(v), b) == if b == a {
                v as nat
            } else {
                record_in(accs, amts, b)
            },
{
    let accs2 = accs.push(a);
    let amts2 = amts.push(v);
    assert forall|i: int, k: int| 0 <= i < accs2.len() && 0 <= k < accs2.len() && i != k implies
        accs2[i] != accs2[k] by {
        if i == accs.len() as int {
            assert(accs.contains(accs2[k]));
        } else if k == accs.len() as int {
            assert(accs.contains(accs2[i]));
        }
    }
    assert forall|b: u64| #[trigger]
        record_in(accs2, amts2, b) == if b == a {
            v as nat
        } else {
            record_in(accs, amts, b)
        } by {
        if b == a {
            lemma_index_of_unique(accs2, accs.len() as int);
        } else if accs.contains(b) {
            let j = accs.index_of(b);
            lemma_index_of_unique(accs, j);
            lemma_index_of_unique(accs2, j);
        } else {
            if accs2.contains(b) {
                let j = accs2.index_of(b);
                assert(accs.contains(b) || j == accs.len() as int);
                assert(accs[j] == b);
            }
        }
    }
}

/// Raising the amount at the position of `a` changes `a`'s record alone.
pub proof fn lemma_record_update(accs: Seq<u64>, amts: Seq<u128>, j: int, v: u128)
    requires
        accs.no_duplicates(),
        accs.len() == amts.len(),
        0 <= j < accs.len(),
    ensures
        record_in(accs, amts, accs[j]) == amts[j],
        forall|b: u64|
            #[trigger] record_in(accs, amts.update(j, v), b) == if b == accs[j] {
                v as nat
            } else {
                record_in(accs, amts, b)
            },
{
    lemma_index_of_unique(accs, j);
    assert forall|b: u64| #[trigger]
        record_in(accs, amts.update(j, v), b) == if b == accs[j] {
            v as nat
        } else {
            record_in(accs, amts, b)
        } by {
        if b != accs[j] && accs.contains(b) {
            let i = accs.index_of(b);
            assert(accs[i] == b);
            assert(i != j);
        }
    }
}

/// Appending an element that is not there keeps a list free of duplicates.
pub proof fn lemma_push_no_duplicates<A>(s: Seq<A>, x: A)
    requires
        s.no_duplicates(),
        !s.contains(x),
    ensures
        s.push(x).no_duplicates(),
{
    assert forall|i: int, k: int|
        0 <= i < s.push(x).len() && 0 <= k < s.push(x).len() && i != k implies s.push(x)[i]
        != s.push(x)[k] by {
        if i == s.len() as int {
            assert(s.contains(s.push(x)[k]));
        } else if k == s.len() as int {
            assert(s.contains(s.push(x)[i]));
        }
    }
}

/// What a list holds after an append.
pub proof fn lemma_push_contains<A>(s: Seq<A>, x: A, y: A)
    ensures
        s.push(x).contains(y) <==> (s.contains(y) || x == y),
{
    if s.contains(y) {
        let k = s.index_of(y);
        assert(s.push(x)[k] == y);
    }
    if x == y {
        assert(s.push(x)[s.len() as int] == y);
    }
    if s.push(x).contains(y) && x != y {
        let k = s.push(x).index_of(y);
        assert(k < s.len());
        assert(s[k] == y);
    }
}

/// No single amount exceeds the sum.
pub proof fn lemma_seq_sum_le(s: Seq<u128>, j: int)
    requires
        0 <= j < s.len(),
    ensures
        s[j] <= seq_sum(s),
    decreases s.len(),
{
    lemma_seq_sum_nonneg(s.drop_last());
    if j < s.len() - 1 {
        lemma_seq_sum_le(s.drop_last(), j);
    }
}

/// In a list without duplicates, the element at `i` is not among those
/// before it.
pub proof fn lemma_not_in_prefix<A>(s: Seq<A>, i: int)
    requires
        s.no_duplicates(),
        0 <= i < s.len(),
    ensures
        !s.subrange(0, i).contains(s[i]),
{
    if s.subrange(0, i).contains(s[i]) {
        let k = s.subrange(0, i).index_of(s[i]);
        assert(s[k] == s[i]);
    }
}

} // verus!
