//! The choice of one transaction per sender among the pool's candidates.

use vstd::prelude::*;
use crate::primitives::{
    lex_less, lex_less_irreflexive, lex_less_total, lex_less_transitive, Address,
};
use crate::transaction::{SignedTransaction, SignedTransactionView};

verus! {

/// `a` is ordered before `b`, byte by byte.
pub open spec fn precedes(a: Address, b: Address) -> bool {
    lex_less(a.0@, b.0@)
}

/// Each transaction's sender is ordered before the sender of the next.
pub open spec fn ascending_senders(transactions: Seq<SignedTransactionView>) -> bool {
    forall|a: int, b: int|
        0 <= a < b < transactions.len() ==> precedes(
            #[trigger] transactions[a].sender,
            #[trigger] transactions[b].sender,
        )
}

/// The candidate at `i` is the foremost of its sender: no candidate before
/// it has the same sender.
pub open spec fn is_foremost(candidates: Seq<SignedTransactionView>, i: int) -> bool {
    &&& 0 <= i < candidates.len()
    &&& forall|j: int| 0 <= j < i ==> (#[trigger] candidates[j]).sender != candidates[i].sender
}

/// The accounts that have a transaction among `candidates`.
pub open spec fn senders(candidates: Seq<SignedTransactionView>) -> Set<Address> {
    Set::new(
        |a: Address|
            exists|i: int| 0 <= i < candidates.len() && #[trigger] candidates[i].sender == a,
    )
}

/// One of `transactions` was sent by `sender`.
pub open spec fn has_sender(transactions: Seq<SignedTransactionView>, sender: Address) -> bool {
    exists|k: int| 0 <= k < transactions.len() && (#[trigger] transactions[k]).sender == sender
}

/// The views of a list of transactions.
pub open spec fn views(transactions: Seq<SignedTransaction>) -> Seq<SignedTransactionView> {
    Seq::new(transactions.len(), |i: int| transactions[i]@)
}

/// `chosen` holds one transaction for each sender of `candidates`, that
/// sender's foremost candidate, in ascending order of the senders.
pub open spec fn is_one_per_sender(
    candidates: Seq<SignedTransactionView>,
    chosen: Seq<SignedTransactionView>,
) -> bool {
    &&& ascending_senders(chosen)
    &&& forall|k: int|
        0 <= k < chosen.len() ==> exists|i: int|
            is_foremost(candidates, i) && candidates[i] == #[trigger] chosen[k]
    &&& forall|i: int|
        0 <= i < candidates.len() ==> #[trigger] has_sender(chosen, candidates[i].sender)
}

/// In a list with ascending senders no sender occurs twice.
pub proof fn lemma_ascending_distinct(transactions: Seq<SignedTransactionView>)
    requires
        ascending_senders(transactions),
    ensures
        forall|a: int, b: int|
            0 <= a < b < transactions.len() ==> (#[trigger] transactions[a]).sender
                != (#[trigger] transactions[b]).sender,
{
    assert forall|a: int, b: int| 0 <= a < b < transactions.len() implies (
    #[trigger] transactions[a]).sender != (#[trigger] transactions[b]).sender by {
        assert(precedes(transactions[a].sender, transactions[b].sender));
        lex_less_irreflexive(transactions[a].sender.0@);
    }
}

/// A selection of one transaction per sender holds as many transactions as
/// the candidates have distinct senders.
pub proof fn lemma_one_per_sender_count(
    candidates: Seq<SignedTransactionView>,
    chosen: Seq<SignedTransactionView>,
)
    requires
        is_one_per_sender(candidates, chosen),
    ensures
        senders(candidates).finite(),
        chosen.len() == senders(candidates).len(),
{
    let names = Seq::new(chosen.len(), |k: int| chosen[k].sender);
    lemma_ascending_distinct(chosen);
    assert(names.no_duplicates());
    assert forall|a: Address| names.to_set().contains(a) <==> senders(candidates).contains(a) by {
        if names.contains(a) {
            let k = choose|k: int| 0 <= k < names.len() && names[k] == a;
            let i = choose|i: int| is_foremost(candidates, i) && candidates[i] == chosen[k];
            assert(candidates[i].sender == a);
        }
        if senders(candidates).contains(a) {
            let i = choose|i: int| 0 <= i < candidates.len() && #[trigger] candidates[i].sender == a;
            assert(has_sender(chosen, candidates[i].sender));
            let k = choose|k: int| 0 <= k < chosen.len() && (#[trigger] chosen[k]).sender == a;
            assert(names[k] == a);
        }
    }
    assert(names.to_set() =~= senders(candidates));
    names.unique_seq_to_set();
    vstd::seq_lib::seq_to_set_is_finite(names);
}

/// Two lists with ascending senders, each of which has every sender of the
/// other, have the same senders place by place, up to `n`.
proof fn lemma_same_senders_same_places(
    a: Seq<SignedTransactionView>,
    b: Seq<SignedTransactionView>,
    n: int,
)
    requires
        ascending_senders(a),
        ascending_senders(b),
        forall|k: int| 0 <= k < a.len() ==> #[trigger] has_sender(b, a[k].sender),
        forall|k: int| 0 <= k < b.len() ==> #[trigger] has_sender(a, b[k].sender),
        0 <= n <= a.len(),
        n <= b.len(),
    ensures
        forall|k: int| 0 <= k < n ==> (#[trigger] a[k]).sender == b[k].sender,
    decreases n,
{
    if n > 0 {
        lemma_same_senders_same_places(a, b, n - 1);
        lemma_ascending_distinct(a);
        lemma_ascending_distinct(b);
        let m = n - 1;
        assert(has_sender(b, a[m].sender));
        assert(has_sender(a, b[m].sender));
        let j = choose|j: int| 0 <= j < b.len() && (#[trigger] b[j]).sender == a[m].sender;
        let i = choose|i: int| 0 <= i < a.len() && (#[trigger] a[i]).sender == b[m].sender;
        if j < m {
            assert(a[j].sender == b[j].sender);
        }
        if i < m {
            assert(a[i].sender == b[i].sender);
        }
        if j > m && i > m {
            assert(precedes(b[m].sender, b[j].sender));
            assert(precedes(a[m].sender, a[i].sender));
            lex_less_transitive(a[m].sender.0@, b[m].sender.0@, a[m].sender.0@);
            lex_less_irreflexive(a[m].sender.0@);
        }
        assert(a[m].sender == b[m].sender);
    }
}

/// The candidates determine the selection: two selections of one
/// transaction per sender from the same candidates are the same list.
pub proof fn lemma_selection_is_determined(
    candidates: Seq<SignedTransactionView>,
    a: Seq<SignedTransactionView>,
    b: Seq<SignedTransactionView>,
)
    requires
        is_one_per_sender(candidates, a),
        is_one_per_sender(candidates, b),
    ensures
        a == b,
{
    lemma_one_per_sender_count(candidates, a);
    lemma_one_per_sender_count(candidates, b);
    assert forall|k: int| 0 <= k < a.len() implies #[trigger] has_sender(b, a[k].sender) by {
        let i = choose|i: int| is_foremost(candidates, i) && candidates[i] == a[k];
        assert(has_sender(b, candidates[i].sender));
    }
    assert forall|k: int| 0 <= k < b.len() implies #[trigger] has_sender(a, b[k].sender) by {
        let i = choose|i: int| is_foremost(candidates, i) && candidates[i] == b[k];
        assert(has_sender(a, candidates[i].sender));
    }
    lemma_same_senders_same_places(a, b, a.len() as int);
    assert forall|k: int| 0 <= k < a.len() implies a[k] == b[k] by {
        let i = choose|i: int| is_foremost(candidates, i) && candidates[i] == a[k];
        let j = choose|j: int| is_foremost(candidates, j) && candidates[j] == b[k];
        assert(candidates[i].sender == candidates[j].sender);
        assert(i == j);
    }
    assert(a =~= b);
}

/// A candidate whose sender already has a transaction among the chosen
/// ones changes nothing in the selection.
proof fn lemma_selection_skips(
    seen: Seq<SignedTransactionView>,
    kept: Seq<SignedTransactionView>,
    candidate: SignedTransactionView,
    p: int,
)
    requires
        is_one_per_sender(seen, kept),
        0 <= p < kept.len(),
        kept[p].sender == candidate.sender,
    ensures
        is_one_per_sender(seen.push(candidate), kept),
{
    let next = seen.push(candidate);
    assert forall|j: int| 0 <= j < seen.len() implies #[trigger] next[j] == seen[j] by {}
    assert forall|k: int| 0 <= k < kept.len() implies exists|j: int|
        is_foremost(next, j) && next[j] == #[trigger] kept[k] by {
        let j = choose|j: int| is_foremost(seen, j) && seen[j] == kept[k];
        assert(is_foremost(next, j) && next[j] == kept[k]);
    }
    assert forall|j: int| 0 <= j < next.len() implies #[trigger] has_sender(
        kept,
        next[j].sender,
    ) by {
        if j < seen.len() {
            assert(has_sender(kept, seen[j].sender));
        } else {
            assert(kept[p].sender == next[j].sender);
        }
    }
}

/// Where `sender` is ordered after the chosen transactions before `p`, and
/// the one at `p` is neither before it nor of that sender, the chosen ones
/// from `p` on are all ordered after `sender`.
proof fn lemma_rest_follows(kept: Seq<SignedTransactionView>, sender: Address, p: int)
    requires
        ascending_senders(kept),
        0 <= p <= kept.len(),
        p < kept.len() ==> !precedes(kept[p].sender, sender) && kept[p].sender != sender,
    ensures
        forall|q: int| p <= q < kept.len() ==> precedes(sender, (#[trigger] kept[q]).sender),
{
    assert forall|q: int| p <= q < kept.len() implies precedes(sender, (#[trigger] kept[q]).sender) by {
        let at = kept[p].sender;
        if at.0@ == sender.0@ {
            assert(at.0 =~= sender.0);
        }
        lex_less_total(sender.0@, at.0@);
        if q > p {
            assert(precedes(kept[p].sender, kept[q].sender));
            lex_less_transitive(sender.0@, at.0@, kept[q].sender.0@);
        }
    }
}

/// Inserting a transaction between the senders before it and the senders
/// after it keeps the senders ascending.
proof fn lemma_insert_ascending(
    kept: Seq<SignedTransactionView>,
    candidate: SignedTransactionView,
    p: int,
)
    requires
        ascending_senders(kept),
        0 <= p <= kept.len(),
        forall|q: int| 0 <= q < p ==> precedes((#[trigger] kept[q]).sender, candidate.sender),
        forall|q: int| p <= q < kept.len() ==> precedes(candidate.sender, (#[trigger] kept[q]).sender),
    ensures
        ascending_senders(kept.insert(p, candidate)),
{
    let grown = kept.insert(p, candidate);
    assert forall|a: int, b: int| 0 <= a < b < grown.len() implies precedes(
        #[trigger] grown[a].sender,
        #[trigger] grown[b].sender,
    ) by {
        if b < p {
            assert(precedes(kept[a].sender, kept[b].sender));
        } else if b == p {
            assert(precedes(kept[a].sender, candidate.sender));
        } else if a < p {
            assert(precedes(kept[a].sender, kept[b - 1].sender));
        } else if a == p {
            assert(precedes(candidate.sender, kept[b - 1].sender));
        } else {
            assert(precedes(kept[a - 1].sender, kept[b - 1].sender));
        }
    }
}

/// A candidate whose sender has no transaction among the chosen ones
/// enters the selection at its place in the order of the senders.
proof fn lemma_selection_grows(
    seen: Seq<SignedTransactionView>,
    kept: Seq<SignedTransactionView>,
    candidate: SignedTransactionView,
    p: int,
)
    requires
        is_one_per_sender(seen, kept),
        0 <= p <= kept.len(),
        forall|q: int| 0 <= q < p ==> precedes((#[trigger] kept[q]).sender, candidate.sender),
        p < kept.len() ==> !precedes(kept[p].sender, candidate.sender) && kept[p].sender
            != candidate.sender,
    ensures
        is_one_per_sender(seen.push(candidate), kept.insert(p, candidate)),
{
    let next = seen.push(candidate);
    let grown = kept.insert(p, candidate);
    let sender = candidate.sender;
    let n = seen.len() as int;
    lemma_rest_follows(kept, sender, p);
    lemma_insert_ascending(kept, candidate, p);
    assert forall|k: int| 0 <= k < kept.len() implies (#[trigger] kept[k]).sender != sender by {
        if k < p {
            assert(precedes(kept[k].sender, sender));
        } else {
            assert(precedes(sender, kept[k].sender));
        }
    }
    assert forall|j: int| 0 <= j < n implies (#[trigger] next[j]).sender != sender by {
        assert(next[j] == seen[j]);
        assert(has_sender(kept, seen[j].sender));
        let k = choose|k: int| 0 <= k < kept.len() && (#[trigger] kept[k]).sender == seen[j].sender;
        assert(kept[k].sender != sender);
    }
    assert(next[n] == candidate);
    assert(is_foremost(next, n));
    assert forall|k: int| 0 <= k < grown.len() implies exists|j: int|
        is_foremost(next, j) && next[j] == #[trigger] grown[k] by {
        if k == p {
            assert(is_foremost(next, n) && next[n] == grown[k]);
        } else {
            let before = if k < p { k } else { k - 1 };
            assert(grown[k] == kept[before]);
            let j = choose|j: int| is_foremost(seen, j) && seen[j] == kept[before];
            assert forall|m: int| 0 <= m < j implies (#[trigger] next[m]).sender != next[j].sender by {
                assert(next[m] == seen[m]);
            }
            assert(is_foremost(next, j) && next[j] == grown[k]);
        }
    }
    assert forall|j: int| 0 <= j < next.len() implies #[trigger] has_sender(
        grown,
        next[j].sender,
    ) by {
        if j < n {
            assert(next[j] == seen[j]);
            assert(has_sender(kept, seen[j].sender));
            let k = choose|k: int| 0 <= k < kept.len() && (#[trigger] kept[k]).sender == seen[j].sender;
            let after = if k < p { k } else { k + 1 };
            assert(grown[after] == kept[k]);
            assert(grown[after].sender == next[j].sender);
        } else {
            assert(grown[p].sender == next[j].sender);
        }
    }
}

/// Keeps one transaction per sender: of the candidates of one sender the
/// foremost, and the kept ones in ascending order of their senders.
pub fn one_per_sender(candidates: &Vec<SignedTransaction>) -> (chosen: Vec<SignedTransaction>)
    ensures
        is_one_per_sender(views(candidates@), views(chosen@)),
        chosen@.len() == senders(views(candidates@)).len(),
{
    let ghost all = views(candidates@);
    let mut chosen: Vec<SignedTransaction> = Vec::new();
    let mut i: usize = 0;
    while i < candidates.len()
        invariant
            0 <= i <= candidates@.len(),
            all == views(candidates@),
            is_one_per_sender(all.subrange(0, i as int), views(chosen@)),
        decreases candidates@.len() - i,
    {
        let ghost seen = all.subrange(0, i as int);
        let ghost kept = views(chosen@);
        let sender = candidates[i].sender();
        let mut p: usize = 0;
        while p < chosen.len() && chosen[p].sender().before(&sender)
            invariant
                0 <= p <= chosen@.len(),
                forall|q: int| 0 <= q < p ==> precedes((#[trigger] kept[q]).sender, sender),
                kept == views(chosen@),
            decreases chosen@.len() - p,
        {
            p += 1;
        }
        assert(all.subrange(0, i + 1) =~= seen.push(all[i as int]));
        if p < chosen.len() && chosen[p].sender().same(&sender) {
            proof {
                lemma_selection_skips(seen, kept, all[i as int], p as int);
            }
        } else {
            let copy = candidates[i].clone();
            chosen.insert(p, copy);
            proof {
                assert(views(chosen@) =~= kept.insert(p as int, all[i as int]));
                lemma_selection_grows(seen, kept, all[i as int], p as int);
            }
        }
        i += 1;
    }
    proof {
        assert(all.subrange(0, i as int) =~= all);
        lemma_one_per_sender_count(all, views(chosen@));
    }
    chosen
}

} // verus!
