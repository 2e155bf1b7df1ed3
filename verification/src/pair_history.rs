//! Bounded replay history over `(key id, number)` pairs.

use std::collections::VecDeque;

use vstd::prelude::*;

use crate::lookup_set::{
    lemma_pair_key_injective, pack_pair, pair_key, BoundedLookupSet,
    HASHED_BOUNDED_SET_MIN_CAPACITY,
};

verus! {

/// The most recent pairs, up to a limit.
#[derive(Clone, Debug)]
pub struct PairHistory {
    /// Maximum pairs retained; zero switches the history off.
    pub max_pairs: usize,
    /// Retained pairs by key.
    pub keys: BoundedLookupSet,
    /// Retained pairs, oldest first.
    pub order: VecDeque<(u64, u64)>,
}

/// Keys of a sequence of pairs.
pub open spec fn pair_keys(order: Seq<(u64, u64)>) -> Set<u128> {
    order.map_values(|pair: (u64, u64)| pair_key(pair.0, pair.1)).to_set()
}

/// The pairs retained after a pair was offered: a new pair joins at the end, and the oldest leaves
/// where there are too many.
pub open spec fn retained(max_pairs: nat, order: Seq<(u64, u64)>, pair: (u64, u64)) -> Seq<
    (u64, u64),
> {
    if max_pairs == 0 || order.contains(pair) {
        order
    } else if order.len() >= max_pairs {
        order.push(pair).skip(1)
    } else {
        order.push(pair)
    }
}

proof fn lemma_contains_key(order: Seq<(u64, u64)>, pair: (u64, u64))
    ensures
        pair_keys(order).contains(pair_key(pair.0, pair.1)) <==> order.contains(pair),
{
    let keys = order.map_values(|pair: (u64, u64)| pair_key(pair.0, pair.1));
    if order.contains(pair) {
        let i = choose|i: int| 0 <= i < order.len() && order[i] == pair;
        assert(keys[i] == pair_key(pair.0, pair.1));
    }
    if keys.contains(pair_key(pair.0, pair.1)) {
        let i = choose|i: int| 0 <= i < keys.len() && keys[i] == pair_key(pair.0, pair.1);
        lemma_pair_key_injective((order[i].0, order[i].1), (pair.0, pair.1));
        assert(order[i] == pair);
    }
}

proof fn lemma_push_keys(order: Seq<(u64, u64)>, pair: (u64, u64))
    ensures
        pair_keys(order.push(pair)) == pair_keys(order).insert(pair_key(pair.0, pair.1)),
{
    let f = |pair: (u64, u64)| pair_key(pair.0, pair.1);
    let longer = order.push(pair).map_values(f);
    let keys = order.map_values(f);
    assert(longer =~= keys.push(f(pair)));
    assert forall|key: u128| longer.to_set().contains(key) <==> keys.to_set().insert(
        f(pair),
    ).contains(key) by {
        if keys.contains(key) {
            let i = choose|i: int| 0 <= i < keys.len() && keys[i] == key;
            assert(longer[i] == key);
        }
        if key == f(pair) {
            assert(longer[keys.len() as int] == key);
        }
        if longer.contains(key) && key != f(pair) {
            let i = choose|i: int| 0 <= i < longer.len() && longer[i] == key;
            assert(keys[i] == key);
        }
    }
    assert(longer.to_set() =~= keys.to_set().insert(f(pair)));
}

proof fn lemma_pop_keys(order: Seq<(u64, u64)>)
    requires
        order.len() > 0,
        order.no_duplicates(),
    ensures
        pair_keys(order.skip(1)) == pair_keys(order).remove(
            pair_key(order[0].0, order[0].1),
        ),
{
    let f = |pair: (u64, u64)| pair_key(pair.0, pair.1);
    let shorter = order.skip(1).map_values(f);
    let keys = order.map_values(f);
    assert forall|key: u128| shorter.to_set().contains(key) <==> keys.to_set().remove(
        f(order[0]),
    ).contains(key) by {
        if shorter.contains(key) {
            let i = choose|i: int| 0 <= i < shorter.len() && shorter[i] == key;
            assert(keys[i + 1] == key);
            if key == f(order[0]) {
                lemma_pair_key_injective(
                    (order[i + 1].0, order[i + 1].1),
                    (order[0].0, order[0].1),
                );
            }
        }
        if keys.contains(key) && key != f(order[0]) {
            let i = choose|i: int| 0 <= i < keys.len() && keys[i] == key;
            assert(shorter[i - 1] == key);
        }
    }
    assert(shorter.to_set() =~= keys.to_set().remove(f(order[0])));
}

proof fn lemma_keys_len(order: Seq<(u64, u64)>)
    requires
        order.no_duplicates(),
    ensures
        pair_keys(order).len() == order.len(),
{
    let f = |pair: (u64, u64)| pair_key(pair.0, pair.1);
    let keys = order.map_values(f);
    assert(keys.no_duplicates()) by {
        assert forall|i: int, j: int| 0 <= i < j < keys.len() implies keys[i] != keys[j] by {
            if keys[i] == keys[j] {
                lemma_pair_key_injective(
                    (order[i].0, order[i].1),
                    (order[j].0, order[j].1),
                );
            }
        }
    }
    keys.unique_seq_to_set();
}

impl View for PairHistory {
    type V = Seq<(u64, u64)>;

    open spec fn view(&self) -> Seq<(u64, u64)> {
        self.order@
    }
}

impl PairHistory {
    /// No pair is retained twice, at most `max_pairs` are, and lookups agree with the order.
    pub open spec fn wf(self) -> bool {
        &&& self.keys.wf()
        &&& self.keys@ == pair_keys(self.order@)
        &&& self.order@.no_duplicates()
        &&& self.order@.len() <= self.max_pairs
    }

    /// Creates an empty history.
    pub fn new(max_pairs: usize) -> (history: Self)
        ensures
            history.wf(),
            history.max_pairs == max_pairs,
            history@ == Seq::<(u64, u64)>::empty(),
            history.keys is Hashed <==> max_pairs >= HASHED_BOUNDED_SET_MIN_CAPACITY,
    {
        let history = Self {
            max_pairs,
            keys: BoundedLookupSet::new(max_pairs),
            order: VecDeque::new(),
        };
        assert(pair_keys(history.order@) =~= Set::empty());
        history
    }

    /// Returns the number of retained pairs.
    pub fn len(&self) -> (count: usize)
        requires
            self.wf(),
        ensures
            count == self@.len(),
    {
        proof {
            lemma_keys_len(self.order@);
        }
        self.keys.len()
    }

    /// Returns whether no pair is retained.
    pub fn is_empty(&self) -> (empty: bool)
        requires
            self.wf(),
        ensures
            empty <==> self@.len() == 0,
    {
        self.len() == 0
    }

    /// Returns whether a `(source, number)` pair is retained.
    pub fn contains(&self, source: u64, number: u64) -> (found: bool)
        requires
            self.wf(),
        ensures
            found <==> self@.contains((source, number)),
    {
        proof {
            lemma_contains_key(self.order@, (source, number));
        }
        self.keys.contains(pack_pair(source, number))
    }

    /// Records a `(source, number)` pair if it has not been keys.
    pub fn accept(&mut self, source: u64, number: u64) -> (accepted: bool)
        requires
            old(self).wf(),
        ensures
            final(self).wf(),
            final(self).max_pairs == old(self).max_pairs,
            accepted <==> old(self).max_pairs == 0 || !old(self)@.contains((source, number)),
            final(self)@ == retained(old(self).max_pairs as nat, old(self)@, (source, number)),
    {
        if self.max_pairs == 0 {
            return true;
        }
        let ghost before = self.order@;
        proof {
            lemma_contains_key(before, (source, number));
            lemma_push_keys(before, (source, number));
        }
        let key: u128 = pack_pair(source, number);
        if self.keys.contains(key) {
            return false;
        }
        self.keys.insert(key);
        self.order.push_back((source, number));
        assert(self.order@.no_duplicates());
        if self.order.len() > self.max_pairs {
            let ghost full = self.order@;
            proof {
                lemma_pop_keys(full);
            }
            if let Some(oldest) = self.order.pop_front() {
                self.keys.remove(pack_pair(oldest.0, oldest.1));
                assert(self.order@ =~= full.skip(1));
            }
        }
        true
    }
}

/// The pairs retained after several pairs were offered in turn.
pub open spec fn retained_all(
    max_pairs: nat,
    order: Seq<(u64, u64)>,
    pairs: Seq<(u64, u64)>,
) -> Seq<(u64, u64)>
    decreases pairs.len(),
{
    if pairs.len() == 0 {
        order
    } else {
        retained(max_pairs, retained_all(max_pairs, order, pairs.drop_last()), pairs.last())
    }
}

/// A history never retains more pairs than its limit, whatever it is offered.
pub proof fn law_history_is_bounded(
    max_pairs: nat,
    order: Seq<(u64, u64)>,
    pairs: Seq<(u64, u64)>,
)
    requires
        order.len() <= max_pairs,
    ensures
        retained_all(max_pairs, order, pairs).len() <= max_pairs,
    decreases pairs.len(),
{
    if pairs.len() > 0 {
        law_history_is_bounded(max_pairs, order, pairs.drop_last());
    }
}

/// The pairs of a run that are accepted, in the order in which they come.
pub open spec fn accepted_of(
    max_pairs: nat,
    order: Seq<(u64, u64)>,
    pairs: Seq<(u64, u64)>,
) -> Seq<(u64, u64)>
    decreases pairs.len(),
{
    if pairs.len() == 0 {
        Seq::empty()
    } else {
        let before = accepted_of(max_pairs, order, pairs.drop_last());
        if max_pairs != 0 && retained_all(max_pairs, order, pairs.drop_last()).contains(
            pairs.last(),
        ) {
            before
        } else {
            before.push(pairs.last())
        }
    }
}

/// After any run of a new history, it holds the pairs accepted last, as many of them as there are up
/// to its limit.
pub proof fn law_history_holds_the_last_accepted_pairs(max_pairs: nat, pairs: Seq<(u64, u64)>)
    ensures
        ({
            let accepted = accepted_of(max_pairs, Seq::empty(), pairs);
            let held = if accepted.len() < max_pairs {
                accepted.len()
            } else {
                max_pairs
            };
            &&& retained_all(max_pairs, Seq::empty(), pairs).len() == held
            &&& retained_all(max_pairs, Seq::empty(), pairs) == accepted.skip(
                accepted.len() - held,
            )
        }),
    decreases pairs.len(),
{
    let none = Seq::<(u64, u64)>::empty();
    let accepted = accepted_of(max_pairs, none, pairs);
    if pairs.len() == 0 {
        assert(accepted.skip(0) =~= none);
    } else {
        law_history_holds_the_last_accepted_pairs(max_pairs, pairs.drop_last());
        let before = accepted_of(max_pairs, none, pairs.drop_last());
        let order = retained_all(max_pairs, none, pairs.drop_last());
        let now = retained_all(max_pairs, none, pairs);
        if max_pairs == 0 {
            assert(now =~= accepted.skip(accepted.len() as int));
        } else if !order.contains(pairs.last()) {
            if order.len() >= max_pairs {
                assert(now =~= accepted.skip(accepted.len() - max_pairs));
            } else {
                assert(now =~= accepted.skip(0));
            }
        }
    }
}

proof fn lemma_newest_stays(
    max_pairs: nat,
    order: Seq<(u64, u64)>,
    pair: (u64, u64),
    later: Seq<(u64, u64)>,
) -> (at: int)
    requires
        order.len() > 0,
        order.len() <= max_pairs,
        order.last() == pair,
        later.len() < max_pairs,
    ensures
        ({
            let now = retained_all(max_pairs, order, later);
            &&& 0 <= at < now.len()
            &&& now[at] == pair
            &&& now.len() - at <= later.len() + 1
            &&& now.len() <= max_pairs
        }),
    decreases later.len(),
{
    if later.len() == 0 {
        order.len() - 1
    } else {
        let at = lemma_newest_stays(max_pairs, order, pair, later.drop_last());
        let now = retained_all(max_pairs, order, later.drop_last());
        if now.contains(later.last()) {
            at
        } else if now.len() >= max_pairs {
            at - 1
        } else {
            at
        }
    }
}

/// An accepted pair is refused for as long as fewer pairs than the history holds were offered
/// since.
pub proof fn law_retained_pair_is_refused(
    max_pairs: nat,
    order: Seq<(u64, u64)>,
    pair: (u64, u64),
    later: Seq<(u64, u64)>,
)
    requires
        max_pairs > 0,
        order.len() <= max_pairs,
        !order.contains(pair),
        later.len() < max_pairs,
    ensures
        retained_all(max_pairs, retained(max_pairs, order, pair), later).contains(pair),
{
    let at = lemma_newest_stays(max_pairs, retained(max_pairs, order, pair), pair, later);
    assert(retained_all(max_pairs, retained(max_pairs, order, pair), later)[at] == pair);
}

} // verus!
