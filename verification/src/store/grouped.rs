//! A log that groups what is appended to it by a text key.

use vstd::hash_map::StringHashMap;
use vstd::multiset::Multiset;
use vstd::prelude::*;
use vstd::seq_lib::{lemma_multiset_commutative, to_multiset_build};

verus! {

/// What a log maps `key` to once `value` has been appended under it.
pub open spec fn appended<V>(log: Map<Seq<char>, Seq<V>>, key: Seq<char>, value: V) -> Map<
    Seq<char>,
    Seq<V>,
> {
    log.insert(
        key,
        if log.contains_key(key) {
            log[key].push(value)
        } else {
            seq![value]
        },
    )
}

/// The order of first appearance of the keys once something has been appended under `key`.
pub open spec fn noted(keys: Seq<Seq<char>>, key: Seq<char>) -> Seq<Seq<char>> {
    if keys.contains(key) {
        keys
    } else {
        keys.push(key)
    }
}

/// Whether `keys` lists the keys of `log`, each once.
pub open spec fn lists_keys<V>(keys: Seq<Seq<char>>, log: Map<Seq<char>, Seq<V>>) -> bool {
    &&& keys.no_duplicates()
    &&& forall|key: Seq<char>| keys.contains(key) <==> log.contains_key(key)
}

/// What is found under `key` in `log`: nothing where the key is not known.
pub open spec fn held<V>(log: Map<Seq<char>, Seq<V>>, key: Seq<char>) -> Seq<V> {
    if log.contains_key(key) {
        log[key]
    } else {
        Seq::empty()
    }
}

/// `log` after each value of `items` has been appended, in order, under the
/// key that `key_of` gives it.
pub open spec fn extended<V>(
    log: Map<Seq<char>, Seq<V>>,
    items: Seq<V>,
    key_of: spec_fn(V) -> Seq<char>,
) -> Map<Seq<char>, Seq<V>>
    decreases items.len(),
{
    if items.len() == 0 {
        log
    } else {
        appended(extended(log, items.drop_last(), key_of), key_of(items.last()), items.last())
    }
}

/// `keys` after each value of `items` has been appended, in order, under the
/// key that `key_of` gives it.
pub open spec fn extended_keys<V>(
    keys: Seq<Seq<char>>,
    items: Seq<V>,
    key_of: spec_fn(V) -> Seq<char>,
) -> Seq<Seq<char>>
    decreases items.len(),
{
    if items.len() == 0 {
        keys
    } else {
        noted(extended_keys(keys, items.drop_last(), key_of), key_of(items.last()))
    }
}

/// The test for a value whose key is `key`.
pub open spec fn has_key<V>(key_of: spec_fn(V) -> Seq<char>, key: Seq<char>) -> spec_fn(V) -> bool {
    |value: V| key_of(value) == key
}

/// The values of `items` whose key is `key`, in their order.
pub open spec fn keyed<V>(items: Seq<V>, key_of: spec_fn(V) -> Seq<char>, key: Seq<char>) -> Seq<V> {
    items.filter(has_key(key_of, key))
}

/// After a run of appends, a key holds what it held before followed by the
/// appended values of that key, in the order of the appends; and a key is
/// known exactly if it was known before or one of the values has it.
pub proof fn lemma_extended_holds_appends_in_order<V>(
    log: Map<Seq<char>, Seq<V>>,
    items: Seq<V>,
    key_of: spec_fn(V) -> Seq<char>,
    key: Seq<char>,
)
    ensures
        held(extended(log, items, key_of), key) == held(log, key) + keyed(items, key_of, key),
        extended(log, items, key_of).contains_key(key) <==> log.contains_key(key) || exists|at: int|
            0 <= at < items.len() && key_of(#[trigger] items[at]) == key,
    decreases items.len(),
{
    let wanted = has_key(key_of, key);
    if items.len() == 0 {
        reveal(Seq::filter);
        assert(held(log, key) + keyed(items, key_of, key) =~= held(log, key));
    } else {
        let front = items.drop_last();
        let last = items.last();
        let before = extended(log, front, key_of);
        lemma_extended_holds_appends_in_order(log, front, key_of, key);
        assert(items =~= front.push(last));
        front.lemma_filter_push(last, wanted);
        if key_of(last) == key {
            assert(held(appended(before, key, last), key) =~= held(before, key).push(last));
            assert(held(log, key) + front.filter(wanted).push(last) =~= (held(log, key)
                + front.filter(wanted)).push(last));
        } else {
            if exists|at: int| 0 <= at < items.len() && key_of(#[trigger] items[at]) == key {
                let at = choose|at: int| 0 <= at < items.len() && key_of(#[trigger] items[at]) == key;
                assert(items[at] == front[at]);
            }
        }
    }
}

/// Everything that `log` holds under the keys of `keys`, key after key.
pub open spec fn everything<V>(keys: Seq<Seq<char>>, log: Map<Seq<char>, Seq<V>>) -> Seq<V>
    decreases keys.len(),
{
    if keys.len() == 0 {
        Seq::empty()
    } else {
        everything(keys.drop_last(), log) + log[keys.last()]
    }
}

/// Filtering keeps every occurrence of a value that passes and none of one that does not.
pub proof fn lemma_filter_keeps_count<V>(items: Seq<V>, pred: spec_fn(V) -> bool, value: V)
    ensures
        items.filter(pred).to_multiset().count(value) == if pred(value) {
            items.to_multiset().count(value)
        } else {
            0
        },
    decreases items.len(),
{
    broadcast use vstd::multiset::group_multiset_axioms;

    if items.len() == 0 {
        reveal(Seq::filter);
        items.to_multiset_ensures();
        items.filter(pred).to_multiset_ensures();
        assert(items.to_multiset() =~= Multiset::<V>::empty());
        assert(items.filter(pred).to_multiset() =~= Multiset::<V>::empty());
    } else {
        let front = items.drop_last();
        let last = items.last();
        lemma_filter_keeps_count(front, pred, value);
        assert(items =~= front.push(last));
        front.lemma_filter_push(last, pred);
        to_multiset_build(front, last);
        to_multiset_build(front.filter(pred), last);
    }
}

/// A test that nothing passes leaves nothing.
pub proof fn lemma_filter_by_none<V>(items: Seq<V>, pred: spec_fn(V) -> bool)
    requires
        forall|value: V| !#[trigger] pred(value),
    ensures
        items.filter(pred) == Seq::<V>::empty(),
{
    if items.filter(pred).len() > 0 {
        items.lemma_filter_pred(pred, 0);
    }
    assert(items.filter(pred) =~= Seq::<V>::empty());
}

/// A test that everything passes leaves everything.
pub proof fn lemma_filter_by_all<V>(items: Seq<V>, pred: spec_fn(V) -> bool)
    requires
        forall|at: int| 0 <= at < items.len() ==> pred(#[trigger] items[at]),
    ensures
        items.filter(pred) == items,
    decreases items.len(),
{
    if items.len() == 0 {
        reveal(Seq::filter);
    } else {
        lemma_filter_by_all(items.drop_last(), pred);
        assert(items =~= items.drop_last().push(items.last()));
        items.drop_last().lemma_filter_push(items.last(), pred);
    }
}

/// Whether `whole` is `one` and `other` woven into one run: it holds the
/// values of both and no others, those of `one` in the order of `one` and
/// those of `other` in the order of `other`. This is what the calls of two
/// callers come to when they are made one at a time.
pub open spec fn woven<V>(whole: Seq<V>, one: Seq<V>, other: Seq<V>) -> bool
    decreases whole.len(),
{
    if whole.len() == 0 {
        one.len() == 0 && other.len() == 0
    } else {
        ||| one.len() > 0 && one.last() == whole.last() && woven(
            whole.drop_last(),
            one.drop_last(),
            other,
        )
        ||| other.len() > 0 && other.last() == whole.last() && woven(
            whole.drop_last(),
            one,
            other.drop_last(),
        )
    }
}

/// A run woven of two holds as many values as the two together, and every
/// value as often as the two together.
pub proof fn lemma_woven_holds_both<V>(whole: Seq<V>, one: Seq<V>, other: Seq<V>)
    requires
        woven(whole, one, other),
    ensures
        whole.len() == one.len() + other.len(),
        whole.to_multiset() == one.to_multiset().add(other.to_multiset()),
    decreases whole.len(),
{
    broadcast use vstd::multiset::group_multiset_axioms;

    if whole.len() == 0 {
        assert(one =~= Seq::<V>::empty());
        assert(other =~= Seq::<V>::empty());
        assert(whole =~= Seq::<V>::empty());
        Seq::<V>::empty().to_multiset_ensures();
        assert(Seq::<V>::empty().to_multiset() =~= Multiset::<V>::empty());
        assert(whole.to_multiset() =~= one.to_multiset().add(other.to_multiset()));
    } else {
        let last = whole.last();
        assert(whole =~= whole.drop_last().push(last));
        to_multiset_build(whole.drop_last(), last);
        if one.len() > 0 && one.last() == last && woven(whole.drop_last(), one.drop_last(), other) {
            lemma_woven_holds_both(whole.drop_last(), one.drop_last(), other);
            assert(one =~= one.drop_last().push(last));
            to_multiset_build(one.drop_last(), last);
        } else {
            lemma_woven_holds_both(whole.drop_last(), one, other.drop_last());
            assert(other =~= other.drop_last().push(last));
            to_multiset_build(other.drop_last(), last);
        }
        assert(whole.to_multiset() =~= one.to_multiset().add(other.to_multiset()));
    }
}

/// What passes a test in a run woven of two is what passes it in the one
/// woven with what passes it in the other.
pub proof fn lemma_woven_filter<V>(
    whole: Seq<V>,
    one: Seq<V>,
    other: Seq<V>,
    pred: spec_fn(V) -> bool,
)
    requires
        woven(whole, one, other),
    ensures
        woven(whole.filter(pred), one.filter(pred), other.filter(pred)),
    decreases whole.len(),
{
    if whole.len() == 0 {
        reveal(Seq::filter);
        assert(whole.filter(pred).len() == 0);
        assert(one.filter(pred).len() == 0);
        assert(other.filter(pred).len() == 0);
    } else {
        let last = whole.last();
        let front = whole.drop_last();
        assert(whole =~= front.push(last));
        front.lemma_filter_push(last, pred);
        if one.len() > 0 && one.last() == last && woven(front, one.drop_last(), other) {
            let rest = one.drop_last();
            lemma_woven_filter(front, rest, other, pred);
            assert(one =~= rest.push(last));
            rest.lemma_filter_push(last, pred);
            if pred(last) {
                assert(front.filter(pred).push(last).drop_last() =~= front.filter(pred));
                assert(rest.filter(pred).push(last).drop_last() =~= rest.filter(pred));
            }
        } else {
            let rest = other.drop_last();
            lemma_woven_filter(front, one, rest, pred);
            assert(other =~= rest.push(last));
            rest.lemma_filter_push(last, pred);
            if pred(last) {
                assert(front.filter(pred).push(last).drop_last() =~= front.filter(pred));
                assert(rest.filter(pred).push(last).drop_last() =~= rest.filter(pred));
            }
        }
    }
}

/// Appends of two callers, made one at a time in whatever order they come,
/// leave under a key what was there followed by the appends that the two
/// made under that key: all of them, those of each caller in the order in
/// which that caller made them.
pub proof fn lemma_extended_by_two_callers<V>(
    log: Map<Seq<char>, Seq<V>>,
    whole: Seq<V>,
    one: Seq<V>,
    other: Seq<V>,
    key_of: spec_fn(V) -> Seq<char>,
    key: Seq<char>,
)
    requires
        woven(whole, one, other),
    ensures
        held(extended(log, whole, key_of), key) == held(log, key) + keyed(whole, key_of, key),
        woven(keyed(whole, key_of, key), keyed(one, key_of, key), keyed(other, key_of, key)),
        keyed(whole, key_of, key).len() == keyed(one, key_of, key).len() + keyed(
            other,
            key_of,
            key,
        ).len(),
        keyed(whole, key_of, key).to_multiset() == keyed(one, key_of, key).to_multiset().add(
            keyed(other, key_of, key).to_multiset(),
        ),
{
    lemma_extended_holds_appends_in_order(log, whole, key_of, key);
    lemma_woven_filter(whole, one, other, has_key(key_of, key));
    lemma_woven_holds_both(
        keyed(whole, key_of, key),
        keyed(one, key_of, key),
        keyed(other, key_of, key),
    );
}

/// Two runs of the same values, each as often, have the same values of a
/// key, each as often.
pub proof fn lemma_same_values_same_keyed<V>(
    one: Seq<V>,
    other: Seq<V>,
    key_of: spec_fn(V) -> Seq<char>,
    key: Seq<char>,
)
    requires
        one.to_multiset() == other.to_multiset(),
    ensures
        keyed(one, key_of, key).to_multiset() == keyed(other, key_of, key).to_multiset(),
        keyed(one, key_of, key).len() == keyed(other, key_of, key).len(),
{
    let wanted = has_key(key_of, key);
    assert forall|value: V|
        one.filter(wanted).to_multiset().count(value) == other.filter(wanted).to_multiset().count(
            value,
        ) by {
        lemma_filter_keeps_count(one, wanted, value);
        lemma_filter_keeps_count(other, wanted, value);
    }
    assert(one.filter(wanted).to_multiset() =~= other.filter(wanted).to_multiset());
    one.filter(wanted).to_multiset_ensures();
    other.filter(wanted).to_multiset_ensures();
}

/// Whatever the order in which the same appends are made, none is lost: two
/// runs that append the same values as often know the same keys, and hold
/// under each key the same values as often.
pub proof fn lemma_extended_keeps_every_value<V>(
    log: Map<Seq<char>, Seq<V>>,
    one: Seq<V>,
    other: Seq<V>,
    key_of: spec_fn(V) -> Seq<char>,
    key: Seq<char>,
)
    requires
        one.to_multiset() == other.to_multiset(),
    ensures
        held(extended(log, one, key_of), key).to_multiset() == held(
            extended(log, other, key_of),
            key,
        ).to_multiset(),
        extended(log, one, key_of).contains_key(key) == extended(log, other, key_of).contains_key(
            key,
        ),
{
    broadcast use vstd::multiset::group_multiset_axioms;

    lemma_extended_holds_appends_in_order(log, one, key_of, key);
    lemma_extended_holds_appends_in_order(log, other, key_of, key);
    lemma_multiset_commutative(held(log, key), keyed(one, key_of, key));
    lemma_multiset_commutative(held(log, key), keyed(other, key_of, key));
    lemma_same_values_same_keyed(one, other, key_of, key);
    one.to_multiset_ensures();
    other.to_multiset_ensures();
    if exists|at: int| 0 <= at < one.len() && key_of(#[trigger] one[at]) == key {
        let at = choose|at: int| 0 <= at < one.len() && key_of(#[trigger] one[at]) == key;
        assert(one.contains(one[at]));
        assert(one.to_multiset().count(one[at]) > 0);
        assert(other.to_multiset().count(one[at]) > 0);
        assert(other.contains(one[at]));
        let to = choose|to: int| 0 <= to < other.len() && other[to] == one[at];
        assert(key_of(other[to]) == key);
    }
    if exists|at: int| 0 <= at < other.len() && key_of(#[trigger] other[at]) == key {
        let at = choose|at: int| 0 <= at < other.len() && key_of(#[trigger] other[at]) == key;
        assert(other.contains(other[at]));
        assert(other.to_multiset().count(other[at]) > 0);
        assert(one.to_multiset().count(other[at]) > 0);
        assert(one.contains(other[at]));
        let to = choose|to: int| 0 <= to < one.len() && one[to] == other[at];
        assert(key_of(one[to]) == key);
    }
}

/// A run of appends keeps the list of known keys in step with the log.
pub proof fn lemma_extended_keys_list_keys<V>(
    keys: Seq<Seq<char>>,
    log: Map<Seq<char>, Seq<V>>,
    items: Seq<V>,
    key_of: spec_fn(V) -> Seq<char>,
)
    requires
        lists_keys(keys, log),
    ensures
        lists_keys(extended_keys(keys, items, key_of), extended(log, items, key_of)),
    decreases items.len(),
{
    if items.len() > 0 {
        lemma_extended_keys_list_keys(keys, log, items.drop_last(), key_of);
        lemma_noted_lists_keys(
            extended_keys(keys, items.drop_last(), key_of),
            extended(log, items.drop_last(), key_of),
            key_of(items.last()),
            items.last(),
        );
    }
}

/// One append keeps the list of known keys in step with the log.
pub proof fn lemma_noted_lists_keys<V>(
    keys: Seq<Seq<char>>,
    log: Map<Seq<char>, Seq<V>>,
    key: Seq<char>,
    value: V,
)
    requires
        lists_keys(keys, log),
    ensures
        lists_keys(noted(keys, key), appended(log, key, value)),
{
    let after = noted(keys, key);
    assert forall|other: Seq<char>| after.contains(other) <==> appended(
        log,
        key,
        value,
    ).contains_key(other) by {
        if !keys.contains(key) {
            assert(after[keys.len() as int] == key);
            if keys.contains(other) {
                let at = choose|at: int| 0 <= at < keys.len() && keys[at] == other;
                assert(after[at] == other);
            }
        }
    }
}

/// Appending under a listed key adds the value once to everything that is
/// held under the listed keys; appending under another key adds nothing to it.
proof fn lemma_everything_after_append<V>(
    keys: Seq<Seq<char>>,
    log: Map<Seq<char>, Seq<V>>,
    key: Seq<char>,
    value: V,
)
    requires
        keys.no_duplicates(),
        forall|at: int| 0 <= at < keys.len() ==> log.contains_key(#[trigger] keys[at]),
    ensures
        everything(keys, appended(log, key, value)).to_multiset() == if keys.contains(key) {
            everything(keys, log).to_multiset().insert(value)
        } else {
            everything(keys, log).to_multiset()
        },
    decreases keys.len(),
{
    broadcast use vstd::multiset::group_multiset_axioms;

    if keys.len() > 0 {
        let front = keys.drop_last();
        let last = keys.last();
        let after = appended(log, key, value);
        lemma_everything_after_append(front, log, key, value);
        lemma_multiset_commutative(everything(front, after), after[last]);
        lemma_multiset_commutative(everything(front, log), log[last]);
        assert(log.contains_key(keys[keys.len() - 1]));
        if last == key {
            assert(!front.contains(key)) by {
                if front.contains(key) {
                    let at = choose|at: int| 0 <= at < front.len() && front[at] == key;
                    assert(keys[at] == keys[keys.len() - 1]);
                }
            }
            assert(keys.contains(key)) by {
                assert(keys[keys.len() - 1] == key);
            }
            to_multiset_build(log[key], value);
            assert(everything(keys, after).to_multiset() =~= everything(
                keys,
                log,
            ).to_multiset().insert(value));
        } else {
            assert(front.contains(key) == keys.contains(key)) by {
                if keys.contains(key) {
                    let at = choose|at: int| 0 <= at < keys.len() && keys[at] == key;
                    assert(front[at] == key);
                }
                if front.contains(key) {
                    let at = choose|at: int| 0 <= at < front.len() && front[at] == key;
                    assert(keys[at] == key);
                }
            }
            assert(everything(keys, after).to_multiset() =~= if keys.contains(key) {
                everything(keys, log).to_multiset().insert(value)
            } else {
                everything(keys, log).to_multiset()
            });
        }
    }
}

/// A log holds what it held and what was appended, every value as often as
/// it was appended: nothing is lost and nothing comes from nowhere.
pub proof fn lemma_everything_holds_what_was_appended<V>(
    keys: Seq<Seq<char>>,
    log: Map<Seq<char>, Seq<V>>,
    items: Seq<V>,
    key_of: spec_fn(V) -> Seq<char>,
)
    requires
        lists_keys(keys, log),
    ensures
        everything(
            extended_keys(keys, items, key_of),
            extended(log, items, key_of),
        ).to_multiset() == everything(keys, log).to_multiset().add(items.to_multiset()),
    decreases items.len(),
{
    broadcast use vstd::multiset::group_multiset_axioms;

    if items.len() == 0 {
        items.to_multiset_ensures();
        assert(items.to_multiset() =~= Multiset::<V>::empty());
        assert(everything(keys, log).to_multiset().add(items.to_multiset()) =~= everything(
            keys,
            log,
        ).to_multiset());
    } else {
        let front = items.drop_last();
        let value = items.last();
        let key = key_of(value);
        let keys_before = extended_keys(keys, front, key_of);
        let before = extended(log, front, key_of);
        let after = appended(before, key, value);
        lemma_everything_holds_what_was_appended(keys, log, front, key_of);
        lemma_extended_keys_list_keys(keys, log, front, key_of);
        assert forall|at: int| 0 <= at < keys_before.len() implies before.contains_key(
            #[trigger] keys_before[at],
        ) by {
            assert(keys_before.contains(keys_before[at]));
        }
        lemma_everything_after_append(keys_before, before, key, value);
        assert(items =~= front.push(value));
        to_multiset_build(front, value);
        if !keys_before.contains(key) {
            assert(keys_before.push(key).drop_last() =~= keys_before);
            lemma_multiset_commutative(everything(keys_before, after), after[key]);
            assert(after[key] =~= Seq::<V>::empty().push(value));
            to_multiset_build(Seq::<V>::empty(), value);
            Seq::<V>::empty().to_multiset_ensures();
            assert(Seq::<V>::empty().to_multiset() =~= Multiset::<V>::empty());
        }
        assert(everything(
            extended_keys(keys, items, key_of),
            extended(log, items, key_of),
        ).to_multiset() =~= everything(keys, log).to_multiset().add(items.to_multiset()));
    }
}

struct Group<V> {
    key: String,
    items: Vec<V>,
}

/// An append-only table from text keys to sequences of values.
///
/// Its view maps each key to everything that was appended under it, oldest
/// first. A key is known from its first append on, and never has an empty
/// sequence. `keys` lists the known keys in the order in which they first appeared.
pub struct GroupedLog<V> {
    index: StringHashMap<usize>,
    groups: Vec<Group<V>>,
}

impl<V> View for GroupedLog<V> {
    type V = Map<Seq<char>, Seq<V>>;

    closed spec fn view(&self) -> Map<Seq<char>, Seq<V>> {
        Map::new(
            |key: Seq<char>| self.index@.contains_key(key),
            |key: Seq<char>| self.groups[self.index@[key] as int].items@,
        )
    }
}

impl<V> GroupedLog<V> {
    #[verifier::type_invariant]
    spec fn consistent(self) -> bool {
        Self::indexed(self.index@, self.groups@)
    }

    /// `index` sends each key to the place of its group, and every group is
    /// found through it and holds something.
    spec fn indexed(index: Map<Seq<char>, usize>, groups: Seq<Group<V>>) -> bool {
        &&& forall|key: Seq<char>| #[trigger]
            index.contains_key(key) ==> index[key] < groups.len() && groups[index[key] as int].key@
                == key
        &&& forall|at: int|
            0 <= at < groups.len() ==> index.contains_key(#[trigger] groups[at].key@)
                && index[groups[at].key@] == at
        &&& forall|at: int| 0 <= at < groups.len() ==> (#[trigger] groups[at]).items.len() > 0
    }

    /// The known keys, in the order in which they first appeared.
    pub closed spec fn keys(&self) -> Seq<Seq<char>> {
        Seq::new(self.groups.len() as nat, |at: int| self.groups[at].key@)
    }

    /// A log that knows no key.
    pub fn new() -> (log: Self)
        ensures
            log@ == Map::<Seq<char>, Seq<V>>::empty(),
            log.keys() == Seq::<Seq<char>>::empty(),
            lists_keys(log.keys(), log@),
    {
        let log = GroupedLog { index: StringHashMap::new(), groups: Vec::new() };
        assert(log@ =~= Map::<Seq<char>, Seq<V>>::empty());
        assert(log.keys() =~= Seq::<Seq<char>>::empty());
        log
    }

    /// Appends `value` under `key`, which becomes known if it was not.
    pub fn insert(&mut self, key: &str, value: V)
        ensures
            final(self)@ == appended(old(self)@, key@, value),
            final(self).keys() == noted(old(self).keys(), key@),
            lists_keys(old(self).keys(), old(self)@),
            lists_keys(final(self).keys(), final(self)@),
    {
        proof {
            use_type_invariant(&*self);
        }
        let mut taken = GroupedLog { index: StringHashMap::new(), groups: Vec::new() };
        std::mem::swap(self, &mut taken);
        let ghost before = taken;
        let GroupedLog { mut index, mut groups } = taken;
        let found = match index.get(key) {
            Some(at) => Some(*at),
            None => None,
        };
        match found {
            Some(at) => {
                groups[at].items.push(value);
                proof {
                    assert(before.keys().contains(key@)) by {
                        assert(before.keys()[at as int] == key@);
                    }
                }
            },
            None => {
                proof {
                    assert(!before.keys().contains(key@)) by {
                        if before.keys().contains(key@) {
                            let at = choose|at: int|
                                0 <= at < before.keys().len() && before.keys()[at] == key@;
                            assert(index@.contains_key(before.groups[at].key@));
                        }
                    }
                }
                let at = groups.len();
                let mut items = Vec::new();
                items.push(value);
                groups.push(Group { key: String::from_str(key), items });
                index.insert(String::from_str(key), at);
            },
        }
        *self = GroupedLog { index, groups };
        proof {
            assert(self@ =~= appended(before@, key@, value));
            assert(self.keys() =~= noted(before.keys(), key@));
            before.lemma_keys_listed();
            lemma_noted_lists_keys(before.keys(), before@, key@, value);
        }
    }

    /// The known keys, each with what was appended under it, in the order in
    /// which the keys first appeared.
    pub fn entries(&self) -> (all: Vec<(&str, &Vec<V>)>)
        ensures
            all@.len() == self.keys().len(),
            forall|at: int|
                0 <= at < all@.len() ==> (#[trigger] all@[at]).0@ == self.keys()[at] && all@[at].1@
                    == self@[self.keys()[at]],
            lists_keys(self.keys(), self@),
    {
        proof {
            use_type_invariant(self);
            self.lemma_keys_listed();
        }
        let mut all: Vec<(&str, &Vec<V>)> = Vec::new();
        let mut at: usize = 0;
        while at < self.groups.len()
            invariant
                at <= self.groups.len(),
                Self::indexed(self.index@, self.groups@),
                all@.len() == at,
                forall|to: int|
                    0 <= to < at ==> (#[trigger] all@[to]).0@ == self.keys()[to] && all@[to].1@
                        == self@[self.keys()[to]],
            decreases self.groups.len() - at,
        {
            let group = &self.groups[at];
            all.push((group.key.as_str(), &group.items));
            at += 1;
        }
        all
    }

    /// The keys are listed once each, and they are the keys of the view.
    proof fn lemma_keys_listed(self)
        requires
            Self::indexed(self.index@, self.groups@),
        ensures
            lists_keys(self.keys(), self@),
    {
        let keys = self.keys();
        assert forall|key: Seq<char>| keys.contains(key) <==> self@.contains_key(key) by {
            if self@.contains_key(key) {
                assert(keys[self.index@[key] as int] == key);
            }
            if keys.contains(key) {
                let at = choose|at: int| 0 <= at < keys.len() && keys[at] == key;
                assert(self.index@.contains_key(self.groups[at].key@));
            }
        }
        assert forall|one: int, other: int|
            0 <= one < keys.len() && 0 <= other < keys.len() && one != other implies keys[one]
            != keys[other] by {
            assert(self.index@[self.groups[one].key@] == one);
            assert(self.index@[self.groups[other].key@] == other);
        }
    }

    /// Everything appended under `key`, oldest first, if `key` is known.
    pub fn get(&self, key: &str) -> (found: Option<&Vec<V>>)
        ensures
            found is Some <==> self@.contains_key(key@),
            found matches Some(items) ==> items@ == self@[key@] && items@.len() > 0,
            lists_keys(self.keys(), self@),
    {
        proof {
            use_type_invariant(self);
            self.lemma_keys_listed();
        }
        match self.index.get(key) {
            Some(at) => Some(&self.groups[*at].items),
            None => None,
        }
    }
}

} // verus!
