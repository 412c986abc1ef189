//! The mathematics of a tally: a list of languages, each once, with the
//! amount credited to it, in the order in which the languages were first
//! met.

use vstd::prelude::*;

verus! {

/// A language and the amount counted for it.
pub struct Entry {
    pub name: Seq<char>,
    pub value: nat,
}

/// No language is listed twice.
pub open spec fn names_distinct(t: Seq<Entry>) -> bool {
    forall|i: int, j: int| 0 <= i < j < t.len() ==> t[i].name != t[j].name
}

/// The sum of all amounts.
pub open spec fn sum_values(t: Seq<Entry>) -> nat
    decreases t.len(),
{
    if t.len() == 0 {
        0
    } else {
        sum_values(t.drop_last()) + t.last().value
    }
}

/// The index of the first entry that `hit` holds of, or the length where it
/// holds of none.
pub open spec fn first_where(t: Seq<Entry>, hit: spec_fn(Entry) -> bool) -> int
    decreases t.len(),
{
    if t.len() == 0 || hit(t[0]) {
        0
    } else {
        1 + first_where(t.subrange(1, t.len() as int), hit)
    }
}

/// The index of the entry for `name`, or the length where there is none.
pub open spec fn find(t: Seq<Entry>, name: Seq<char>) -> int {
    first_where(t, |e: Entry| e.name == name)
}

/// The amount counted for `name`; nothing where it is not listed.
pub open spec fn value_of(t: Seq<Entry>, name: Seq<char>) -> nat {
    if find(t, name) < t.len() {
        t[find(t, name)].value
    } else {
        0
    }
}

/// The tally after `amount` more was counted for `name`: added to its entry,
/// or listed last as a new entry.
pub open spec fn credit(t: Seq<Entry>, name: Seq<char>, amount: nat) -> Seq<Entry> {
    let at = find(t, name);
    if at < t.len() {
        t.update(at, Entry { name, value: t[at].value + amount })
    } else {
        t.push(Entry { name, value: amount })
    }
}

/// The number of entries whose amount is at most `v`.
pub open spec fn count_at_most(t: Seq<Entry>, v: nat) -> nat
    decreases t.len(),
{
    if t.len() == 0 {
        0
    } else {
        count_at_most(t.drop_last(), v) + if t.last().value <= v {
            1nat
        } else {
            0nat
        }
    }
}

/// Amounts never fall from one entry to the next.
pub open spec fn is_ascending(t: Seq<Entry>) -> bool {
    forall|i: int, j: int| 0 <= i < j < t.len() ==> t[i].value <= t[j].value
}

/// The entries by rising amount. Each entry in turn goes behind those
/// placed before it that do not exceed it, so entries of equal amount keep
/// the order they were listed in.
pub open spec fn ascending(t: Seq<Entry>) -> Seq<Entry>
    decreases t.len(),
{
    if t.len() == 0 {
        t
    } else {
        let placed = ascending(t.drop_last());
        placed.insert(count_at_most(placed, t.last().value) as int, t.last())
    }
}

/// The entries by rank: the largest amount first.
pub open spec fn ranked(t: Seq<Entry>) -> Seq<Entry> {
    ascending(t).reverse()
}

/// What `first_where` returns: no earlier entry is a hit, and the entry at
/// it is one, unless it is the length.
pub proof fn lemma_first_where(t: Seq<Entry>, hit: spec_fn(Entry) -> bool)
    ensures
        0 <= first_where(t, hit) <= t.len(),
        first_where(t, hit) < t.len() ==> hit(t[first_where(t, hit)]),
        forall|i: int| 0 <= i < first_where(t, hit) ==> !hit(#[trigger] t[i]),
    decreases t.len(),
{
    if !(t.len() == 0 || hit(t[0])) {
        let rest = t.subrange(1, t.len() as int);
        lemma_first_where(rest, hit);
        assert forall|i: int| 0 <= i < first_where(t, hit) implies !hit(#[trigger] t[i]) by {
            if i > 0 {
                assert(t[i] == rest[i - 1]);
            }
        }
    }
}

/// An index before which nothing is a hit, and which is a hit or the
/// length, is the one `first_where` returns.
pub proof fn lemma_first_where_is(t: Seq<Entry>, hit: spec_fn(Entry) -> bool, at: int)
    requires
        0 <= at <= t.len(),
        forall|i: int| 0 <= i < at ==> !hit(#[trigger] t[i]),
        at < t.len() ==> hit(t[at]),
    ensures
        first_where(t, hit) == at,
{
    lemma_first_where(t, hit);
}

/// The entry for a name, where there is one, is the only one.
pub proof fn lemma_find(t: Seq<Entry>, name: Seq<char>)
    ensures
        0 <= find(t, name) <= t.len(),
        find(t, name) < t.len() ==> t[find(t, name)].name == name,
        forall|i: int| 0 <= i < find(t, name) ==> (#[trigger] t[i]).name != name,
        names_distinct(t) ==> forall|i: int|
            0 <= i < t.len() && i != find(t, name) ==> (#[trigger] t[i]).name != name,
{
    lemma_first_where(t, |e: Entry| e.name == name);
}

/// An amount is at most the sum it is part of.
pub proof fn lemma_value_le_sum(t: Seq<Entry>, at: int)
    requires
        0 <= at < t.len(),
    ensures
        t[at].value <= sum_values(t),
    decreases t.len(),
{
    if at < t.len() - 1 {
        lemma_value_le_sum(t.drop_last(), at);
    }
}

/// Replacing one entry changes the sum by the difference of the amounts.
pub proof fn lemma_sum_update(t: Seq<Entry>, at: int, e: Entry)
    requires
        0 <= at < t.len(),
    ensures
        sum_values(t.update(at, e)) + t[at].value == sum_values(t) + e.value,
    decreases t.len(),
{
    if at < t.len() - 1 {
        lemma_sum_update(t.drop_last(), at, e);
        assert(t.update(at, e).drop_last() =~= t.drop_last().update(at, e));
    } else {
        assert(t.update(at, e).drop_last() =~= t.drop_last());
    }
}

/// Inserting an entry adds its amount to the sum.
pub proof fn lemma_sum_insert(t: Seq<Entry>, at: int, e: Entry)
    requires
        0 <= at <= t.len(),
    ensures
        sum_values(t.insert(at, e)) == sum_values(t) + e.value,
    decreases t.len(),
{
    if at < t.len() {
        lemma_sum_insert(t.drop_last(), at, e);
        assert(t.insert(at, e).drop_last() =~= t.drop_last().insert(at, e));
        assert(t.insert(at, e).last() == t.last());
    } else {
        assert(t.insert(at, e).drop_last() =~= t);
    }
}

/// The sum of a list is the sum of a front part and the rest.
pub proof fn lemma_sum_split(t: Seq<Entry>, at: int)
    requires
        0 <= at <= t.len(),
    ensures
        sum_values(t) == sum_values(t.take(at)) + sum_values(t.skip(at)),
    decreases t.len(),
{
    if at == t.len() {
        assert(t.take(at) =~= t);
        assert(t.skip(at) =~= Seq::<Entry>::empty());
    } else {
        lemma_sum_split(t.drop_last(), at);
        assert(t.drop_last().take(at) =~= t.take(at));
        assert(t.skip(at).drop_last() =~= t.drop_last().skip(at));
    }
}

/// Reading a list backwards leaves its sum.
pub proof fn lemma_sum_reverse(t: Seq<Entry>)
    ensures
        sum_values(t.reverse()) == sum_values(t),
    decreases t.len(),
{
    if t.len() > 0 {
        let r = t.reverse();
        lemma_sum_split(r, 1);
        assert(r.skip(1) =~= t.drop_last().reverse());
        lemma_sum_reverse(t.drop_last());
        assert(r.take(1).drop_last() =~= Seq::<Entry>::empty());
        assert(r.take(1).last() == t.last());
        assert(sum_values(r.take(1)) == sum_values(r.take(1).drop_last()) + t.last().value);
    }
}

/// Crediting adds the amount to the sum and to the language, leaves every
/// other language as it was, and lists no language twice.
pub proof fn lemma_credit(t: Seq<Entry>, name: Seq<char>, amount: nat)
    requires
        names_distinct(t),
    ensures
        names_distinct(credit(t, name, amount)),
        sum_values(credit(t, name, amount)) == sum_values(t) + amount,
        value_of(credit(t, name, amount), name) == value_of(t, name) + amount,
        forall|other: Seq<char>|
            other != name ==> value_of(credit(t, name, amount), other) == value_of(t, other),
{
    let at = find(t, name);
    let after = credit(t, name, amount);
    lemma_find(t, name);
    if at < t.len() {
        lemma_sum_update(t, at, Entry { name, value: t[at].value + amount });
    } else {
        assert(after.drop_last() =~= t);
    }
    assert(at < after.len() && after[at].name == name);
    lemma_first_where_is(after, |e: Entry| e.name == name, at);
    assert forall|other: Seq<char>| other != name implies value_of(after, other) == value_of(
        t,
        other,
    ) by {
        lemma_find(t, other);
        let spot = find(t, other);
        assert forall|i: int| 0 <= i < t.len() implies (#[trigger] after[i]).name
            == t[i].name by {}
        if spot < t.len() {
            assert(after[spot] == t[spot]);
            lemma_first_where_is(after, |e: Entry| e.name == other, spot);
        } else {
            lemma_first_where_is(after, |e: Entry| e.name == other, after.len() as int);
        }
    }
}

/// Where every entry before `at` is at most `v` and every later one is
/// above it, `at` entries are at most `v`.
pub proof fn lemma_count_at_most(t: Seq<Entry>, v: nat, at: int)
    requires
        0 <= at <= t.len(),
        forall|i: int| 0 <= i < at ==> (#[trigger] t[i]).value <= v,
        forall|i: int| at <= i < t.len() ==> (#[trigger] t[i]).value > v,
    ensures
        count_at_most(t, v) == at,
    decreases t.len(),
{
    if t.len() > 0 {
        if at == t.len() {
            lemma_count_at_most(t.drop_last(), v, at - 1);
        } else {
            lemma_count_at_most(t.drop_last(), v, at);
        }
    }
}

/// In a list of rising amounts the entries that are at most `v` stand in
/// front, the others behind them.
pub proof fn lemma_count_splits_ascending(t: Seq<Entry>, v: nat)
    requires
        is_ascending(t),
    ensures
        0 <= count_at_most(t, v) <= t.len(),
        forall|i: int| 0 <= i < count_at_most(t, v) ==> (#[trigger] t[i]).value <= v,
        forall|i: int| count_at_most(t, v) <= i < t.len() ==> (#[trigger] t[i]).value > v,
    decreases t.len(),
{
    if t.len() > 0 {
        let front = t.drop_last();
        assert forall|i: int, j: int| 0 <= i < j < front.len() implies front[i].value
            <= front[j].value by {
            assert(front[i] == t[i] && front[j] == t[j]);
        }
        lemma_count_splits_ascending(front, v);
        let c = count_at_most(front, v) as int;
        if t.last().value <= v {
            if c < front.len() {
                assert(front[c].value > v);
                assert(front[c] == t[c]);
                assert(t[c].value <= t[t.len() - 1].value);
            }
            assert forall|i: int| 0 <= i < count_at_most(t, v) implies (#[trigger] t[i]).value
                <= v by {
                if i < front.len() {
                    assert(t[i] == front[i]);
                }
            }
        } else {
            assert forall|i: int| 0 <= i < count_at_most(t, v) implies (#[trigger] t[i]).value
                <= v by {
                assert(t[i] == front[i]);
            }
            assert forall|i: int| count_at_most(t, v) <= i < t.len() implies (#[trigger] t[i]).value
                > v by {
                if i < front.len() {
                    assert(t[i] == front[i]);
                }
            }
        }
    }
}

/// Sorting keeps the entries, their number and their sum, and the amounts
/// rise along the result.
pub proof fn lemma_ascending(t: Seq<Entry>)
    ensures
        ascending(t).len() == t.len(),
        is_ascending(ascending(t)),
        sum_values(ascending(t)) == sum_values(t),
        ascending(t).to_multiset() == t.to_multiset(),
    decreases t.len(),
{
    if t.len() == 0 {
    } else {
        let front = t.drop_last();
        let last = t.last();
        let placed = ascending(front);
        lemma_ascending(front);
        lemma_count_splits_ascending(placed, last.value);
        let at = count_at_most(placed, last.value) as int;
        let out = placed.insert(at, last);
        lemma_sum_insert(placed, at, last);
        assert forall|i: int, j: int| 0 <= i < j < out.len() implies out[i].value
            <= out[j].value by {
            if i < at && j > at {
                assert(out[i] == placed[i] && out[j] == placed[j - 1]);
            } else if i < at && j < at {
                assert(out[i] == placed[i] && out[j] == placed[j]);
            } else if i > at {
                assert(out[i] == placed[i - 1] && out[j] == placed[j - 1]);
            } else if i == at {
                assert(out[j] == placed[j - 1]);
            } else {
                assert(out[i] == placed[i]);
            }
        }
        vstd::seq_lib::to_multiset_insert(placed, at, last);
        assert(t =~= front.push(last));
        vstd::seq_lib::to_multiset_insert(front, front.len() as int, last);
        assert(front.insert(front.len() as int, last) =~= front.push(last));
    }
}

/// Where the entry that is listed at `at` stands after sorting.
pub open spec fn place_of(t: Seq<Entry>, at: int) -> int {
    find(ascending(t), t[at].name)
}

/// Every entry of the sorted list is an entry of the tally.
pub proof fn lemma_ascending_holds_entries(t: Seq<Entry>, i: int)
    requires
        0 <= i < ascending(t).len(),
    ensures
        t.contains(ascending(t)[i]),
{
    lemma_ascending(t);
    let e = ascending(t)[i];
    assert(ascending(t).contains(e));
    vstd::seq_lib::to_multiset_contains(ascending(t), e);
    vstd::seq_lib::to_multiset_contains(t, e);
}

/// Sorting is a stable sort. Every entry is found again in the sorted list,
/// which lists no language twice. Of two entries the one with the smaller
/// amount comes first, and of two with the same amount the one that was
/// listed first.
pub proof fn lemma_ascending_is_stable(t: Seq<Entry>)
    requires
        names_distinct(t),
    ensures
        names_distinct(ascending(t)),
        forall|a: int|
            0 <= a < t.len() ==> 0 <= #[trigger] place_of(t, a) < t.len() && ascending(t)[place_of(
                t,
                a,
            )] == t[a],
        forall|a: int, b: int|
            0 <= a < t.len() && 0 <= b < t.len() && (t[a].value < t[b].value || (t[a].value
                == t[b].value && a < b)) ==> #[trigger] place_of(t, a) < #[trigger] place_of(t, b),
    decreases t.len(),
{
    if t.len() > 0 {
        let front = t.drop_last();
        let last = t.last();
        let placed = ascending(front);
        let at = count_at_most(placed, last.value) as int;
        let out = ascending(t);
        assert(out == placed.insert(at, last));
        lemma_ascending_is_stable(front);
        lemma_ascending(front);
        lemma_count_splits_ascending(placed, last.value);
        assert forall|i: int| 0 <= i < placed.len() implies (#[trigger] placed[i]).name
            != last.name by {
            lemma_ascending_holds_entries(front, i);
            let j = choose|j: int| 0 <= j < front.len() && front[j] == placed[i];
            assert(t[j] == front[j]);
        }
        assert forall|i: int, j: int| 0 <= i < j < out.len() implies out[i].name
            != out[j].name by {
            let pi = if i < at {
                i
            } else {
                i - 1
            };
            let pj = if j < at {
                j
            } else {
                j - 1
            };
            if i != at && j != at {
                assert(out[i] == placed[pi] && out[j] == placed[pj]);
            } else if i == at {
                assert(out[j] == placed[pj]);
            } else {
                assert(out[i] == placed[pi]);
            }
        }
        // where each entry of the tally stands in the sorted list
        let spot = |a: int|
            if a == t.len() - 1 {
                at
            } else if place_of(front, a) < at {
                place_of(front, a)
            } else {
                place_of(front, a) + 1
            };
        assert forall|a: int| 0 <= a < t.len() implies #[trigger] place_of(t, a) == spot(a) && 0
            <= spot(a) < t.len() && out[spot(a)] == t[a] by {
            if a < t.len() - 1 {
                assert(front[a] == t[a]);
                assert(0 <= place_of(front, a) < front.len());
                assert(placed[place_of(front, a)] == front[a]);
            }
            assert(out[spot(a)] == t[a]);
            lemma_first_where_is(out, |e: Entry| e.name == t[a].name, spot(a));
        }
        assert forall|a: int, b: int|
            0 <= a < t.len() && 0 <= b < t.len() && (t[a].value < t[b].value || (t[a].value
                == t[b].value && a < b)) implies #[trigger] place_of(t, a) < #[trigger] place_of(
            t,
            b,
        ) by {
            assert(place_of(t, a) == spot(a) && place_of(t, b) == spot(b));
            if a < t.len() - 1 && b < t.len() - 1 {
                assert(front[a] == t[a] && front[b] == t[b]);
                assert(place_of(front, a) < place_of(front, b));
            } else if b == t.len() - 1 {
                assert(front[a] == t[a]);
                assert(placed[place_of(front, a)] == front[a]);
            } else {
                assert(front[b] == t[b]);
                assert(placed[place_of(front, b)] == front[b]);
            }
        }
    }
}

/// By rank the amounts never rise, and the ranked list holds the entries
/// of the tally.
pub proof fn lemma_ranked(t: Seq<Entry>)
    ensures
        ranked(t).len() == t.len(),
        ranked(t).to_multiset() == t.to_multiset(),
        forall|i: int, j: int|
            0 <= i < j < t.len() ==> (#[trigger] ranked(t)[i]).value >= (#[trigger] ranked(
                t,
            )[j]).value,
{
    lemma_ascending(t);
    ascending(t).lemma_reverse_to_multiset();
}

} // verus!
