//! Sorting by a strict total order on keys.
use vstd::prelude::*;
use vstd::string::*;

use crate::text::{characters, texts};

verus! {

/// How one key stands to another.
#[derive(Clone, Copy, Debug, PartialEq, Eq, Structural)]
pub enum Rank {
    Before,
    Same,
    Behind,
}

/// Items that are sorted by a key with a strict total order.
pub trait Ranked: Sized {
    type Key;

    spec fn key(&self) -> Self::Key;

    spec fn precedes(left: Self::Key, right: Self::Key) -> bool;

    proof fn precedes_total(left: Self::Key, right: Self::Key)
        ensures
            Self::precedes(left, right) || left == right || Self::precedes(right, left),
    ;

    proof fn precedes_strict(left: Self::Key, right: Self::Key)
        ensures
            !(Self::precedes(left, right) && Self::precedes(right, left)),
            !Self::precedes(left, left),
    ;

    proof fn precedes_transitive(first: Self::Key, second: Self::Key, third: Self::Key)
        requires
            Self::precedes(first, second),
            Self::precedes(second, third),
        ensures
            Self::precedes(first, third),
    ;

    fn rank(&self, other: &Self) -> (result: Rank)
        ensures
            match result {
                Rank::Before => Self::precedes(self.key(), other.key()),
                Rank::Same => self.key() == other.key(),
                Rank::Behind => Self::precedes(other.key(), self.key()),
            },
    ;
}

/// The keys of a list of items.
pub open spec fn keys<T: Ranked>(items: Seq<T>) -> Seq<T::Key> {
    Seq::new(items.len(), |i: int| items[i].key())
}

/// Each key precedes all that stand behind it.
pub open spec fn increasing<T: Ranked>(list: Seq<T::Key>) -> bool {
    forall|i: int, j: int|
        0 <= i < j < list.len() ==> T::precedes(#[trigger] list[i], #[trigger] list[j])
}

/// No key precedes one that stands before it.
pub open spec fn ascending<T: Ranked>(list: Seq<T::Key>) -> bool {
    forall|i: int, j: int|
        0 <= i < j < list.len() ==> !T::precedes(#[trigger] list[j], #[trigger] list[i])
}

/// Adds an item to an increasing list unless an item with its key is there.
pub fn insert_distinct<T: Ranked>(sorted: &mut Vec<T>, item: T)
    requires
        increasing::<T>(keys(old(sorted)@)),
    ensures
        increasing::<T>(keys(final(sorted)@)),
        forall|key: T::Key|
            keys(final(sorted)@).contains(key) <==> keys(old(sorted)@).contains(key) || key
                == item.key(),
        keys(old(sorted)@).contains(item.key()) ==> final(sorted)@ == old(sorted)@,
        forall|i: int|
            0 <= i < final(sorted)@.len() ==> #[trigger] final(sorted)@[i] == item || old(
                sorted,
            )@.contains(final(sorted)@[i]),
{
    let ghost before = sorted@;
    let mut index: usize = 0;
    while index < sorted.len()
        invariant
            index <= sorted.len(),
            sorted@ == before,
            before == old(sorted)@,
            increasing::<T>(keys(before)),
            forall|i: int|
                0 <= i < index ==> T::precedes(#[trigger] keys(before)[i], item.key()),
        decreases sorted.len() - index,
    {
        match sorted[index].rank(&item) {
            Rank::Before => {
                index += 1;
            },
            Rank::Same => {
                proof {
                    assert(keys(before)[index as int] == item.key());
                }
                return ;
            },
            Rank::Behind => {
                proof {
                    assert forall|i: int|
                        index <= i < before.len() implies T::precedes(
                        item.key(),
                        #[trigger] keys(before)[i],
                    ) by {
                        assert(T::precedes(item.key(), keys(before)[index as int]));
                        if i > index {
                            assert(T::precedes(keys(before)[index as int], keys(before)[i]));
                            T::precedes_transitive(
                                item.key(),
                                keys(before)[index as int],
                                keys(before)[i],
                            );
                        }
                    }
                    lemma_inserted::<T>(before, index as int, item);
                }
                sorted.insert(index, item);
                return ;
            },
        }
    }
    proof {
        lemma_inserted::<T>(before, index as int, item);
        assert(before.insert(before.len() as int, item) =~= before.push(item));
    }
    sorted.push(item);
}

proof fn lemma_inserted<T: Ranked>(before: Seq<T>, at: int, item: T)
    requires
        0 <= at <= before.len(),
        increasing::<T>(keys(before)),
        forall|i: int| 0 <= i < at ==> T::precedes(#[trigger] keys(before)[i], item.key()),
        forall|i: int|
            at <= i < before.len() ==> T::precedes(item.key(), #[trigger] keys(before)[i]),
    ensures
        increasing::<T>(keys(before.insert(at, item))),
        forall|key: T::Key|
            keys(before.insert(at, item)).contains(key) <==> keys(before).contains(key) || key
                == item.key(),
        !keys(before).contains(item.key()),
        forall|i: int|
            0 <= i < before.insert(at, item).len() ==> #[trigger] before.insert(at, item)[i] == item
                || before.contains(before.insert(at, item)[i]),
{
    let after = before.insert(at, item);
    assert(keys(after) =~= keys(before).insert(at, item.key()));
    assert forall|key: T::Key|
        keys(after).contains(key) <==> keys(before).contains(key) || key == item.key() by {
        if keys(before).contains(key) {
            let i = choose|i: int| 0 <= i < keys(before).len() && keys(before)[i] == key;
            let j = if i < at {
                i
            } else {
                i + 1
            };
            assert(keys(after)[j] == key);
        }
        if key == item.key() {
            assert(keys(after)[at] == key);
        }
        if keys(after).contains(key) {
            let j = choose|j: int| 0 <= j < keys(after).len() && keys(after)[j] == key;
            if j != at {
                let i = if j < at {
                    j
                } else {
                    j - 1
                };
                assert(keys(before)[i] == key);
            }
        }
    }
    if keys(before).contains(item.key()) {
        let i = choose|i: int| 0 <= i < keys(before).len() && keys(before)[i] == item.key();
        T::precedes_strict(item.key(), item.key());
        assert(false);
    }
    assert forall|i: int| 0 <= i < after.len() implies #[trigger] after[i] == item
        || before.contains(after[i]) by {
        if i < at {
            assert(before[i] == after[i]);
        } else if i > at {
            assert(before[i - 1] == after[i]);
        }
    }
}

/// The items in increasing order, one for each key.
pub fn sorted_distinct<T: Ranked>(items: Vec<T>) -> (result: Vec<T>)
    ensures
        increasing::<T>(keys(result@)),
        forall|key: T::Key| keys(result@).contains(key) <==> keys(items@).contains(key),
        forall|i: int| 0 <= i < result@.len() ==> items@.contains(#[trigger] result@[i]),
{
    let mut rest = items;
    let mut result: Vec<T> = Vec::new();
    proof {
        assert forall|key: T::Key|
            keys(items@).contains(key) <==> keys(rest@).contains(key) || keys(result@).contains(
                key,
            ) by {}
    }
    while rest.len() > 0
        invariant
            increasing::<T>(keys(result@)),
            forall|key: T::Key|
                keys(items@).contains(key) <==> keys(rest@).contains(key) || keys(
                    result@,
                ).contains(key),
            forall|i: int| 0 <= i < result@.len() ==> items@.contains(#[trigger] result@[i]),
            forall|i: int| 0 <= i < rest@.len() ==> items@.contains(#[trigger] rest@[i]),
        decreases rest.len(),
    {
        let ghost whole = rest@;
        let ghost earlier = result@;
        if let Some(item) = rest.pop() {
            proof {
                assert(whole[whole.len() - 1] == item);
                assert forall|key: T::Key|
                    keys(whole).contains(key) <==> keys(rest@).contains(key) || key
                        == item.key() by {
                    if keys(whole).contains(key) {
                        let i = choose|i: int| 0 <= i < keys(whole).len() && keys(whole)[i] == key;
                        if i < rest@.len() {
                            assert(keys(rest@)[i] == key);
                        }
                    }
                    if keys(rest@).contains(key) {
                        let i = choose|i: int| 0 <= i < keys(rest@).len() && keys(rest@)[i] == key;
                        assert(keys(whole)[i] == key);
                    }
                    if key == item.key() {
                        assert(keys(whole)[whole.len() - 1] == key);
                    }
                }
            }
            insert_distinct(&mut result, item);
            proof {
                assert forall|i: int| 0 <= i < result@.len() implies items@.contains(
                    #[trigger] result@[i],
                ) by {
                    if result@[i] != item {
                        let j = choose|j: int|
                            0 <= j < earlier.len() && earlier[j] == result@[i];
                        assert(items@.contains(earlier[j]));
                    }
                }
            }
        }
    }
    proof {
        assert forall|key: T::Key| keys(result@).contains(key) <==> keys(items@).contains(key) by {
            assert(rest@.len() == 0);
        }
    }
    result
}

/// An increasing list of keys is determined by which keys it holds.
pub proof fn increasing_is_unique<T: Ranked>(left: Seq<T::Key>, right: Seq<T::Key>)
    requires
        increasing::<T>(left),
        increasing::<T>(right),
        forall|key: T::Key| left.contains(key) <==> right.contains(key),
    ensures
        left == right,
    decreases left.len(),
{
    if left.len() == 0 {
        if right.len() > 0 {
            assert(right.contains(right[0]));
        }
        assert(left =~= right);
    } else {
        assert(left.contains(left.last()));
        let at = choose|i: int| 0 <= i < right.len() && right[i] == left.last();
        assert(right.contains(right.last()));
        let back = choose|i: int| 0 <= i < left.len() && left[i] == right.last();
        if at < right.len() - 1 {
            assert(T::precedes(right[at], right.last()));
            if back < left.len() - 1 {
                assert(T::precedes(left[back], left.last()));
                T::precedes_strict(left.last(), right.last());
            } else {
                T::precedes_strict(left.last(), left.last());
            }
            assert(false);
        }
        assert(left.last() == right.last());
        let shorter = left.drop_last();
        let other = right.drop_last();
        assert forall|key: T::Key| shorter.contains(key) <==> other.contains(key) by {
            if shorter.contains(key) {
                let i = choose|i: int| 0 <= i < shorter.len() && shorter[i] == key;
                assert(left[i] == key);
                assert(T::precedes(left[i], left.last()));
                T::precedes_strict(key, key);
                assert(left.contains(key));
                let j = choose|j: int| 0 <= j < right.len() && right[j] == key;
                assert(j < right.len() - 1);
                assert(other[j] == key);
            }
            if other.contains(key) {
                let i = choose|i: int| 0 <= i < other.len() && other[i] == key;
                assert(right[i] == key);
                assert(T::precedes(right[i], right.last()));
                T::precedes_strict(key, key);
                assert(right.contains(key));
                let j = choose|j: int| 0 <= j < left.len() && left[j] == key;
                assert(j < left.len() - 1);
                assert(shorter[j] == key);
            }
        }
        assert forall|i: int, j: int| 0 <= i < j < shorter.len() implies T::precedes(
            #[trigger] shorter[i],
            #[trigger] shorter[j],
        ) by {
            assert(T::precedes(left[i], left[j]));
        }
        assert forall|i: int, j: int| 0 <= i < j < other.len() implies T::precedes(
            #[trigger] other[i],
            #[trigger] other[j],
        ) by {
            assert(T::precedes(right[i], right[j]));
        }
        increasing_is_unique::<T>(shorter, other);
        assert(left =~= shorter.push(left.last()));
        assert(right =~= other.push(right.last()));
    }
}

/// Whether an item has a given key.
pub open spec fn has_key<T: Ranked>(key: T::Key) -> spec_fn(T) -> bool {
    |item: T| item.key() == key
}

/// The same items in ascending order, those with one key in the order that they had.
pub fn sorted_stably<T: Ranked>(items: Vec<T>) -> (result: Vec<T>)
    ensures
        ascending::<T>(keys(result@)),
        forall|key: T::Key|
            #![trigger result@.filter(has_key::<T>(key))]
            result@.filter(has_key::<T>(key)) == items@.filter(has_key::<T>(key)),
        result@.to_multiset() == items@.to_multiset(),
{
    broadcast use vstd::seq_lib::group_to_multiset_ensures;

    let mut rest = items;
    let mut waiting: Vec<T> = Vec::new();
    // Turn the list round so that its first item leaves first.
    while rest.len() > 0
        invariant
            rest@ + waiting@.reverse() == items@,
        decreases rest.len(),
    {
        let ghost whole = rest@;
        let ghost turned = waiting@;
        if let Some(item) = rest.pop() {
            waiting.push(item);
            proof {
                assert(rest@ + waiting@.reverse() =~= whole + turned.reverse());
            }
        }
    }
    proof {
        assert(waiting@.reverse() =~= items@);
    }
    let mut result: Vec<T> = Vec::new();
    let ghost mut taken: Seq<T> = Seq::empty();
    proof {
        assert(taken + waiting@.reverse() =~= items@);
    }
    while waiting.len() > 0
        invariant
            taken + waiting@.reverse() == items@,
            ascending::<T>(keys(result@)),
            forall|key: T::Key|
                #![trigger result@.filter(has_key::<T>(key))]
                result@.filter(has_key::<T>(key)) == taken.filter(has_key::<T>(key)),
            result@.to_multiset() == taken.to_multiset(),
        decreases waiting.len(),
    {
        let ghost turned = waiting@;
        let ghost earlier = result@;
        if let Some(item) = waiting.pop() {
            let mut at: usize = result.len();
            while at > 0 && matches!(result[at - 1].rank(&item), Rank::Behind)
                invariant
                    at <= result.len(),
                    result@ == earlier,
                    ascending::<T>(keys(earlier)),
                    forall|i: int|
                        at <= i < earlier.len() ==> T::precedes(
                            item.key(),
                            #[trigger] keys(earlier)[i],
                        ),
                decreases at,
            {
                at -= 1;
            }
            proof {
                assert forall|i: int| 0 <= i < at implies !T::precedes(
                    item.key(),
                    #[trigger] keys(earlier)[i],
                ) by {
                    let last = keys(earlier)[at - 1];
                    T::precedes_strict(last, item.key());
                    if T::precedes(item.key(), keys(earlier)[i]) && i < at - 1 {
                        assert(!T::precedes(last, keys(earlier)[i]));
                        T::precedes_total(last, keys(earlier)[i]);
                        if last == keys(earlier)[i] {
                        } else {
                            T::precedes_transitive(item.key(), keys(earlier)[i], last);
                        }
                        assert(T::precedes(item.key(), last));
                        assert(false);
                    }
                }
                lemma_stably_inserted::<T>(earlier, at as int, item);
                assert forall|key: T::Key|
                    #![trigger taken.push(item).filter(has_key::<T>(key))]
                    earlier.insert(at as int, item).filter(has_key::<T>(key)) == taken.push(
                        item,
                    ).filter(has_key::<T>(key)) by {
                    assert(earlier.filter(has_key::<T>(key)) == taken.filter(has_key::<T>(key)));
                    taken.lemma_filter_push(item, has_key::<T>(key));
                    assert(earlier.insert(at as int, item).filter(has_key::<T>(key)) == (if item.key()
                        == key {
                        earlier.filter(has_key::<T>(key)).push(item)
                    } else {
                        earlier.filter(has_key::<T>(key))
                    }));
                }
            }
            result.insert(at, item);
            proof {
                assert(taken.push(item) + waiting@.reverse() =~= taken + turned.reverse());
                vstd::seq_lib::to_multiset_insert(earlier, at as int, item);
                vstd::seq_lib::to_multiset_build(taken, item);
                taken = taken.push(item);
                assert forall|key: T::Key|
                    #![trigger result@.filter(has_key::<T>(key))]
                    result@.filter(has_key::<T>(key)) == taken.filter(has_key::<T>(key)) by {
                    assert(result@ == earlier.insert(at as int, item));
                }
            }
        }
    }
    proof {
        assert(taken =~= items@);
    }
    result
}

proof fn lemma_stably_inserted<T: Ranked>(before: Seq<T>, at: int, item: T)
    requires
        0 <= at <= before.len(),
        ascending::<T>(keys(before)),
        forall|i: int| 0 <= i < at ==> !T::precedes(item.key(), #[trigger] keys(before)[i]),
        forall|i: int|
            at <= i < before.len() ==> T::precedes(item.key(), #[trigger] keys(before)[i]),
    ensures
        ascending::<T>(keys(before.insert(at, item))),
        forall|key: T::Key|
            #![trigger before.insert(at, item).filter(has_key::<T>(key))]
            before.insert(at, item).filter(has_key::<T>(key)) == (if item.key() == key {
                before.filter(has_key::<T>(key)).push(item)
            } else {
                before.filter(has_key::<T>(key))
            }),
{
    let after = before.insert(at, item);
    assert(keys(after) =~= keys(before).insert(at, item.key()));
    assert forall|i: int, j: int| 0 <= i < j < keys(after).len() implies !T::precedes(
        #[trigger] keys(after)[j],
        #[trigger] keys(after)[i],
    ) by {
        if i == at {
            assert(keys(after)[j] == keys(before)[j - 1]);
            T::precedes_strict(item.key(), keys(before)[j - 1]);
        } else if j == at {
            assert(keys(after)[i] == keys(before)[i]);
        } else {
            let a = if i < at { i } else { i - 1 };
            let b = if j < at { j } else { j - 1 };
            assert(keys(after)[i] == keys(before)[a]);
            assert(keys(after)[j] == keys(before)[b]);
        }
    }
    assert forall|key: T::Key|
        #![trigger before.insert(at, item).filter(has_key::<T>(key))]
        before.insert(at, item).filter(has_key::<T>(key)) == (if item.key() == key {
            before.filter(has_key::<T>(key)).push(item)
        } else {
            before.filter(has_key::<T>(key))
        }) by {
        let wanted = has_key::<T>(key);
        let head = before.take(at);
        let tail = before.skip(at);
        assert(after =~= head.push(item) + tail);
        assert(before =~= head + tail);
        Seq::filter_distributes_over_add(head.push(item), tail, wanted);
        Seq::filter_distributes_over_add(head, tail, wanted);
        head.lemma_filter_push(item, wanted);
        if item.key() == key {
            assert forall|i: int| 0 <= i < tail.len() implies !wanted(#[trigger] tail[i]) by {
                assert(tail[i] == before[at + i]);
                assert(T::precedes(item.key(), keys(before)[at + i]));
                T::precedes_strict(item.key(), item.key());
            }
            lemma_filter_none(tail, wanted);
            assert(tail.filter(wanted) =~= Seq::<T>::empty());
            assert(head.filter(wanted).push(item) + tail.filter(wanted) =~= (head.filter(wanted)
                + tail.filter(wanted)).push(item));
        }
    }
}

proof fn lemma_filter_none<T>(items: Seq<T>, wanted: spec_fn(T) -> bool)
    requires
        forall|i: int| 0 <= i < items.len() ==> !wanted(#[trigger] items[i]),
    ensures
        items.filter(wanted).len() == 0,
    decreases items.len(),
{
    reveal(Seq::filter);
    if items.len() > 0 {
        assert(!wanted(items[items.len() - 1]));
        lemma_filter_none(items.drop_last(), wanted);
    }
}

/// Texts in the order of their code points.
pub open spec fn text_precedes(left: Seq<char>, right: Seq<char>) -> bool
    decreases left.len(),
{
    if right.len() == 0 {
        false
    } else if left.len() == 0 {
        true
    } else if left[0] != right[0] {
        (left[0] as u32) < (right[0] as u32)
    } else {
        text_precedes(left.drop_first(), right.drop_first())
    }
}

/// Characters with one code are one character.
pub proof fn lemma_same_code(left: char, right: char)
    ensures
        left as u32 == right as u32 ==> left == right,
{
    vstd::utf8::char_u32_cast(left, left as u32);
    vstd::utf8::char_u32_cast(right, right as u32);
}

pub proof fn lemma_text_precedes_total(left: Seq<char>, right: Seq<char>)
    ensures
        text_precedes(left, right) || left == right || text_precedes(right, left),
    decreases left.len(),
{
    if left.len() > 0 && right.len() > 0 {
        lemma_same_code(left[0], right[0]);
    }
    if left.len() > 0 && right.len() > 0 && left[0] == right[0] {
        lemma_text_precedes_total(left.drop_first(), right.drop_first());
        assert(left =~= seq![left[0]] + left.drop_first());
        assert(right =~= seq![right[0]] + right.drop_first());
    } else if left.len() == 0 && right.len() == 0 {
        assert(left =~= right);
    }
}

pub proof fn lemma_text_precedes_strict(left: Seq<char>, right: Seq<char>)
    ensures
        !(text_precedes(left, right) && text_precedes(right, left)),
        !text_precedes(left, left),
    decreases left.len(),
{
    if left.len() > 0 {
        if right.len() > 0 && left[0] == right[0] {
            lemma_text_precedes_strict(left.drop_first(), right.drop_first());
        } else {
            lemma_text_precedes_strict(left.drop_first(), left.drop_first());
        }
    }
}

pub proof fn lemma_text_precedes_transitive(first: Seq<char>, second: Seq<char>, third: Seq<char>)
    requires
        text_precedes(first, second),
        text_precedes(second, third),
    ensures
        text_precedes(first, third),
    decreases first.len(),
{
    if first.len() > 0 && second.len() > 0 && third.len() > 0 && first[0] == second[0] && second[0]
        == third[0] {
        lemma_text_precedes_transitive(
            first.drop_first(),
            second.drop_first(),
            third.drop_first(),
        );
    }
}

/// How two texts stand to each other.
pub fn rank_texts(left: &str, right: &str) -> (result: Rank)
    ensures
        match result {
            Rank::Before => text_precedes(left@, right@),
            Rank::Same => left@ == right@,
            Rank::Behind => text_precedes(right@, left@),
        },
{
    let a = characters(left);
    let b = characters(right);
    let mut index: usize = 0;
    proof {
        assert(left@.skip(0) =~= left@);
        assert(right@.skip(0) =~= right@);
    }
    while index < a.len() && index < b.len()
        invariant
            index <= a.len(),
            index <= b.len(),
            a@ == left@,
            b@ == right@,
            left@.take(index as int) == right@.take(index as int),
            text_precedes(left@, right@) == text_precedes(
                left@.skip(index as int),
                right@.skip(index as int),
            ),
            text_precedes(right@, left@) == text_precedes(
                right@.skip(index as int),
                left@.skip(index as int),
            ),
        decreases a.len() - index,
    {
        let first: u32 = a[index] as u32;
        let second: u32 = b[index] as u32;
        if first < second {
            return Rank::Before;
        }
        if second < first {
            return Rank::Behind;
        }
        proof {
            lemma_same_code(a@[index as int], b@[index as int]);
            assert(a@[index as int] == b@[index as int]);
            assert(left@.skip(index as int).drop_first() =~= left@.skip(index + 1));
            assert(right@.skip(index as int).drop_first() =~= right@.skip(index + 1));
            assert(left@.take(index + 1) =~= left@.take(index as int).push(left@[index as int]));
            assert(right@.take(index + 1) =~= right@.take(index as int).push(right@[index as int]));
        }
        index += 1;
    }
    if index < b.len() {
        Rank::Before
    } else if index < a.len() {
        Rank::Behind
    } else {
        proof {
            assert(left@.take(index as int) =~= left@);
            assert(right@.take(index as int) =~= right@);
        }
        Rank::Same
    }
}

impl Ranked for String {
    type Key = Seq<char>;

    open spec fn key(&self) -> Seq<char> {
        self@
    }

    open spec fn precedes(left: Seq<char>, right: Seq<char>) -> bool {
        text_precedes(left, right)
    }

    proof fn precedes_total(left: Seq<char>, right: Seq<char>) {
        lemma_text_precedes_total(left, right);
    }

    proof fn precedes_strict(left: Seq<char>, right: Seq<char>) {
        lemma_text_precedes_strict(left, right);
    }

    proof fn precedes_transitive(first: Seq<char>, second: Seq<char>, third: Seq<char>) {
        lemma_text_precedes_transitive(first, second, third);
    }

    fn rank(&self, other: &Self) -> (result: Rank) {
        rank_texts(self.as_str(), other.as_str())
    }
}

impl Ranked for u64 {
    type Key = u64;

    open spec fn key(&self) -> u64 {
        *self
    }

    open spec fn precedes(left: u64, right: u64) -> bool {
        left < right
    }

    proof fn precedes_total(left: u64, right: u64) {
    }

    proof fn precedes_strict(left: u64, right: u64) {
    }

    proof fn precedes_transitive(first: u64, second: u64, third: u64) {
    }

    fn rank(&self, other: &Self) -> (result: Rank) {
        if *self < *other {
            Rank::Before
        } else if *self == *other {
            Rank::Same
        } else {
            Rank::Behind
        }
    }
}

/// What stands in a list stands at its end or before.
pub proof fn lemma_seen<T>(items: Seq<T>, item: T)
    requires
        items.len() > 0,
    ensures
        items.drop_last().contains(item) || items.last() == item ==> items.contains(item),
{
    if items.last() == item {
        assert(items[items.len() - 1] == item);
    }
    if items.drop_last().contains(item) {
        let at = choose|at: int| 0 <= at < items.drop_last().len() && items.drop_last()[at] == item;
        assert(items[at] == item);
    }
}

/// Whatever stands in a list without its last item stands in the list, and so does the last.
pub proof fn lemma_all_seen<T>(items: Seq<T>)
    requires
        items.len() > 0,
    ensures
        forall|item: T| #[trigger]
            items.drop_last().contains(item) ==> items.contains(item),
        items.contains(items.last()),
{
    assert forall|item: T| #[trigger] items.drop_last().contains(item) implies items.contains(
        item,
    ) by {
        lemma_seen(items, item);
    }
    assert(items[items.len() - 1] == items.last());
}

/// Texts are ordered by the first characters in which they differ, whatever they have in common
/// before; a text stands before any longer one that begins with it.
pub proof fn texts_are_ordered_by_their_first_difference(
    common: Seq<char>,
    left: Seq<char>,
    right: Seq<char>,
)
    requires
        right.len() > 0,
        left.len() > 0 ==> left[0] != right[0],
    ensures
        left.len() > 0 ==> (text_precedes(common + left, common + right) <==> (left[0] as u32) < (
        right[0] as u32)),
        left.len() == 0 ==> text_precedes(common + left, common + right) && !text_precedes(
            common + right,
            common + left,
        ),
    decreases common.len(),
{
    let first = common + left;
    let second = common + right;
    if common.len() > 0 {
        let rest = common.drop_first();
        assert(first.drop_first() =~= rest + left);
        assert(second.drop_first() =~= rest + right);
        texts_are_ordered_by_their_first_difference(rest, left, right);
    } else {
        assert(first =~= left);
        assert(second =~= right);
    }
}

} // verus!
