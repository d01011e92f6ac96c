//! The keys under which the router keeps its tasks: a share by its source
//! and its destination, a simulation stream by its connection.

use vstd::prelude::*;
use vstd::string::StringExecFns;

verus! {

/// The key of a share: where the frames come from, which may be a
/// connection or the id of a share of one target, and the connection that
/// they go to.
#[derive(Debug, Clone, PartialEq, Eq)]
pub struct ShareKey {
    pub source: String,
    pub dest: String,
}

impl View for ShareKey {
    type V = (Seq<char>, Seq<char>);

    open spec fn view(&self) -> (Seq<char>, Seq<char>) {
        (self.source@, self.dest@)
    }
}

/// The views of a sequence of keys, in order.
pub open spec fn key_views(keys: Seq<ShareKey>) -> Seq<(Seq<char>, Seq<char>)> {
    Seq::new(keys.len(), |i: int| keys[i]@)
}

/// The views of a sequence of strings, in order.
pub open spec fn string_views(strings: Seq<String>) -> Seq<Seq<char>> {
    Seq::new(strings.len(), |i: int| strings[i]@)
}

/// The keys whose destination is `dest`, in order.
pub open spec fn keys_to(keys: Seq<(Seq<char>, Seq<char>)>, dest: Seq<char>) -> Seq<
    (Seq<char>, Seq<char>),
>
    decreases keys.len(),
{
    if keys.len() == 0 {
        Seq::empty()
    } else if keys.last().1 == dest {
        keys_to(keys.drop_last(), dest).push(keys.last())
    } else {
        keys_to(keys.drop_last(), dest)
    }
}

/// The keys whose destination is not `dest`, in order.
pub open spec fn keys_not_to(keys: Seq<(Seq<char>, Seq<char>)>, dest: Seq<char>) -> Seq<
    (Seq<char>, Seq<char>),
>
    decreases keys.len(),
{
    if keys.len() == 0 {
        Seq::empty()
    } else if keys.last().1 == dest {
        keys_not_to(keys.drop_last(), dest)
    } else {
        keys_not_to(keys.drop_last(), dest).push(keys.last())
    }
}

/// The items that are not `item`, in order.
pub open spec fn without<T>(items: Seq<T>, item: T) -> Seq<T>
    decreases items.len(),
{
    if items.len() == 0 {
        Seq::empty()
    } else if items.last() == item {
        without(items.drop_last(), item)
    } else {
        without(items.drop_last(), item).push(items.last())
    }
}

/// Holds where no item stands twice.
pub open spec fn distinct<T>(items: Seq<T>) -> bool {
    forall|i: int, j: int| 0 <= i < items.len() && 0 <= j < items.len() && i != j ==> items[i]
        != items[j]
}

/// An item is in a sequence with one more item where it is the new item
/// or was there before.
pub proof fn lemma_push_contains<T>(items: Seq<T>, added: T, item: T)
    ensures
        items.push(added).contains(item) <==> items.contains(item) || added == item,
{
    let after = items.push(added);
    if items.contains(item) {
        let i = choose|i: int| 0 <= i < items.len() && items[i] == item;
        assert(after[i] == item);
    }
    if added == item {
        assert(after[items.len() as int] == item);
    }
    if after.contains(item) {
        let i = choose|i: int| 0 <= i < after.len() && after[i] == item;
        if i < items.len() {
            assert(items[i] == item);
        }
    }
}

/// A sequence with one more item has no item twice where the sequence had
/// none twice and did not hold the new item.
pub proof fn lemma_push_distinct<T>(items: Seq<T>, added: T)
    ensures
        distinct(items.push(added)) <==> distinct(items) && !items.contains(added),
{
    let after = items.push(added);
    if distinct(items) && !items.contains(added) {
        assert forall|i: int, j: int|
            0 <= i < after.len() && 0 <= j < after.len() && i != j implies after[i]
            != after[j] by {
            if i < items.len() && j < items.len() {
            } else if i < items.len() {
                assert(items.contains(items[i]));
            } else {
                assert(items.contains(items[j]));
            }
        }
    }
    if distinct(after) {
        assert forall|i: int, j: int|
            0 <= i < items.len() && 0 <= j < items.len() && i != j implies items[i]
            != items[j] by {
            assert(after[i] != after[j]);
        }
        if items.contains(added) {
            let i = choose|i: int| 0 <= i < items.len() && items[i] == added;
            assert(after[i] == after[items.len() as int]);
        }
    }
}

/// What is left without an item holds exactly the other items, in the
/// order in which they stood.
pub proof fn lemma_without<T>(items: Seq<T>, item: T)
    ensures
        !without(items, item).contains(item),
        forall|other: T|
            other != item ==> #[trigger] without(items, item).contains(other) == items.contains(
                other,
            ),
        without(items, item).len() <= items.len(),
        distinct(items) ==> distinct(without(items, item)),
        !items.contains(item) ==> without(items, item) == items,
    decreases items.len(),
{
    if items.len() > 0 {
        let front = items.drop_last();
        let last = items.last();
        lemma_without(front, item);
        let kept = without(front, item);
        let after = without(items, item);
        assert(items =~= front.push(last));
        lemma_push_contains(front, last, item);
        lemma_push_contains(kept, last, item);
        lemma_push_distinct(front, last);
        lemma_push_distinct(kept, last);
        assert forall|other: T| other != item implies #[trigger] after.contains(other)
            == items.contains(other) by {
            lemma_push_contains(front, last, other);
            lemma_push_contains(kept, last, other);
            assert(kept.contains(other) == front.contains(other));
        }
        if last != item {
            assert(kept.contains(last) == front.contains(last));
        }
        if !items.contains(item) {
            assert(after =~= items);
        }
    }
}

/// The keys that do not go to a destination are exactly those of the
/// others, in order, and the keys that go to it are exactly those.
pub proof fn lemma_keys_split(keys: Seq<(Seq<char>, Seq<char>)>, dest: Seq<char>)
    ensures
        forall|key: (Seq<char>, Seq<char>)|
            #[trigger] keys_not_to(keys, dest).contains(key) <==> keys.contains(key) && key.1
                != dest,
        forall|key: (Seq<char>, Seq<char>)|
            #[trigger] keys_to(keys, dest).contains(key) <==> keys.contains(key) && key.1 == dest,
        keys_to(keys, dest).len() + keys_not_to(keys, dest).len() == keys.len(),
        distinct(keys) ==> distinct(keys_not_to(keys, dest)),
    decreases keys.len(),
{
    if keys.len() > 0 {
        let front = keys.drop_last();
        let last = keys.last();
        lemma_keys_split(front, dest);
        assert(keys =~= front.push(last));
        let kept = keys_not_to(front, dest);
        let after = keys_not_to(keys, dest);
        let gone = keys_to(front, dest);
        let taken = keys_to(keys, dest);
        lemma_push_distinct(front, last);
        lemma_push_distinct(kept, last);
        assert forall|key: (Seq<char>, Seq<char>)| #[trigger]
            after.contains(key) <==> keys.contains(key) && key.1 != dest by {
            lemma_push_contains(front, last, key);
            lemma_push_contains(kept, last, key);
            assert(kept.contains(key) <==> front.contains(key) && key.1 != dest);
        }
        assert forall|key: (Seq<char>, Seq<char>)| #[trigger]
            taken.contains(key) <==> keys.contains(key) && key.1 == dest by {
            lemma_push_contains(front, last, key);
            lemma_push_contains(gone, last, key);
            assert(gone.contains(key) <==> front.contains(key) && key.1 == dest);
        }
        assert(kept.contains(last) <==> front.contains(last) && last.1 != dest);
    }
}

/// A copy of a key.
pub fn copy_key(key: &ShareKey) -> (r: ShareKey)
    ensures
        r == *key,
{
    ShareKey { source: key.source.clone(), dest: key.dest.clone() }
}

/// The place of the key of `source` and `dest`, if it is there.
pub fn find_key(keys: &Vec<ShareKey>, source: &str, dest: &str) -> (r: Option<usize>)
    ensures
        match r {
            Some(i) => i < keys.len() && keys@[i as int]@ == (source@, dest@),
            None => !key_views(keys@).contains((source@, dest@)),
        },
{
    let wanted_source = String::from_str(source);
    let wanted_dest = String::from_str(dest);
    let mut i: usize = 0;
    while i < keys.len()
        invariant
            i <= keys.len(),
            wanted_source@ == source@,
            wanted_dest@ == dest@,
            forall|k: int| 0 <= k < i ==> keys@[k]@ != (source@, dest@),
        decreases keys.len() - i,
    {
        if keys[i].source == wanted_source && keys[i].dest == wanted_dest {
            return Some(i);
        }
        i = i + 1;
    }
    assert(!key_views(keys@).contains((source@, dest@))) by {
        if key_views(keys@).contains((source@, dest@)) {
            let k = choose|k: int|
                0 <= k < key_views(keys@).len() && key_views(keys@)[k] == (source@, dest@);
            assert(keys@[k]@ == (source@, dest@));
        }
    }
    None
}

/// The place of `item`, if it is there.
pub fn find_string(items: &Vec<String>, item: &str) -> (r: Option<usize>)
    ensures
        match r {
            Some(i) => i < items.len() && items@[i as int]@ == item@,
            None => !string_views(items@).contains(item@),
        },
{
    let wanted = String::from_str(item);
    let mut i: usize = 0;
    while i < items.len()
        invariant
            i <= items.len(),
            wanted@ == item@,
            forall|k: int| 0 <= k < i ==> items@[k]@ != item@,
        decreases items.len() - i,
    {
        if items[i] == wanted {
            return Some(i);
        }
        i = i + 1;
    }
    assert(!string_views(items@).contains(item@)) by {
        if string_views(items@).contains(item@) {
            let k = choose|k: int|
                0 <= k < string_views(items@).len() && string_views(items@)[k] == item@;
            assert(items@[k]@ == item@);
        }
    }
    None
}

/// Takes the keys that go to `dest` out of `keys` and hands them out, in
/// order.
pub fn take_keys_to(keys: &mut Vec<ShareKey>, dest: &str) -> (r: Vec<ShareKey>)
    ensures
        key_views(final(keys)@) == keys_not_to(key_views(old(keys)@), dest@),
        key_views(r@) == keys_to(key_views(old(keys)@), dest@),
{
    let wanted = String::from_str(dest);
    let mut kept: Vec<ShareKey> = Vec::new();
    let mut taken: Vec<ShareKey> = Vec::new();
    let ghost all = key_views(keys@);
    let mut i: usize = 0;
    assert(all.take(0) =~= Seq::<(Seq<char>, Seq<char>)>::empty());
    assert(key_views(kept@) =~= keys_not_to(all.take(0), dest@));
    assert(key_views(taken@) =~= keys_to(all.take(0), dest@));
    while i < keys.len()
        invariant
            i <= keys.len(),
            wanted@ == dest@,
            all == key_views(keys@),
            keys@ == old(keys)@,
            key_views(kept@) == keys_not_to(all.take(i as int), dest@),
            key_views(taken@) == keys_to(all.take(i as int), dest@),
        decreases keys.len() - i,
    {
        let key = copy_key(&keys[i]);
        proof {
            let next = all.take(i + 1);
            assert(next.drop_last() =~= all.take(i as int));
            assert(next.last() == key@);
        }
        let ghost kept_before = key_views(kept@);
        let ghost taken_before = key_views(taken@);
        if key.dest == wanted {
            taken.push(key);
            assert(key_views(taken@) =~= taken_before.push(key@));
        } else {
            kept.push(key);
            assert(key_views(kept@) =~= kept_before.push(key@));
        }
        i = i + 1;
    }
    assert(all.take(i as int) =~= all);
    *keys = kept;
    taken
}

/// Takes every item equal to `item` out of `items`; tells whether there was
/// one.
pub fn take_string(items: &mut Vec<String>, item: &str) -> (r: bool)
    ensures
        string_views(final(items)@) == without(string_views(old(items)@), item@),
        r == string_views(old(items)@).contains(item@),
{
    let wanted = String::from_str(item);
    let mut kept: Vec<String> = Vec::new();
    let mut found = false;
    let ghost all = string_views(items@);
    let mut i: usize = 0;
    assert(all.take(0) =~= Seq::<Seq<char>>::empty());
    assert(string_views(kept@) =~= without(all.take(0), item@));
    while i < items.len()
        invariant
            i <= items.len(),
            wanted@ == item@,
            all == string_views(items@),
            items@ == old(items)@,
            string_views(kept@) == without(all.take(i as int), item@),
            found == all.take(i as int).contains(item@),
        decreases items.len() - i,
    {
        proof {
            let next = all.take(i + 1);
            assert(next.drop_last() =~= all.take(i as int));
            assert(next.last() == items@[i as int]@);
            if all.take(i as int).contains(item@) {
                let k = choose|k: int|
                    0 <= k < all.take(i as int).len() && all.take(i as int)[k] == item@;
                assert(next[k] == item@);
            }
            if next.contains(item@) && items@[i as int]@ != item@ {
                let k = choose|k: int| 0 <= k < next.len() && next[k] == item@;
                assert(all.take(i as int)[k] == item@);
            }
        }
        let ghost kept_before = string_views(kept@);
        if items[i] == wanted {
            found = true;
            proof {
                let next = all.take(i + 1);
                assert(next[i as int] == item@);
            }
        } else {
            let copy = items[i].clone();
            kept.push(copy);
            assert(string_views(kept@) =~= kept_before.push(copy@));
        }
        i = i + 1;
    }
    assert(all.take(i as int) =~= all);
    *items = kept;
    found
}

} // verus!
