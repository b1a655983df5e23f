//! Identifiers and lookup by identifier in an ordered store.
//!
//! Every namespace of a document is an ordered sequence of entities, each
//! known by an opaque identifier. This module says what it means for an
//! identifier to occur in such a sequence and where, and finds it.

use vstd::prelude::*;

verus! {

/// An entity that is known by an identifier within its namespace.
pub trait Identified {
    /// The identifier, as a sequence of characters.
    spec fn id(&self) -> Seq<char>;

    /// The identifier.
    fn identifier(&self) -> (name: &String)
        ensures
            name@ == self.id(),
    ;
}

/// Whether two entities are the same entity: identity goes by identifier,
/// whatever else the two records hold.
pub fn same_entity<T: Identified>(left: &T, right: &T) -> (answer: bool)
    ensures
        answer == (left.id() == right.id()),
{
    *left.identifier() == *right.identifier()
}

/// Some entity in `items` carries the identifier `id`.
pub open spec fn contains_id<T: Identified>(items: Seq<T>, id: Seq<char>) -> bool {
    exists|i: int| 0 <= i < items.len() && #[trigger] items[i].id() == id
}

/// No two entities in `items` carry the same identifier.
pub open spec fn distinct_ids<T: Identified>(items: Seq<T>) -> bool {
    forall|i: int, j: int|
        0 <= i < j < items.len() ==> #[trigger] items[i].id() != #[trigger] items[j].id()
}

/// The index of the first entity in `items` that carries `id`.
pub open spec fn position<T: Identified>(items: Seq<T>, id: Seq<char>) -> Option<int>
    decreases items.len(),
{
    if items.len() == 0 {
        None
    } else {
        match position(items.drop_last(), id) {
            Some(i) => Some(i),
            None => if items.last().id() == id {
                Some(items.len() - 1)
            } else {
                None
            },
        }
    }
}

/// The first entity in `items` that carries `id`.
pub open spec fn lookup<T: Identified>(items: Seq<T>, id: Seq<char>) -> Option<T> {
    match position(items, id) {
        Some(i) => Some(items[i]),
        None => None,
    }
}

/// `position` gives the least index at which `id` occurs, and `None` exactly
/// when it occurs nowhere.
pub proof fn lemma_position<T: Identified>(items: Seq<T>, id: Seq<char>)
    ensures
        match position(items, id) {
            Some(i) => {
                &&& 0 <= i < items.len()
                &&& items[i].id() == id
                &&& forall|j: int| 0 <= j < i ==> #[trigger] items[j].id() != id
            },
            None => forall|j: int| 0 <= j < items.len() ==> #[trigger] items[j].id() != id,
        },
        position(items, id) is Some <==> contains_id(items, id),
    decreases items.len(),
{
    if items.len() > 0 {
        let front = items.drop_last();
        lemma_position(front, id);
        assert(forall|j: int| 0 <= j < front.len() ==> front[j] == items[j]);
        match position(front, id) {
            Some(i) => {
                assert(items[i].id() == id);
            },
            None => {
                if items.last().id() == id {
                    assert(items[items.len() - 1].id() == id);
                } else {
                    assert forall|j: int| 0 <= j < items.len() implies #[trigger] items[j].id()
                        != id by {
                        if j < front.len() {
                            assert(front[j].id() != id);
                        }
                    }
                }
            },
        }
    }
}

/// An index at which `id` occurs, with no occurrence before it, is the
/// position of `id`.
pub proof fn lemma_position_is<T: Identified>(items: Seq<T>, id: Seq<char>, i: int)
    requires
        0 <= i < items.len(),
        items[i].id() == id,
        forall|j: int| 0 <= j < i ==> #[trigger] items[j].id() != id,
    ensures
        position(items, id) == Some(i),
{
    lemma_position(items, id);
    let p = position(items, id);
    if p is None {
        assert(items[i].id() != id);
    } else {
        let k = p->0;
        if k < i {
            assert(items[k].id() != id);
        } else if i < k {
            assert(items[i].id() != id);
        }
    }
}

/// Appending an entity leaves the position of every identifier that already
/// occurs unchanged, and puts a new identifier at the end.
pub proof fn lemma_position_push<T: Identified>(items: Seq<T>, extra: T, id: Seq<char>)
    ensures
        position(items, id) is Some ==> position(items.push(extra), id) == position(items, id),
        position(items, id) is None && extra.id() == id ==> position(items.push(extra), id)
            == Some(items.len() as int),
        position(items, id) is None && extra.id() != id ==> position(items.push(extra), id)
            is None,
        position(items, id) is Some ==> lookup(items.push(extra), id) == lookup(items, id),
{
    let longer = items.push(extra);
    assert(longer.drop_last() =~= items);
    assert(longer.last() == extra);
    lemma_position(items, id);
}

/// Appending an entity whose identifier is new keeps identifiers distinct.
pub proof fn lemma_distinct_push<T: Identified>(items: Seq<T>, extra: T)
    requires
        distinct_ids(items),
        !contains_id(items, extra.id()),
    ensures
        distinct_ids(items.push(extra)),
{
    let longer = items.push(extra);
    assert forall|i: int, j: int| 0 <= i < j < longer.len() implies #[trigger] longer[i].id()
        != #[trigger] longer[j].id() by {
        if j < items.len() {
            assert(items[i].id() != items[j].id());
        } else {
            assert(longer[i] == items[i]);
            if items[i].id() == extra.id() {
                assert(contains_id(items, extra.id()));
            }
        }
    }
}

/// Finds the first entity in `items` that carries `id`.
pub fn find<T: Identified>(items: &Vec<T>, id: &String) -> (found: Option<usize>)
    ensures
        match found {
            Some(i) => i < items.len() && position(items@, id@) == Some(i as int),
            None => position(items@, id@) is None,
        },
{
    let mut i: usize = 0;
    while i < items.len()
        invariant
            i <= items.len(),
            forall|j: int| 0 <= j < i ==> #[trigger] items@[j].id() != id@,
        decreases items.len() - i,
    {
        if *items[i].identifier() == *id {
            proof {
                lemma_position_is(items@, id@, i as int);
            }
            return Some(i);
        }
        i = i + 1;
    }
    proof {
        lemma_position(items@, id@);
        if position(items@, id@) is Some {
            let k = position(items@, id@)->0;
            assert(items@[k].id() != id@);
        }
    }
    None
}

/// The least index whose identifier already occurs before it.
pub open spec fn first_repeat<T: Identified>(items: Seq<T>) -> Option<int>
    decreases items.len(),
{
    if items.len() == 0 {
        None
    } else {
        match first_repeat(items.drop_last()) {
            Some(k) => Some(k),
            None => if contains_id(items.drop_last(), items.last().id()) {
                Some(items.len() - 1)
            } else {
                None
            },
        }
    }
}

/// `first_repeat` is `None` exactly when identifiers are distinct; otherwise
/// it is an index whose identifier occurs before it, and up to which
/// identifiers are distinct.
pub proof fn lemma_first_repeat<T: Identified>(items: Seq<T>)
    ensures
        first_repeat(items) is None <==> distinct_ids(items),
        first_repeat(items) matches Some(k) ==> {
            &&& 0 <= k < items.len()
            &&& distinct_ids(items.take(k))
            &&& contains_id(items.take(k), items[k].id())
        },
    decreases items.len(),
{
    if items.len() > 0 {
        let front = items.drop_last();
        let n = items.len() - 1;
        lemma_first_repeat(front);
        assert(forall|j: int| 0 <= j < n ==> front[j] == items[j]);
        match first_repeat(front) {
            Some(k) => {
                assert(front.take(k) =~= items.take(k));
                let w = choose|w: int| 0 <= w < k && #[trigger] front.take(k)[w].id() == front[k].id();
                assert(items[w].id() == items[k].id());
            },
            None => {
                assert(front =~= items.take(n));
                if contains_id(front, items.last().id()) {
                    let w = choose|w: int| 0 <= w < n && #[trigger] front[w].id() == items.last().id();
                    assert(items[w].id() == items[n].id());
                } else {
                    assert forall|i: int, j: int| 0 <= i < j < items.len() implies #[trigger] items[i].id()
                        != #[trigger] items[j].id() by {
                        if j < n {
                            assert(front[i].id() != front[j].id());
                        } else {
                            assert(front[i].id() == items[i].id());
                        }
                    }
                }
            },
        }
    }
}

/// An index whose identifier occurs before it, and up to which identifiers
/// are distinct, is the first repeat.
pub proof fn lemma_first_repeat_is<T: Identified>(items: Seq<T>, k: int)
    requires
        0 <= k < items.len(),
        distinct_ids(items.take(k)),
        contains_id(items.take(k), items[k].id()),
    ensures
        first_repeat(items) == Some(k),
{
    lemma_first_repeat(items);
    let w = choose|w: int| 0 <= w < k && #[trigger] items.take(k)[w].id() == items[k].id();
    assert(items[w].id() == items[k].id());
    let m = first_repeat(items)->0;
    if m < k {
        let v = choose|v: int| 0 <= v < m && #[trigger] items.take(m)[v].id() == items[m].id();
        assert(items.take(k)[v].id() == items.take(k)[m].id());
    } else if k < m {
        assert(items.take(m)[w].id() == items.take(m)[k].id());
    }
}

/// Finds the first entity in `items` whose identifier already occurs before
/// it.
pub fn find_repeat<T: Identified>(items: &Vec<T>) -> (found: Option<usize>)
    ensures
        match found {
            Some(k) => k < items.len() && first_repeat(items@) == Some(k as int),
            None => first_repeat(items@) is None && distinct_ids(items@),
        },
{
    let mut i: usize = 0;
    while i < items.len()
        invariant
            i <= items.len(),
            distinct_ids(items@.take(i as int)),
        decreases items.len() - i,
    {
        let mut j: usize = 0;
        while j < i
            invariant
                j <= i < items.len(),
                distinct_ids(items@.take(i as int)),
                forall|w: int| 0 <= w < j ==> #[trigger] items@[w].id() != items@[i as int].id(),
            decreases i - j,
        {
            if *items[j].identifier() == *items[i].identifier() {
                proof {
                    assert(items@.take(i as int)[j as int].id() == items@[i as int].id());
                    lemma_first_repeat_is(items@, i as int);
                }
                return Some(i);
            }
            j = j + 1;
        }
        proof {
            let before = items@.take(i as int);
            let after = items@.take(i + 1);
            assert forall|a: int, b: int| 0 <= a < b < after.len() implies #[trigger] after[a].id()
                != #[trigger] after[b].id() by {
                if b < i {
                    assert(before[a].id() != before[b].id());
                } else {
                    assert(items@[a].id() != items@[i as int].id());
                }
            }
        }
        i = i + 1;
    }
    proof {
        assert(items@.take(items.len() as int) =~= items@);
        lemma_first_repeat(items@);
    }
    None
}

/// `part` is made of entities of `whole`, in the order in which they stand
/// there: `part[i]` is `whole[places[i]]`, and `places` grows.
pub open spec fn embedding<T>(part: Seq<T>, whole: Seq<T>, places: Seq<int>) -> bool {
    &&& places.len() == part.len()
    &&& forall|i: int|
        0 <= i < part.len() ==> 0 <= #[trigger] places[i] < whole.len() && part[i]
            == whole[places[i]]
    &&& forall|i: int, j: int|
        0 <= i < j < part.len() ==> #[trigger] places[i] < #[trigger] places[j]
}

/// What is made of entities of a sequence with distinct identifiers, in
/// their order, has distinct identifiers.
pub proof fn lemma_embedding_distinct<T: Identified>(
    part: Seq<T>,
    whole: Seq<T>,
    places: Seq<int>,
)
    requires
        embedding(part, whole, places),
        distinct_ids(whole),
    ensures
        distinct_ids(part),
{
    assert forall|i: int, j: int| 0 <= i < j < part.len() implies #[trigger] part[i].id()
        != #[trigger] part[j].id() by {
        assert(places[i] < places[j]);
        assert(whole[places[i]].id() != whole[places[j]].id());
    }
}

} // verus!
