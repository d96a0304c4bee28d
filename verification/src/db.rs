//! The version store: for each identity, every snapshot seen of it, in the
//! order of arrival. Nothing is ever changed or removed.

use vstd::prelude::*;

verus! {

/// What the store needs to know of a snapshot.
pub trait UID {
    /// The identity of the object that this is a state of.
    spec fn uid_spec(&self) -> Seq<char>;

    /// The version marker of this state.
    spec fn resource_version_spec(&self) -> Seq<char>;

    fn uid(&self) -> (id: String)
        ensures
            id@ == self.uid_spec(),
    ;

    fn resource_version(&self) -> (rv: String)
        ensures
            rv@ == self.resource_version_spec(),
    ;
}

/// The position of the first snapshot in `history` that carries the version
/// marker `rv`, if there is one.
pub open spec fn first_with_version<T: UID>(history: Seq<T>, rv: Seq<char>) -> Option<int>
    decreases history.len(),
{
    if history.len() == 0 {
        None
    } else {
        match first_with_version(history.drop_last(), rv) {
            Some(i) => Some(i),
            None => if history.last().resource_version_spec() == rv {
                Some(history.len() - 1)
            } else {
                None
            },
        }
    }
}

/// `first_with_version` finds a position that carries the marker, and no
/// earlier position does; it finds none only if no position carries it.
pub proof fn lemma_first_with_version<T: UID>(history: Seq<T>, rv: Seq<char>)
    ensures
        match first_with_version(history, rv) {
            Some(i) => {
                &&& 0 <= i < history.len()
                &&& history[i].resource_version_spec() == rv
                &&& forall|j: int| 0 <= j < i ==> history[j].resource_version_spec() != rv
            },
            None => forall|j: int| 0 <= j < history.len() ==> history[j].resource_version_spec() != rv,
        },
    decreases history.len(),
{
    if history.len() > 0 {
        let front = history.drop_last();
        lemma_first_with_version(front, rv);
        assert forall|j: int| 0 <= j < front.len() implies front[j] == history[j] by {}
        match first_with_version(front, rv) {
            Some(i) => {
                assert(front[i] == history[i]);
            },
            None => {
                assert forall|j: int| 0 <= j < history.len() - 1 implies history[j].resource_version_spec()
                    != rv by {
                    assert(front[j] == history[j]);
                }
            },
        }
    }
}

/// The operations of a version store.
pub trait Database<T: UID> {
    /// The history of each identity that the store knows.
    spec fn histories(&self) -> Map<Seq<char>, Seq<T>>;

    /// What holds of every store that was made and filled through this trait.
    spec fn well_formed(&self) -> bool;

    /// Appends `obj` to the history of its identity, which begins with it if
    /// the identity is new.
    fn do_insert(&mut self, obj: T)
        requires
            old(self).well_formed(),
        ensures
            final(self).well_formed(),
            final(self).histories() == old(self).histories().insert(
                obj.uid_spec(),
                history_in(old(self).histories(), obj.uid_spec()).push(obj),
            ),
    ;

    /// The history of the identity of `obj`.
    fn items_of(&self, obj: &T) -> (r: Option<&Vec<T>>)
        requires
            self.well_formed(),
        ensures
            match r {
                Some(list) => self.histories().contains_key(obj.uid_spec()) && list@
                    == self.histories()[obj.uid_spec()],
                None => !self.histories().contains_key(obj.uid_spec()),
            },
    ;

    /// The history of the identity `uid`.
    fn items_of_uid(&self, uid: String) -> (r: Option<&Vec<T>>)
        requires
            self.well_formed(),
        ensures
            match r {
                Some(list) => self.histories().contains_key(uid@) && list@ == self.histories()[uid@],
                None => !self.histories().contains_key(uid@),
            },
    ;

    /// The position in its identity's history of the first snapshot with the
    /// version marker of `obj`, and 0 where there is none. A result of 0 thus
    /// does not tell a match at the start from no match; `position_of` does.
    fn index_of(&self, obj: &T) -> (i: usize)
        requires
            self.well_formed(),
        ensures
            i as int == index_in(self.histories(), *obj),
    ;

    /// The position in its identity's history of the first snapshot with the
    /// version marker of `obj`.
    fn position_of(&self, obj: &T) -> (r: Option<usize>)
        requires
            self.well_formed(),
        ensures
            match r {
                Some(i) => position_in(self.histories(), *obj) == Some(i as int),
                None => position_in(self.histories(), *obj) is None,
            },
    ;

    /// The snapshot just before `obj` in its identity's history; none where
    /// `obj` is the first of it or is not in it.
    fn sibling(&self, obj: &T) -> (r: Option<&T>)
        requires
            self.well_formed(),
        ensures
            match r {
                Some(prev) => sibling_in(self.histories(), *obj) == Some(*prev),
                None => sibling_in(self.histories(), *obj) is None,
            },
    ;
}

/// The history of `uid` in `histories`, empty where the identity is unknown.
pub open spec fn history_in<T>(histories: Map<Seq<char>, Seq<T>>, uid: Seq<char>) -> Seq<T> {
    if histories.contains_key(uid) {
        histories[uid]
    } else {
        Seq::empty()
    }
}

/// Where `obj` stands in the history of its identity, going by its version
/// marker.
pub open spec fn position_in<T: UID>(histories: Map<Seq<char>, Seq<T>>, obj: T) -> Option<int> {
    first_with_version(history_in(histories, obj.uid_spec()), obj.resource_version_spec())
}

/// `position_in`, with 0 for a snapshot that is not found.
pub open spec fn index_in<T: UID>(histories: Map<Seq<char>, Seq<T>>, obj: T) -> int {
    match position_in(histories, obj) {
        Some(i) => i,
        None => 0,
    }
}

/// The snapshot that precedes `obj` in the history of its identity.
pub open spec fn sibling_in<T: UID>(histories: Map<Seq<char>, Seq<T>>, obj: T) -> Option<T> {
    let pos = index_in(histories, obj);
    if pos == 0 {
        None
    } else {
        Some(history_in(histories, obj.uid_spec())[pos - 1])
    }
}

/// The histories after the snapshots of `objs` were inserted, in their order,
/// into a store that held `histories`.
pub open spec fn after_inserts<T: UID>(histories: Map<Seq<char>, Seq<T>>, objs: Seq<T>) -> Map<
    Seq<char>,
    Seq<T>,
>
    decreases objs.len(),
{
    if objs.len() == 0 {
        histories
    } else {
        let before = after_inserts(histories, objs.drop_last());
        let obj = objs.last();
        before.insert(obj.uid_spec(), history_in(before, obj.uid_spec()).push(obj))
    }
}

/// The test that picks the snapshots of the identity `uid`.
pub open spec fn of_identity<T: UID>(uid: Seq<char>) -> spec_fn(T) -> bool {
    |obj: T| obj.uid_spec() == uid
}

/// Insertion order is kept: whatever is inserted into an empty store, the
/// history of an identity is made of the inserted snapshots of that identity,
/// in the order in which they were inserted.
pub proof fn lemma_history_keeps_insertion_order<T: UID>(objs: Seq<T>, uid: Seq<char>)
    ensures
        history_in(after_inserts(Map::<Seq<char>, Seq<T>>::empty(), objs), uid) == objs.filter(
            of_identity(uid),
        ),
        after_inserts(Map::<Seq<char>, Seq<T>>::empty(), objs).contains_key(uid) <==> exists|
            i: int,
        |
            0 <= i < objs.len() && (#[trigger] objs[i]).uid_spec() == uid,
    decreases objs.len(),
{
    let of_uid = of_identity::<T>(uid);
    let empty = Map::<Seq<char>, Seq<T>>::empty();
    if objs.len() == 0 {
        assert(objs.filter(of_uid) =~= Seq::<T>::empty()) by {
            objs.lemma_filter_len(of_uid);
        }
    } else {
        let front = objs.drop_last();
        let obj = objs.last();
        lemma_history_keeps_insertion_order(front, uid);
        assert(objs =~= front.push(obj));
        front.lemma_filter_push(obj, of_uid);
        if after_inserts(empty, front).contains_key(uid) {
            let i = choose|i: int| 0 <= i < front.len() && (#[trigger] front[i]).uid_spec() == uid;
            assert(objs[i].uid_spec() == uid);
        }
        if exists|i: int| 0 <= i < objs.len() && (#[trigger] objs[i]).uid_spec() == uid {
            let i = choose|i: int| 0 <= i < objs.len() && (#[trigger] objs[i]).uid_spec() == uid;
            if i < front.len() {
                assert(front[i].uid_spec() == uid);
            }
        }
    }
}

/// Under one identity: the history is the sequence of insertions itself.
pub proof fn lemma_history_of_one_identity<T: UID>(objs: Seq<T>, uid: Seq<char>)
    requires
        forall|i: int| 0 <= i < objs.len() ==> (#[trigger] objs[i]).uid_spec() == uid,
    ensures
        history_in(after_inserts(Map::<Seq<char>, Seq<T>>::empty(), objs), uid) == objs,
{
    let of_uid = of_identity::<T>(uid);
    lemma_history_keeps_insertion_order(objs, uid);
    lemma_filter_keeps_all(objs, of_uid);
}

/// A filter that every element passes changes nothing.
proof fn lemma_filter_keeps_all<A>(s: Seq<A>, pred: spec_fn(A) -> bool)
    requires
        forall|i: int| 0 <= i < s.len() ==> pred(#[trigger] s[i]),
    ensures
        s.filter(pred) == s,
    decreases s.len(),
{
    if s.len() == 0 {
        assert(s.filter(pred) =~= s) by {
            s.lemma_filter_len(pred);
        }
    } else {
        let front = s.drop_last();
        lemma_filter_keeps_all(front, pred);
        front.lemma_filter_push(s.last(), pred);
        assert(s =~= front.push(s.last()));
    }
}

/// The sibling of a snapshot is its predecessor: for the snapshot at position
/// `i` of the history of `uid`, the one at `i - 1`, and none at position 0.
/// This is stated of a snapshot whose version marker no earlier snapshot of the
/// history carries: the store finds a snapshot again by its marker, so of two
/// with the same marker it finds the earlier one.
pub proof fn lemma_sibling_is_predecessor<T: UID>(
    histories: Map<Seq<char>, Seq<T>>,
    uid: Seq<char>,
    i: int,
)
    requires
        0 <= i < history_in(histories, uid).len(),
        history_in(histories, uid)[i].uid_spec() == uid,
        forall|j: int|
            0 <= j < i ==> (#[trigger] history_in(histories, uid)[j]).resource_version_spec()
                != history_in(histories, uid)[i].resource_version_spec(),
    ensures
        position_in(histories, history_in(histories, uid)[i]) == Some(i),
        sibling_in(histories, history_in(histories, uid)[i]) == if i > 0 {
            Some(history_in(histories, uid)[i - 1])
        } else {
            None
        },
{
    let history = history_in(histories, uid);
    lemma_first_with_version(history, history[i].resource_version_spec());
}

/// A version store held in memory.
pub struct Memory<T> {
    keys: Vec<String>,
    lists: Vec<Vec<T>>,
}

impl<T: UID> Memory<T> {
    /// The slot that holds the history of `uid`.
    spec fn slot_of(&self, uid: Seq<char>) -> int {
        choose|i: int| 0 <= i < self.keys.len() && #[trigger] self.keys[i]@ == uid
    }

    spec fn knows(&self, uid: Seq<char>) -> bool {
        exists|i: int| 0 <= i < self.keys.len() && #[trigger] self.keys[i]@ == uid
    }

    /// A store that knows no identity.
    pub fn new() -> (m: Self)
        ensures
            m.well_formed(),
            m.histories() == Map::<Seq<char>, Seq<T>>::empty(),
    {
        let m = Memory { keys: Vec::new(), lists: Vec::new() };
        assert(m.histories() =~= Map::<Seq<char>, Seq<T>>::empty());
        m
    }

    /// No history of a store is empty, and each holds snapshots of its own
    /// identity only.
    pub proof fn lemma_histories_hold_their_identity(&self, uid: Seq<char>)
        requires
            self.well_formed(),
            self.histories().contains_key(uid),
        ensures
            self.histories()[uid].len() > 0,
            forall|k: int|
                0 <= k < self.histories()[uid].len() ==> (#[trigger] self.histories()[uid][k]).uid_spec()
                    == uid,
    {
        let i = self.slot_of(uid);
        assert(self.lists[i].len() > 0);
        assert forall|k: int| 0 <= k < self.histories()[uid].len() implies (
        #[trigger] self.histories()[uid][k]).uid_spec() == uid by {
            assert(self.lists[i][k].uid_spec() == self.keys[i]@);
        }
    }

    /// The slot of `uid`, if the store knows it.
    fn find(&self, uid: &String) -> (r: Option<usize>)
        requires
            self.well_formed(),
        ensures
            match r {
                Some(i) => i < self.keys.len() && self.keys[i as int]@ == uid@ && self.knows(uid@)
                    && self.slot_of(uid@) == i,
                None => !self.knows(uid@),
            },
    {
        let mut i: usize = 0;
        while i < self.keys.len()
            invariant
                self.well_formed(),
                i <= self.keys.len(),
                forall|j: int| 0 <= j < i ==> self.keys[j]@ != uid@,
            decreases self.keys.len() - i,
        {
            if self.keys[i] == *uid {
                assert(self.keys[i as int]@ == uid@);
                assert(self.knows(uid@));
                return Some(i);
            }
            i += 1;
        }
        None
    }
}

impl<T: UID> Database<T> for Memory<T> {
    closed spec fn histories(&self) -> Map<Seq<char>, Seq<T>> {
        Map::new(|uid: Seq<char>| self.knows(uid), |uid: Seq<char>| self.lists[self.slot_of(uid)]@)
    }

    closed spec fn well_formed(&self) -> bool {
        &&& self.keys.len() == self.lists.len()
        &&& forall|i: int, j: int|
            0 <= i < j < self.keys.len() ==> #[trigger] self.keys[i]@ != #[trigger] self.keys[j]@
        &&& forall|i: int| 0 <= i < self.lists.len() ==> (#[trigger] self.lists[i]).len() > 0
        &&& forall|i: int, k: int|
            0 <= i < self.lists.len() && 0 <= k < self.lists[i].len()
                ==> #[trigger] self.lists[i][k].uid_spec() == self.keys[i]@
    }

    fn do_insert(&mut self, obj: T) {
        let id = obj.uid();
        let ghost before = *self;
        match self.find(&id) {
            Some(i) => {
                let mut list = self.lists.remove(i);
                list.push(obj);
                self.lists.insert(i, list);
                assert(self.well_formed());
                assert forall|uid: Seq<char>| self.knows(uid) == before.knows(uid) by {}
                assert(self.histories() =~= before.histories().insert(
                    obj.uid_spec(),
                    history_in(before.histories(), obj.uid_spec()).push(obj),
                ));
            },
            None => {
                let mut list: Vec<T> = Vec::new();
                list.push(obj);
                self.keys.push(id);
                self.lists.push(list);
                let ghost last = self.keys.len() - 1;
                assert(self.keys[last]@ == obj.uid_spec());
                assert(self.well_formed());
                assert forall|uid: Seq<char>| self.knows(uid) == (before.knows(uid) || uid
                    == obj.uid_spec()) by {
                    if before.knows(uid) {
                        assert(self.keys[before.slot_of(uid)]@ == uid);
                    }
                }
                assert forall|uid: Seq<char>| before.knows(uid) implies self.slot_of(uid)
                    == before.slot_of(uid) by {
                    assert(self.keys[before.slot_of(uid)]@ == uid);
                }
                assert(self.slot_of(obj.uid_spec()) == last);
                assert(self.histories() =~= before.histories().insert(
                    obj.uid_spec(),
                    history_in(before.histories(), obj.uid_spec()).push(obj),
                ));
            },
        }
    }

    fn items_of(&self, obj: &T) -> (r: Option<&Vec<T>>) {
        self.items_of_uid(obj.uid())
    }

    fn items_of_uid(&self, uid: String) -> (r: Option<&Vec<T>>) {
        match self.find(&uid) {
            Some(i) => Some(&self.lists[i]),
            None => None,
        }
    }

    fn index_of(&self, obj: &T) -> (i: usize) {
        match self.position_of(obj) {
            Some(i) => i,
            None => 0,
        }
    }

    fn position_of(&self, obj: &T) -> (r: Option<usize>) {
        match self.items_of(obj) {
            Some(list) => {
                let rv = obj.resource_version();
                let mut i: usize = 0;
                while i < list.len()
                    invariant
                        i <= list.len(),
                        rv@ == obj.resource_version_spec(),
                        list@ == history_in(self.histories(), obj.uid_spec()),
                        first_with_version(list@.take(i as int), rv@) is None,
                    decreases list.len() - i,
                {
                    let here = list[i].resource_version();
                    assert(list@.take(i + 1).drop_last() =~= list@.take(i as int));
                    assert(list@.take(i + 1).last() == list@[i as int]);
                    if here == rv {
                        proof {
                            assert(first_with_version(list@.take(i + 1), rv@) == Some(i as int));
                            lemma_first_in_prefix(list@, rv@, i + 1);
                        }
                        return Some(i);
                    }
                    i += 1;
                }
                assert(list@.take(i as int) =~= list@);
                None
            },
            None => None,
        }
    }

    fn sibling(&self, obj: &T) -> (r: Option<&T>) {
        let pos = self.index_of(obj);
        if pos == 0 {
            return None;
        }
        proof {
            lemma_first_with_version(
                history_in(self.histories(), obj.uid_spec()),
                obj.resource_version_spec(),
            );
        }
        match self.items_of(obj) {
            Some(list) => Some(&list[pos - 1]),
            None => None,
        }
    }
}

/// What `first_with_version` finds in a prefix, it finds in the whole.
proof fn lemma_first_in_prefix<T: UID>(history: Seq<T>, rv: Seq<char>, n: int)
    requires
        0 <= n <= history.len(),
        first_with_version(history.take(n), rv) is Some,
    ensures
        first_with_version(history, rv) == first_with_version(history.take(n), rv),
    decreases history.len() - n,
{
    if n < history.len() {
        assert(history.take(n + 1).drop_last() =~= history.take(n));
        lemma_first_in_prefix(history, rv, n + 1);
    } else {
        assert(history.take(n) =~= history);
    }
}

} // verus!
