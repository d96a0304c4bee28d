//! The state of an interactive session and its transitions, as mathematics.
//! The controller is held to these definitions.

use vstd::prelude::*;
use crate::db::{after_inserts, history_in, index_in, lemma_first_with_version,
    lemma_history_keeps_insertion_order, of_identity, sibling_in, UID};
use crate::diff::redacted;
use crate::dynamic_object::DynamicObject;
use crate::event::{KeyCode, Msg};

verus! {

/// Everything that a session holds.
#[verifier::ext_equal]
pub struct SessionState {
    /// Whether the compared documents keep their managed-field metadata.
    pub include_managed_fields: bool,
    /// The selected position of the visible list, once there is one.
    pub selected: Option<usize>,
    /// The visible list.
    pub items: Seq<DynamicObject>,
    /// Every snapshot that arrived, in the order of arrival.
    pub total_items: Seq<DynamicObject>,
    /// The identity that is drilled into; none in the overview.
    pub active_uid: Option<Seq<char>>,
    /// The version store.
    pub histories: Map<Seq<char>, Seq<DynamicObject>>,
    /// The left document of the comparison shown: the sibling, redacted.
    pub l_diff: Option<DynamicObject>,
    /// The right document of the comparison shown: the selection, redacted.
    pub r_diff: Option<DynamicObject>,
    /// How far the comparison is scrolled down.
    pub scroll: u16,
    /// How far one key press scrolls.
    pub scroll_step: u16,
}

/// The position after `selected` in a list of `len` items, going round from
/// the last to the first; the first where nothing is selected.
pub open spec fn index_after(selected: Option<usize>, len: nat) -> usize {
    match selected {
        Some(i) => if i + 1 >= len {
            0
        } else {
            (i + 1) as usize
        },
        None => 0,
    }
}

/// The position before `selected` in a list of `len` items, going round from
/// the first to the last; the first where nothing is selected.
pub open spec fn index_before(selected: Option<usize>, len: nat) -> usize {
    match selected {
        Some(i) => if i == 0 {
            if len == 0 {
                0
            } else {
                (len - 1) as usize
            }
        } else {
            (i - 1) as usize
        },
        None => 0,
    }
}

/// The position of the last snapshot in `items` that carries the version
/// marker `rv`, if there is one.
pub open spec fn last_with_version(items: Seq<DynamicObject>, rv: Seq<char>) -> Option<int>
    decreases items.len(),
{
    if items.len() == 0 {
        None
    } else if items.last().resource_version_spec() == rv {
        Some(items.len() - 1)
    } else {
        last_with_version(items.drop_last(), rv)
    }
}

/// Where a selection with the version marker `rv` is found again in `items`:
/// at the last snapshot with that marker, and at the start if there is none.
pub open spec fn relocated(items: Seq<DynamicObject>, rv: Seq<char>) -> int {
    match last_with_version(items, rv) {
        Some(i) => i,
        None => 0,
    }
}

impl SessionState {
    /// What holds of the state of every session, from its start on.
    pub open spec fn inv(self) -> bool {
        &&& self.histories == after_inserts(
            Map::<Seq<char>, Seq<DynamicObject>>::empty(),
            self.total_items,
        )
        &&& match self.active_uid {
            None => self.items == self.total_items,
            Some(uid) => {
                &&& self.histories.contains_key(uid)
                &&& self.items == self.histories[uid]
                &&& self.selected is Some
                &&& self.selected->0 < self.items.len()
            },
        }
        &&& self.selected matches Some(i) ==> i < self.items.len() || i == 0
    }

    /// The snapshot under the selection.
    pub open spec fn selected_item(self) -> Option<DynamicObject> {
        match self.selected {
            Some(i) => if i < self.items.len() {
                Some(self.items[i as int])
            } else {
                None
            },
            None => None,
        }
    }

    /// The state with the comparison of the visible item at `select` against
    /// its sibling in the version store; unchanged where there is no such item.
    pub open spec fn do_diff(self, select: int) -> Self {
        if 0 <= select < self.items.len() {
            let obj = self.items[select];
            SessionState {
                l_diff: match sibling_in(self.histories, obj) {
                    Some(prev) => Some(redacted(prev, self.include_managed_fields)),
                    None => None,
                },
                r_diff: Some(redacted(obj, self.include_managed_fields)),
                ..self
            }
        } else {
            self
        }
    }

    /// The state with the visible list built anew: the history of the identity
    /// drilled into, or in the overview everything that arrived.
    pub open spec fn refresh_items(self) -> Self {
        SessionState {
            items: match self.active_uid {
                Some(uid) => history_in(self.histories, uid),
                None => self.total_items,
            },
            ..self
        }
    }

    /// A snapshot arrives.
    pub open spec fn ingest(self, obj: DynamicObject) -> Self {
        SessionState {
            histories: self.histories.insert(
                obj.uid_spec(),
                history_in(self.histories, obj.uid_spec()).push(obj),
            ),
            total_items: self.total_items.push(obj),
            ..self
        }.refresh_items()
    }

    /// The selection moves on by one.
    pub open spec fn next(self) -> Self {
        let i = index_after(self.selected, self.items.len());
        SessionState { selected: Some(i), scroll: 0, ..self.do_diff(i as int) }
    }

    /// The selection moves back by one.
    pub open spec fn previous(self) -> Self {
        let i = index_before(self.selected, self.items.len());
        SessionState { selected: Some(i), scroll: 0, ..self.do_diff(i as int) }
    }

    /// The session drills into the identity of the selected snapshot.
    pub open spec fn enter(self) -> Self {
        match self.selected_item() {
            Some(obj) => if self.active_uid == Some(obj.uid_spec()) {
                self
            } else {
                let select = index_in(self.histories, obj);
                let entered = SessionState {
                    active_uid: Some(obj.uid_spec()),
                    ..self
                }.refresh_items().do_diff(select);
                SessionState { selected: Some(select as usize), ..entered }
            },
            None => self,
        }
    }

    /// The session returns from an identity to the overview.
    pub open spec fn escape(self) -> Self {
        match self.active_uid {
            None => self,
            Some(_) => match self.selected_item() {
                Some(obj) => {
                    let select = relocated(self.total_items, obj.resource_version_spec());
                    let left = SessionState {
                        active_uid: None,
                        ..self
                    }.refresh_items().do_diff(select);
                    SessionState { selected: Some(select as usize), ..left }
                },
                None => SessionState { active_uid: None, ..self },
            },
        }
    }

    /// The comparison scrolls to its top.
    pub open spec fn page_home(self) -> Self {
        SessionState { scroll: 0, ..self }
    }

    /// The comparison scrolls up by one step, and not beyond its top.
    pub open spec fn page_up(self) -> Self {
        SessionState {
            scroll: if self.scroll < self.scroll_step {
                0
            } else {
                (self.scroll - self.scroll_step) as u16
            },
            ..self
        }
    }

    /// The comparison scrolls down by one step, and not beyond what the
    /// offset can hold.
    pub open spec fn page_down(self) -> Self {
        SessionState {
            scroll: if self.scroll + self.scroll_step > u16::MAX {
                u16::MAX
            } else {
                (self.scroll + self.scroll_step) as u16
            },
            ..self
        }
    }

    /// The state after one event. The key `q`, which ends the session, leaves
    /// it as it is.
    pub open spec fn step(self, msg: Msg) -> Self {
        match msg {
            Msg::Key(key) => match key {
                KeyCode::Down => self.next(),
                KeyCode::Up => self.previous(),
                KeyCode::Enter => self.enter(),
                KeyCode::Esc => self.escape(),
                KeyCode::Home => self.page_home(),
                KeyCode::PageUp => self.page_up(),
                KeyCode::PageDown => self.page_down(),
                KeyCode::Char(c) => if c == 'j' {
                    self.next()
                } else if c == 'k' {
                    self.previous()
                } else {
                    self
                },
                KeyCode::Other => self,
            },
            Msg::Obj(obj) => self.ingest(obj),
        }
    }
}

/// A snapshot that arrived has a history, and the store finds it there.
pub proof fn lemma_arrived_is_found(total_items: Seq<DynamicObject>, k: int)
    requires
        0 <= k < total_items.len(),
    ensures
        ({
            let histories = after_inserts(
                Map::<Seq<char>, Seq<DynamicObject>>::empty(),
                total_items,
            );
            let obj = total_items[k];
            &&& histories.contains_key(obj.uid_spec())
            &&& histories[obj.uid_spec()].contains(obj)
            &&& 0 <= index_in(histories, obj) < histories[obj.uid_spec()].len()
        }),
{
    let histories = after_inserts(Map::<Seq<char>, Seq<DynamicObject>>::empty(), total_items);
    let obj = total_items[k];
    let uid = obj.uid_spec();
    let of_uid = of_identity::<DynamicObject>(uid);
    lemma_history_keeps_insertion_order(total_items, uid);
    assert(total_items[k].uid_spec() == uid);
    total_items.lemma_filter_contains(of_uid, k);
    let history = histories[uid];
    let at = choose|at: int| 0 <= at < history.len() && history[at] == obj;
    lemma_first_with_version(history, obj.resource_version_spec());
    assert(history[at].resource_version_spec() == obj.resource_version_spec());
}

/// The history of an identity is part of what arrived.
pub proof fn lemma_history_arrived(total_items: Seq<DynamicObject>, uid: Seq<char>, k: int)
    requires
        0 <= k < history_in(
            after_inserts(Map::<Seq<char>, Seq<DynamicObject>>::empty(), total_items),
            uid,
        ).len(),
    ensures
        ({
            let history = history_in(
                after_inserts(Map::<Seq<char>, Seq<DynamicObject>>::empty(), total_items),
                uid,
            );
            &&& total_items.contains(history[k])
            &&& history[k].uid_spec() == uid
        }),
{
    let of_uid = of_identity::<DynamicObject>(uid);
    lemma_history_keeps_insertion_order(total_items, uid);
    let history = total_items.filter(of_uid);
    assert(history.contains(history[k]));
    total_items.lemma_filter_contains_rev(of_uid, history[k]);
    total_items.lemma_filter_pred(of_uid, k);
}

/// `last_with_version` finds a position that carries the marker, and no later
/// position does; it finds none only if no position carries it.
pub proof fn lemma_last_with_version(items: Seq<DynamicObject>, rv: Seq<char>)
    ensures
        match last_with_version(items, rv) {
            Some(i) => {
                &&& 0 <= i < items.len()
                &&& items[i].resource_version_spec() == rv
                &&& forall|j: int| i < j < items.len() ==> items[j].resource_version_spec() != rv
            },
            None => forall|j: int| 0 <= j < items.len() ==> items[j].resource_version_spec() != rv,
        },
    decreases items.len(),
{
    if items.len() > 0 {
        let front = items.drop_last();
        lemma_last_with_version(front, rv);
        assert forall|j: int| 0 <= j < front.len() implies front[j] == items[j] by {}
        if items.last().resource_version_spec() != rv {
            match last_with_version(front, rv) {
                Some(i) => {
                    assert(front[i] == items[i]);
                    assert forall|j: int| i < j < items.len() implies items[j].resource_version_spec()
                        != rv by {
                        if j < front.len() {
                            assert(front[j] == items[j]);
                        }
                    }
                },
                None => {
                    assert forall|j: int| 0 <= j < items.len() implies items[j].resource_version_spec()
                        != rv by {
                        if j < front.len() {
                            assert(front[j] == items[j]);
                        }
                    }
                },
            }
        }
    }
}

impl SessionState {
    /// Taking in a snapshot keeps the state of a session sound.
    pub proof fn lemma_ingest_keeps_inv(self, obj: DynamicObject)
        requires
            self.inv(),
        ensures
            self.ingest(obj).inv(),
    {
        let after = self.ingest(obj);
        assert(self.total_items.push(obj).drop_last() =~= self.total_items);
        assert(after.histories == after_inserts(
            Map::<Seq<char>, Seq<DynamicObject>>::empty(),
            after.total_items,
        ));
    }

    /// Moving the selection keeps the state of a session sound.
    pub proof fn lemma_next_previous_keep_inv(self)
        requires
            self.inv(),
        ensures
            self.next().inv(),
            self.previous().inv(),
    {
    }

    /// Drilling into an identity keeps the state of a session sound.
    pub proof fn lemma_enter_keeps_inv(self)
        requires
            self.inv(),
        ensures
            self.enter().inv(),
    {
        match self.selected_item() {
            Some(obj) => {
                let i = self.selected->0 as int;
                match self.active_uid {
                    Some(uid) => {
                        lemma_history_arrived(self.total_items, uid, i);
                    },
                    None => {
                        lemma_arrived_is_found(self.total_items, i);
                    },
                }
            },
            None => {},
        }
    }

    /// Returning to the overview keeps the state of a session sound.
    pub proof fn lemma_escape_keeps_inv(self)
        requires
            self.inv(),
        ensures
            self.escape().inv(),
    {
        match self.active_uid {
            Some(uid) => {
                let obj = self.selected_item()->0;
                lemma_last_with_version(self.total_items, obj.resource_version_spec());
                lemma_history_arrived(self.total_items, uid, self.selected->0 as int);
            },
            None => {},
        }
    }

    /// A snapshot that arrives shows in the visible list exactly if the list
    /// is the overview or the history of its own identity, and then at the
    /// end; it never moves the selection, the scroll offset or the comparison.
    pub proof fn lemma_ingest_appends_where_visible(self, obj: DynamicObject)
        requires
            self.inv(),
        ensures
            self.ingest(obj).items == if self.active_uid is None || self.active_uid == Some(
                obj.uid_spec(),
            ) {
                self.items.push(obj)
            } else {
                self.items
            },
            self.ingest(obj).total_items == self.total_items.push(obj),
            self.ingest(obj).selected == self.selected,
            self.ingest(obj).active_uid == self.active_uid,
            self.ingest(obj).scroll == self.scroll,
            self.ingest(obj).l_diff == self.l_diff,
            self.ingest(obj).r_diff == self.r_diff,
    {
    }

    /// The selection goes round: one step on from the last item is the first
    /// item, and one step back from the first is the last.
    pub proof fn lemma_selection_wraps(self)
        requires
            0 < self.items.len() <= usize::MAX,
        ensures
            self.selected == Some((self.items.len() - 1) as usize) ==> self.next().selected == Some(
                0usize,
            ),
            self.selected == Some(0usize) ==> self.previous().selected == Some(
                (self.items.len() - 1) as usize,
            ),
    {
    }

    /// Moving the selection shows the selected snapshot against its sibling
    /// from the version store, and scrolls back to the top.
    pub proof fn lemma_move_shows_selection(self)
        requires
            self.items.len() > 0,
            self.inv(),
        ensures
            ({
                let after = self.next();
                let obj = after.items[after.selected->0 as int];
                &&& after.selected_item() == Some(obj)
                &&& after.r_diff == Some(redacted(obj, self.include_managed_fields))
                &&& after.l_diff is Some <==> sibling_in(self.histories, obj) is Some
                &&& after.scroll == 0
                &&& after.items == self.items
            }),
            ({
                let after = self.previous();
                let obj = after.items[after.selected->0 as int];
                &&& after.selected_item() == Some(obj)
                &&& after.r_diff == Some(redacted(obj, self.include_managed_fields))
                &&& after.l_diff is Some <==> sibling_in(self.histories, obj) is Some
                &&& after.scroll == 0
                &&& after.items == self.items
            }),
    {
    }

    /// Scrolling changes the scroll offset and nothing else.
    pub proof fn lemma_scrolling_is_view_only(self)
        ensures
            self.page_up() == (SessionState { scroll: self.page_up().scroll, ..self }),
            self.page_down() == (SessionState { scroll: self.page_down().scroll, ..self }),
            self.page_home() == (SessionState { scroll: 0, ..self }),
            self.page_up().scroll <= self.scroll,
            self.page_down().scroll >= self.scroll,
    {
    }

    /// Into an identity and back: from the overview, with the snapshot at
    /// position `k` selected, `enter` shows the whole history of its identity,
    /// and `escape` after it shows everything again with the selection back at
    /// `k`, compared with its sibling. This is stated of a snapshot whose
    /// version marker no later arrival carries: the selection is found again
    /// by its marker, at the last snapshot that has it.
    pub proof fn lemma_enter_then_escape(self, k: usize)
        requires
            self.inv(),
            self.active_uid is None,
            k < self.items.len() <= usize::MAX,
            self.selected == Some(k),
            forall|j: int|
                k < j < self.total_items.len() ==> (
                #[trigger] self.total_items[j]).resource_version_spec()
                    != self.total_items[k as int].resource_version_spec(),
        ensures
            self.enter().active_uid == Some(self.items[k as int].uid_spec()),
            self.enter().items == self.histories[self.items[k as int].uid_spec()],
            self.enter().selected_item() is Some,
            self.enter().selected_item()->0.resource_version_spec()
                == self.items[k as int].resource_version_spec(),
            self.enter().escape().active_uid is None,
            self.enter().escape().items == self.items,
            self.enter().escape().selected == Some(k),
            self.enter().escape().r_diff == Some(
                redacted(self.items[k as int], self.include_managed_fields),
            ),
    {
        let obj = self.items[k as int];
        let uid = obj.uid_spec();
        let rv = obj.resource_version_spec();
        let history = self.histories[uid];
        lemma_arrived_is_found(self.total_items, k as int);
        lemma_first_with_version(history, rv);
        lemma_history_keeps_insertion_order(self.total_items, uid);
        self.total_items.lemma_filter_len(of_identity::<DynamicObject>(uid));
        let select = index_in(self.histories, obj);
        assert(0 <= select < history.len());
        let entered = self.enter();
        assert(entered.items == history);
        assert(entered.selected == Some(select as usize));
        assert(entered.selected_item() == Some(history[select]));
        assert(history[select].resource_version_spec() == rv);
        self.lemma_enter_keeps_inv();
        lemma_last_with_version(self.total_items, rv);
        assert(relocated(self.total_items, rv) == k) by {
            match last_with_version(self.total_items, rv) {
                Some(at) => {
                    if at < k {
                        assert(self.total_items[k as int].resource_version_spec() == rv);
                    }
                },
                None => {
                    assert(self.total_items[k as int].resource_version_spec() == rv);
                },
            }
        }
    }

    /// Every event keeps the state of a session sound.
    pub proof fn lemma_step_keeps_inv(self, msg: Msg)
        requires
            self.inv(),
        ensures
            self.step(msg).inv(),
    {
        self.lemma_next_previous_keep_inv();
        self.lemma_enter_keeps_inv();
        self.lemma_escape_keeps_inv();
        if let Msg::Obj(obj) = msg {
            self.lemma_ingest_keeps_inv(obj);
        }
    }
}

} // verus!
