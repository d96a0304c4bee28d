//! The session controller: it holds the state of an interactive session and
//! applies one event at a time to it.

use vstd::prelude::*;
use crate::db::{Database, Memory, UID};
use crate::diff::Difft;
use crate::dynamic_object::DynamicObject;
use crate::event::{KeyCode, Msg};
use crate::session::{relocated, SessionState};
use crate::text::{decimal, unsigned_to_string};
use crate::utils::{age_seconds, duration_text, format_creation_since};

verus! {

/// Whether the session goes on after an event.
#[derive(Clone, Copy, Debug, PartialEq, Eq, Structural)]
pub enum Flow {
    Continue,
    Quit,
}

/// The state of a session, and the renderer's settings.
pub struct Controller {
    pub diff_tool: Difft,
    /// The selected position of the visible list.
    pub state: Option<usize>,
    /// The visible list.
    pub items: Vec<DynamicObject>,
    /// Every snapshot that arrived, in the order of arrival.
    pub total_items: Vec<DynamicObject>,
    /// The identity that is drilled into; none in the overview.
    pub active_uid: Option<String>,
    pub database: Memory<DynamicObject>,
    /// The left document of the comparison shown.
    pub l_diff: Option<DynamicObject>,
    /// The right document of the comparison shown.
    pub r_diff: Option<DynamicObject>,
    pub scroll: u16,
    pub scroll_step: u16,
}

/// The row of the table for the item `item` at position `pos` of the visible
/// list, at the time `now`.
pub open spec fn row_of(pos: int, item: DynamicObject, now: i64) -> Seq<Seq<char>> {
    seq![
        decimal(pos + 1),
        match item.metadata.namespace {
            Some(namespace) => namespace@,
            None => Seq::empty(),
        },
        item.metadata.name@,
        duration_text(age_seconds(now as int, item.metadata.creation_timestamp as int)),
        item.metadata.resource_version@,
    ]
}

/// A list with equal items in the same order.
fn copy_list(list: &Vec<DynamicObject>) -> (r: Vec<DynamicObject>)
    ensures
        r@ == list@,
{
    let mut r: Vec<DynamicObject> = Vec::new();
    let mut i: usize = 0;
    while i < list.len()
        invariant
            i <= list.len(),
            r@ == list@.take(i as int),
        decreases list.len() - i,
    {
        r.push(list[i].duplicate());
        assert(list@.take(i + 1) =~= list@.take(i as int).push(list@[i as int]));
        i += 1;
    }
    assert(list@.take(i as int) =~= list@);
    r
}

impl View for Controller {
    type V = SessionState;

    open spec fn view(&self) -> SessionState {
        SessionState {
            include_managed_fields: self.diff_tool.include_managed_fields,
            selected: self.state,
            items: self.items@,
            total_items: self.total_items@,
            active_uid: match self.active_uid {
                Some(uid) => Some(uid@),
                None => None,
            },
            histories: self.database.histories(),
            l_diff: self.l_diff,
            r_diff: self.r_diff,
            scroll: self.scroll,
            scroll_step: self.scroll_step,
        }
    }
}

impl Controller {
    /// What holds of every controller that was made by `new` and changed
    /// through its own methods only.
    pub open spec fn wf(&self) -> bool {
        self.database.well_formed() && self@.inv()
    }

    /// A session in the overview, with nothing seen and nothing selected.
    pub fn new(diff_tool: Difft) -> (c: Self)
        ensures
            c.wf(),
            c@ == (SessionState {
                include_managed_fields: diff_tool.include_managed_fields,
                selected: None,
                items: Seq::empty(),
                total_items: Seq::empty(),
                active_uid: None,
                histories: Map::empty(),
                l_diff: None,
                r_diff: None,
                scroll: 0,
                scroll_step: 5,
            }),
    {
        Controller {
            diff_tool,
            state: None,
            items: Vec::new(),
            total_items: Vec::new(),
            active_uid: None,
            database: Memory::new(),
            l_diff: None,
            r_diff: None,
            scroll: 0,
            scroll_step: 5,
        }
    }

    /// The rows of the table of the visible list at the time `now`, in
    /// seconds since the epoch: for each item its number, counted from 1, its
    /// namespace, its name, its age and its version marker.
    pub fn get_raws(&self, now: i64) -> (raws: Vec<Vec<String>>)
        ensures
            raws.len() == self.items.len(),
            forall|pos: int|
                0 <= pos < raws.len() ==> (#[trigger] raws[pos])@.map_values(|s: String| s@) == row_of(
                    pos,
                    self.items[pos],
                    now,
                ),
    {
        let mut raws: Vec<Vec<String>> = Vec::new();
        let mut pos: usize = 0;
        while pos < self.items.len()
            invariant
                pos <= self.items.len(),
                raws.len() == pos,
                forall|k: int|
                    0 <= k < pos ==> (#[trigger] raws[k])@.map_values(|s: String| s@) == row_of(
                        k,
                        self.items[k],
                        now,
                    ),
            decreases self.items.len() - pos,
        {
            let item = &self.items[pos];
            let mut row: Vec<String> = Vec::new();
            row.push(unsigned_to_string(pos as u64 + 1));
            row.push(
                match &item.metadata.namespace {
                    Some(namespace) => namespace.clone(),
                    None => String::new(),
                },
            );
            row.push(item.metadata.name.clone());
            row.push(format_creation_since(now, item.metadata.creation_timestamp));
            row.push(item.metadata.resource_version.clone());
            assert(row@.map_values(|s: String| s@) =~= row_of(pos as int, *item, now));
            raws.push(row);
            pos += 1;
        }
        raws
    }

    /// The titles of the columns of the table.
    pub fn get_header(&self) -> (header: Vec<&'static str>)
        ensures
            header@.map_values(|s: &'static str| s@) == seq![
                "ID"@,
                "NAMESPACE"@,
                "NAME"@,
                "AGE"@,
                "REV"@,
            ],
    {
        let mut header: Vec<&'static str> = Vec::new();
        header.push("ID");
        header.push("NAMESPACE");
        header.push("NAME");
        header.push("AGE");
        header.push("REV");
        assert(header@.map_values(|s: &'static str| s@) =~= seq![
            "ID"@,
            "NAMESPACE"@,
            "NAME"@,
            "AGE"@,
            "REV"@,
        ]);
        header
    }

    fn reset_scroll(&mut self)
        ensures
            *final(self) == (Controller { scroll: 0, ..*old(self) }),
    {
        self.scroll = 0
    }

    fn refresh_items(&mut self)
        requires
            old(self).database.well_formed(),
        ensures
            final(self).database.well_formed(),
            final(self)@ == old(self)@.refresh_items(),
    {
        let fresh = match &self.active_uid {
            Some(uid) => match self.database.items_of_uid(uid.clone()) {
                Some(list) => copy_list(list),
                None => Vec::new(),
            },
            None => copy_list(&self.total_items),
        };
        self.items = fresh;
    }

    fn do_diff(&mut self, select: usize)
        requires
            old(self).database.well_formed(),
        ensures
            final(self).database.well_formed(),
            final(self)@ == old(self)@.do_diff(select as int),
    {
        if select < self.items.len() {
            let obj = &self.items[select];
            let panes = self.diff_tool.tui_diff(self.database.sibling(obj), obj);
            self.l_diff = panes.0;
            self.r_diff = Some(panes.1);
        }
    }

    /// Takes in a snapshot that was observed. It goes to the version store in
    /// any case, and shows in the visible list if that is the overview or the
    /// history of its own identity. The selection stays where it is.
    pub fn ingest(&mut self, obj: DynamicObject)
        requires
            old(self).wf(),
        ensures
            final(self).wf(),
            final(self)@ == old(self)@.ingest(obj),
    {
        proof {
            old(self)@.lemma_ingest_keeps_inv(obj);
        }
        self.database.do_insert(obj.duplicate());
        self.total_items.push(obj);
        self.refresh_items();
    }

    /// Selects the next item of the visible list, the first after the last,
    /// and compares it with its sibling.
    pub fn next(&mut self)
        requires
            old(self).wf(),
        ensures
            final(self).wf(),
            final(self)@ == old(self)@.next(),
    {
        self.reset_scroll();
        let i: usize = match self.state {
            Some(i) => {
                if self.items.len() == 0 || i >= self.items.len() - 1 {
                    0
                } else {
                    i + 1
                }
            },
            None => 0,
        };
        self.do_diff(i);
        self.state = Some(i);
    }

    /// Selects the item before the selected one, the last before the first,
    /// and compares it with its sibling.
    pub fn previous(&mut self)
        requires
            old(self).wf(),
        ensures
            final(self).wf(),
            final(self)@ == old(self)@.previous(),
    {
        self.reset_scroll();
        let i: usize = match self.state {
            Some(i) => {
                if i == 0 {
                    if self.items.len() == 0 {
                        0
                    } else {
                        self.items.len() - 1
                    }
                } else {
                    i - 1
                }
            },
            None => 0,
        };
        self.do_diff(i);
        self.state = Some(i);
    }

    /// Drills into the identity of the selected snapshot, unless the session
    /// is there already: the visible list becomes the history of that identity,
    /// and the selection moves to where the store finds the snapshot in it.
    pub fn enter(&mut self)
        requires
            old(self).wf(),
        ensures
            final(self).wf(),
            final(self)@ == old(self)@.enter(),
    {
        proof {
            old(self)@.lemma_enter_keeps_inv();
        }
        match self.state {
            Some(i) => {
                if i < self.items.len() {
                    let obj = self.items[i].duplicate();
                    let uid = obj.uid();
                    let there = match &self.active_uid {
                        Some(active) => *active == uid,
                        None => false,
                    };
                    if there {
                        return ;
                    }
                    self.active_uid = Some(uid);
                    self.refresh_items();
                    let select = self.database.index_of(&obj);
                    self.do_diff(select);
                    self.state = Some(select);
                }
            },
            None => {},
        }
    }

    /// Returns from an identity to the overview: the visible list becomes
    /// everything that arrived, and the selection moves to the last snapshot
    /// in it that carries the version marker of the one selected before.
    /// Nothing happens in the overview.
    pub fn escape(&mut self)
        requires
            old(self).wf(),
        ensures
            final(self).wf(),
            final(self)@ == old(self)@.escape(),
    {
        proof {
            old(self)@.lemma_escape_keeps_inv();
        }
        if self.active_uid.is_none() {
            return ;
        }
        self.active_uid = None;
        match self.state {
            Some(i) => {
                if i < self.items.len() {
                    let rv = self.items[i].resource_version();
                    self.refresh_items();
                    let mut select: usize = 0;
                    let mut k: usize = 0;
                    while k < self.items.len()
                        invariant
                            k <= self.items.len(),
                            select as int == relocated(self.items@.take(k as int), rv@),
                        decreases self.items.len() - k,
                    {
                        assert(self.items@.take(k + 1).drop_last() =~= self.items@.take(k as int));
                        if self.items[k].resource_version() == rv {
                            select = k;
                        }
                        k += 1;
                    }
                    assert(self.items@.take(k as int) =~= self.items@);
                    self.do_diff(select);
                    self.state = Some(select);
                }
            },
            None => {},
        }
    }

    /// Scrolls the comparison to its top.
    pub fn page_home(&mut self)
        requires
            old(self).wf(),
        ensures
            final(self).wf(),
            final(self)@ == old(self)@.page_home(),
    {
        self.scroll = 0;
    }

    /// Scrolls the comparison up by one step, and not beyond its top.
    pub fn page_up(&mut self)
        requires
            old(self).wf(),
        ensures
            final(self).wf(),
            final(self)@ == old(self)@.page_up(),
    {
        if self.scroll < self.scroll_step {
            self.scroll = 0;
        } else {
            self.scroll -= self.scroll_step;
        }
    }

    /// Scrolls the comparison down by one step.
    pub fn page_down(&mut self)
        requires
            old(self).wf(),
        ensures
            final(self).wf(),
            final(self)@ == old(self)@.page_down(),
    {
        self.scroll = match self.scroll.checked_add(self.scroll_step) {
            Some(s) => s,
            None => u16::MAX,
        };
    }

    /// Applies one event. The key `q` ends the session and changes nothing.
    pub fn handle(&mut self, msg: Msg) -> (flow: Flow)
        requires
            old(self).wf(),
        ensures
            final(self).wf(),
            final(self)@ == old(self)@.step(msg),
            flow == Flow::Quit <==> msg == Msg::Key(KeyCode::Char('q')),
    {
        match msg {
            Msg::Key(key) => match key {
                KeyCode::Char(c) => {
                    if c == 'q' {
                        return Flow::Quit;
                    } else if c == 'j' {
                        self.next();
                    } else if c == 'k' {
                        self.previous();
                    }
                },
                KeyCode::Down => self.next(),
                KeyCode::Up => self.previous(),
                KeyCode::Enter => self.enter(),
                KeyCode::Esc => self.escape(),
                KeyCode::Home => self.page_home(),
                KeyCode::PageUp => self.page_up(),
                KeyCode::PageDown => self.page_down(),
                KeyCode::Other => {},
            },
            Msg::Obj(obj) => self.ingest(obj),
        }
        Flow::Continue
    }
}

} // verus!
