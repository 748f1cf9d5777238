//! The boundary to caller-supplied behaviour, and a recording host.
//!
//! The engine itself never performs side effects of its own: everything the
//! hosting application contributes - the display sink, the bodies of
//! actions, and the externally tracked "currently active" flags that
//! decorate display names - is reached through the [`MenuHost`] trait.
//! Actions and activity flags are addressed by caller-chosen `u64`
//! identifiers.  [`EventLog`] is a host that records every event, suitable
//! for tests and for driving the engine from unverified code.

use vstd::prelude::*;

use crate::model::ItemV;
use crate::model::MenuV;
use crate::model::current_item;

verus! {

/// Everything the hosting application supplies to the engine.
///
/// `shown` and `fired` are the histories of display-sink invocations and of
/// action executions; `active_now` is the current value of each activity
/// flag.  A display sink must not run actions or touch activity flags; an
/// action may do anything except invoke the display sink.
pub trait MenuHost {
    /// The texts handed to the display sink so far, oldest first.
    spec fn shown(&self) -> Seq<Seq<char>>;

    /// The identifiers of the actions executed so far, oldest first.
    spec fn fired(&self) -> Seq<u64>;

    /// The current value of the activity flag `id`.
    spec fn active_now(&self, id: u64) -> bool;

    /// Invoke the display sink with `text`.
    fn show(&mut self, text: String)
        ensures
            final(self).shown() == old(self).shown().push(text@),
            final(self).fired() == old(self).fired(),
            forall|id: u64| final(self).active_now(id) == old(self).active_now(id),
    ;

    /// Execute the action identified by `id`.  It may toggle activity flags.
    fn run_action(&mut self, id: u64)
        ensures
            final(self).fired() == old(self).fired().push(id),
            final(self).shown() == old(self).shown(),
    ;

    /// Query the activity flag `id`.
    fn is_active(&self, id: u64) -> (r: bool)
        ensures
            r == self.active_now(id),
    ;
}

/// A name decorated with the "currently active" marker, or left unchanged.
pub open spec fn decorated(name: Seq<char>, active: bool) -> Seq<char> {
    if active {
        "* "@ + name + " *"@
    } else {
        name
    }
}

/// Whether an optional activity flag currently reads true under host `h`.
pub open spec fn mark_active<H: MenuHost>(mark: Option<u64>, h: H) -> bool {
    match mark {
        Some(id) => h.active_now(id),
        None => false,
    }
}

/// The display name of one entry under host `h`: its name, decorated when
/// its activity flag reads true.  Back's name is the fixed, undecorated
/// literal.
pub open spec fn item_label<H: MenuHost>(it: ItemV, h: H) -> Seq<char> {
    match it {
        ItemV::Action { name, mark, .. } => decorated(name, mark_active(mark, h)),
        ItemV::SubMenu(s) => decorated(s.name, mark_active(s.mark, h)),
        ItemV::Back => "Back"@,
    }
}

/// The display name of the menu's highlighted entry under host `h`.
pub open spec fn menu_label<H: MenuHost>(m: MenuV, h: H) -> Seq<char> {
    item_label(current_item(m), h)
}

/// The label of an entry depends on the host only through its activity
/// flags.
pub proof fn lemma_label_congruence<H: MenuHost>(it: ItemV, h1: H, h2: H)
    requires
        forall|id: u64| h1.active_now(id) == h2.active_now(id),
    ensures
        item_label(it, h1) == item_label(it, h2),
{
}

/// Membership in a pushed sequence: the new element joins, nothing leaves.
proof fn lemma_push_contains(s: Seq<u64>, x: u64, j: u64)
    ensures
        s.push(x).contains(j) == (s.contains(j) || j == x),
{
    if s.push(x).contains(j) {
        let k = choose|k: int| 0 <= k < s.push(x).len() && s.push(x)[k] == j;
        if k < s.len() {
            assert(s[k] == j);
        }
    }
    if s.contains(j) {
        let k = choose|k: int| 0 <= k < s.len() && s[k] == j;
        assert(s.push(x)[k] == j);
    }
    if j == x {
        assert(s.push(x)[s.len() as int] == j);
    }
}

/// A host that records every event: the texts displayed, the actions fired,
/// and a set of activity-flag identifiers that currently read true.
pub struct EventLog {
    shown_texts: Vec<String>,
    fired_ids: Vec<u64>,
    active_ids: Vec<u64>,
}

impl EventLog {
    /// A fresh log: nothing shown, nothing fired, every flag false.
    pub fn new() -> (log: EventLog)
        ensures
            log.shown() == Seq::<Seq<char>>::empty(),
            log.fired() == Seq::<u64>::empty(),
            forall|id: u64| !log.active_now(id),
    {
        let log = EventLog { shown_texts: Vec::new(), fired_ids: Vec::new(), active_ids: Vec::new() };
        proof {
            assert(log.shown() =~= Seq::<Seq<char>>::empty());
        }
        log
    }

    /// Raise the activity flag `id`.
    pub fn set_active(&mut self, id: u64)
        ensures
            forall|j: u64| final(self).active_now(j) == (j == id || old(self).active_now(j)),
            final(self).shown() == old(self).shown(),
            final(self).fired() == old(self).fired(),
    {
        let ghost before = self.active_ids@;
        self.active_ids.push(id);
        proof {
            assert forall|j: u64|
                final(self).active_now(j) == (j == id || old(self).active_now(j)) by {
                lemma_push_contains(before, id, j);
            }
        }
    }

    /// Lower the activity flag `id`.
    pub fn clear_active(&mut self, id: u64)
        ensures
            forall|j: u64| final(self).active_now(j) == (j != id && old(self).active_now(j)),
            final(self).shown() == old(self).shown(),
            final(self).fired() == old(self).fired(),
    {
        let mut kept: Vec<u64> = Vec::new();
        let mut i: usize = 0;
        while i < self.active_ids.len()
            invariant
                i <= self.active_ids@.len(),
                forall|j: u64| kept@.contains(j) == (self.active_ids@.subrange(0, i as int).contains(j) && j != id),
            decreases self.active_ids@.len() - i,
        {
            let v = self.active_ids[i];
            let ghost pre = self.active_ids@.subrange(0, i as int);
            let ghost post = self.active_ids@.subrange(0, i as int + 1);
            proof {
                assert(post =~= pre.push(v));
            }
            if v != id {
                let ghost before = kept@;
                kept.push(v);
                proof {
                    assert forall|j: u64| kept@.contains(j) == (post.contains(j) && j != id) by {
                        lemma_push_contains(before, v, j);
                        lemma_push_contains(pre, v, j);
                    }
                }
            } else {
                proof {
                    assert forall|j: u64| kept@.contains(j) == (post.contains(j) && j != id) by {
                        lemma_push_contains(pre, v, j);
                    }
                }
            }
            i = i + 1;
        }
        proof {
            assert(self.active_ids@.subrange(0, self.active_ids@.len() as int) =~= self.active_ids@);
        }
        self.active_ids = kept;
    }

    /// The texts handed to the display sink so far, oldest first.
    pub fn shown_log(&self) -> (r: &Vec<String>)
        ensures
            r@.len() == self.shown().len(),
            forall|i: int| 0 <= i < r@.len() ==> r@[i]@ == self.shown()[i],
    {
        &self.shown_texts
    }

    /// The identifiers of the actions executed so far, oldest first.
    pub fn fired_log(&self) -> (r: &Vec<u64>)
        ensures
            r@ == self.fired(),
    {
        &self.fired_ids
    }
}

impl MenuHost for EventLog {
    closed spec fn shown(&self) -> Seq<Seq<char>> {
        self.shown_texts@.map_values(|s: String| s@)
    }

    closed spec fn fired(&self) -> Seq<u64> {
        self.fired_ids@
    }

    closed spec fn active_now(&self, id: u64) -> bool {
        self.active_ids@.contains(id)
    }

    fn show(&mut self, text: String) {
        self.shown_texts.push(text);
        proof {
            assert(self.shown() =~= old(self).shown().push(self.shown_texts@.last()@));
        }
    }

    fn run_action(&mut self, id: u64) {
        self.fired_ids.push(id);
    }

    fn is_active(&self, id: u64) -> (r: bool) {
        let mut i: usize = 0;
        while i < self.active_ids.len()
            invariant
                i <= self.active_ids@.len(),
                forall|k: int| 0 <= k < i ==> self.active_ids@[k] != id,
            decreases self.active_ids@.len() - i,
        {
            if self.active_ids[i] == id {
                return true;
            }
            i = i + 1;
        }
        false
    }
}

} // verus!
