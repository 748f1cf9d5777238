//! The engine: construction, advancing the highlight, confirming it.

use vstd::pervasive::unreached;
use vstd::prelude::*;
use vstd::string::StringExecFns;

use crate::host::MenuHost;
use crate::host::lemma_label_congruence;
use crate::host::menu_label;
use crate::item::Item;
use crate::item::SubMenu;
use crate::item::item_v;
use crate::item::items_v;
use crate::item::lemma_items_v;
use crate::item::sub_v;
use crate::model::ItemV;
use crate::model::MenuV;
use crate::model::SubMenuV;
use crate::model::advance_sub;
use crate::model::current_item;
use crate::model::item_wf;
use crate::model::lemma_advance_preserves;
use crate::model::lemma_path_extend;
use crate::model::lemma_path_le_height;
use crate::model::lemma_reset_preserves;
use crate::model::lemma_sub_at_wf;
use crate::model::menu_wf;
use crate::model::path_ok;
use crate::model::reset_sub;
use crate::model::sub_at;
use crate::model::sub_height;
use crate::model::sub_wf;

verus! {

/// The engine state: the root submenu and the nesting depth (0 = root).
/// The tree's shape is fixed after construction; only cursors and the depth
/// move.
pub struct Menu {
    pub root: SubMenu,
    pub depth: usize,
}

impl View for Menu {
    type V = MenuV;

    open spec fn view(&self) -> MenuV {
        MenuV { root: sub_v(self.root), depth: self.depth as int }
    }
}

/// The model of a freshly built root submenu over the given children.
pub open spec fn root_v(items: Seq<ItemV>) -> SubMenuV {
    SubMenuV { name: "root"@, position: 0, items, mark: None }
}

/// What one confirmation does: run an action, descend, or ascend.
enum Choice {
    Run(u64),
    Descend,
    Ascend,
}

/// The active submenu, `d` confirmed selections below `s`.
fn submenu_ref(s: &SubMenu, d: usize) -> (r: &SubMenu)
    requires
        path_ok(s@, d as nat),
    ensures
        r@ == sub_at(s@, d as nat),
    decreases d,
{
    if d == 0 {
        s
    } else {
        proof {
            lemma_items_v(s.items@);
        }
        match &s.items[s.position] {
            Item::SubMenu(c) => submenu_ref(c, d - 1),
            _ => unreached(),
        }
    }
}

/// Advance the cursor of the submenu `d` levels below `s` by one step.
fn advance_at(s: &mut SubMenu, d: usize, root_level: bool)
    requires
        sub_wf(old(s)@),
        path_ok(old(s)@, d as nat),
    ensures
        final(s)@ == advance_sub(old(s)@, d as nat, root_level),
    decreases d,
{
    if d == 0 {
        s.go_next(root_level);
    } else {
        proof {
            lemma_items_v(s.items@);
            assert(item_wf(old(s)@.items[old(s).position as int]));
        }
        let pos = s.position;
        let ghost items0 = s.items@;
        match &mut s.items[pos] {
            Item::SubMenu(c) => {
                advance_at(c, d - 1, root_level);
            }
            _ => {
                proof {
                    assert(false);
                }
            }
        }
        proof {
            lemma_items_v(items0);
            lemma_items_v(s.items@);
            assert forall|i: int| 0 <= i < items_v(s.items@).len() implies items_v(s.items@)[i]
                == items_v(items0).update(pos as int, item_v(s.items@[pos as int]))[i] by {
                if i != pos {
                    assert(s.items@[i] == items0[i]);
                }
            }
            assert(items_v(s.items@) =~= items_v(items0).update(
                pos as int,
                item_v(s.items@[pos as int]),
            ));
        }
    }
}

/// Reset the cursor of the submenu `d` levels below `s` to its first child.
fn reset_at(s: &mut SubMenu, d: usize)
    requires
        sub_wf(old(s)@),
        path_ok(old(s)@, d as nat),
    ensures
        final(s)@ == reset_sub(old(s)@, d as nat),
    decreases d,
{
    if d == 0 {
        s.position = 0;
    } else {
        proof {
            lemma_items_v(s.items@);
            assert(item_wf(old(s)@.items[old(s).position as int]));
        }
        let pos = s.position;
        let ghost items0 = s.items@;
        match &mut s.items[pos] {
            Item::SubMenu(c) => {
                reset_at(c, d - 1);
            }
            _ => {
                proof {
                    assert(false);
                }
            }
        }
        proof {
            lemma_items_v(items0);
            lemma_items_v(s.items@);
            assert forall|i: int| 0 <= i < items_v(s.items@).len() implies items_v(s.items@)[i]
                == items_v(items0).update(pos as int, item_v(s.items@[pos as int]))[i] by {
                if i != pos {
                    assert(s.items@[i] == items0[i]);
                }
            }
            assert(items_v(s.items@) =~= items_v(items0).update(
                pos as int,
                item_v(s.items@[pos as int]),
            ));
        }
    }
}

impl Menu {
    /// The standing invariant established by construction and kept by every
    /// operation.
    pub open spec fn wf(&self) -> bool {
        menu_wf(self@)
    }

    /// Build the engine over the given root entries and report the initial
    /// highlight (the first entry) to the host, exactly once.
    pub fn new<H: MenuHost>(items: Vec<Item>, host: &mut H) -> (m: Menu)
        requires
            sub_wf(root_v(items_v(items@))),
            sub_height(root_v(items_v(items@))) < usize::MAX,
        ensures
            m@ == (MenuV { root: root_v(items_v(items@)), depth: 0 }),
            m.wf(),
            final(host).shown() == old(host).shown().push(menu_label(m@, *final(host))),
            final(host).fired() == old(host).fired(),
            forall|id: u64| final(host).active_now(id) == old(host).active_now(id),
    {
        Self::inner_new(items, host)
    }

    /// `new`, shared by every construction path.
    fn inner_new<H: MenuHost>(items: Vec<Item>, host: &mut H) -> (m: Menu)
        requires
            sub_wf(root_v(items_v(items@))),
            sub_height(root_v(items_v(items@))) < usize::MAX,
        ensures
            m@ == (MenuV { root: root_v(items_v(items@)), depth: 0 }),
            m.wf(),
            final(host).shown() == old(host).shown().push(menu_label(m@, *final(host))),
            final(host).fired() == old(host).fired(),
            forall|id: u64| final(host).active_now(id) == old(host).active_now(id),
    {
        let menu = Menu {
            depth: 0,
            root: SubMenu {
                name: String::from_str("root"),
                position: 0,
                show_active: None,
                items,
            },
        };
        proof {
            assert(sub_v(menu.root) == root_v(items_v(items@)));
        }
        menu.display(host);
        menu
    }

    /// Advance the highlight at the active level by one step, wrapping
    /// around (with Back joining the cycle below root level), then report
    /// the new highlight to the host, exactly once.
    pub fn skip<H: MenuHost>(&mut self, host: &mut H)
        requires
            old(self).wf(),
        ensures
            final(self).wf(),
            final(self)@ == (MenuV {
                root: advance_sub(
                    old(self)@.root,
                    old(self)@.depth as nat,
                    old(self)@.depth == 0,
                ),
                depth: old(self)@.depth,
            }),
            final(host).shown() == old(host).shown().push(
                menu_label(final(self)@, *final(host)),
            ),
            final(host).fired() == old(host).fired(),
            forall|id: u64| final(host).active_now(id) == old(host).active_now(id),
    {
        let root_level = self.depth == 0;
        advance_at(&mut self.root, self.depth, root_level);
        proof {
            lemma_advance_preserves(old(self)@.root, old(self)@.depth as nat, root_level);
        }
        self.display(host);
    }

    /// Confirm the highlighted entry: run an action (no state changes),
    /// descend into a submenu (its cursor kept from any prior visit), or
    /// ascend via Back (resetting the vacated cursor to the first child).
    /// Then report the new highlight to the host, exactly once.
    pub fn ok<H: MenuHost>(&mut self, host: &mut H)
        requires
            old(self).wf(),
        ensures
            final(self).wf(),
            (match current_item(old(self)@) {
                ItemV::Action { act, .. } => {
                    &&& final(self)@ == old(self)@
                    &&& final(host).fired() == old(host).fired().push(act)
                },
                ItemV::SubMenu(_) => {
                    &&& final(self)@ == (MenuV {
                        root: old(self)@.root,
                        depth: old(self)@.depth + 1,
                    })
                    &&& final(host).fired() == old(host).fired()
                    &&& forall|id: u64|
                        final(host).active_now(id) == old(host).active_now(id)
                },
                ItemV::Back => {
                    &&& final(self)@ == (MenuV {
                        root: reset_sub(old(self)@.root, old(self)@.depth as nat),
                        depth: old(self)@.depth - 1,
                    })
                    &&& final(host).fired() == old(host).fired()
                    &&& forall|id: u64|
                        final(host).active_now(id) == old(host).active_now(id)
                },
            }),
            final(host).shown() == old(host).shown().push(
                menu_label(final(self)@, *final(host)),
            ),
    {
        proof {
            lemma_sub_at_wf(sub_v(self.root), self.depth as nat);
        }
        let choice: Choice = {
            let sub = submenu_ref(&self.root, self.depth);
            match sub.get_item() {
                Item::Action(a) => Choice::Run(a.action),
                Item::SubMenu(_) => Choice::Descend,
                Item::Back => Choice::Ascend,
            }
        };
        match choice {
            Choice::Run(id) => {
                host.run_action(id);
            }
            Choice::Descend => {
                proof {
                    lemma_path_extend(sub_v(self.root), self.depth as nat);
                    lemma_path_le_height(sub_v(self.root), (self.depth + 1) as nat);
                }
                self.depth = self.depth + 1;
            }
            Choice::Ascend => {
                proof {
                    if self.depth == 0 {
                        assert(item_wf(sub_v(self.root).items[sub_v(self.root).position]));
                    }
                    lemma_reset_preserves(sub_v(self.root), self.depth as nat);
                }
                reset_at(&mut self.root, self.depth);
                self.depth = self.depth - 1;
            }
        }
        self.display(host);
    }

    /// Report the highlighted entry's display name to the host.
    fn display<H: MenuHost>(&self, host: &mut H)
        requires
            self.wf(),
        ensures
            final(host).shown() == old(host).shown().push(
                menu_label(self@, *final(host)),
            ),
            final(host).fired() == old(host).fired(),
            forall|id: u64| final(host).active_now(id) == old(host).active_now(id),
    {
        proof {
            lemma_sub_at_wf(sub_v(self.root), self.depth as nat);
        }
        let sub = self.get_submenu();
        let text = sub.get_text(&*host);
        host.show(text);
        proof {
            lemma_label_congruence(current_item(self@), *old(host), *final(host));
        }
    }

    /// The currently active submenu: the node reached by following cursors
    /// from the root for `depth` steps.
    fn get_submenu(&self) -> (r: &SubMenu)
        requires
            path_ok(self@.root, self@.depth as nat),
            0 <= self@.depth,
        ensures
            r@ == sub_at(self@.root, self@.depth as nat),
    {
        submenu_ref(&self.root, self.depth)
    }
}

} // verus!
