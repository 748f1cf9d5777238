//! The menu tree: actions, submenus, and the virtual Back entry.

use vstd::prelude::*;
use vstd::string::StringExecFns;

use crate::host::MenuHost;
use crate::host::decorated;
use crate::host::item_label;
use crate::model::ItemV;
use crate::model::SubMenuV;
use crate::model::next_position;
use crate::model::sub_current;

verus! {

/// A leaf entry: selecting it executes the action identified by `action`.
pub struct Action {
    pub name: String,
    pub action: u64,
    pub show_active: Option<u64>,
}

/// An interior entry: an ordered children list (fixed after construction)
/// and the cursor that marks the highlighted child.
pub struct SubMenu {
    pub name: String,
    pub position: usize,
    pub items: Vec<Item>,
    pub show_active: Option<u64>,
}

/// One tree node.  `Back` is never stored in a children list: it is the
/// virtual entry implied whenever a submenu's cursor equals its child count.
pub enum Item {
    Action(Action),
    SubMenu(SubMenu),
    Back,
}

/// The model of one node.
pub open spec fn item_v(it: Item) -> ItemV
    decreases it,
{
    match it {
        Item::Action(a) => ItemV::Action { name: a.name@, act: a.action, mark: a.show_active },
        Item::SubMenu(s) => ItemV::SubMenu(sub_v(s)),
        Item::Back => ItemV::Back,
    }
}

/// The models of a children list, in order.
pub open spec fn items_v(s: Seq<Item>) -> Seq<ItemV>
    decreases s,
{
    if s.len() == 0 {
        Seq::empty()
    } else {
        items_v(s.drop_last()).push(item_v(s.last()))
    }
}

/// A children list and its model line up element by element.
pub broadcast proof fn lemma_items_v(s: Seq<Item>)
    ensures
        (#[trigger] items_v(s)).len() == s.len(),
        forall|i: int| 0 <= i < s.len() ==> items_v(s)[i] == item_v(s[i]),
    decreases s.len(),
{
    if s.len() > 0 {
        lemma_items_v(s.drop_last());
        assert forall|i: int| 0 <= i < s.len() implies items_v(s)[i] == item_v(s[i]) by {
            if i < s.len() - 1 {
                assert(s.drop_last()[i] == s[i]);
            }
        }
    }
}

/// The model of a submenu.
pub open spec fn sub_v(s: SubMenu) -> SubMenuV
    decreases s,
{
    SubMenuV {
        name: s.name@,
        position: s.position as int,
        items: items_v(s.items@),
        mark: s.show_active,
    }
}

impl View for Item {
    type V = ItemV;

    open spec fn view(&self) -> ItemV {
        item_v(*self)
    }
}

impl View for SubMenu {
    type V = SubMenuV;

    open spec fn view(&self) -> SubMenuV {
        sub_v(*self)
    }
}

/// A name with the "currently active" marker applied when `active` holds.
fn get_text(name: &str, active: bool) -> (r: String)
    ensures
        r@ == decorated(name@, active),
{
    if active {
        let mut s = String::from_str("* ");
        s.append(name);
        s.append(" *");
        proof {
            assert(s@ =~= "* "@ + name@ + " *"@);
        }
        s
    } else {
        name.to_owned()
    }
}

impl Item {
    /// A new action entry named `name`; selecting it asks the host to run
    /// the action identified by `action`.
    pub fn new_action(name: String, action: u64) -> (it: Item)
        ensures
            it@ == (ItemV::Action { name: name@, act: action, mark: None::<u64> }),
    {
        Item::Action(Action { name, action, show_active: None })
    }

    /// A new submenu entry named `name` with the given children, highlighted
    /// from its first child.  Children lists are never empty.
    pub fn new_submenu(name: String, items: Vec<Item>) -> (it: Item)
        requires
            1 <= items@.len() < usize::MAX,
        ensures
            it@ == (ItemV::SubMenu(
                SubMenuV { name: name@, position: 0, items: items_v(items@), mark: None::<u64> },
            )),
    {
        Item::SubMenu(SubMenu { position: 0, name, show_active: None, items })
    }

    /// Attach the activity flag `check_active` to this entry: while the host
    /// reports the flag as true, the entry's display name carries the
    /// "currently active" marker.  Back carries no flag.
    pub fn show_active(self, check_active: u64) -> (it: Item)
        ensures
            it@ == (match self@ {
                ItemV::Action { name, act, .. } => ItemV::Action {
                    name,
                    act,
                    mark: Some(check_active),
                },
                ItemV::SubMenu(s) => ItemV::SubMenu(
                    SubMenuV { mark: Some(check_active), ..s },
                ),
                ItemV::Back => ItemV::Back,
            }),
    {
        match self {
            Item::Action(mut a) => {
                a.show_active = Some(check_active);
                Item::Action(a)
            }
            Item::SubMenu(mut s) => {
                s.show_active = Some(check_active);
                Item::SubMenu(s)
            }
            Item::Back => Item::Back,
        }
    }

    /// The display name of this entry under the given host.
    pub(crate) fn get_name<H: MenuHost>(&self, host: &H) -> (r: String)
        ensures
            r@ == item_label(self@, *host),
    {
        match self {
            Item::Action(a) => {
                let active = match a.show_active {
                    Some(id) => host.is_active(id),
                    None => false,
                };
                get_text(a.name.as_str(), active)
            }
            Item::SubMenu(s) => {
                let active = match s.show_active {
                    Some(id) => host.is_active(id),
                    None => false,
                };
                get_text(s.name.as_str(), active)
            }
            Item::Back => String::from_str("Back"),
        }
    }
}

impl SubMenu {
    /// The highlighted child, or the virtual Back entry when the cursor
    /// equals the child count.
    pub(crate) fn get_item(&self) -> (r: &Item)
        requires
            self@.position <= self@.items.len(),
        ensures
            r@ == sub_current(self@),
    {
        proof {
            lemma_items_v(self.items@);
        }
        if self.position >= self.items.len() {
            &Item::Back
        } else {
            &self.items[self.position]
        }
    }

    /// The display name of the highlighted child under the given host.
    pub(crate) fn get_text<H: MenuHost>(&self, host: &H) -> (r: String)
        requires
            self@.position <= self@.items.len(),
        ensures
            r@ == item_label(sub_current(self@), *host),
    {
        self.get_item().get_name(host)
    }

    /// Advance the cursor by one, wrapping around.  At root level
    /// (`no_back`) the cycle covers the children alone; below root the
    /// virtual Back entry joins it.
    pub(crate) fn go_next(&mut self, no_back: bool)
        requires
            1 <= old(self)@.items.len() < usize::MAX,
            old(self)@.position <= old(self)@.items.len(),
        ensures
            final(self)@ == (SubMenuV {
                position: next_position(
                    old(self)@.position,
                    old(self)@.items.len() as int,
                    no_back,
                ),
                ..old(self)@
            }),
    {
        proof {
            lemma_items_v(self.items@);
        }
        let len = self.items.len();
        let modulus = if no_back {
            len
        } else {
            len + 1
        };
        self.position = (self.position + 1) % modulus;
    }
}

} // verus!
