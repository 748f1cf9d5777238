//! Laws of the engine, stated and proved over the model.

use vstd::arithmetic::div_mod::lemma_add_mod_noop;
use vstd::arithmetic::div_mod::lemma_mod_add_multiples_vanish;
use vstd::arithmetic::div_mod::lemma_small_mod;
use vstd::prelude::*;

use crate::host::MenuHost;
use crate::host::item_label;
use crate::model::ItemV;
use crate::model::MenuV;
use crate::model::SubMenuV;
use crate::model::advance_sub;
use crate::model::current_item;
use crate::model::item_wf;
use crate::model::lemma_path_step;
use crate::model::lemma_reset_preserves;
use crate::model::menu_wf;
use crate::model::next_position;
use crate::model::reset_sub;

verus! {

/// The cursor after `k` successive advances at one level, as performed at
/// the active level by each `Menu::skip`.
pub open spec fn advance_times(pos: int, len: int, root_level: bool, k: nat) -> int
    decreases k,
{
    if k == 0 {
        pos
    } else {
        next_position(advance_times(pos, len, root_level, (k - 1) as nat), len, root_level)
    }
}

/// `k` advances from `pos` land on `(pos + k) mod m`, where `m` is the
/// cycle length: the child count at root level, one more below root.
proof fn lemma_advance_times_mod(pos: int, len: int, root_level: bool, k: nat)
    requires
        1 <= len,
        0 <= pos,
        root_level ==> pos < len,
        !root_level ==> pos <= len,
    ensures
        advance_times(pos, len, root_level, k) == (pos + k) % (
        if root_level {
            len
        } else {
            len + 1
        }),
    decreases k,
{
    let m = if root_level {
        len
    } else {
        len + 1
    };
    if k == 0 {
        lemma_small_mod(pos as nat, m as nat);
    } else {
        lemma_advance_times_mod(pos, len, root_level, (k - 1) as nat);
        lemma_add_mod_noop(pos + k - 1, 1, m);
        if m == 1 {
            assert(advance_times(pos, len, root_level, k) == (pos + k) % m);
        } else {
            lemma_small_mod(1nat, m as nat);
        }
    }
}

/// A submenu with `n` children returns its cursor to where it started after
/// `n` successive advances at root level: the Back entry stays out of the
/// root cycle.
pub proof fn lemma_root_cycle(pos: int, len: int)
    requires
        1 <= len,
        0 <= pos < len,
    ensures
        advance_times(pos, len, true, len as nat) == pos,
{
    lemma_advance_times_mod(pos, len, true, len as nat);
    lemma_mod_add_multiples_vanish(pos, len);
    lemma_small_mod(pos as nat, len as nat);
}

/// Below root level the virtual Back entry joins the cycle: a submenu with
/// `n` children returns its cursor to where it started after `n + 1`
/// successive advances.
pub proof fn lemma_nested_cycle(pos: int, len: int)
    requires
        1 <= len,
        0 <= pos <= len,
    ensures
        advance_times(pos, len, false, (len + 1) as nat) == pos,
{
    lemma_advance_times_mod(pos, len, false, (len + 1) as nat);
    lemma_mod_add_multiples_vanish(pos, len + 1);
    lemma_small_mod(pos as nat, (len + 1) as nat);
}

/// The menu state after one `Menu::skip`: the active level's cursor moves
/// one step, everything else stays.
pub open spec fn skip_v(m: MenuV) -> MenuV {
    MenuV { root: advance_sub(m.root, m.depth as nat, m.depth == 0), depth: m.depth }
}

/// The menu state after `k` successive `Menu::skip` calls.
pub open spec fn skip_times(m: MenuV, k: nat) -> MenuV
    decreases k,
{
    if k == 0 {
        m
    } else {
        skip_v(skip_times(m, (k - 1) as nat))
    }
}

/// At root level, `k` skips move the root cursor `k` advances along and
/// touch nothing else.
proof fn lemma_skip_times_root(m: MenuV, k: nat)
    requires
        m.depth == 0,
        1 <= m.root.items.len(),
    ensures
        skip_times(m, k) == (MenuV {
            root: SubMenuV {
                position: advance_times(m.root.position, m.root.items.len() as int, true, k),
                ..m.root
            },
            depth: 0,
        }),
    decreases k,
{
    if k == 0 {
        assert(SubMenuV { position: m.root.position, ..m.root } == m.root);
    } else {
        lemma_skip_times_root(m, (k - 1) as nat);
    }
}

/// A root-level menu over `n` entries returns to exactly its old state
/// after `n` successive skips: the whole cycle visits each entry once and
/// leaves every nested cursor untouched.
pub proof fn lemma_root_skip_cycle(m: MenuV)
    requires
        menu_wf(m),
        m.depth == 0,
    ensures
        skip_times(m, m.root.items.len() as nat) == m,
{
    let len = m.root.items.len() as int;
    lemma_skip_times_root(m, m.root.items.len() as nat);
    lemma_root_cycle(m.root.position, len);
    assert(SubMenuV { position: m.root.position, ..m.root } == m.root);
    assert(MenuV { root: m.root, depth: 0 } == m);
}

/// The Back entry is never highlighted at root level: the root cycle
/// excludes it, so a well-formed menu at depth 0 always highlights a stored
/// child.  (The depth itself can never go below 0: it is non-negative by
/// the invariant, and only a Back confirmation, impossible at depth 0,
/// decrements it.)
pub proof fn lemma_no_back_at_root(m: MenuV)
    requires
        menu_wf(m),
        m.depth == 0,
    ensures
        !(current_item(m) is Back),
{
    assert(item_wf(m.root.items[m.root.position]));
}

/// Reset on ascend: after confirming Back, the level above highlights the
/// vacated submenu again, and that submenu's cursor is back at its first
/// child - wherever its cursor stood before.  Descending again therefore
/// re-enters it at cursor 0.
pub proof fn lemma_reset_on_ascend(m: MenuV)
    requires
        menu_wf(m),
        current_item(m) is Back,
    ensures
        m.depth >= 1,
        ({
            let after = MenuV { root: reset_sub(m.root, m.depth as nat), depth: m.depth - 1 };
            &&& menu_wf(after)
            &&& current_item(after) matches ItemV::SubMenu(s) && s.position == 0
        }),
{
    if m.depth == 0 {
        assert(item_wf(m.root.items[m.root.position]));
    }
    lemma_reset_preserves(m.root, m.depth as nat);
    lemma_path_step(m.root, m.depth as nat);
}

/// The name of an entry, before any decoration.
pub open spec fn item_name(it: ItemV) -> Seq<char> {
    match it {
        ItemV::Action { name, .. } => name,
        ItemV::SubMenu(s) => s.name,
        ItemV::Back => "Back"@,
    }
}

/// The activity flag attached to an entry, if any.
pub open spec fn mark_of(it: ItemV) -> Option<u64> {
    match it {
        ItemV::Action { mark, .. } => mark,
        ItemV::SubMenu(s) => s.mark,
        ItemV::Back => None,
    }
}

/// Toggling the activity flag an entry carries changes its resolved display
/// name: decorated while the flag reads true, the bare name while it reads
/// false.  Toggling the flag back restores the previous name, since the
/// label depends on the host only through that flag
/// (`lemma_label_congruence`).
pub proof fn lemma_active_decoration<H: MenuHost>(it: ItemV, h_on: H, h_off: H)
    requires
        !(it is Back),
        mark_of(it) matches Some(id) && h_on.active_now(id) && !h_off.active_now(id),
    ensures
        item_label(it, h_off) == item_name(it),
        item_label(it, h_on) == "* "@ + item_name(it) + " *"@,
        item_label(it, h_on) != item_label(it, h_off),
{
    reveal_strlit("* ");
    reveal_strlit(" *");
    assert(item_label(it, h_on).len() == item_name(it).len() + 4);
}

} // verus!
