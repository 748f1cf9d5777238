//! The mathematical model of the menu tree and of its transitions.
//!
//! Every executable type of the library has a view into these ghost types,
//! and every public operation is specified as a function on them.

use vstd::prelude::*;

verus! {

/// One tree node: an action leaf, a nested submenu, or the virtual Back
/// entry.  Back is never stored in a children list; it is implied whenever a
/// submenu's cursor equals its child count.
pub ghost enum ItemV {
    Action { name: Seq<char>, act: u64, mark: Option<u64> },
    SubMenu(SubMenuV),
    Back,
}

/// An interior node: a name, an ordered children list, a cursor into it, and
/// an optional activity flag identifier used to decorate the displayed name.
pub ghost struct SubMenuV {
    pub name: Seq<char>,
    pub position: int,
    pub items: Seq<ItemV>,
    pub mark: Option<u64>,
}

/// The whole engine state: the root submenu and the number of confirmed
/// descents currently in effect (0 = root).
pub ghost struct MenuV {
    pub root: SubMenuV,
    pub depth: int,
}

/// The submenu entered from `s`, read at its cursor.  Meaningful only when
/// the cursor lands on a `SubMenu` child.
pub open spec fn child_sub(s: SubMenuV) -> SubMenuV {
    match s.items[s.position] {
        ItemV::SubMenu(c) => c,
        _ => arbitrary(),
    }
}

/// Well-formedness of one node.  The virtual Back entry never appears inside
/// a children list.
pub open spec fn item_wf(it: ItemV) -> bool
    decreases it,
{
    match it {
        ItemV::Action { .. } => true,
        ItemV::SubMenu(s) => sub_wf(s),
        ItemV::Back => false,
    }
}

/// Well-formedness of a submenu: at least one child, a cursor within
/// `[0, len]` (`len` meaning Back is highlighted), and well-formed children.
pub open spec fn sub_wf(s: SubMenuV) -> bool
    decreases s,
{
    &&& 1 <= s.items.len() < usize::MAX
    &&& 0 <= s.position <= s.items.len()
    &&& forall|i: int| 0 <= i < s.items.len() ==> item_wf(#[trigger] s.items[i])
}

/// Nesting height of one item: 0 for leaves.
pub open spec fn item_height(it: ItemV) -> nat
    decreases it,
{
    match it {
        ItemV::SubMenu(s) => sub_height(s),
        _ => 0,
    }
}

/// Nesting height of a submenu: one more than its tallest child.
pub open spec fn sub_height(s: SubMenuV) -> nat
    decreases s,
{
    1 + items_height(s.items)
}

/// The tallest height among a list of items.
pub open spec fn items_height(s: Seq<ItemV>) -> nat
    decreases s,
{
    if s.len() == 0 {
        0
    } else {
        let rest = items_height(s.drop_last());
        let last = item_height(s.last());
        if last > rest {
            last
        } else {
            rest
        }
    }
}

/// Walking `d` confirmed selections from `s` stays on submenu nodes: at each
/// of the first `d` levels the cursor lands on a `SubMenu` child.
pub open spec fn path_ok(s: SubMenuV, d: nat) -> bool
    decreases d,
{
    d > 0 ==> {
        &&& 0 <= s.position < s.items.len()
        &&& s.items[s.position] is SubMenu
        &&& path_ok(child_sub(s), (d - 1) as nat)
    }
}

/// The active submenu: the node reached by following cursors from `s` for
/// `d` steps.
pub open spec fn sub_at(s: SubMenuV, d: nat) -> SubMenuV
    decreases d,
{
    if d == 0 {
        s
    } else {
        sub_at(child_sub(s), (d - 1) as nat)
    }
}

/// The highlighted entry of one submenu: the child at the cursor, or the
/// virtual Back entry when the cursor equals the child count.
pub open spec fn sub_current(s: SubMenuV) -> ItemV {
    if s.position == s.items.len() {
        ItemV::Back
    } else {
        s.items[s.position]
    }
}

/// The highlighted entry of the whole menu.
pub open spec fn current_item(m: MenuV) -> ItemV {
    sub_current(sub_at(m.root, m.depth as nat))
}

/// The cursor after one advance.  At root level Back is excluded from the
/// cycle (the root has no parent to return to); below root it is included.
pub open spec fn next_position(pos: int, len: int, root_level: bool) -> int {
    if root_level {
        (pos + 1) % len
    } else {
        (pos + 1) % (len + 1)
    }
}

/// The tree after advancing the cursor of the submenu at depth `d`.
pub open spec fn advance_sub(s: SubMenuV, d: nat, root_level: bool) -> SubMenuV
    decreases d,
{
    if d == 0 {
        SubMenuV { position: next_position(s.position, s.items.len() as int, root_level), ..s }
    } else {
        SubMenuV {
            items: s.items.update(
                s.position,
                ItemV::SubMenu(advance_sub(child_sub(s), (d - 1) as nat, root_level)),
            ),
            ..s
        }
    }
}

/// The tree after resetting the cursor of the submenu at depth `d` to 0,
/// the policy applied to a level vacated through Back.
pub open spec fn reset_sub(s: SubMenuV, d: nat) -> SubMenuV
    decreases d,
{
    if d == 0 {
        SubMenuV { position: 0, ..s }
    } else {
        SubMenuV {
            items: s.items.update(
                s.position,
                ItemV::SubMenu(reset_sub(child_sub(s), (d - 1) as nat)),
            ),
            ..s
        }
    }
}

/// The standing invariant of a menu: a well-formed tree, a valid walk of
/// `depth` submenu selections, no Back highlight at root level, and a
/// nesting height small enough for the depth counter.
pub open spec fn menu_wf(m: MenuV) -> bool {
    &&& sub_wf(m.root)
    &&& 0 <= m.depth
    &&& path_ok(m.root, m.depth as nat)
    &&& (m.depth == 0 ==> m.root.position < m.root.items.len())
    &&& sub_height(m.root) < usize::MAX
}

/// Replacing an item by one of equal height leaves the tallest height
/// unchanged.
proof fn lemma_items_height_update(s: Seq<ItemV>, i: int, x: ItemV)
    requires
        0 <= i < s.len(),
        item_height(x) == item_height(s[i]),
    ensures
        items_height(s.update(i, x)) == items_height(s),
    decreases s.len(),
{
    let t = s.update(i, x);
    if i == s.len() - 1 {
        assert(t.drop_last() =~= s.drop_last());
        assert(t.last() == x);
    } else {
        assert(t.drop_last() =~= s.drop_last().update(i, x));
        assert(t.last() == s.last());
        lemma_items_height_update(s.drop_last(), i, x);
    }
}

/// No item outgrows its list's tallest height.
proof fn lemma_items_height_ge(s: Seq<ItemV>, i: int)
    requires
        0 <= i < s.len(),
    ensures
        item_height(s[i]) <= items_height(s),
    decreases s.len(),
{
    if i < s.len() - 1 {
        lemma_items_height_ge(s.drop_last(), i);
        assert(s.drop_last()[i] == s[i]);
    }
}

/// The active submenu of a well-formed tree is well-formed.
pub proof fn lemma_sub_at_wf(s: SubMenuV, d: nat)
    requires
        sub_wf(s),
        path_ok(s, d),
    ensures
        sub_wf(sub_at(s, d)),
    decreases d,
{
    if d > 0 {
        assert(item_wf(s.items[s.position]));
        lemma_sub_at_wf(child_sub(s), (d - 1) as nat);
    }
}

/// A valid walk of d selections needs a tree of height at least d.
pub proof fn lemma_path_le_height(s: SubMenuV, d: nat)
    requires
        path_ok(s, d),
    ensures
        d <= sub_height(s),
    decreases d,
{
    if d > 0 {
        lemma_path_le_height(child_sub(s), (d - 1) as nat);
        lemma_items_height_ge(s.items, s.position);
    }
}

/// When the active submenu's cursor lands on a submenu child, the walk
/// extends by one level, into that child.
pub proof fn lemma_path_extend(s: SubMenuV, d: nat)
    requires
        sub_wf(s),
        path_ok(s, d),
        0 <= sub_at(s, d).position < sub_at(s, d).items.len(),
        sub_at(s, d).items[sub_at(s, d).position] is SubMenu,
    ensures
        path_ok(s, (d + 1) as nat),
        sub_at(s, (d + 1) as nat) == child_sub(sub_at(s, d)),
    decreases d,
{
    if d > 0 {
        assert(item_wf(s.items[s.position]));
        lemma_path_extend(child_sub(s), (d - 1) as nat);
        assert(path_ok(child_sub(s), ((d - 1) as nat + 1) as nat));
        assert(((d - 1) as nat + 1) as nat == d);
        assert(sub_at(s, (d + 1) as nat) == sub_at(child_sub(s), d));
    } else {
        assert(sub_at(s, 0) == s);
        assert(path_ok(child_sub(s), 0));
        assert(sub_at(s, 1) == sub_at(child_sub(s), 0));
    }
}

/// One level above the active submenu, the cursor highlights the submenu
/// child through which the walk descends.
pub proof fn lemma_path_step(s: SubMenuV, d: nat)
    requires
        path_ok(s, d),
        d >= 1,
    ensures
        path_ok(s, (d - 1) as nat),
        0 <= sub_at(s, (d - 1) as nat).position < sub_at(s, (d - 1) as nat).items.len(),
        sub_at(s, (d - 1) as nat).items[sub_at(s, (d - 1) as nat).position] is SubMenu,
        child_sub(sub_at(s, (d - 1) as nat)) == sub_at(s, d),
    decreases d,
{
    if d > 1 {
        lemma_path_step(child_sub(s), (d - 1) as nat);
        assert(sub_at(s, d) == sub_at(child_sub(s), (d - 1) as nat));
        assert(sub_at(s, (d - 1) as nat) == sub_at(child_sub(s), (d - 2) as nat));
    } else {
        assert(sub_at(s, 1) == sub_at(child_sub(s), 0));
        assert(sub_at(child_sub(s), 0) == child_sub(s));
    }
}

/// Advancing the cursor at depth d keeps the tree well-formed, keeps the
/// walk valid, keeps the height, and moves exactly that cursor one step.
pub proof fn lemma_advance_preserves(s: SubMenuV, d: nat, rl: bool)
    requires
        sub_wf(s),
        path_ok(s, d),
    ensures
        sub_wf(advance_sub(s, d, rl)),
        path_ok(advance_sub(s, d, rl), d),
        sub_height(advance_sub(s, d, rl)) == sub_height(s),
        sub_at(advance_sub(s, d, rl), d) == (SubMenuV {
            position: next_position(sub_at(s, d).position, sub_at(s, d).items.len() as int, rl),
            ..sub_at(s, d)
        }),
        rl && d == 0 ==> advance_sub(s, d, rl).position < advance_sub(s, d, rl).items.len(),
    decreases d,
{
    lemma_sub_at_wf(s, d);
    if d == 0 {
    } else {
        let c = child_sub(s);
        assert(item_wf(s.items[s.position]));
        lemma_advance_preserves(c, (d - 1) as nat, rl);
        let c2 = advance_sub(c, (d - 1) as nat, rl);
        let s2 = advance_sub(s, d, rl);
        assert(s2.items[s.position] == ItemV::SubMenu(c2));
        assert forall|i: int| 0 <= i < s2.items.len() implies item_wf(#[trigger] s2.items[i]) by {
            if i != s.position {
                assert(s2.items[i] == s.items[i]);
                assert(item_wf(s.items[i]));
            }
        }
        lemma_items_height_update(s.items, s.position, ItemV::SubMenu(c2));
    }
}

/// Resetting the cursor at a vacated depth d keeps the tree well-formed,
/// keeps the height, keeps the walk valid up to the level above, and leaves
/// that level highlighting the vacated submenu, now at cursor 0.
pub proof fn lemma_reset_preserves(s: SubMenuV, d: nat)
    requires
        sub_wf(s),
        path_ok(s, d),
        d >= 1,
    ensures
        sub_wf(reset_sub(s, d)),
        sub_height(reset_sub(s, d)) == sub_height(s),
        path_ok(reset_sub(s, d), (d - 1) as nat),
        reset_sub(s, d).position == s.position,
        reset_sub(s, d).items.len() == s.items.len(),
        sub_at(reset_sub(s, d), (d - 1) as nat) == (SubMenuV {
            items: sub_at(s, (d - 1) as nat).items.update(
                sub_at(s, (d - 1) as nat).position,
                ItemV::SubMenu((SubMenuV { position: 0, ..sub_at(s, d) })),
            ),
            ..sub_at(s, (d - 1) as nat)
        }),
    decreases d,
{
    let c = child_sub(s);
    assert(item_wf(s.items[s.position]));
    let c2 = reset_sub(c, (d - 1) as nat);
    let s2 = reset_sub(s, d);
    assert(s2.items[s.position] == ItemV::SubMenu(c2));
    if d == 1 {
        assert forall|i: int| 0 <= i < s2.items.len() implies item_wf(#[trigger] s2.items[i]) by {
            if i != s.position {
                assert(s2.items[i] == s.items[i]);
                assert(item_wf(s.items[i]));
            }
        }
        lemma_items_height_update(s.items, s.position, ItemV::SubMenu(c2));
    } else {
        lemma_reset_preserves(c, (d - 1) as nat);
        assert forall|i: int| 0 <= i < s2.items.len() implies item_wf(#[trigger] s2.items[i]) by {
            if i != s.position {
                assert(s2.items[i] == s.items[i]);
                assert(item_wf(s.items[i]));
            }
        }
        lemma_items_height_update(s.items, s.position, ItemV::SubMenu(c2));
    }
}

} // verus!
