use vstd::prelude::*;
use crate::config::{ComputedItem, ComputedMenu, ComputedProgram, ResolvedItem, ResolvedMenu};
use crate::text::{clone_bytes, clone_strings};

verus! {

/// Position, relative to a menu's `items_offset`, at which the subtree of its
/// `j`-th child is laid out: after all direct children and after the subtrees
/// of the earlier submenus.
pub open spec fn block_start(r: ResolvedMenu, j: int) -> int
    decreases r, j,
{
    if 0 < j <= r.items.len() {
        block_start(r, j - 1) + match r.items[j - 1] {
            ResolvedItem::Menu(c) => subtree_len(c),
            ResolvedItem::Program(_) => 0,
        }
    } else {
        r.items.len() as int
    }
}

/// Number of flat items that a menu's descendants occupy.
pub open spec fn subtree_len(r: ResolvedMenu) -> int
    decreases r, r.items.len() + 1,
{
    block_start(r, r.items.len() as int)
}


/// `item` is the flattened form of `child`, whose own children start at `offset`.
pub open spec fn item_flattened(child: ResolvedItem, item: ComputedItem, offset: int, items: Seq<ComputedItem>) -> bool
    decreases child,
{
    match child {
        ResolvedItem::Program(p) => item is Program && item->Program_0.command@ == p.command@,
        ResolvedItem::Menu(c) => item is Menu && item->Menu_0.items_offset == offset
            && menu_flattened(c, item->Menu_0, items),
    }
}

/// `m`, read against the flat array `items`, is the flattened form of `r`:
/// it keeps the arguments and input, its direct children stand in declaration
/// order at `items_offset`, and each submenu's subtree follows at its block.
pub open spec fn menu_flattened(r: ResolvedMenu, m: ComputedMenu, items: Seq<ComputedItem>) -> bool
    decreases r,
{
    &&& m.args@ == r.args@
    &&& m.input@ == r.input@
    &&& m.items_offset + subtree_len(r) <= items.len()
    &&& forall|j: int| 0 <= j < r.items.len() ==> item_flattened(
        #[trigger] r.items[j],
        items[m.items_offset + j],
        m.items_offset + block_start(r, j),
        items,
    )
}

/// Sizes only grow along the children: every submenu's block starts after
/// all direct children and inside the menu's subtree.
pub proof fn lemma_block_start_bounds(r: ResolvedMenu, j: int)
    requires
        0 <= j <= r.items.len(),
    ensures
        r.items.len() <= block_start(r, j) <= subtree_len(r),
        forall|i: int| 0 <= i <= j ==> r.items.len() <= #[trigger] block_start(r, i) <= block_start(r, j),
    decreases r, r.items.len() - j,
{
    if j < r.items.len() {
        lemma_block_start_bounds(r, j + 1);
        if let ResolvedItem::Menu(c) = r.items[j] {
            lemma_subtree_len_bounds(c);
        }
    }
    lemma_block_start_prefix(r, j);
}

proof fn lemma_block_start_prefix(r: ResolvedMenu, j: int)
    requires
        0 <= j <= r.items.len(),
    ensures
        r.items.len() <= block_start(r, j),
        forall|i: int| 0 <= i <= j ==> r.items.len() <= #[trigger] block_start(r, i) <= block_start(r, j),
    decreases r, j,
{
    if j > 0 {
        lemma_block_start_prefix(r, j - 1);
        if let ResolvedItem::Menu(c) = r.items[j - 1] {
            lemma_subtree_len_bounds(c);
        }
    }
}

pub proof fn lemma_block_start_mono(r: ResolvedMenu, i: int, j: int)
    requires
        0 <= i <= j <= r.items.len(),
    ensures
        block_start(r, i) <= block_start(r, j),
{
    lemma_block_start_prefix(r, j);
}

/// A menu's subtree holds at least its direct children.
pub proof fn lemma_subtree_len_bounds(r: ResolvedMenu)
    ensures
        subtree_len(r) >= r.items.len(),
    decreases r,
{
    lemma_block_start_prefix(r, r.items.len() as int);
}

/// Whether a menu is flattened depends only on the slots its subtree occupies.
#[verifier::rlimit(40)]
pub proof fn lemma_flattened_frame(r: ResolvedMenu, m: ComputedMenu, s1: Seq<ComputedItem>, s2: Seq<ComputedItem>)
    requires
        menu_flattened(r, m, s1),
        s2.len() >= m.items_offset + subtree_len(r),
        forall|k: int| m.items_offset <= k < m.items_offset + subtree_len(r) ==> s1[k] == s2[k],
    ensures
        menu_flattened(r, m, s2),
    decreases r,
{
    assert forall|j: int| 0 <= j < r.items.len() implies item_flattened(
        #[trigger] r.items[j],
        s2[m.items_offset + j],
        m.items_offset + block_start(r, j),
        s2,
    ) by {
        lemma_block_start_prefix(r, j + 1);
        lemma_block_start_bounds(r, j + 1);
        assert(s1[m.items_offset + j] == s2[m.items_offset + j]);
        if let ResolvedItem::Menu(c) = r.items[j] {
            let cm = s1[m.items_offset + j]->Menu_0;
            assert(block_start(r, j + 1) == block_start(r, j) + subtree_len(c));
            assert(cm.items_offset == m.items_offset + block_start(r, j));
            assert(block_start(r, j + 1) <= subtree_len(r));
            assert forall|k: int| cm.items_offset <= k < cm.items_offset + subtree_len(c) implies s1[k] == s2[k] by {
                assert(m.items_offset <= k < m.items_offset + subtree_len(r));
            };
            lemma_flattened_frame(c, cm, s1, s2);
        }
    };
}

/// Laying out the subtree of submenu `i` and pointing its slot at it keeps
/// the earlier children flattened and makes child `i` flattened too.
#[verifier::rlimit(40)]
proof fn lemma_place_submenu(
    r: ResolvedMenu,
    lo: int,
    i: int,
    before: Seq<ComputedItem>,
    appended: Seq<ComputedItem>,
    sub: ComputedMenu,
)
    requires
        0 <= lo,
        0 <= i < r.items.len(),
        r.items[i] is Menu,
        before.len() == lo + block_start(r, i),
        appended.len() == before.len() + subtree_len(r.items[i]->Menu_0),
        appended.subrange(0, before.len() as int) == before,
        sub.items_offset == before.len(),
        menu_flattened(r.items[i]->Menu_0, sub, appended),
        forall|j: int| 0 <= j < i ==> item_flattened(
            #[trigger] r.items[j],
            before[lo + j],
            lo + block_start(r, j),
            before,
        ),
    ensures
        appended.len() == lo + block_start(r, i + 1),
        forall|j: int| 0 <= j <= i ==> item_flattened(
            #[trigger] r.items[j],
            appended.update(lo + i, ComputedItem::Menu(sub))[lo + j],
            lo + block_start(r, j),
            appended.update(lo + i, ComputedItem::Menu(sub)),
        ),
{
    let after = appended.update(lo + i, ComputedItem::Menu(sub));
    let c = r.items[i]->Menu_0;
    lemma_block_start_bounds(r, i + 1);
    lemma_subtree_len_bounds(c);
    lemma_flattened_frame(c, sub, appended, after);
    assert forall|j: int| 0 <= j <= i implies item_flattened(
        #[trigger] r.items[j],
        after[lo + j],
        lo + block_start(r, j),
        after,
    ) by {
        if j < i {
            lemma_block_start_bounds(r, j + 1);
            lemma_block_start_mono(r, j + 1, i);
            assert(before[lo + j] == after[lo + j]);
            let off = lo + block_start(r, j);
            if let ResolvedItem::Menu(cj) = r.items[j] {
                assert(block_start(r, j + 1) == block_start(r, j) + subtree_len(cj));
                assert forall|k: int| off <= k < off + subtree_len(cj) implies before[k] == after[k] by {
                    assert(before[k] == appended[k]);
                };
            }
            lemma_item_frame(r.items[j], before[lo + j], off, before, after);
        }
    };
}

/// Whether an item is flattened depends only on the slots of its subtree.
proof fn lemma_item_frame(child: ResolvedItem, item: ComputedItem, offset: int, s1: Seq<ComputedItem>, s2: Seq<ComputedItem>)
    requires
        item_flattened(child, item, offset, s1),
        child matches ResolvedItem::Menu(c) ==> s2.len() >= offset + subtree_len(c) && forall|k: int|
            offset <= k < offset + subtree_len(c) ==> s1[k] == s2[k],
    ensures
        item_flattened(child, item, offset, s2),
{
    if let ResolvedItem::Menu(c) = child {
        lemma_flattened_frame(c, item->Menu_0, s1, s2);
    }
}

/// How many menus of the flattened subtree of `r`, laid out at `lo`, have a
/// block of direct children that holds slot `p`.
pub open spec fn block_owners(r: ResolvedMenu, lo: int, p: int) -> nat
    decreases r, r.items.len() + 1,
{
    (if lo <= p < lo + r.items.len() { 1nat } else { 0nat }) + child_block_owners(r, lo, p, r.items.len() as int)
}

/// The same count over the subtrees of the first `j` children only.
pub open spec fn child_block_owners(r: ResolvedMenu, lo: int, p: int, j: int) -> nat
    decreases r, j,
{
    if 0 < j <= r.items.len() {
        child_block_owners(r, lo, p, j - 1) + match r.items[j - 1] {
            ResolvedItem::Menu(c) => block_owners(c, lo + block_start(r, j - 1), p),
            ResolvedItem::Program(_) => 0,
        }
    } else {
        0
    }
}

/// The blocks of direct children never overlap: every slot that a menu's
/// flattened subtree occupies belongs to the block of exactly one menu, and
/// no block reaches outside the subtree.
pub proof fn lemma_blocks_partition(r: ResolvedMenu, lo: int, p: int)
    ensures
        block_owners(r, lo, p) == if lo <= p < lo + subtree_len(r) { 1nat } else { 0nat },
    decreases r, r.items.len() + 1,
{
    lemma_child_blocks(r, lo, p, r.items.len() as int);
    lemma_block_start_bounds(r, r.items.len() as int);
}

proof fn lemma_child_blocks(r: ResolvedMenu, lo: int, p: int, j: int)
    requires
        0 <= j <= r.items.len(),
    ensures
        child_block_owners(r, lo, p, j) == if lo + r.items.len() <= p < lo + block_start(r, j) {
            1nat
        } else {
            0nat
        },
    decreases r, j,
{
    if j > 0 {
        lemma_child_blocks(r, lo, p, j - 1);
        lemma_block_start_prefix(r, j - 1);
        match r.items[j - 1] {
            ResolvedItem::Menu(c) => {
                lemma_blocks_partition(c, lo + block_start(r, j - 1), p);
                lemma_subtree_len_bounds(c);
                assert(block_start(r, j) == block_start(r, j - 1) + subtree_len(c));
            },
            ResolvedItem::Program(_) => {
                assert(block_start(r, j) == block_start(r, j - 1));
            },
        }
    } else {
        assert(block_start(r, 0) == r.items.len());
    }
}

/// Two flat items hold the same data.
pub open spec fn same_item(a: ComputedItem, b: ComputedItem) -> bool {
    match (a, b) {
        (ComputedItem::Program(p), ComputedItem::Program(q)) => p.command@ == q.command@,
        (ComputedItem::Menu(m), ComputedItem::Menu(n)) => m.args@ == n.args@ && m.input@ == n.input@
            && m.items_offset == n.items_offset,
        _ => false,
    }
}

/// Every slot of a subtree past the direct children lies in the block of
/// one submenu.
proof fn lemma_find_child(r: ResolvedMenu, x: int, j: int)
    requires
        0 <= j <= r.items.len(),
        r.items.len() <= x < block_start(r, j),
    ensures
        exists|i: int| 0 <= i < j && r.items[i] is Menu && block_start(r, i) <= x < #[trigger] block_start(r, i + 1),
    decreases j,
{
    if j > 0 {
        if x < block_start(r, j - 1) {
            lemma_find_child(r, x, j - 1);
        } else {
            assert(r.items[j - 1] is Menu);
            assert(block_start(r, j - 1) <= x < block_start(r, (j - 1) + 1));
        }
    } else {
        assert(block_start(r, 0) == r.items.len());
    }
}

/// Two flattenings of one item at one offset hold the same data in its slot.
proof fn lemma_same_slot(child: ResolvedItem, a: ComputedItem, b: ComputedItem, offset: int, s1: Seq<ComputedItem>, s2: Seq<ComputedItem>)
    requires
        item_flattened(child, a, offset, s1),
        item_flattened(child, b, offset, s2),
    ensures
        same_item(a, b),
{
}

/// Flattening is deterministic: two flattenings of one resolved tree at the
/// same offset agree on the menu itself and on every slot of its subtree.
#[verifier::rlimit(60)]
pub proof fn lemma_flatten_deterministic(r: ResolvedMenu, m1: ComputedMenu, m2: ComputedMenu, s1: Seq<ComputedItem>, s2: Seq<ComputedItem>)
    requires
        menu_flattened(r, m1, s1),
        menu_flattened(r, m2, s2),
        m1.items_offset == m2.items_offset,
    ensures
        m1.args@ == m2.args@,
        m1.input@ == m2.input@,
        forall|k: int| m1.items_offset <= k < m1.items_offset + subtree_len(r) ==> same_item(#[trigger] s1[k], s2[k]),
    decreases r,
{
    let lo = m1.items_offset as int;
    assert forall|k: int| lo <= k < lo + subtree_len(r) implies same_item(#[trigger] s1[k], s2[k]) by {
        lemma_block_start_bounds(r, r.items.len() as int);
        if k < lo + r.items.len() {
            let j = k - lo;
            lemma_same_slot(r.items[j], s1[lo + j], s2[lo + j], lo + block_start(r, j), s1, s2);
        } else {
            lemma_find_child(r, k - lo, r.items.len() as int);
            let i = choose|i: int| 0 <= i < r.items.len() && r.items[i] is Menu && block_start(r, i) <= k - lo
                < #[trigger] block_start(r, i + 1);
            let c = r.items[i]->Menu_0;
            assert(item_flattened(r.items[i], s1[lo + i], lo + block_start(r, i), s1));
            assert(item_flattened(r.items[i], s2[lo + i], lo + block_start(r, i), s2));
            assert(block_start(r, i + 1) == block_start(r, i) + subtree_len(c));
            lemma_flatten_deterministic(c, s1[lo + i]->Menu_0, s2[lo + i]->Menu_0, s1, s2);
        }
    };
}

/// Every menu that flattening stores in the array is itself the flattened
/// form of a resolved menu: its block of direct children exists, holds them
/// in declaration order, and its input is that menu's input.
pub proof fn lemma_stored_menus_flattened(r: ResolvedMenu, m: ComputedMenu, s: Seq<ComputedItem>, k: int)
    requires
        menu_flattened(r, m, s),
        m.items_offset <= k < m.items_offset + subtree_len(r),
        s[k] is Menu,
    ensures
        exists|c: ResolvedMenu| #[trigger] menu_flattened(c, s[k]->Menu_0, s),
    decreases r,
{
    let lo = m.items_offset as int;
    lemma_block_start_bounds(r, r.items.len() as int);
    if k < lo + r.items.len() {
        let j = k - lo;
        assert(item_flattened(r.items[j], s[lo + j], lo + block_start(r, j), s));
        let c = r.items[j]->Menu_0;
        assert(menu_flattened(c, s[k]->Menu_0, s));
    } else {
        lemma_find_child(r, k - lo, r.items.len() as int);
        let i = choose|i: int| 0 <= i < r.items.len() && r.items[i] is Menu && block_start(r, i) <= k - lo
            < #[trigger] block_start(r, i + 1);
        let c = r.items[i]->Menu_0;
        assert(item_flattened(r.items[i], s[lo + i], lo + block_start(r, i), s));
        assert(block_start(r, i + 1) == block_start(r, i) + subtree_len(c));
        lemma_stored_menus_flattened(c, s[lo + i]->Menu_0, s, k);
    }
}

/// Appends the descendants of `resolved_menu` to `items` and returns the menu's
/// flattened form. Direct children are contiguous; each submenu's own subtree is
/// appended after everything laid out before it.
pub fn flatten_resolved_menu(resolved_menu: &ResolvedMenu, items: &mut Vec<ComputedItem>) -> (r: ComputedMenu)
    ensures
        r.items_offset == old(items).len(),
        final(items).len() == old(items).len() + subtree_len(*resolved_menu),
        final(items)@.subrange(0, old(items).len() as int) == old(items)@,
        menu_flattened(*resolved_menu, r, final(items)@),
    decreases resolved_menu,
{
    let items_offset = items.len();
    let n = resolved_menu.items.len();
    let ghost start = items@;

    // First pass: every direct child, so that siblings stay adjacent.
    let mut i: usize = 0;
    while i < n
        invariant
            i <= n == resolved_menu.items.len(),
            items_offset == start.len(),
            items.len() == items_offset + i,
            items@.subrange(0, items_offset as int) == start,
            forall|j: int| 0 <= j < i ==> match #[trigger] resolved_menu.items[j] {
                ResolvedItem::Program(p) => items[items_offset + j] is Program
                    && items[items_offset + j]->Program_0.command@ == p.command@,
                ResolvedItem::Menu(_) => items[items_offset + j] is Menu,
            },
        decreases n - i,
    {
        match &resolved_menu.items[i] {
            ResolvedItem::Menu(child) => {
                items.push(ComputedItem::Menu(ComputedMenu {
                    args: clone_strings(&child.args),
                    input: clone_bytes(&child.input),
                    items_offset: 0,
                }));
            },
            ResolvedItem::Program(program) => {
                items.push(ComputedItem::Program(ComputedProgram {
                    command: clone_strings(&program.command),
                }));
            },
        }
        i += 1;
    }

    // Second pass: lay out each submenu's subtree and point its slot at it.
    let mut i: usize = 0;
    while i < n
        invariant
            i <= n == resolved_menu.items.len(),
            items_offset == start.len(),
            items.len() == items_offset + block_start(*resolved_menu, i as int),
            items@.subrange(0, items_offset as int) == start,
            forall|j: int| 0 <= j < n ==> match #[trigger] resolved_menu.items[j] {
                ResolvedItem::Program(p) => items[items_offset + j] is Program
                    && items[items_offset + j]->Program_0.command@ == p.command@,
                ResolvedItem::Menu(_) => items[items_offset + j] is Menu,
            },
            forall|j: int| 0 <= j < i ==> item_flattened(
                #[trigger] resolved_menu.items[j],
                items[items_offset + j],
                items_offset + block_start(*resolved_menu, j),
                items@,
            ),
        decreases n - i,
    {
        let ghost before = items@;
        proof {
            lemma_block_start_bounds(*resolved_menu, i as int + 1);
        }
        if let ResolvedItem::Menu(child) = &resolved_menu.items[i] {
            let sub = flatten_resolved_menu(child, items);
            let ghost appended = items@;
            items.set(items_offset + i, ComputedItem::Menu(sub));
            proof {
                lemma_place_submenu(*resolved_menu, items_offset as int, i as int, before, appended, sub);
                assert(items@ == appended.update(items_offset + i, ComputedItem::Menu(sub)));
                assert(items@.subrange(0, items_offset as int) =~= start);
            }
        }
        i += 1;
    }

    ComputedMenu {
        args: clone_strings(&resolved_menu.args),
        input: clone_bytes(&resolved_menu.input),
        items_offset,
    }
}

} // verus!
