//! What lies inside what: the way down from a folder and the way up from an item agree.
use vstd::prelude::*;
use crate::tree::{children, children_membership, insert_sorted, is_child};
use crate::walk::{
    all_below, ancestors, below, chain, descendants_are_the_subtree, ends, lookup, walk_ends, Walk,
};
use crate::xochitl::ItemView;

verus! {

/// Whether no two items have the same UUID.
pub open spec fn distinct_uuids(s: Seq<ItemView>) -> bool {
    forall|i: int, j: int| 0 <= i < j < s.len() ==> (#[trigger] s[i]).uuid != (#[trigger] s[j]).uuid
}

/// Whether the way up from a UUID ends: it is not longer than the listing, or it leads to something
/// that is not listed.
pub open spec fn way_up_ends(items: Seq<ItemView>, uuid: Seq<char>) -> bool {
    let up = ancestors(items, uuid);
    up.len() <= items.len() || lookup(items, up.last()) is None
}

/// Whether the parents of no item form a cycle.
pub open spec fn acyclic(items: Seq<ItemView>) -> bool {
    forall|i: int| 0 <= i < items.len() ==> way_up_ends(items, (#[trigger] items[i]).uuid)
}

/// Whether every item has a UUID.
pub open spec fn all_have_uuids(items: Seq<ItemView>) -> bool {
    forall|i: int| 0 <= i < items.len() ==> (#[trigger] items[i]).uuid.len() > 0
}

proof fn lookup_of_distinct(items: Seq<ItemView>, k: int)
    requires
        distinct_uuids(items),
        0 <= k < items.len(),
    ensures
        lookup(items, items[k].uuid) == Some(items[k]),
    decreases items.len(),
{
    if k < items.len() - 1 {
        assert(items[k].uuid != items[items.len() - 1].uuid);
        let rest = items.drop_last();
        assert forall|i: int, j: int| 0 <= i < j < rest.len() implies (#[trigger] rest[i]).uuid != (
        #[trigger] rest[j]).uuid by {
            assert(items[i].uuid != items[j].uuid);
        }
        lookup_of_distinct(rest, k);
    }
}

proof fn lookup_is_listed(items: Seq<ItemView>, uuid: Seq<char>) -> (k: int)
    requires
        lookup(items, uuid) is Some,
    ensures
        0 <= k < items.len(),
        lookup(items, uuid) == Some(items[k]),
        items[k].uuid == uuid,
    decreases items.len(),
{
    if items.last().uuid == uuid {
        items.len() - 1
    } else {
        lookup_is_listed(items.drop_last(), uuid)
    }
}

/// A chain that is not cut off, because it is short or ends at something unknown, is whole.
proof fn whole_chains_stay(items: Seq<ItemView>, uuid: Seq<char>, n: nat)
    requires
        ({
            let up = chain(items, uuid, n);
            up.len() < n || (up.len() > 0 && lookup(items, up.last()) is None)
        }),
    ensures
        chain(items, uuid, n + 1) == chain(items, uuid, n),
    decreases n,
{
    if uuid.len() > 0 {
        if let Some(item) = lookup(items, uuid) {
            let up = chain(items, uuid, n);
            let rest = chain(items, item.parent, (n - 1) as nat);
            assert(up == seq![uuid] + rest);
            if rest.len() == 0 {
                assert(up.last() == uuid);
            } else {
                assert(up.last() == rest.last());
            }
            whole_chains_stay(items, item.parent, (n - 1) as nat);
        }
    }
}

/// The way up from an item is the item, and the way up from its parent.
pub proof fn ways_up_go_through_parents(items: Seq<ItemView>, k: int)
    requires
        distinct_uuids(items),
        acyclic(items),
        0 <= k < items.len(),
        items[k].uuid.len() > 0,
    ensures
        ancestors(items, items[k].uuid) == seq![items[k].uuid] + ancestors(items, items[k].parent),
{
    let n = items.len();
    let item = items[k];
    lookup_of_distinct(items, k);
    assert(way_up_ends(items, items[k].uuid));
    let up = ancestors(items, item.uuid);
    let rest = chain(items, item.parent, n);
    assert(up == seq![item.uuid] + rest);
    if rest.len() == n {
        assert(up.last() == rest.last());
    }
    whole_chains_stay(items, item.parent, n);
}

proof fn way_up_starts_with(items: Seq<ItemView>, uuid: Seq<char>)
    requires
        uuid.len() > 0,
    ensures
        ancestors(items, uuid).len() > 0,
        ancestors(items, uuid)[0] == uuid,
{
}

/// A way up is not longer than the listing, but for something unknown at its end.
proof fn ways_up_are_short(items: Seq<ItemView>, uuid: Seq<char>, n: nat)
    ensures
        chain(items, uuid, n).len() <= n,
    decreases n,
{
    if n > 0 && uuid.len() > 0 {
        if let Some(item) = lookup(items, uuid) {
            ways_up_are_short(items, item.parent, (n - 1) as nat);
        }
    }
}

/// Whether the way up from one UUID goes through all of the way up from another, and starts
/// before it.
spec fn is_inside(items: Seq<ItemView>, uuid: Seq<char>, root: Seq<char>) -> bool {
    let up = ancestors(items, uuid);
    let top = ancestors(items, root);
    up.len() > top.len() && up.skip(up.len() - top.len()) == top
}

/// The element of a way up that is followed by `d` others.
spec fn at_level(items: Seq<ItemView>, uuid: Seq<char>, d: int) -> Seq<char> {
    let up = ancestors(items, uuid);
    up[up.len() - 1 - d]
}

/// What a listing without cycles, doubles and empty UUIDs is.
spec fn is_tree(items: Seq<ItemView>) -> bool {
    distinct_uuids(items) && acyclic(items) && all_have_uuids(items)
}

/// Whether these are different children of one parent.
spec fn are_siblings(items: Seq<ItemView>, root: Seq<char>, kids: Seq<ItemView>) -> bool {
    &&& distinct_uuids(kids)
    &&& forall|i: int|
        0 <= i < kids.len() ==> items.contains(#[trigger] kids[i]) && kids[i].parent == root
}

proof fn insert_sorted_inserts(s: Seq<ItemView>, x: ItemView) -> (p: int)
    ensures
        0 <= p <= s.len(),
        insert_sorted(s, x) == s.insert(p, x),
    decreases s.len(),
{
    let r = insert_sorted(s, x);
    if r == s.push(x) {
        assert(s.push(x) =~= s.insert(s.len() as int, x));
        s.len() as int
    } else {
        let p = insert_sorted_inserts(s.drop_last(), x);
        assert(s.drop_last().insert(p, x).push(s.last()) =~= s.insert(p, x));
        p
    }
}

proof fn children_are_siblings(items: Seq<ItemView>, root: Seq<char>)
    requires
        distinct_uuids(items),
    ensures
        are_siblings(items, root, children(items, root, false)),
    decreases items.len(),
{
    let kids = children(items, root, false);
    assert forall|i: int| 0 <= i < kids.len() implies items.contains(#[trigger] kids[i])
        && kids[i].parent == root by {
        assert(kids.contains(kids[i]));
        children_membership(items, root, false, kids[i]);
    }
    if items.len() > 0 {
        let rest = items.drop_last();
        let last = items.last();
        assert forall|i: int, j: int| 0 <= i < j < rest.len() implies (#[trigger] rest[i]).uuid != (
        #[trigger] rest[j]).uuid by {
            assert(items[i].uuid != items[j].uuid);
        }
        children_are_siblings(rest, root);
        let before = children(rest, root, false);
        if is_child(last, root, false) {
            let p = insert_sorted_inserts(before, last);
            assert forall|i: int| 0 <= i < before.len() implies (#[trigger] before[i]).uuid
                != last.uuid by {
                let k = choose|k: int| 0 <= k < rest.len() && rest[k] == before[i];
                assert(items[k].uuid != items[items.len() - 1].uuid);
            }
            assert forall|i: int, j: int| 0 <= i < j < kids.len() implies (#[trigger] kids[i]).uuid
                != (#[trigger] kids[j]).uuid by {
                let a = if i < p {
                    i
                } else {
                    i - 1
                };
                let b = if j < p {
                    j
                } else {
                    j - 1
                };
                if i != p && j != p {
                    assert(before[a].uuid != before[b].uuid);
                } else if i == p {
                    assert(before[b].uuid != last.uuid);
                } else {
                    assert(before[a].uuid != last.uuid);
                }
            }
        }
    }
}

/// A child is inside its parent, and is the element of its own level.
proof fn kids_are_inside(items: Seq<ItemView>, root: Seq<char>, kid: ItemView)
    requires
        is_tree(items),
        items.contains(kid),
        kid.parent == root,
    ensures
        is_inside(items, kid.uuid, root),
        ancestors(items, kid.uuid) == seq![kid.uuid] + ancestors(items, root),
        at_level(items, kid.uuid, ancestors(items, root).len() as int) == kid.uuid,
{
    let k = choose|k: int| 0 <= k < items.len() && items[k] == kid;
    assert(items[k].uuid.len() > 0);
    ways_up_go_through_parents(items, k);
    let up = ancestors(items, kid.uuid);
    let top = ancestors(items, root);
    assert(up.skip(1) =~= top);
}

/// What is inside a child is inside the parent, on the branch of that child.
proof fn insides_nest(items: Seq<ItemView>, root: Seq<char>, kid: ItemView, uuid: Seq<char>)
    requires
        is_tree(items),
        items.contains(kid),
        kid.parent == root,
        is_inside(items, uuid, kid.uuid),
    ensures
        is_inside(items, uuid, root),
        ancestors(items, uuid).len() > ancestors(items, root).len() + 1,
        at_level(items, uuid, ancestors(items, root).len() as int) == kid.uuid,
{
    kids_are_inside(items, root, kid);
    let up = ancestors(items, uuid);
    let mid = ancestors(items, kid.uuid);
    let top = ancestors(items, root);
    let k = up.len() - mid.len();
    assert(up.skip(k)[0] == mid[0]);
    assert(up.skip(k + 1) =~= mid.skip(1));
    assert(mid.skip(1) =~= top);
}

/// All that is below siblings is inside their parent, each on the branch of one of them, no two with
/// one UUID, and parents come first.
proof fn below_is_inside(
    items: Seq<ItemView>,
    root: Seq<char>,
    kids: Seq<ItemView>,
    n: nat,
    fuel: nat,
)
    requires
        is_tree(items),
        are_siblings(items, root, kids),
        n <= kids.len(),
    ensures
        ({
            let all = below(items, kids, n, fuel);
            let d = ancestors(items, root).len() as int;
            &&& forall|i: int|
                0 <= i < all.len() ==> items.contains(#[trigger] all[i]) && is_inside(
                    items,
                    all[i].uuid,
                    root,
                ) && on_branch(items, kids, n, all[i].uuid, d)
            &&& distinct_uuids(all)
            &&& forall|i: int, j: int|
                0 <= i < all.len() && 0 <= j < all.len() && (#[trigger] all[i]).parent == (
                #[trigger] all[j]).uuid ==> j < i
        }),
    decreases fuel, n,
{
    if n > 0 {
        let m = (n - 1) as nat;
        let kid = kids[n - 1];
        let d = ancestors(items, root).len() as int;
        let prefix = below(items, kids, m, fuel);
        let sub = children(items, kid.uuid, false);
        let rest = if fuel > 0 {
            below(items, sub, sub.len(), (fuel - 1) as nat)
        } else {
            Seq::empty()
        };
        let all = below(items, kids, n, fuel);
        assert(all == prefix.push(kid) + rest);
        below_is_inside(items, root, kids, m, fuel);
        children_are_siblings(items, kid.uuid);
        if fuel > 0 {
            below_is_inside(items, kid.uuid, sub, sub.len(), (fuel - 1) as nat);
        }
        kids_are_inside(items, root, kid);
        let at = prefix.len() as int;
        assert forall|i: int| 0 <= i < all.len() implies items.contains(#[trigger] all[i])
            && is_inside(items, all[i].uuid, root) && on_branch(items, kids, n, all[i].uuid, d)
            && (i < at ==> on_branch(items, kids, m, all[i].uuid, d)) && (i >= at ==> at_level(
            items,
            all[i].uuid,
            d,
        ) == kid.uuid) && (i > at ==> ancestors(items, all[i].uuid).len() > d + 1) by {
            if i < at {
                assert(all[i] == prefix[i]);
                let k = choose|k: int|
                    0 <= k < m && (#[trigger] kids[k]).uuid == at_level(items, all[i].uuid, d);
                assert(kids[k].uuid == at_level(items, all[i].uuid, d));
            } else if i == at {
                assert(all[i] == kid);
                assert(kids[n - 1].uuid == at_level(items, all[i].uuid, d));
            } else {
                assert(all[i] == rest[i - at - 1]);
                insides_nest(items, root, kid, all[i].uuid);
                assert(kids[n - 1].uuid == at_level(items, all[i].uuid, d));
            }
        }
        assert forall|i: int, j: int| 0 <= i < j < all.len() implies (#[trigger] all[i]).uuid != (
        #[trigger] all[j]).uuid by {
            if i < at && j < at {
                assert(prefix[i].uuid != prefix[j].uuid);
            } else if i < at {
                branches_differ(items, kids, m, all[i].uuid, all[j].uuid, d);
            } else if i == at {
                assert(all[i] == kid);
                assert(ancestors(items, kid.uuid).len() == d + 1);
            } else {
                assert(rest[i - at - 1].uuid != rest[j - at - 1].uuid);
            }
        }
        assert forall|i: int, j: int|
            0 <= i < all.len() && 0 <= j < all.len() && (#[trigger] all[i]).parent == (
            #[trigger] all[j]).uuid implies j < i by {
            kids_are_inside(items, all[j].uuid, all[i]);
            let up = ancestors(items, all[i].uuid);
            let above = ancestors(items, all[j].uuid);
            assert(up == seq![all[i].uuid] + above);
            assert(above.len() > d);
            assert(at_level(items, all[i].uuid, d) == at_level(items, all[j].uuid, d));
            if i < at && j < at {
                assert(prefix[i].parent == prefix[j].uuid);
            } else if i < at {
                branches_differ(items, kids, m, all[i].uuid, all[j].uuid, d);
            } else if i == at {
                assert(ancestors(items, kid.uuid).len() == d + 1);
            } else if j > at {
                assert(rest[i - at - 1].parent == rest[j - at - 1].uuid);
            }
        }
    }
}

/// Whether a way up goes through one of the first `n` siblings.
spec fn on_branch(
    items: Seq<ItemView>,
    kids: Seq<ItemView>,
    n: nat,
    uuid: Seq<char>,
    d: int,
) -> bool {
    exists|k: int| 0 <= k < n && (#[trigger] kids[k]).uuid == at_level(items, uuid, d)
}

proof fn branches_differ(
    items: Seq<ItemView>,
    kids: Seq<ItemView>,
    m: nat,
    a: Seq<char>,
    b: Seq<char>,
    d: int,
)
    requires
        distinct_uuids(kids),
        m < kids.len(),
        on_branch(items, kids, m, a, d),
        at_level(items, b, d) == kids[m as int].uuid,
    ensures
        at_level(items, a, d) != at_level(items, b, d),
        a != b,
{
    let k = choose|k: int| 0 <= k < m && (#[trigger] kids[k]).uuid == at_level(items, a, d);
    assert(kids[k].uuid != kids[m as int].uuid);
}

/// The walk down ends: on each level the ways up are one longer, and they are not longer than the
/// listing.
proof fn trees_end(
    items: Seq<ItemView>,
    root: Seq<char>,
    kids: Seq<ItemView>,
    n: nat,
    fuel: nat,
)
    requires
        is_tree(items),
        are_siblings(items, root, kids),
        n <= kids.len(),
        ancestors(items, root).len() + fuel >= items.len(),
    ensures
        ends(items, false, Walk::Every, kids, n, fuel),
    decreases fuel, n,
{
    if n > 0 {
        let kid = kids[n - 1];
        let sub = children(items, kid.uuid, false);
        trees_end(items, root, kids, (n - 1) as nat, fuel);
        if sub.len() > 0 {
            children_are_siblings(items, kid.uuid);
            kids_are_inside(items, root, kid);
            kids_are_inside(items, kid.uuid, sub[0]);
            ways_up_are_short(items, sub[0].uuid, items.len() + 1);
            assert(fuel > 0) by {
                if fuel == 0 {
                    assert(ancestors(items, sub[0].uuid).len() == ancestors(items, root).len() + 2);
                }
            }
            trees_end(items, kid.uuid, sub, sub.len(), (fuel - 1) as nat);
        }
    }
}

proof fn insiders_are_below(items: Seq<ItemView>, root: Seq<char>, k: int)
    requires
        is_tree(items),
        root.len() > 0,
        walk_ends(items, false, Walk::Every, root),
        0 <= k < items.len(),
        items[k].uuid != root,
        ancestors(items, items[k].uuid).contains(root),
    ensures
        all_below(items, root).contains(items[k]),
    decreases ancestors(items, items[k].uuid).len(),
{
    let x = items[k];
    assert(items[k].uuid.len() > 0);
    ways_up_go_through_parents(items, k);
    descendants_are_the_subtree(items, root);
    let up = ancestors(items, x.uuid);
    let above = ancestors(items, x.parent);
    assert(up == seq![x.uuid] + above);
    assert(items.contains(x));
    if x.parent != root {
        let i = choose|i: int| 0 <= i < up.len() && up[i] == root;
        assert(up[0] == x.uuid);
        assert(above[i - 1] == root);
        assert(above.contains(root));
        assert(x.parent.len() > 0);
        assert(above[0] == x.parent);
        assert(lookup(items, x.parent) is Some);
        let j = lookup_is_listed(items, x.parent);
        insiders_are_below(items, root, j);
        assert(all_below(items, root).contains(items[j]));
    }
}

/// The way down and the way up agree: where UUIDs are there and distinct and parents form no cycle,
/// the descendants of a folder are the other items whose way up goes through it, that is those that
/// are descendants of it one by one. No item comes twice, and a folder comes before what is in it.
pub proof fn descendants_are_inside(items: Seq<ItemView>, parent: Seq<char>)
    requires
        distinct_uuids(items),
        all_have_uuids(items),
        acyclic(items),
        parent.len() > 0,
    ensures
        walk_ends(items, false, Walk::Every, parent),
        forall|x: ItemView| #[trigger]
            all_below(items, parent).contains(x) <==> items.contains(x) && x.uuid != parent
                && ancestors(items, x.uuid).contains(parent),
        distinct_uuids(all_below(items, parent)),
        forall|i: int, j: int|
            0 <= i < all_below(items, parent).len() && 0 <= j < all_below(items, parent).len() && (
            #[trigger] all_below(items, parent)[i]).parent == (#[trigger] all_below(
                items,
                parent,
            )[j]).uuid ==> j < i,
{
    let kids = children(items, parent, false);
    let all = all_below(items, parent);
    children_are_siblings(items, parent);
    trees_end(items, parent, kids, kids.len(), items.len());
    below_is_inside(items, parent, kids, kids.len(), items.len());
    way_up_starts_with(items, parent);
    assert forall|x: ItemView| #[trigger] all.contains(x) <==> items.contains(x) && x.uuid != parent
        && ancestors(items, x.uuid).contains(parent) by {
        if all.contains(x) {
            let i = choose|i: int| 0 <= i < all.len() && all[i] == x;
            assert(items.contains(all[i]));
            let up = ancestors(items, x.uuid);
            let top = ancestors(items, parent);
            assert(up.skip(up.len() - top.len())[0] == top[0]);
            assert(up[up.len() - top.len()] == parent);
        }
        if items.contains(x) && x.uuid != parent && ancestors(items, x.uuid).contains(parent) {
            let k = choose|k: int| 0 <= k < items.len() && items[k] == x;
            insiders_are_below(items, parent, k);
        }
    }
}

} // verus!
