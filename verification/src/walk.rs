//! Walks down and up the item tree.
use vstd::prelude::*;
use crate::text::{contains_in, extend, from_chars, join, join_in, pieces, str_eq, to_chars, Class};
use crate::tree::{children, children_map, children_membership, is_child, ChildrenMap};
use crate::xochitl::{Item, ItemView};

verus! {

/// Which items a walk down the tree enters.
#[derive(Clone, Copy)]
pub enum Walk {
    /// Every item.
    Every,
    /// Folders.
    Folders,
    /// Folders whose name is usable as a file name and not shared with a sibling.
    Synced,
}

/// How many of the first `n` siblings have the given name.
pub open spec fn name_count(kids: Seq<ItemView>, n: nat, name: Seq<char>) -> nat
    decreases n,
{
    if n == 0 {
        0
    } else {
        name_count(kids, (n - 1) as nat, name) + (if kids[n - 1].visible_name == name {
            1nat
        } else {
            0nat
        })
    }
}

/// Whether a visible name can stand as a local file name: not empty, not hidden, one segment.
pub open spec fn usable_name(name: Seq<char>) -> bool {
    name.len() > 0 && !name.contains('/') && name[0] != '.'
}

/// Whether a walk enters `kid`, one of the siblings `kids`.
pub open spec fn enters(walk: Walk, kids: Seq<ItemView>, kid: ItemView) -> bool {
    match walk {
        Walk::Every => true,
        Walk::Folders => kid.is_folder(),
        Walk::Synced => kid.is_folder() && name_count(kids, kids.len(), kid.visible_name) <= 1
            && usable_name(kid.visible_name),
    }
}

/// Whether a walk below the first `n` of the siblings `kids` stays within `fuel` levels.
pub open spec fn ends(
    items: Seq<ItemView>,
    folders_only: bool,
    walk: Walk,
    kids: Seq<ItemView>,
    n: nat,
    fuel: nat,
) -> bool
    decreases fuel, n,
{
    n == 0 || {
        let sub = children(items, kids[n - 1].uuid, folders_only);
        &&& ends(items, folders_only, walk, kids, (n - 1) as nat, fuel)
        &&& enters(walk, kids, kids[n - 1]) && sub.len() > 0 ==> fuel > 0 && ends(
            items,
            folders_only,
            walk,
            sub,
            sub.len(),
            (fuel - 1) as nat,
        )
    }
}

/// Whether the walk down from `root` comes to an end. A level more than there are items means
/// that the parents form a cycle.
pub open spec fn walk_ends(
    items: Seq<ItemView>,
    folders_only: bool,
    walk: Walk,
    root: Seq<char>,
) -> bool {
    let kids = children(items, root, folders_only);
    ends(items, folders_only, walk, kids, kids.len(), items.len())
}

/// A walk that ends below all of the siblings ends below the first of them.
pub proof fn ends_prefix(
    items: Seq<ItemView>,
    folders_only: bool,
    walk: Walk,
    kids: Seq<ItemView>,
    n: nat,
    m: nat,
    fuel: nat,
)
    requires
        n <= m,
        ends(items, folders_only, walk, kids, m, fuel),
    ensures
        ends(items, folders_only, walk, kids, n, fuel),
    decreases m,
{
    if n < m {
        ends_prefix(items, folders_only, walk, kids, n, (m - 1) as nat, fuel);
    }
}

/// How many of the siblings have the given name, as far as it matters: none, one or more.
pub fn is_shared_name(kids: &Vec<&Item>, name: &str) -> (r: bool)
    ensures
        r == (name_count(kids.deep_view(), kids.len() as nat, name@) > 1),
{
    let mut found = false;
    let mut shared = false;
    let mut i: usize = 0;
    while i < kids.len()
        invariant
            i <= kids.len(),
            found == (name_count(kids.deep_view(), i as nat, name@) >= 1),
            shared == (name_count(kids.deep_view(), i as nat, name@) > 1),
        decreases kids.len() - i,
    {
        assert(kids.deep_view()[i as int] == kids[i as int].deep_view());
        if str_eq(kids[i].visible_name.as_str(), name) {
            if found {
                shared = true;
            }
            found = true;
        }
        i += 1;
    }
    shared
}

/// Whether a visible name can stand as a local file name.
pub fn is_usable_name(name: &str) -> (r: bool)
    ensures
        r == usable_name(name@),
{
    let chars = to_chars(name);
    if chars.len() == 0 {
        return false;
    }
    let slash = Class::Only('/');
    let has_slash = contains_in(&chars, &slash);
    proof {
        if has_slash {
            let i = choose|i: int| 0 <= i < chars@.len() && slash.holds(#[trigger] chars@[i]);
            assert(chars@[i] == '/');
        }
        if name@.contains('/') {
            let i = choose|i: int| 0 <= i < name@.len() && name@[i] == '/';
            assert(slash.holds(chars@[i]));
        }
    }
    !has_slash && chars[0] != '.'
}

fn does_enter(walk: Walk, kids: &Vec<&Item>, kid: &Item) -> (r: bool)
    ensures
        r == enters(walk, kids.deep_view(), kid.deep_view()),
{
    match walk {
        Walk::Every => true,
        Walk::Folders => kid.is_folder(),
        Walk::Synced => kid.is_folder() && !is_shared_name(kids, kid.visible_name.as_str())
            && is_usable_name(kid.visible_name.as_str()),
    }
}

fn below_ends(map: &ChildrenMap, walk: Walk, kids: &Vec<&Item>, fuel: usize) -> (r: bool)
    requires
        map.wf(),
    ensures
        r == ends(
            map.items(),
            map.only_folders(),
            walk,
            kids.deep_view(),
            kids.len() as nat,
            fuel as nat,
        ),
    decreases fuel,
{
    let mut i: usize = 0;
    let ghost views = kids.deep_view();
    while i < kids.len()
        invariant
            i <= kids.len(),
            map.wf(),
            views == kids.deep_view(),
            ends(map.items(), map.only_folders(), walk, views, i as nat, fuel as nat),
        decreases kids.len() - i,
    {
        let kid = kids[i];
        assert(views[i as int] == kid.deep_view());
        if does_enter(walk, kids, kid) {
            if let Some(sub) = map.get(kid.uuid.as_str()) {
                if fuel == 0 || !below_ends(map, walk, sub, fuel - 1) {
                    proof {
                        if ends(
                            map.items(),
                            map.only_folders(),
                            walk,
                            views,
                            kids.len() as nat,
                            fuel as nat,
                        ) {
                            ends_prefix(
                                map.items(),
                                map.only_folders(),
                                walk,
                                views,
                                (i + 1) as nat,
                                kids.len() as nat,
                                fuel as nat,
                            );
                        }
                    }
                    return false;
                }
            }
        }
        i += 1;
    }
    true
}

/// Whether the walk down from `root` comes to an end, that is meets no cycle of parents.
pub fn does_walk_end(items: &[Item], folders_only: bool, walk: Walk, root: &str) -> (r: bool)
    ensures
        r == walk_ends(items.deep_view(), folders_only, walk, root@),
{
    let map = children_map(items, folders_only);
    match map.get(root) {
        Some(kids) => below_ends(&map, walk, kids, items.len()),
        None => true,
    }
}

/// The first `n` of the siblings `kids`, each followed by what is below it.
pub open spec fn below(items: Seq<ItemView>, kids: Seq<ItemView>, n: nat, fuel: nat) -> Seq<
    ItemView,
>
    decreases fuel, n,
{
    if n == 0 {
        Seq::empty()
    } else {
        let sub = children(items, kids[n - 1].uuid, false);
        below(items, kids, (n - 1) as nat, fuel).push(kids[n - 1]) + (if fuel > 0 {
            below(items, sub, sub.len(), (fuel - 1) as nat)
        } else {
            Seq::empty()
        })
    }
}

/// Everything below `parent`: its children in display order, each followed by what is below it.
pub open spec fn all_below(items: Seq<ItemView>, parent: Seq<char>) -> Seq<ItemView> {
    let kids = children(items, parent, false);
    below(items, kids, kids.len(), items.len())
}

fn collect_below<'a>(
    map: &ChildrenMap<'a>,
    kids: &Vec<&'a Item>,
    out: &mut Vec<&'a Item>,
    Ghost(fuel): Ghost<nat>,
)
    requires
        map.wf(),
        !map.only_folders(),
        ends(map.items(), false, Walk::Every, kids.deep_view(), kids.len() as nat, fuel),
    ensures
        final(out).deep_view() == old(out).deep_view() + below(
            map.items(),
            kids.deep_view(),
            kids.len() as nat,
            fuel,
        ),
    decreases fuel,
{
    let mut i: usize = 0;
    let ghost views = kids.deep_view();
    let ghost items = map.items();
    let ghost start = out.deep_view();
    assert(out.deep_view() =~= start + below(items, views, 0, fuel));
    while i < kids.len()
        invariant
            i <= kids.len(),
            map.wf(),
            !map.only_folders(),
            items == map.items(),
            views == kids.deep_view(),
            ends(items, false, Walk::Every, views, kids.len() as nat, fuel),
            out.deep_view() == start + below(items, views, i as nat, fuel),
        decreases kids.len() - i,
    {
        let kid = kids[i];
        proof {
            assert(views[i as int] == kid.deep_view());
            ends_prefix(
                items,
                false,
                Walk::Every,
                views,
                (i + 1) as nat,
                kids.len() as nat,
                fuel,
            );
        }
        let ghost before = out.deep_view();
        out.push(kid);
        assert(out.deep_view() =~= before.push(kid.deep_view()));
        let ghost sub = children(items, kid.uuid@, false);
        match map.get(kid.uuid.as_str()) {
            Some(sub_kids) => {
                collect_below(map, sub_kids, out, Ghost((fuel - 1) as nat));
            },
            None => {
                assert(sub.len() == 0 ==> below(items, sub, sub.len(), (fuel - 1) as nat).len()
                    == 0);
            },
        }
        assert(out.deep_view() =~= start + below(items, views, (i + 1) as nat, fuel));
        i += 1;
    }
}

/// All transitive descendants of `parent_uuid`, each folder before what is in it.
pub fn descendants<'a>(items: &'a [Item], parent_uuid: &str) -> (r: Vec<&'a Item>)
    requires
        walk_ends(items.deep_view(), false, Walk::Every, parent_uuid@),
    ensures
        r.deep_view() == all_below(items.deep_view(), parent_uuid@),
{
    let map = children_map(items, false);
    let mut out: Vec<&'a Item> = Vec::new();
    assert(out.deep_view() =~= Seq::empty());
    let ghost all = items.deep_view();
    match map.get(parent_uuid) {
        Some(kids) => {
            collect_below(&map, kids, &mut out, Ghost(all.len()));
        },
        None => {},
    }
    assert(out.deep_view() =~= all_below(all, parent_uuid@));
    out
}

proof fn kids_are_below(items: Seq<ItemView>, kids: Seq<ItemView>, n: nat, fuel: nat, x: ItemView)
    requires
        n <= kids.len(),
        kids.take(n as int).contains(x),
    ensures
        below(items, kids, n, fuel).contains(x),
    decreases n,
{
    let i = choose|i: int| 0 <= i < n && kids.take(n as int)[i] == x;
    let prefix = below(items, kids, (n - 1) as nat, fuel);
    let whole = below(items, kids, n, fuel);
    if i == n - 1 {
        assert(whole[prefix.len() as int] == x);
    } else {
        assert(kids.take(n - 1)[i] == x);
        kids_are_below(items, kids, (n - 1) as nat, fuel, x);
        let k = choose|k: int| 0 <= k < prefix.len() && prefix[k] == x;
        assert(whole[k] == x);
    }
}

proof fn below_is_closed(
    items: Seq<ItemView>,
    kids: Seq<ItemView>,
    n: nat,
    fuel: nat,
    x: ItemView,
    y: ItemView,
)
    requires
        n <= kids.len(),
        ends(items, false, Walk::Every, kids, n, fuel),
        below(items, kids, n, fuel).contains(x),
        items.contains(y),
        y.parent == x.uuid,
    ensures
        below(items, kids, n, fuel).contains(y),
    decreases fuel, n,
{
    let whole = below(items, kids, n, fuel);
    let prefix = below(items, kids, (n - 1) as nat, fuel);
    let sub = children(items, kids[n - 1].uuid, false);
    let rest = if fuel > 0 {
        below(items, sub, sub.len(), (fuel - 1) as nat)
    } else {
        Seq::empty()
    };
    assert(whole == prefix.push(kids[n - 1]) + rest);
    let i = choose|i: int| 0 <= i < whole.len() && whole[i] == x;
    if i < prefix.len() {
        assert(prefix[i] == x);
        below_is_closed(items, kids, (n - 1) as nat, fuel, x, y);
        let k = choose|k: int| 0 <= k < prefix.len() && prefix[k] == y;
        assert(whole[k] == y);
    } else {
        if i == prefix.len() {
            children_membership(items, x.uuid, false, y);
            assert(sub.contains(y));
            assert(sub.take(sub.len() as int) =~= sub);
            kids_are_below(items, sub, sub.len(), (fuel - 1) as nat, y);
        } else {
            assert(rest[i - prefix.len() - 1] == x);
            below_is_closed(items, sub, sub.len(), (fuel - 1) as nat, x, y);
        }
        let k = choose|k: int| 0 <= k < rest.len() && rest[k] == y;
        assert(whole[prefix.len() + 1 + k] == y);
    }
}

proof fn below_is_sound(
    items: Seq<ItemView>,
    root: Seq<char>,
    kids: Seq<ItemView>,
    n: nat,
    fuel: nat,
    x: ItemView,
)
    requires
        n <= kids.len(),
        forall|k: ItemView| kids.contains(k) ==> #[trigger] is_child(k, root, false) && items.contains(k),
        below(items, kids, n, fuel).contains(x),
    ensures
        items.contains(x),
        x.parent == root || exists|z: ItemView| #[trigger]
            below(items, kids, n, fuel).contains(z) && z.uuid == x.parent,
    decreases fuel, n,
{
    let whole = below(items, kids, n, fuel);
    let prefix = below(items, kids, (n - 1) as nat, fuel);
    let sub = children(items, kids[n - 1].uuid, false);
    let rest = if fuel > 0 {
        below(items, sub, sub.len(), (fuel - 1) as nat)
    } else {
        Seq::empty()
    };
    assert(whole == prefix.push(kids[n - 1]) + rest);
    assert(whole[prefix.len() as int] == kids[n - 1]);
    let i = choose|i: int| 0 <= i < whole.len() && whole[i] == x;
    if i < prefix.len() {
        assert(prefix[i] == x);
        below_is_sound(items, root, kids, (n - 1) as nat, fuel, x);
        if x.parent != root {
            let z = choose|z: ItemView| #[trigger] prefix.contains(z) && z.uuid == x.parent;
            let k = choose|k: int| 0 <= k < prefix.len() && prefix[k] == z;
            assert(whole[k] == z);
            assert(whole.contains(z));
        }
    } else if i == prefix.len() {
        assert(kids.contains(kids[n - 1]));
        assert(is_child(x, root, false));
    } else {
        assert(rest[i - prefix.len() - 1] == x);
        assert forall|k: ItemView| sub.contains(k) implies #[trigger] is_child(
            k,
            kids[n - 1].uuid,
            false,
        ) && items.contains(k) by {
            children_membership(items, kids[n - 1].uuid, false, k);
        }
        below_is_sound(items, kids[n - 1].uuid, sub, sub.len(), (fuel - 1) as nat, x);
        if x.parent == kids[n - 1].uuid {
            assert(whole.contains(kids[n - 1]));
        } else {
            let z = choose|z: ItemView| #[trigger] rest.contains(z) && z.uuid == x.parent;
            let k = choose|k: int| 0 <= k < rest.len() && rest[k] == z;
            assert(whole[prefix.len() + 1 + k] == z);
            assert(whole.contains(z));
        }
    }
}

/// The descendants of `parent` are listed items; each is a child of `parent` or of another
/// descendant, and every child of `parent` or of a descendant is a descendant.
pub proof fn descendants_are_the_subtree(items: Seq<ItemView>, parent: Seq<char>)
    requires
        walk_ends(items, false, Walk::Every, parent),
    ensures
        forall|x: ItemView| #[trigger]
            all_below(items, parent).contains(x) ==> items.contains(x) && (x.parent == parent
                || exists|z: ItemView| #[trigger]
                all_below(items, parent).contains(z) && z.uuid == x.parent),
        forall|x: ItemView|
            items.contains(x) && x.parent == parent ==> #[trigger] all_below(
                items,
                parent,
            ).contains(x),
        forall|x: ItemView, y: ItemView| #[trigger]
            all_below(items, parent).contains(x) && items.contains(y) && y.parent == x.uuid
                ==> #[trigger] all_below(items, parent).contains(y),
{
    let kids = children(items, parent, false);
    assert forall|k: ItemView| kids.contains(k) implies #[trigger] is_child(k, parent, false)
        && items.contains(k) by {
        children_membership(items, parent, false, k);
    }
    assert forall|x: ItemView| #[trigger] all_below(items, parent).contains(x) implies items.contains(
        x,
    ) && (x.parent == parent || exists|z: ItemView| #[trigger]
        all_below(items, parent).contains(z) && z.uuid == x.parent) by {
        below_is_sound(items, parent, kids, kids.len(), items.len(), x);
        if x.parent != parent {
            let z = choose|z: ItemView| #[trigger]
                below(items, kids, kids.len(), items.len()).contains(z) && z.uuid == x.parent;
            assert(all_below(items, parent).contains(z));
        }
    }
    assert forall|x: ItemView| items.contains(x) && x.parent == parent implies #[trigger] all_below(
        items,
        parent,
    ).contains(x) by {
        children_membership(items, parent, false, x);
        assert(kids.take(kids.len() as int) =~= kids);
        kids_are_below(items, kids, kids.len(), items.len(), x);
    }
    assert forall|x: ItemView, y: ItemView| #[trigger]
        all_below(items, parent).contains(x) && items.contains(y) && y.parent
            == x.uuid implies #[trigger] all_below(items, parent).contains(y) by {
        below_is_closed(items, kids, kids.len(), items.len(), x, y);
    }
}

/// The item with the given UUID; of several, the last.
pub open spec fn lookup(items: Seq<ItemView>, uuid: Seq<char>) -> Option<ItemView>
    decreases items.len(),
{
    if items.len() == 0 {
        None
    } else if items.last().uuid == uuid {
        Some(items.last())
    } else {
        lookup(items.drop_last(), uuid)
    }
}

/// The item with the given UUID; of several, the last.
pub(crate) fn find_last_item<'a>(items: &'a [Item], uuid: &str) -> (r: Option<&'a Item>)
    ensures
        match r {
            Some(item) => lookup(items.deep_view(), uuid@) == Some(item.deep_view()),
            None => lookup(items.deep_view(), uuid@) is None,
        },
{
    let ghost all = items.deep_view();
    let mut i: usize = items.len();
    assert(all.take(i as int) =~= all);
    while i > 0
        invariant
            i <= items.len(),
            all == items.deep_view(),
            lookup(all, uuid@) == lookup(all.take(i as int), uuid@),
        decreases i,
    {
        i -= 1;
        assert(all.take(i + 1).drop_last() =~= all.take(i as int));
        assert(all.take(i + 1).last() == items[i as int].deep_view());
        if str_eq(items[i].uuid.as_str(), uuid) {
            return Some(&items[i]);
        }
    }
    None
}

/// At most `n` steps up from `uuid`: the UUID itself, its parent, and so on, up to the root or
/// an unknown parent.
pub open spec fn chain(items: Seq<ItemView>, uuid: Seq<char>, n: nat) -> Seq<Seq<char>>
    decreases n,
{
    if n == 0 || uuid.len() == 0 {
        Seq::empty()
    } else {
        seq![uuid] + match lookup(items, uuid) {
            Some(item) => chain(items, item.parent, (n - 1) as nat),
            None => Seq::empty(),
        }
    }
}

/// A UUID and its ancestors, nearest first. The length is capped at one more than the number
/// of items, which only a cycle of parents reaches.
pub open spec fn ancestors(items: Seq<ItemView>, uuid: Seq<char>) -> Seq<Seq<char>> {
    chain(items, uuid, items.len() + 1)
}

/// Walks a UUID's parent chain toward the root: the UUID itself, its parent, and so on.
pub(crate) fn ancestor_chain<'a>(items: &'a [Item], start_uuid: &'a str) -> (r: Vec<&'a str>)
    ensures
        r.deep_view() == ancestors(items.deep_view(), start_uuid@),
{
    let ghost all = items.deep_view();
    let mut out: Vec<&'a str> = Vec::new();
    let mut current: &'a str = start_uuid;
    let mut left: usize = items.len();
    let mut more = true;
    assert(out.deep_view() =~= Seq::empty());
    assert(ancestors(all, start_uuid@) =~= out.deep_view() + chain(
        all,
        current@,
        (left + 1) as nat,
    ));
    while more && !current.is_empty()
        invariant
            all == items.deep_view(),
            more ==> ancestors(all, start_uuid@) == out.deep_view() + chain(
                all,
                current@,
                (left + 1) as nat,
            ),
            !more ==> ancestors(all, start_uuid@) == out.deep_view(),
        decreases left, more as int,
    {
        let ghost before = out.deep_view();
        let ghost here = current@;
        out.push(current);
        assert(out.deep_view() =~= before.push(here));
        match find_last_item(items, current) {
            Some(item) => {
                if left == 0 {
                    more = false;
                    assert(chain(all, item.parent@, 0) =~= Seq::empty());
                    assert(ancestors(all, start_uuid@) =~= out.deep_view());
                } else {
                    left -= 1;
                    current = item.parent.as_str();
                    assert(ancestors(all, start_uuid@) =~= out.deep_view() + chain(
                        all,
                        current@,
                        (left + 1) as nat,
                    ));
                }
            },
            None => {
                more = false;
                assert(ancestors(all, start_uuid@) =~= out.deep_view());
            },
        }
    }
    proof {
        if more {
            assert(chain(all, current@, (left + 1) as nat) =~= Seq::empty());
            assert(ancestors(all, start_uuid@) =~= out.deep_view());
        }
    }
    out
}

/// Whether `candidate_uuid` is `ancestor_uuid` or inside it.
pub fn is_descendant(items: &[Item], candidate_uuid: &str, ancestor_uuid: &str) -> (r: bool)
    ensures
        r == ancestors(items.deep_view(), candidate_uuid@).contains(ancestor_uuid@),
{
    let found = ancestor_chain(items, candidate_uuid);
    let ghost views = found.deep_view();
    let mut i: usize = 0;
    while i < found.len()
        invariant
            i <= found.len(),
            views == found.deep_view(),
            views == ancestors(items.deep_view(), candidate_uuid@),
            forall|k: int| 0 <= k < i ==> #[trigger] views[k] != ancestor_uuid@,
        decreases found.len() - i,
    {
        assert(views[i as int] == found[i as int]@);
        if str_eq(found[i], ancestor_uuid) {
            assert(views.contains(ancestor_uuid@));
            return true;
        }
        i += 1;
    }
    false
}

/// Number of ancestors between `item` and the root.
pub fn depth(items: &[Item], item: &Item) -> (n: usize)
    ensures
        n == ancestors(items.deep_view(), item.parent@).len(),
{
    let found = ancestor_chain(items, item.parent.as_str());
    proof {
        assert(found.deep_view().len() == found.len());
    }
    found.len()
}

/// At most `n` items up from `item`: the item itself, its parent, and so on.
pub open spec fn lineage(items: Seq<ItemView>, item: ItemView, n: nat) -> Seq<ItemView>
    decreases n,
{
    if n == 0 {
        Seq::empty()
    } else {
        seq![item] + match lookup(items, item.parent) {
            Some(parent) => lineage(items, parent, (n - 1) as nat),
            None => Seq::empty(),
        }
    }
}

/// The names on the way from the root to the item; `n` caps the number of names.
pub open spec fn path_names(items: Seq<ItemView>, item: ItemView, n: nat) -> Seq<Seq<char>> {
    let up = lineage(items, item, n);
    Seq::new(up.len(), |i: int| up[up.len() - 1 - i].visible_name)
}

/// The absolute logical path of an item.
pub open spec fn logical_path(items: Seq<ItemView>, item: ItemView) -> Seq<char> {
    seq!['/'] + join(path_names(items, item, items.len() + 1), seq!['/'])
}

/// Absolute logical path of an item, e.g. `/Books/Math/Notes`.
pub fn build_path(items: &[Item], item: &Item) -> (r: String)
    ensures
        r@ == logical_path(items.deep_view(), item.deep_view()),
{
    let ghost all = items.deep_view();
    let ghost cap = all.len() + 1;
    let ghost whole = lineage(all, item.deep_view(), cap);
    let mut up: Vec<&Item> = Vec::new();
    let mut current: &Item = item;
    let mut left: usize = items.len();
    let mut more = true;
    assert(up.deep_view() =~= Seq::empty());
    assert(whole =~= up.deep_view() + lineage(all, current.deep_view(), (left + 1) as nat));
    while more
        invariant
            all == items.deep_view(),
            more ==> whole == up.deep_view() + lineage(all, current.deep_view(), (left + 1) as nat),
            !more ==> whole == up.deep_view(),
        decreases left, more as int,
    {
        let ghost before = up.deep_view();
        let ghost here = current.deep_view();
        up.push(current);
        assert(up.deep_view() =~= before.push(here));
        match find_last_item(items, current.parent.as_str()) {
            Some(parent) => {
                if left == 0 {
                    more = false;
                    assert(lineage(all, parent.deep_view(), 0) =~= Seq::empty());
                    assert(whole =~= up.deep_view());
                } else {
                    left -= 1;
                    current = parent;
                    assert(whole =~= up.deep_view() + lineage(
                        all,
                        current.deep_view(),
                        (left + 1) as nat,
                    ));
                }
            },
            None => {
                more = false;
                assert(whole =~= up.deep_view());
            },
        }
    }
    let mut names: Vec<Vec<char>> = Vec::new();
    let mut i: usize = up.len();
    while i > 0
        invariant
            i <= up.len(),
            names.len() == up.len() - i,
            forall|k: int|
                0 <= k < names.len() ==> #[trigger] names[k]@ == up[up.len() - 1 - k].visible_name@,
        decreases i,
    {
        i -= 1;
        names.push(to_chars(up[i].visible_name.as_str()));
    }
    let mut out: Vec<char> = Vec::new();
    out.push('/');
    let slash: [char; 1] = ['/'];
    let joined = join_in(&names, &slash);
    extend(&mut out, &joined);
    proof {
        assert(slash@ =~= seq!['/']);
        assert(pieces(names@) =~= path_names(all, item.deep_view(), cap)) by {
            assert forall|k: int| 0 <= k < names.len() implies pieces(names@)[k]
                == whole[whole.len() - 1 - k].visible_name by {
                assert(names[k]@ == up[up.len() - 1 - k].visible_name@);
                assert(up.deep_view()[up.len() - 1 - k] == up[up.len() - 1 - k].deep_view());
            }
        }
        assert(out@ =~= seq!['/'] + joined@);
    }
    from_chars(&out)
}

} // verus!
