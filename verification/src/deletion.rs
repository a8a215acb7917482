//! Planning deletions: everything is resolved before anything is deleted, overlapping targets are
//! deleted once, and children go before their parents.
use vstd::prelude::*;
use crate::error::{agrees, Error, ErrorView};
use crate::family::{
    acyclic, all_have_uuids, descendants_are_inside, distinct_uuids, ways_up_go_through_parents,
};
use crate::glob::{can_expand, expand_refs, expanded, expansions_are_listed, is_expandable};
use crate::resolve::{
    resolve_item_ref, resolved, resolved_items_are_listed, uuids_resolve_to_their_items,
};
use crate::text::str_eq;
use crate::tree::{children, children_membership};
use crate::walk::{
    all_below, ancestors, depth, descendants, descendants_are_the_subtree, does_walk_end, walk_ends,
    Walk,
};
use crate::xochitl::{Item, ItemView, TRASH_PARENT};

verus! {

/// The items that the first `n` references mean; the first failure where there is one.
pub open spec fn targets_of(items: Seq<ItemView>, refs: Seq<Seq<char>>, n: nat) -> Result<
    Seq<ItemView>,
    ErrorView,
>
    decreases n,
{
    if n == 0 {
        Ok(Seq::empty())
    } else {
        match targets_of(items, refs, (n - 1) as nat) {
            Err(e) => Err(e),
            Ok(before) => match resolved(items, refs[n - 1]) {
                Ok(item) => Ok(before.push(item)),
                Err(e) => Err(e),
            },
        }
    }
}

/// Whether a target may not be deleted: it is a folder with something in it.
pub open spec fn is_refused(items: Seq<ItemView>, target: ItemView, recursive: bool) -> bool {
    target.is_folder() && all_below(items, target.uuid).len() > 0 && !recursive
}

/// The name of the first of the first `n` targets that may not be deleted.
pub open spec fn refused(
    items: Seq<ItemView>,
    targets: Seq<ItemView>,
    n: nat,
    recursive: bool,
) -> Option<Seq<char>>
    decreases n,
{
    if n == 0 {
        None
    } else {
        match refused(items, targets, (n - 1) as nat, recursive) {
            Some(name) => Some(name),
            None => if is_refused(items, targets[n - 1], recursive) {
                Some(targets[n - 1].visible_name)
            } else {
                None
            },
        }
    }
}

/// Whether an item with the given UUID is in the list.
pub open spec fn has_uuid(s: Seq<ItemView>, uuid: Seq<char>) -> bool {
    exists|i: int| 0 <= i < s.len() && (#[trigger] s[i]).uuid == uuid
}

/// A list with those of the first `n` items appended whose UUIDs are not in it yet.
pub open spec fn with_new(s: Seq<ItemView>, more: Seq<ItemView>, n: nat) -> Seq<ItemView>
    decreases n,
{
    if n == 0 {
        s
    } else {
        let before = with_new(s, more, (n - 1) as nat);
        if has_uuid(before, more[n - 1].uuid) {
            before
        } else {
            before.push(more[n - 1])
        }
    }
}

/// A target with everything below it, the target last.
pub open spec fn subtree(items: Seq<ItemView>, target: ItemView) -> Seq<ItemView> {
    all_below(items, target.uuid).push(target)
}

/// What is deleted for the first `n` targets, each item once.
pub open spec fn scheduled(items: Seq<ItemView>, targets: Seq<ItemView>, n: nat) -> Seq<ItemView>
    decreases n,
{
    if n == 0 {
        Seq::empty()
    } else {
        let more = subtree(items, targets[n - 1]);
        with_new(scheduled(items, targets, (n - 1) as nat), more, more.len())
    }
}

/// How many folders an item is in.
pub open spec fn depth_of(items: Seq<ItemView>, item: ItemView) -> nat {
    ancestors(items, item.parent).len()
}

/// `x` put behind the items of `s` that are as deep or deeper.
pub open spec fn insert_deep(items: Seq<ItemView>, s: Seq<ItemView>, x: ItemView) -> Seq<ItemView>
    decreases s.len(),
{
    if s.len() == 0 || depth_of(items, s.last()) >= depth_of(items, x) {
        s.push(x)
    } else {
        insert_deep(items, s.drop_last(), x).push(s.last())
    }
}

/// The items of `s`, deepest first; equally deep ones stay in order.
pub open spec fn deepest_first(items: Seq<ItemView>, s: Seq<ItemView>) -> Seq<ItemView>
    decreases s.len(),
{
    if s.len() == 0 {
        Seq::empty()
    } else {
        insert_deep(items, deepest_first(items, s.drop_last()), s.last())
    }
}

/// The items to delete for the given references, in order.
pub open spec fn deletions(items: Seq<ItemView>, refs: Seq<Seq<char>>, recursive: bool) -> Result<
    Seq<ItemView>,
    ErrorView,
> {
    match targets_of(items, refs, refs.len()) {
        Err(e) => Err(e),
        Ok(targets) => match refused(items, targets, targets.len(), recursive) {
            Some(name) => Err(ErrorView::FolderNotEmpty(name)),
            None => Ok(deepest_first(items, scheduled(items, targets, targets.len()))),
        },
    }
}

/// Whether the walks down from the first `n` targets end, as far as they are made: none is made
/// behind a target that is refused.
pub open spec fn walks_end(
    items: Seq<ItemView>,
    targets: Seq<ItemView>,
    n: nat,
    recursive: bool,
) -> bool
    decreases n,
{
    n == 0 || {
        &&& walks_end(items, targets, (n - 1) as nat, recursive)
        &&& refused(items, targets, (n - 1) as nat, recursive) is None ==> walk_ends(
            items,
            false,
            Walk::Every,
            targets[n - 1].uuid,
        )
    }
}

/// Whether a deletion can be planned: no walk down from a target meets a cycle of parents.
pub open spec fn can_delete(items: Seq<ItemView>, refs: Seq<Seq<char>>, recursive: bool) -> bool {
    targets_of(items, refs, refs.len()) matches Ok(targets) ==> walks_end(
        items,
        targets,
        targets.len(),
        recursive,
    )
}

proof fn targets_stop(items: Seq<ItemView>, refs: Seq<Seq<char>>, n: nat, m: nat)
    requires
        n <= m,
        targets_of(items, refs, n) is Err,
    ensures
        targets_of(items, refs, m) == targets_of(items, refs, n),
    decreases m,
{
    if n < m {
        targets_stop(items, refs, n, (m - 1) as nat);
    }
}

fn resolve_targets<'a>(items: &'a [Item], item_refs: &[&str]) -> (r: Result<Vec<&'a Item>, Error>)
    ensures
        agrees(
            r,
            targets_of(items.deep_view(), item_refs.deep_view(), item_refs.len() as nat),
        ),
{
    let ghost all = items.deep_view();
    let ghost refs = item_refs.deep_view();
    let mut out: Vec<&'a Item> = Vec::new();
    let mut i: usize = 0;
    assert(out.deep_view() =~= Seq::empty());
    while i < item_refs.len()
        invariant
            i <= item_refs.len(),
            all == items.deep_view(),
            refs == item_refs.deep_view(),
            targets_of(all, refs, i as nat) == Ok::<Seq<ItemView>, ErrorView>(out.deep_view()),
        decreases item_refs.len() - i,
    {
        assert(refs[i as int] == item_refs[i as int]@);
        match resolve_item_ref(items, item_refs[i]) {
            Ok(item) => {
                let ghost before = out.deep_view();
                out.push(item);
                assert(out.deep_view() =~= before.push(item.deep_view()));
            },
            Err(e) => {
                proof {
                    targets_stop(all, refs, (i + 1) as nat, refs.len());
                }
                return Err(e);
            },
        }
        i += 1;
    }
    Ok(out)
}

proof fn refused_stops(
    items: Seq<ItemView>,
    targets: Seq<ItemView>,
    n: nat,
    m: nat,
    recursive: bool,
)
    requires
        n <= m,
        refused(items, targets, n, recursive) is Some,
    ensures
        refused(items, targets, m, recursive) == refused(items, targets, n, recursive),
        walks_end(items, targets, m, recursive) == walks_end(items, targets, n, recursive),
    decreases m,
{
    if n < m {
        refused_stops(items, targets, n, (m - 1) as nat, recursive);
    }
}

proof fn walks_end_prefix(
    items: Seq<ItemView>,
    targets: Seq<ItemView>,
    n: nat,
    m: nat,
    recursive: bool,
)
    requires
        n <= m,
        walks_end(items, targets, m, recursive),
    ensures
        walks_end(items, targets, n, recursive),
    decreases m,
{
    if n < m {
        walks_end_prefix(items, targets, n, (m - 1) as nat, recursive);
    }
}

/// Whether a deletion can be planned, that is no walk down from a target meets a cycle of parents.
pub fn is_deletable(items: &[Item], item_refs: &[&str], recursive: bool) -> (r: bool)
    ensures
        r == can_delete(items.deep_view(), item_refs.deep_view(), recursive),
{
    let ghost all = items.deep_view();
    let targets = match resolve_targets(items, item_refs) {
        Ok(targets) => targets,
        Err(_) => {
            return true;
        },
    };
    let ghost views = targets.deep_view();
    let mut i: usize = 0;
    while i < targets.len()
        invariant
            i <= targets.len(),
            all == items.deep_view(),
            views == targets.deep_view(),
            walks_end(all, views, i as nat, recursive),
            refused(all, views, i as nat, recursive) is None,
            targets_of(all, item_refs.deep_view(), item_refs.len() as nat) == Ok::<
                Seq<ItemView>,
                ErrorView,
            >(views),
        decreases targets.len() - i,
    {
        let target = targets[i];
        assert(views[i as int] == target.deep_view());
        if !does_walk_end(items, false, Walk::Every, target.uuid.as_str()) {
            proof {
                assert(!walks_end(all, views, (i + 1) as nat, recursive));
                if walks_end(all, views, views.len(), recursive) {
                    walks_end_prefix(all, views, (i + 1) as nat, views.len(), recursive);
                }
            }
            return false;
        }
        let found = descendants(items, target.uuid.as_str());
        assert(found.deep_view().len() == found.len());
        if target.is_folder() && found.len() > 0 && !recursive {
            proof {
                refused_stops(all, views, (i + 1) as nat, views.len(), recursive);
            }
            return true;
        }
        i += 1;
    }
    true
}

fn holds_uuid(s: &Vec<&Item>, uuid: &str) -> (r: bool)
    ensures
        r == has_uuid(s.deep_view(), uuid@),
{
    let ghost views = s.deep_view();
    let mut i: usize = 0;
    while i < s.len()
        invariant
            i <= s.len(),
            views == s.deep_view(),
            forall|k: int| 0 <= k < i ==> (#[trigger] views[k]).uuid != uuid@,
        decreases s.len() - i,
    {
        assert(views[i as int] == s[i as int].deep_view());
        if str_eq(s[i].uuid.as_str(), uuid) {
            return true;
        }
        i += 1;
    }
    false
}

fn push_new<'a>(order: &mut Vec<&'a Item>, item: &'a Item)
    ensures
        final(order).deep_view() == if has_uuid(old(order).deep_view(), item.uuid@) {
            old(order).deep_view()
        } else {
            old(order).deep_view().push(item.deep_view())
        },
{
    let ghost before = order.deep_view();
    if !holds_uuid(order, item.uuid.as_str()) {
        order.push(item);
        assert(order.deep_view() =~= before.push(item.deep_view()));
    }
}

fn sort_deepest_first<'a>(items: &[Item], order: Vec<&'a Item>) -> (out: Vec<&'a Item>)
    ensures
        out.deep_view() == deepest_first(items.deep_view(), order.deep_view()),
{
    let ghost all = items.deep_view();
    let ghost views = order.deep_view();
    let mut out: Vec<&'a Item> = Vec::new();
    let mut i: usize = 0;
    assert(out.deep_view() =~= deepest_first(all, views.take(0)));
    while i < order.len()
        invariant
            i <= order.len(),
            all == items.deep_view(),
            views == order.deep_view(),
            out.deep_view() == deepest_first(all, views.take(i as int)),
        decreases order.len() - i,
    {
        let item = order[i];
        assert(views[i as int] == item.deep_view());
        let ghost before = out.deep_view();
        let ghost x = item.deep_view();
        let here = depth(items, item);
        let mut p: usize = out.len();
        assert(before.take(p as int) =~= before);
        assert(before.skip(p as int) =~= Seq::empty());
        assert(insert_deep(all, before, x) =~= insert_deep(all, before.take(p as int), x)
            + before.skip(p as int));
        while p > 0 && depth(items, out[p - 1]) < here
            invariant
                p <= out.len(),
                before == out.deep_view(),
                all == items.deep_view(),
                here == depth_of(all, x),
                insert_deep(all, before, x) == insert_deep(all, before.take(p as int), x)
                    + before.skip(p as int),
            decreases p,
        {
            assert(before[p - 1] == out[p - 1].deep_view());
            assert(before.take(p as int).drop_last() =~= before.take(p - 1));
            assert(before.take(p as int).last() == before[p - 1]);
            assert(insert_deep(all, before.take(p - 1), x).push(before[p - 1]) + before.skip(
                p as int,
            ) =~= insert_deep(all, before.take(p - 1), x) + before.skip(p - 1));
            p -= 1;
        }
        proof {
            if p > 0 {
                assert(before[p - 1] == out[p - 1].deep_view());
                assert(before.take(p as int).last() == before[p - 1]);
            }
            assert(insert_deep(all, before.take(p as int), x) == before.take(p as int).push(x));
            assert(before.take(p as int).push(x) + before.skip(p as int) =~= before.insert(
                p as int,
                x,
            ));
        }
        out.insert(p, item);
        assert(out.deep_view() =~= before.insert(p as int, x));
        assert(views.take(i + 1).drop_last() =~= views.take(i as int));
        i += 1;
    }
    assert(views.take(i as int) =~= views);
    out
}

fn clones(order: &Vec<&Item>) -> (out: Vec<Item>)
    ensures
        out.deep_view() == order.deep_view(),
{
    let ghost views = order.deep_view();
    let mut out: Vec<Item> = Vec::new();
    let mut i: usize = 0;
    assert(out.deep_view() =~= views.take(0));
    while i < order.len()
        invariant
            i <= order.len(),
            views == order.deep_view(),
            out.deep_view() == views.take(i as int),
        decreases order.len() - i,
    {
        let ghost before = out.deep_view();
        assert(views[i as int] == order[i as int].deep_view());
        out.push(order[i].clone());
        assert(out.deep_view() =~= before.push(views[i as int]));
        assert(views.take(i + 1) =~= before.push(views[i as int]));
        i += 1;
    }
    assert(views.take(i as int) =~= views);
    out
}

/// Resolves and orders a deletion of several targets: every reference and the need for `recursive`
/// is checked first, overlapping subtrees are taken once, and children go before parents.
pub fn deletion_plan(items: &[Item], item_refs: &[&str], recursive: bool) -> (r: Result<
    Vec<Item>,
    Error,
>)
    requires
        can_delete(items.deep_view(), item_refs.deep_view(), recursive),
    ensures
        agrees(r, deletions(items.deep_view(), item_refs.deep_view(), recursive)),
{
    let ghost all = items.deep_view();
    let targets = match resolve_targets(items, item_refs) {
        Ok(targets) => targets,
        Err(e) => {
            return Err(e);
        },
    };
    let ghost views = targets.deep_view();
    let mut order: Vec<&Item> = Vec::new();
    let mut i: usize = 0;
    assert(order.deep_view() =~= Seq::empty());
    while i < targets.len()
        invariant
            i <= targets.len(),
            all == items.deep_view(),
            views == targets.deep_view(),
            walks_end(all, views, views.len(), recursive),
            refused(all, views, i as nat, recursive) is None,
            order.deep_view() == scheduled(all, views, i as nat),
            targets_of(all, item_refs.deep_view(), item_refs.len() as nat) == Ok::<
                Seq<ItemView>,
                ErrorView,
            >(views),
        decreases targets.len() - i,
    {
        let target = targets[i];
        assert(views[i as int] == target.deep_view());
        proof {
            walks_end_prefix(all, views, (i + 1) as nat, views.len(), recursive);
        }
        let found = descendants(items, target.uuid.as_str());
        let ghost kids = found.deep_view();
        assert(kids.len() == found.len());
        if target.is_folder() && found.len() > 0 && !recursive {
            proof {
                refused_stops(all, views, (i + 1) as nat, views.len(), recursive);
            }
            return Err(Error::FolderNotEmpty(target.visible_name.clone()));
        }
        let ghost start = order.deep_view();
        let ghost more = subtree(all, target.deep_view());
        let mut k: usize = 0;
        while k < found.len()
            invariant
                k <= found.len(),
                kids == found.deep_view(),
                more == kids.push(target.deep_view()),
                order.deep_view() == with_new(start, more, k as nat),
            decreases found.len() - k,
        {
            assert(more[k as int] == kids[k as int]);
            assert(kids[k as int] == found[k as int].deep_view());
            push_new(&mut order, found[k]);
            k += 1;
        }
        assert(more[kids.len() as int] == target.deep_view());
        push_new(&mut order, target);
        assert(order.deep_view() == with_new(start, more, more.len()));
        i += 1;
    }
    let sorted = sort_deepest_first(items, order);
    Ok(clones(&sorted))
}

/// The items to delete for references that may be patterns, in order.
pub open spec fn expanded_deletions(
    items: Seq<ItemView>,
    refs: Seq<Seq<char>>,
    recursive: bool,
) -> Result<Seq<ItemView>, ErrorView> {
    match expanded(items, refs, refs.len()) {
        Ok(uuids) => deletions(items, uuids, recursive),
        Err(e) => Err(e),
    }
}

/// Whether a deletion of references that may be patterns can be planned.
pub open spec fn can_delete_expanded(
    items: Seq<ItemView>,
    refs: Seq<Seq<char>>,
    recursive: bool,
) -> bool {
    can_expand(items, refs) && (expanded(items, refs, refs.len()) matches Ok(uuids) ==> can_delete(
        items,
        uuids,
        recursive,
    ))
}

fn slices<'a>(texts: &'a Vec<String>) -> (out: Vec<&'a str>)
    ensures
        out.deep_view() == texts.deep_view(),
{
    let ghost views = texts.deep_view();
    let mut out: Vec<&'a str> = Vec::new();
    let mut i: usize = 0;
    assert(out.deep_view() =~= views.take(0));
    while i < texts.len()
        invariant
            i <= texts.len(),
            views == texts.deep_view(),
            out.deep_view() == views.take(i as int),
        decreases texts.len() - i,
    {
        let ghost before = out.deep_view();
        assert(views[i as int] == texts[i as int]@);
        out.push(texts[i].as_str());
        assert(out.deep_view() =~= before.push(views[i as int]));
        assert(views.take(i + 1) =~= before.push(views[i as int]));
        i += 1;
    }
    assert(views.take(i as int) =~= views);
    out
}

/// Whether a deletion of references that may be patterns can be planned, that is no walk meets a
/// cycle of parents.
pub fn is_deletable_expanded(items: &[Item], item_refs: &[&str], recursive: bool) -> (r: bool)
    ensures
        r == can_delete_expanded(items.deep_view(), item_refs.deep_view(), recursive),
{
    if !is_expandable(items, item_refs) {
        return false;
    }
    match expand_refs(items, item_refs) {
        Ok(uuids) => {
            let refs = slices(&uuids);
            is_deletable(items, refs.as_slice(), recursive)
        },
        Err(_) => true,
    }
}

/// Plans the deletion of several documents and folders in one pass. References may be UUIDs, logical
/// paths or glob patterns. All are resolved against one listing before anything is deleted, so that
/// one bad target aborts the whole instead of leaving it half-done.
pub fn plan_delete(items: &[Item], item_refs: &[&str], recursive: bool) -> (r: Result<
    Vec<Item>,
    Error,
>)
    requires
        can_delete_expanded(items.deep_view(), item_refs.deep_view(), recursive),
    ensures
        agrees(r, expanded_deletions(items.deep_view(), item_refs.deep_view(), recursive)),
{
    match expand_refs(items, item_refs) {
        Ok(uuids) => {
            let refs = slices(&uuids);
            deletion_plan(items, refs.as_slice(), recursive)
        },
        Err(e) => Err(e),
    }
}

/// The UUIDs of the first `n` items that are in the trash themselves.
pub open spec fn trash_of(items: Seq<ItemView>, n: nat) -> Seq<Seq<char>>
    decreases n,
{
    if n == 0 {
        Seq::empty()
    } else {
        let before = trash_of(items, (n - 1) as nat);
        if items[n - 1].parent == TRASH_PARENT@ {
            before.push(items[n - 1].uuid)
        } else {
            before
        }
    }
}

/// The UUIDs of the items that are in the trash themselves.
pub fn trashed_uuids<'a>(items: &'a [Item]) -> (r: Vec<&'a str>)
    ensures
        r.deep_view() == trash_of(items.deep_view(), items.len() as nat),
{
    let ghost all = items.deep_view();
    let mut out: Vec<&'a str> = Vec::new();
    let mut i: usize = 0;
    assert(out.deep_view() =~= Seq::empty());
    while i < items.len()
        invariant
            i <= items.len(),
            all == items.deep_view(),
            out.deep_view() == trash_of(all, i as nat),
        decreases items.len() - i,
    {
        let ghost before = out.deep_view();
        assert(all[i as int] == items[i as int].deep_view());
        if str_eq(items[i].parent.as_str(), TRASH_PARENT) {
            out.push(items[i].uuid.as_str());
            assert(out.deep_view() =~= before.push(all[i as int].uuid));
        }
        i += 1;
    }
    out
}

/// Plans the permanent deletion of everything in the trash. Trashed folders may hold children, which
/// go first as usual.
pub fn plan_empty_trash(items: &[Item]) -> (r: Result<Vec<Item>, Error>)
    requires
        can_delete(items.deep_view(), trash_of(items.deep_view(), items.len() as nat), true),
    ensures
        agrees(
            r,
            deletions(items.deep_view(), trash_of(items.deep_view(), items.len() as nat), true),
        ),
{
    let trashed = trashed_uuids(items);
    deletion_plan(items, trashed.as_slice(), true)
}

// ---------------------------------------------------------------------------
// Laws
// ---------------------------------------------------------------------------

proof fn insert_deep_inserts(items: Seq<ItemView>, s: Seq<ItemView>, x: ItemView) -> (p: int)
    ensures
        0 <= p <= s.len(),
        insert_deep(items, s, x) == s.insert(p, x),
        p < s.len() ==> depth_of(items, s[p]) < depth_of(items, x),
        p > 0 ==> depth_of(items, s[p - 1]) >= depth_of(items, x),
    decreases s.len(),
{
    if s.len() == 0 || depth_of(items, s.last()) >= depth_of(items, x) {
        assert(s.push(x) =~= s.insert(s.len() as int, x));
        s.len() as int
    } else {
        let p = insert_deep_inserts(items, s.drop_last(), x);
        assert(s.drop_last().insert(p, x).push(s.last()) =~= s.insert(p, x));
        p
    }
}

/// Whether the items are in order of their depth, deepest first.
pub open spec fn is_deepest_first(items: Seq<ItemView>, s: Seq<ItemView>) -> bool {
    forall|i: int, j: int|
        0 <= i < j < s.len() ==> depth_of(items, #[trigger] s[i]) >= depth_of(items, #[trigger] s[j])
}

proof fn sorting_keeps_items(items: Seq<ItemView>, s: Seq<ItemView>)
    ensures
        is_deepest_first(items, deepest_first(items, s)),
        deepest_first(items, s).len() == s.len(),
        forall|x: ItemView| #[trigger] deepest_first(items, s).contains(x) <==> s.contains(x),
        distinct_uuids(s) ==> distinct_uuids(deepest_first(items, s)),
    decreases s.len(),
{
    let sorted = deepest_first(items, s);
    if s.len() > 0 {
        let rest = s.drop_last();
        let x = s.last();
        sorting_keeps_items(items, rest);
        let t = deepest_first(items, rest);
        let p = insert_deep_inserts(items, t, x);
        assert(sorted == t.insert(p, x));
        assert forall|i: int, j: int| 0 <= i < j < sorted.len() implies depth_of(
            items,
            #[trigger] sorted[i],
        ) >= depth_of(items, #[trigger] sorted[j]) by {
            let a = if i < p { i } else { i - 1 };
            let b = if j < p { j } else { j - 1 };
            if i == p {
                assert(sorted[j] == t[j - 1]);
                if p < j - 1 {
                    assert(depth_of(items, t[p]) >= depth_of(items, t[j - 1]));
                }
            } else if j == p {
                assert(sorted[i] == t[i]);
                if i < p - 1 {
                    assert(depth_of(items, t[i]) >= depth_of(items, t[p - 1]));
                }
            } else {
                assert(sorted[i] == t[a] && sorted[j] == t[b]);
            }
        }
        assert forall|y: ItemView| #[trigger] sorted.contains(y) <==> s.contains(y) by {
            if sorted.contains(y) {
                let i = choose|i: int| 0 <= i < sorted.len() && sorted[i] == y;
                if i == p {
                    assert(s[s.len() - 1] == y);
                } else {
                    let a = if i < p { i } else { i - 1 };
                    assert(t[a] == y);
                    assert(t.contains(y));
                    let k = choose|k: int| 0 <= k < rest.len() && rest[k] == y;
                    assert(s[k] == y);
                }
            }
            if s.contains(y) {
                let k = choose|k: int| 0 <= k < s.len() && s[k] == y;
                if k == s.len() - 1 {
                    assert(sorted[p] == y);
                } else {
                    assert(rest[k] == y);
                    assert(t.contains(y));
                    let a = choose|a: int| 0 <= a < t.len() && t[a] == y;
                    let i = if a < p { a } else { a + 1 };
                    assert(sorted[i] == y);
                }
            }
        }
        if distinct_uuids(s) {
            assert(distinct_uuids(rest)) by {
                assert forall|i: int, j: int| 0 <= i < j < rest.len() implies (#[trigger] rest[i]).uuid
                    != (#[trigger] rest[j]).uuid by {
                    assert(s[i].uuid != s[j].uuid);
                }
            }
            assert forall|i: int, j: int| 0 <= i < j < sorted.len() implies (
            #[trigger] sorted[i]).uuid != (#[trigger] sorted[j]).uuid by {
                let a = if i < p { i } else { i - 1 };
                let b = if j < p { j } else { j - 1 };
                if i == p || j == p {
                    let other = if i == p { b } else { a };
                    assert(t.contains(t[other]));
                    let k = choose|k: int| 0 <= k < rest.len() && rest[k] == t[other];
                    assert(s[k].uuid != s[s.len() - 1].uuid);
                } else {
                    assert(t[a].uuid != t[b].uuid);
                }
            }
        }
    } else {
        assert(s =~= Seq::empty());
    }
}

proof fn with_new_is_distinct(s: Seq<ItemView>, more: Seq<ItemView>, n: nat)
    requires
        distinct_uuids(s),
        n <= more.len(),
    ensures
        distinct_uuids(with_new(s, more, n)),
        forall|x: ItemView| #[trigger]
            with_new(s, more, n).contains(x) ==> s.contains(x) || more.contains(x),
        forall|u: Seq<char>| #[trigger]
            has_uuid(with_new(s, more, n), u) <==> has_uuid(s, u) || has_uuid(
                more.take(n as int),
                u,
            ),
    decreases n,
{
    let r = with_new(s, more, n);
    if n == 0 {
        assert forall|u: Seq<char>| #[trigger] has_uuid(r, u) <==> has_uuid(s, u) || has_uuid(
            more.take(0),
            u,
        ) by {}
    } else {
        let m = (n - 1) as nat;
        with_new_is_distinct(s, more, m);
        let before = with_new(s, more, m);
        let x = more[n - 1];
        assert forall|y: ItemView| #[trigger] r.contains(y) implies s.contains(y) || more.contains(
            y,
        ) by {
            let i = choose|i: int| 0 <= i < r.len() && r[i] == y;
            if i < before.len() {
                assert(before[i] == y);
                assert(before.contains(y));
            } else {
                assert(more[n - 1] == y);
            }
        }
        if !has_uuid(before, x.uuid) {
            assert forall|i: int, j: int| 0 <= i < j < r.len() implies (#[trigger] r[i]).uuid != (
            #[trigger] r[j]).uuid by {
                if j == before.len() {
                    assert(before[i].uuid != x.uuid);
                } else {
                    assert(before[i].uuid != before[j].uuid);
                }
            }
        }
        assert forall|u: Seq<char>| #[trigger] has_uuid(r, u) <==> has_uuid(s, u) || has_uuid(
            more.take(n as int),
            u,
        ) by {
            let small = more.take(m as int);
            let big = more.take(n as int);
            if has_uuid(r, u) {
                let i = choose|i: int| 0 <= i < r.len() && (#[trigger] r[i]).uuid == u;
                if i < before.len() {
                    assert(before[i].uuid == u);
                    assert(has_uuid(before, u));
                    if has_uuid(small, u) {
                        let k = choose|k: int| 0 <= k < small.len() && (#[trigger] small[k]).uuid == u;
                        assert(big[k].uuid == u);
                    }
                } else {
                    assert(big[n - 1].uuid == u);
                }
            }
            if has_uuid(s, u) || has_uuid(big, u) {
                if !has_uuid(s, u) {
                    let k = choose|k: int| 0 <= k < big.len() && (#[trigger] big[k]).uuid == u;
                    if k < m {
                        assert(small[k].uuid == u);
                        assert(has_uuid(small, u));
                    }
                }
                if has_uuid(before, u) {
                    let i = choose|i: int| 0 <= i < before.len() && (#[trigger] before[i]).uuid == u;
                    assert(r[i].uuid == u);
                } else {
                    assert(r[before.len() as int].uuid == u);
                }
            }
        }
    }
}

proof fn scheduled_is_the_subtrees(items: Seq<ItemView>, targets: Seq<ItemView>, n: nat)
    requires
        n <= targets.len(),
    ensures
        distinct_uuids(scheduled(items, targets, n)),
        forall|x: ItemView| #[trigger]
            scheduled(items, targets, n).contains(x) ==> exists|k: int|
                0 <= k < n && #[trigger] subtree(items, targets[k]).contains(x),
        forall|k: int, x: ItemView|
            0 <= k < n && #[trigger] subtree(items, targets[k]).contains(x) ==> has_uuid(
                scheduled(items, targets, n),
                x.uuid,
            ),
    decreases n,
{
    if n > 0 {
        let m = (n - 1) as nat;
        scheduled_is_the_subtrees(items, targets, m);
        let before = scheduled(items, targets, m);
        let more = subtree(items, targets[n - 1]);
        let all = scheduled(items, targets, n);
        with_new_is_distinct(before, more, more.len());
        assert(more.take(more.len() as int) =~= more);
        assert forall|x: ItemView| #[trigger] all.contains(x) implies exists|k: int|
            0 <= k < n && #[trigger] subtree(items, targets[k]).contains(x) by {
            if before.contains(x) {
                let k = choose|k: int|
                    0 <= k < m && #[trigger] subtree(items, targets[k]).contains(x);
                assert(subtree(items, targets[k]).contains(x));
            } else {
                assert(subtree(items, targets[n - 1]).contains(x));
            }
        }
        assert forall|k: int, x: ItemView|
            0 <= k < n && #[trigger] subtree(items, targets[k]).contains(x) implies has_uuid(
            all,
            x.uuid,
        ) by {
            if k < m {
                assert(has_uuid(before, x.uuid));
            } else {
                let i = choose|i: int| 0 <= i < more.len() && more[i] == x;
                assert(more[i].uuid == x.uuid);
                assert(has_uuid(more, x.uuid));
            }
        }
    }
}

/// A deletion covers exactly the targets and what is below them, and names no item twice.
pub proof fn deletions_are_the_subtrees(
    items: Seq<ItemView>,
    refs: Seq<Seq<char>>,
    recursive: bool,
)
    requires
        deletions(items, refs, recursive) is Ok,
    ensures
        ({
            let targets = targets_of(items, refs, refs.len())->Ok_0;
            let order = deletions(items, refs, recursive)->Ok_0;
            &&& distinct_uuids(order)
            &&& forall|x: ItemView| #[trigger]
                order.contains(x) ==> exists|k: int|
                    0 <= k < targets.len() && #[trigger] subtree(items, targets[k]).contains(x)
            &&& forall|k: int, x: ItemView|
                0 <= k < targets.len() && #[trigger] subtree(items, targets[k]).contains(x)
                    ==> has_uuid(order, x.uuid)
        }),
{
    let targets = targets_of(items, refs, refs.len())->Ok_0;
    let order = deletions(items, refs, recursive)->Ok_0;
    let plain = scheduled(items, targets, targets.len());
    scheduled_is_the_subtrees(items, targets, targets.len());
    sorting_keeps_items(items, plain);
    assert forall|k: int, x: ItemView|
        0 <= k < targets.len() && #[trigger] subtree(items, targets[k]).contains(x) implies has_uuid(
        order,
        x.uuid,
    ) by {
        assert(has_uuid(plain, x.uuid));
        let i = choose|i: int| 0 <= i < plain.len() && (#[trigger] plain[i]).uuid == x.uuid;
        assert(plain.contains(plain[i]));
        assert(order.contains(plain[i]));
        let j = choose|j: int| 0 <= j < order.len() && order[j] == plain[i];
        assert(order[j].uuid == x.uuid);
    }
}

proof fn targets_are_listed(items: Seq<ItemView>, refs: Seq<Seq<char>>, n: nat)
    ensures
        targets_of(items, refs, n) matches Ok(targets) ==> forall|k: int|
            0 <= k < targets.len() ==> items.contains(#[trigger] targets[k]),
    decreases n,
{
    if n > 0 {
        targets_are_listed(items, refs, (n - 1) as nat);
        resolved_items_are_listed(items, refs[n - 1]);
    }
}

/// Something in a folder is deeper than the folder.
pub proof fn children_are_deeper(items: Seq<ItemView>, folder: ItemView, item: ItemView)
    requires
        distinct_uuids(items),
        acyclic(items),
        items.contains(folder),
        folder.uuid.len() > 0,
        item.parent == folder.uuid,
    ensures
        depth_of(items, item) == depth_of(items, folder) + 1,
{
    let k = choose|k: int| 0 <= k < items.len() && items[k] == folder;
    ways_up_go_through_parents(items, k);
}

/// Children are deleted before the folder that they are in.
pub proof fn children_are_deleted_first(
    items: Seq<ItemView>,
    refs: Seq<Seq<char>>,
    recursive: bool,
    i: int,
    j: int,
)
    requires
        distinct_uuids(items),
        acyclic(items),
        can_delete(items, refs, recursive),
        deletions(items, refs, recursive) is Ok,
        0 <= i < deletions(items, refs, recursive)->Ok_0.len(),
        0 <= j < deletions(items, refs, recursive)->Ok_0.len(),
        deletions(items, refs, recursive)->Ok_0[i].parent == deletions(
            items,
            refs,
            recursive,
        )->Ok_0[j].uuid,
        deletions(items, refs, recursive)->Ok_0[j].uuid.len() > 0,
    ensures
        i < j,
{
    let targets = targets_of(items, refs, refs.len())->Ok_0;
    let order = deletions(items, refs, recursive)->Ok_0;
    let plain = scheduled(items, targets, targets.len());
    deletions_are_the_subtrees(items, refs, recursive);
    sorting_keeps_items(items, plain);
    targets_are_listed(items, refs, refs.len());
    assert(order.contains(order[j]));
    let k = choose|k: int|
        0 <= k < targets.len() && #[trigger] subtree(items, targets[k]).contains(order[j]);
    all_walks_end(items, targets, targets.len(), recursive, k);
    descendants_are_the_subtree(items, targets[k].uuid);
    let sub = subtree(items, targets[k]);
    let m = choose|m: int| 0 <= m < sub.len() && sub[m] == order[j];
    if m < sub.len() - 1 {
        assert(all_below(items, targets[k].uuid)[m] == order[j]);
        assert(all_below(items, targets[k].uuid).contains(order[j]));
    }
    assert(items.contains(order[j]));
    children_are_deeper(items, order[j], order[i]);
}

proof fn all_walks_end(
    items: Seq<ItemView>,
    targets: Seq<ItemView>,
    n: nat,
    recursive: bool,
    k: int,
)
    requires
        walks_end(items, targets, n, recursive),
        refused(items, targets, n, recursive) is None,
        0 <= k < n,
    ensures
        walk_ends(items, false, Walk::Every, targets[k].uuid),
    decreases n,
{
    if k < n - 1 {
        all_walks_end(items, targets, (n - 1) as nat, recursive, k);
    }
}

/// One reference that means no item, and nothing is deleted.
pub proof fn one_bad_target_aborts(
    items: Seq<ItemView>,
    refs: Seq<Seq<char>>,
    recursive: bool,
    k: int,
)
    requires
        0 <= k < refs.len(),
        resolved(items, refs[k]) is Err,
    ensures
        deletions(items, refs, recursive) is Err,
{
    if targets_of(items, refs, (k + 1) as nat) is Err {
        targets_stop(items, refs, (k + 1) as nat, refs.len());
    }
}

/// Unless asked to go into folders, a deletion that goes through has only empty folders among its
/// targets.
pub proof fn folders_are_kept_unless_asked(items: Seq<ItemView>, refs: Seq<Seq<char>>, k: int)
    requires
        deletions(items, refs, false) is Ok,
        0 <= k < targets_of(items, refs, refs.len())->Ok_0.len(),
        targets_of(items, refs, refs.len())->Ok_0[k].is_folder(),
    ensures
        all_below(items, targets_of(items, refs, refs.len())->Ok_0[k].uuid).len() == 0,
{
    let targets = targets_of(items, refs, refs.len())->Ok_0;
    if all_below(items, targets[k].uuid).len() > 0 {
        assert(is_refused(items, targets[k], false));
        assert(refused(items, targets, (k + 1) as nat, false) is Some);
        refused_stops(items, targets, (k + 1) as nat, targets.len(), false);
    }
}

/// What is emptied is what is in the trash itself: exactly the items whose parent is the trash, in
/// order of the listing.
pub proof fn the_trash_is_what_is_in_it(items: Seq<ItemView>, n: nat) -> (at: Seq<int>)
    requires
        n <= items.len(),
    ensures
        at.len() == trash_of(items, n).len(),
        forall|k: int|
            0 <= k < at.len() ==> 0 <= #[trigger] at[k] < n && items[at[k]].parent == "trash"@
                && trash_of(items, n)[k] == items[at[k]].uuid,
        forall|j: int, k: int| 0 <= j < k < at.len() ==> #[trigger] at[j] < #[trigger] at[k],
        forall|i: int|
            0 <= i < n && (#[trigger] items[i]).parent == "trash"@ ==> at.contains(i),
    decreases n,
{
    if n == 0 {
        Seq::empty()
    } else {
        let before = the_trash_is_what_is_in_it(items, (n - 1) as nat);
        if items[n - 1].parent == "trash"@ {
            let at = before.push(n - 1);
            assert forall|i: int|
                0 <= i < n && (#[trigger] items[i]).parent == "trash"@ implies at.contains(i) by {
                if i < n - 1 {
                    assert(before.contains(i));
                    let k = choose|k: int| 0 <= k < before.len() && before[k] == i;
                    assert(at[k] == i);
                } else {
                    assert(at[before.len() as int] == i);
                }
            }
            at
        } else {
            before
        }
    }
}

proof fn targets_are_what_references_mean(
    items: Seq<ItemView>,
    refs: Seq<Seq<char>>,
    n: nat,
)
    requires
        n <= refs.len(),
        targets_of(items, refs, n) is Ok,
    ensures
        targets_of(items, refs, n)->Ok_0.len() == n,
        forall|k: int|
            0 <= k < n ==> resolved(items, #[trigger] refs[k]) == Ok::<ItemView, ErrorView>(
                targets_of(items, refs, n)->Ok_0[k],
            ),
    decreases n,
{
    if n > 0 {
        targets_are_what_references_mean(items, refs, (n - 1) as nat);
    }
}

proof fn meant_targets_are_found(items: Seq<ItemView>, refs: Seq<Seq<char>>, n: nat)
    requires
        n <= refs.len(),
        forall|k: int| 0 <= k < n ==> resolved(items, #[trigger] refs[k]) is Ok,
    ensures
        targets_of(items, refs, n) is Ok,
    decreases n,
{
    if n > 0 {
        meant_targets_are_found(items, refs, (n - 1) as nat);
        assert(resolved(items, refs[n - 1]) is Ok);
    }
}

/// Whether some reference means the item or a folder that it is in, however deep.
pub open spec fn is_meant(items: Seq<ItemView>, refs: Seq<Seq<char>>, x: ItemView) -> bool {
    exists|k: int|
        0 <= k < refs.len() && (resolved(items, #[trigger] refs[k]) matches Ok(target)
            && ancestors(items, x.uuid).contains(target.uuid))
}

/// A deletion takes exactly the items that its references mean and all that is in them.
pub proof fn deletions_take_what_is_inside(
    items: Seq<ItemView>,
    refs: Seq<Seq<char>>,
    recursive: bool,
    x: ItemView,
)
    requires
        distinct_uuids(items),
        all_have_uuids(items),
        acyclic(items),
        deletions(items, refs, recursive) is Ok,
    ensures
        deletions(items, refs, recursive)->Ok_0.contains(x) <==> items.contains(x) && is_meant(
            items,
            refs,
            x,
        ),
{
    let targets = targets_of(items, refs, refs.len())->Ok_0;
    let order = deletions(items, refs, recursive)->Ok_0;
    deletions_are_the_subtrees(items, refs, recursive);
    targets_are_what_references_mean(items, refs, refs.len());
    if order.contains(x) {
        let k = choose|k: int|
            0 <= k < targets.len() && #[trigger] subtree(items, targets[k]).contains(x);
        assert(resolved(items, refs[k]) == Ok::<ItemView, ErrorView>(targets[k]));
        subtrees_are_inside(items, refs[k], targets[k], x);
    }
    if items.contains(x) && is_meant(items, refs, x) {
        let k = choose|k: int|
            0 <= k < refs.len() && (resolved(items, #[trigger] refs[k]) matches Ok(target)
                && ancestors(items, x.uuid).contains(target.uuid));
        subtrees_are_inside(items, refs[k], targets[k], x);
        assert(subtree(items, targets[k]).contains(x));
        assert(has_uuid(order, x.uuid));
        let j = choose|j: int| 0 <= j < order.len() && (#[trigger] order[j]).uuid == x.uuid;
        assert(order.contains(order[j]));
        let m = choose|m: int|
            0 <= m < targets.len() && #[trigger] subtree(items, targets[m]).contains(order[j]);
        assert(resolved(items, refs[m]) == Ok::<ItemView, ErrorView>(targets[m]));
        subtrees_are_inside(items, refs[m], targets[m], order[j]);
        let a = choose|a: int| 0 <= a < items.len() && items[a] == x;
        let b = choose|b: int| 0 <= b < items.len() && items[b] == order[j];
        assert(a == b);
    }
}

proof fn subtrees_are_inside(
    items: Seq<ItemView>,
    reference: Seq<char>,
    target: ItemView,
    x: ItemView,
)
    requires
        distinct_uuids(items),
        all_have_uuids(items),
        acyclic(items),
        resolved(items, reference) == Ok::<ItemView, ErrorView>(target),
    ensures
        subtree(items, target).contains(x) <==> items.contains(x) && ancestors(
            items,
            x.uuid,
        ).contains(target.uuid),
{
    resolved_items_are_listed(items, reference);
    let t = choose|t: int| 0 <= t < items.len() && items[t] == target;
    assert(items[t].uuid.len() > 0);
    descendants_are_inside(items, target.uuid);
    ways_up_go_through_parents(items, t);
    let below = all_below(items, target.uuid);
    let sub = subtree(items, target);
    assert(ancestors(items, target.uuid)[0] == target.uuid);
    if sub.contains(x) {
        let i = choose|i: int| 0 <= i < sub.len() && sub[i] == x;
        if i < below.len() {
            assert(below[i] == x);
            assert(below.contains(x));
        }
    }
    if items.contains(x) && ancestors(items, x.uuid).contains(target.uuid) {
        if x.uuid == target.uuid {
            let a = choose|a: int| 0 <= a < items.len() && items[a] == x;
            assert(a == t);
            assert(sub[below.len() as int] == x);
        } else {
            assert(below.contains(x));
            let i = choose|i: int| 0 <= i < below.len() && below[i] == x;
            assert(sub[i] == x);
        }
    }
}

/// A deletion goes through where every reference means an item and, unless folders are to be gone
/// into, no folder among them holds anything. The first that does is named.
pub proof fn deletions_go_through_unless_folders_are_full(
    items: Seq<ItemView>,
    refs: Seq<Seq<char>>,
    recursive: bool,
    k: int,
    x: int,
)
    requires
        distinct_uuids(items),
        all_have_uuids(items),
        acyclic(items),
        forall|k: int| 0 <= k < refs.len() ==> resolved(items, #[trigger] refs[k]) is Ok,
    ensures
        recursive ==> deletions(items, refs, recursive) is Ok,
        (forall|j: int, y: int|
            0 <= j < refs.len() && 0 <= y < items.len() && resolved(
                items,
                #[trigger] refs[j],
            )->Ok_0.is_folder() ==> (#[trigger] items[y]).parent != resolved(
                items,
                refs[j],
            )->Ok_0.uuid) ==> deletions(items, refs, recursive) is Ok,
        !recursive && 0 <= k < refs.len() && 0 <= x < items.len() && resolved(
            items,
            refs[k],
        )->Ok_0.is_folder() && items[x].parent == resolved(items, refs[k])->Ok_0.uuid && (forall|
            j: int,
            y: int,
        |
            0 <= j < k && 0 <= y < items.len() && resolved(
                items,
                #[trigger] refs[j],
            )->Ok_0.is_folder() ==> (#[trigger] items[y]).parent != resolved(
                items,
                refs[j],
            )->Ok_0.uuid) ==> deletions(items, refs, recursive) == Err::<Seq<ItemView>, ErrorView>(
            ErrorView::FolderNotEmpty(resolved(items, refs[k])->Ok_0.visible_name),
        ),
{
    meant_targets_are_found(items, refs, refs.len());
    targets_are_what_references_mean(items, refs, refs.len());
    let targets = targets_of(items, refs, refs.len())->Ok_0;
    assert forall|j: int| 0 <= j < targets.len() implies (is_refused(
        items,
        #[trigger] targets[j],
        recursive,
    ) <==> !recursive && targets[j].is_folder() && exists|y: int|
        0 <= y < items.len() && (#[trigger] items[y]).parent == targets[j].uuid) by {
        assert(resolved(items, refs[j]) == Ok::<ItemView, ErrorView>(targets[j]));
        full_folders_hold_something(items, refs[j], targets[j]);
    }
    if refused(items, targets, targets.len(), recursive) is Some {
        let j = refusals_have_a_target(items, targets, targets.len(), recursive);
        assert(is_refused(items, targets[j], recursive));
        let y = choose|y: int|
            0 <= y < items.len() && (#[trigger] items[y]).parent == targets[j].uuid;
        assert(resolved(items, refs[j])->Ok_0 == targets[j]);
        assert(items[y].parent == targets[j].uuid);
    }
    if !recursive && 0 <= k < refs.len() && 0 <= x < items.len() && resolved(
        items,
        refs[k],
    )->Ok_0.is_folder() && items[x].parent == resolved(items, refs[k])->Ok_0.uuid && (forall|
        j: int,
        y: int,
    |
        0 <= j < k && 0 <= y < items.len() && resolved(
            items,
            #[trigger] refs[j],
        )->Ok_0.is_folder() ==> (#[trigger] items[y]).parent != resolved(
            items,
            refs[j],
        )->Ok_0.uuid) {
        assert(items[x].parent == targets[k].uuid);
        assert(is_refused(items, targets[k], recursive));
        assert forall|j: int| 0 <= j < k implies !is_refused(
            items,
            #[trigger] targets[j],
            recursive,
        ) by {
            assert(resolved(items, refs[j])->Ok_0 == targets[j]);
            if is_refused(items, targets[j], recursive) {
                let y = choose|y: int|
                    0 <= y < items.len() && (#[trigger] items[y]).parent == targets[j].uuid;
                assert(items[y].parent == targets[j].uuid);
            }
        }
        nothing_is_refused_before(items, targets, k as nat, recursive);
        assert(refused(items, targets, (k + 1) as nat, recursive) == Some(targets[k].visible_name));
        refused_stops(items, targets, (k + 1) as nat, targets.len(), recursive);
    }
}

proof fn nothing_is_refused_before(
    items: Seq<ItemView>,
    targets: Seq<ItemView>,
    n: nat,
    recursive: bool,
)
    requires
        n <= targets.len(),
        forall|j: int| 0 <= j < n ==> !is_refused(items, #[trigger] targets[j], recursive),
    ensures
        refused(items, targets, n, recursive) is None,
    decreases n,
{
    if n > 0 {
        nothing_is_refused_before(items, targets, (n - 1) as nat, recursive);
        assert(!is_refused(items, targets[n - 1], recursive));
    }
}

proof fn refusals_have_a_target(
    items: Seq<ItemView>,
    targets: Seq<ItemView>,
    n: nat,
    recursive: bool,
) -> (k: int)
    requires
        refused(items, targets, n, recursive) is Some,
    ensures
        0 <= k < n,
        is_refused(items, targets[k], recursive),
    decreases n,
{
    if refused(items, targets, (n - 1) as nat, recursive) is Some {
        refusals_have_a_target(items, targets, (n - 1) as nat, recursive)
    } else {
        n - 1
    }
}

proof fn full_folders_hold_something(
    items: Seq<ItemView>,
    reference: Seq<char>,
    target: ItemView,
)
    requires
        distinct_uuids(items),
        all_have_uuids(items),
        acyclic(items),
        resolved(items, reference) == Ok::<ItemView, ErrorView>(target),
    ensures
        all_below(items, target.uuid).len() > 0 <==> exists|y: int|
            0 <= y < items.len() && (#[trigger] items[y]).parent == target.uuid,
{
    resolved_items_are_listed(items, reference);
    let t = choose|t: int| 0 <= t < items.len() && items[t] == target;
    assert(items[t].uuid.len() > 0);
    let below = all_below(items, target.uuid);
    descendants_are_inside(items, target.uuid);
    descendants_are_the_subtree(items, target.uuid);
    if exists|y: int| 0 <= y < items.len() && (#[trigger] items[y]).parent == target.uuid {
        let y = choose|y: int|
            0 <= y < items.len() && (#[trigger] items[y]).parent == target.uuid;
        assert(items.contains(items[y]));
        assert(below.contains(items[y]));
    }
    let kids = children(items, target.uuid, false);
    if below.len() > 0 {
        if kids.len() == 0 {
            assert(below.len() == 0);
        }
        assert(kids.contains(kids[0]));
        children_membership(items, target.uuid, false, kids[0]);
        let y = choose|y: int| 0 <= y < items.len() && items[y] == kids[0];
        assert(items[y].parent == target.uuid);
    }
}

/// Patterns are deleted with all that they match: a deletion by patterns takes exactly what they stand
/// for and all that is in it, and one that stands for nothing is the error of all.
pub proof fn patterns_delete_what_they_stand_for(
    items: Seq<ItemView>,
    refs: Seq<Seq<char>>,
    recursive: bool,
    x: ItemView,
)
    requires
        distinct_uuids(items),
        all_have_uuids(items),
        acyclic(items),
        forall|i: int|
            0 <= i < items.len() ==> (#[trigger] items[i]).uuid != "/"@ && items[i].uuid
                != "(root)"@,
    ensures
        expanded(items, refs, refs.len()) matches Err(e) ==> expanded_deletions(
            items,
            refs,
            recursive,
        ) == Err::<Seq<ItemView>, ErrorView>(e),
        expanded(items, refs, refs.len()) matches Ok(uuids) ==> (expanded_deletions(
            items,
            refs,
            recursive,
        ) matches Ok(order) ==> (order.contains(x) <==> items.contains(x) && exists|k: int|
            0 <= k < uuids.len() && ancestors(items, x.uuid).contains(#[trigger] uuids[k]))),
{
    if let Ok(uuids) = expanded(items, refs, refs.len()) {
        expansions_are_listed(items, refs, refs.len());
        if expanded_deletions(items, refs, recursive) is Ok {
            deletions_take_what_is_inside(items, uuids, recursive, x);
            assert forall|k: int| 0 <= k < uuids.len() implies (resolved(
                items,
                #[trigger] uuids[k],
            ) matches Ok(target) && target.uuid == uuids[k]) by {
                let i = choose|i: int|
                    0 <= i < items.len() && (#[trigger] items[i]).uuid == uuids[k];
                assert(items.contains(items[i]));
                uuids_resolve_to_their_items(items, items[i]);
            }
            if is_meant(items, uuids, x) {
                let k = choose|k: int|
                    0 <= k < uuids.len() && (resolved(items, #[trigger] uuids[k]) matches Ok(target)
                        && ancestors(items, x.uuid).contains(target.uuid));
                assert(ancestors(items, x.uuid).contains(uuids[k]));
            }
        }
    }
}

/// What is deleted comes deepest first, whatever order it was named in.
pub proof fn the_deepest_go_first(
    items: Seq<ItemView>,
    refs: Seq<Seq<char>>,
    recursive: bool,
    i: int,
    j: int,
)
    requires
        deletions(items, refs, recursive) is Ok,
        0 <= i <= j < deletions(items, refs, recursive)->Ok_0.len(),
    ensures
        ancestors(items, deletions(items, refs, recursive)->Ok_0[i].parent).len() >= ancestors(
            items,
            deletions(items, refs, recursive)->Ok_0[j].parent,
        ).len(),
{
    let targets = targets_of(items, refs, refs.len())->Ok_0;
    let order = deletions(items, refs, recursive)->Ok_0;
    sorting_keeps_items(items, scheduled(items, targets, targets.len()));
    assert(is_deepest_first(items, order));
    assert(depth_of(items, order[i]) >= depth_of(items, order[j]));
}

} // verus!
