//! A snapshot shows exactly what lies below its root.
use vstd::prelude::*;
use crate::glob::is_step;
use crate::pathmap::{keys, put_sets_one_key, value_of};
use crate::snapshot::{
    remote_type, snapshot_of, subtree_of, with_below, with_below_keeps, with_strays_keeps,
};
use crate::sync::{joined, ActionView, RemoteType, RemoteView, SnapshotView};
use crate::text::ascending;
use crate::tree::{children, children_membership, insert_sorted};
use crate::walk::{ancestors, ends, lookup, name_count, usable_name, walk_ends, Walk};
use crate::xochitl::ItemView;

verus! {

/// Whether the items lead down from the folder: each is listed, the first is in the folder, every
/// other is in the one before it, and all but the last are folders.
pub open spec fn leads_below(items: Seq<ItemView>, root: Seq<char>, way: Seq<ItemView>) -> bool {
    &&& way.len() > 0
    &&& way[0].parent == root
    &&& forall|i: int| 0 <= i < way.len() ==> items.contains(#[trigger] way[i])
    &&& forall|i: int| 0 <= i < way.len() - 1 ==> #[trigger] is_step(way, i)
}

/// Whether no two listed items of the item's folder have its name.
pub open spec fn is_only_one(items: Seq<ItemView>, x: ItemView) -> bool {
    forall|i: int, j: int|
        0 <= i < j < items.len() && (#[trigger] items[i]).parent == x.parent && (
        #[trigger] items[j]).parent == x.parent ==> items[i].visible_name != x.visible_name
            || items[j].visible_name != x.visible_name
}

/// Whether the item can stand beside local files: its name is its own, and a file can have it.
pub open spec fn can_stand(items: Seq<ItemView>, x: ItemView) -> bool {
    &&& is_only_one(items, x)
    &&& x.visible_name.len() > 0 && !x.visible_name.contains('/') && x.visible_name[0] != '.'
}

/// The directory that the first `k` items of a way lead to from `dir`.
pub open spec fn place(dir: Seq<char>, way: Seq<ItemView>, k: nat) -> Seq<char>
    decreases k,
{
    if k == 0 {
        dir
    } else {
        joined(place(dir, way, (k - 1) as nat), way[k - 1].visible_name)
    }
}

/// The document of the directory `dir` that an item of the given type is.
pub open spec fn document_in(dir: Seq<char>, x: ItemView, doc_type: RemoteType) -> RemoteView {
    RemoteView {
        rel_dir: dir,
        name: x.visible_name,
        uuid: x.uuid,
        doc_type,
        last_modified: x.last_modified,
        size_bytes: x.size_bytes,
    }
}

/// Whether a snapshot shows an item of the directory `dir`: a folder under its path, a document by its
/// type, and anything that cannot be synced as skipped, with the reason.
pub open spec fn shows(
    items: Seq<ItemView>,
    s: SnapshotView,
    dir: Seq<char>,
    x: ItemView,
) -> bool {
    let path = joined(dir, x.visible_name);
    if !is_only_one(items, x) {
        s.skips.contains(
            ActionView::Skip { path, reason: "duplicate sibling name on device"@ },
        )
    } else if !can_stand(items, x) {
        s.skips.contains(ActionView::Skip { path, reason: "name is not usable as a filename"@ })
    } else if x.is_folder() {
        value_of(s.folders, path) is Some
    } else if x.file_type is None || x.file_type == Some("notebook"@) {
        s.docs.contains(document_in(dir, x, RemoteType::Notebook))
    } else if x.file_type == Some("pdf"@) {
        s.docs.contains(document_in(dir, x, RemoteType::Pdf))
    } else if x.file_type == Some("epub"@) {
        s.docs.contains(document_in(dir, x, RemoteType::Epub))
    } else {
        s.skips.contains(
            ActionView::Skip {
                path,
                reason: "unsupported document type '"@ + x.file_type->Some_0 + "'"@,
            },
        )
    }
}

spec fn shared(items: Seq<ItemView>, n: nat, parent: Seq<char>, name: Seq<char>) -> nat
    decreases n,
{
    if n == 0 {
        0
    } else {
        shared(items, (n - 1) as nat, parent, name) + if items[n - 1].parent == parent && items[n
            - 1].visible_name == name {
            1nat
        } else {
            0nat
        }
    }
}

proof fn count_of_a_prefix(s: Seq<ItemView>, t: Seq<ItemView>, n: nat, name: Seq<char>)
    requires
        n <= s.len(),
        n <= t.len(),
        forall|i: int| 0 <= i < n ==> s[i] == #[trigger] t[i],
    ensures
        name_count(s, n, name) == name_count(t, n, name),
    decreases n,
{
    if n > 0 {
        count_of_a_prefix(s, t, (n - 1) as nat, name);
        assert(s[n - 1] == t[n - 1]);
    }
}

proof fn inserting_counts(s: Seq<ItemView>, x: ItemView, name: Seq<char>)
    ensures
        insert_sorted(s, x).len() == s.len() + 1,
        name_count(insert_sorted(s, x), s.len() + 1, name) == name_count(s, s.len(), name) + if
            x.visible_name == name {
            1nat
        } else {
            0nat
        },
    decreases s.len(),
{
    let r = insert_sorted(s, x);
    if s.len() > 0 && crate::tree::precedes(x, s.last()) {
        let front = insert_sorted(s.drop_last(), x);
        inserting_counts(s.drop_last(), x, name);
        count_of_a_prefix(r, front, s.len(), name);
        count_of_a_prefix(s, s.drop_last(), (s.len() - 1) as nat, name);
    } else {
        count_of_a_prefix(r, s, s.len(), name);
    }
}

proof fn children_share_names(items: Seq<ItemView>, parent: Seq<char>, name: Seq<char>)
    ensures
        name_count(
            children(items, parent, false),
            children(items, parent, false).len(),
            name,
        ) == shared(items, items.len(), parent, name),
    decreases items.len(),
{
    if items.len() > 0 {
        let rest = items.drop_last();
        children_share_names(rest, parent, name);
        inserting_counts(children(rest, parent, false), items.last(), name);
        shared_in_a_prefix(items, rest, rest.len(), parent, name);
    }
}

proof fn shared_in_a_prefix(
    items: Seq<ItemView>,
    rest: Seq<ItemView>,
    n: nat,
    parent: Seq<char>,
    name: Seq<char>,
)
    requires
        rest == items.drop_last(),
        items.len() > 0,
        n <= rest.len(),
    ensures
        shared(items, n, parent, name) == shared(rest, n, parent, name),
    decreases n,
{
    if n > 0 {
        shared_in_a_prefix(items, rest, (n - 1) as nat, parent, name);
    }
}

proof fn sharing_takes_two(items: Seq<ItemView>, n: nat, parent: Seq<char>, name: Seq<char>)
    requires
        n <= items.len(),
    ensures
        shared(items, n, parent, name) == 0 <==> forall|i: int|
            0 <= i < n && (#[trigger] items[i]).parent == parent ==> items[i].visible_name != name,
        shared(items, n, parent, name) <= 1 <==> forall|i: int, j: int|
            0 <= i < j < n && (#[trigger] items[i]).parent == parent && (#[trigger] items[j]).parent
                == parent ==> items[i].visible_name != name || items[j].visible_name != name,
    decreases n,
{
    if n > 0 {
        let m = (n - 1) as nat;
        sharing_takes_two(items, m, parent, name);
        let last = items[m as int];
        if last.parent == parent && last.visible_name == name {
            if shared(items, m, parent, name) > 0 {
                let i = choose|i: int|
                    0 <= i < m && (#[trigger] items[i]).parent == parent && items[i].visible_name
                        == name;
                assert(items[i].parent == parent && items[m as int].parent == parent);
            }
        }
        if shared(items, m, parent, name) > 1 {
            let (i, j) = choose|i: int, j: int|
                0 <= i < j < m && (#[trigger] items[i]).parent == parent && (
                #[trigger] items[j]).parent == parent && items[i].visible_name == name
                    && items[j].visible_name == name;
            assert(items[i].parent == parent && items[j].parent == parent);
        }
        if shared(items, m, parent, name) > 0 {
            let i = choose|i: int|
                0 <= i < m && (#[trigger] items[i]).parent == parent && items[i].visible_name
                    == name;
            assert(items[i].parent == parent);
        }
    }
}

proof fn shared_names_are_counted(items: Seq<ItemView>, x: ItemView)
    ensures
        name_count(
            children(items, x.parent, false),
            children(items, x.parent, false).len(),
            x.visible_name,
        ) <= 1 <==> is_only_one(items, x),
{
    children_share_names(items, x.parent, x.visible_name);
    sharing_takes_two(items, items.len(), x.parent, x.visible_name);
}

spec fn grows(s: SnapshotView, t: SnapshotView) -> bool {
    &&& forall|x: RemoteView| s.docs.contains(x) ==> #[trigger] t.docs.contains(x)
    &&& forall|x: ActionView| s.skips.contains(x) ==> #[trigger] t.skips.contains(x)
    &&& forall|p: Seq<char>|
        value_of(s.folders, p) is Some ==> #[trigger] value_of(t.folders, p) is Some
}

proof fn pushing_keeps<T>(s: Seq<T>, x: T)
    ensures
        forall|y: T| #[trigger] s.push(x).contains(y) <==> s.contains(y) || y == x,
{
    assert forall|y: T| #[trigger] s.push(x).contains(y) <==> s.contains(y) || y == x by {
        if s.contains(y) {
            let i = choose|i: int| 0 <= i < s.len() && s[i] == y;
            assert(s.push(x)[i] == y);
        }
        if y == x {
            assert(s.push(x)[s.len() as int] == y);
        }
        if s.push(x).contains(y) {
            let i = choose|i: int| 0 <= i < s.push(x).len() && s.push(x)[i] == y;
            if i < s.len() {
                assert(s[i] == y);
            }
        }
    }
}

spec fn is_sound(s: SnapshotView) -> bool {
    ascending(keys(s.folders)) && forall|i: int|
        0 <= i < s.skips.len() ==> (#[trigger] s.skips[i]) is Skip
}

proof fn one_step_grows(
    items: Seq<ItemView>,
    parent: Seq<char>,
    n: nat,
    dir: Seq<char>,
    fuel: nat,
    s: SnapshotView,
)
    requires
        is_sound(s),
        0 < n <= children(items, parent, false).len(),
    ensures
        ({
            let kids = children(items, parent, false);
            let before = with_below(items, kids, (n - 1) as nat, dir, fuel, s);
            let after = with_below(items, kids, n, dir, fuel, s);
            &&& grows(before, after)
            &&& shows(items, after, dir, kids[n - 1])
        }),
    decreases fuel, n, 0nat,
{
    let kids = children(items, parent, false);
    let before = with_below(items, kids, (n - 1) as nat, dir, fuel, s);
    let after = with_below(items, kids, n, dir, fuel, s);
    with_below_keeps(items, kids, (n - 1) as nat, dir, fuel, s);
    let kid = kids[n - 1];
    assert(kids.contains(kid));
    children_membership(items, parent, false, kid);
    shared_names_are_counted(items, kid);
    let path = joined(dir, kid.visible_name);
    if after.skips.len() == before.skips.len() + 1 {
        pushing_keeps(before.skips, after.skips.last());
    }
    if after.docs.len() == before.docs.len() + 1 {
        pushing_keeps(before.docs, after.docs.last());
    }
    if can_stand(items, kid) && kid.is_folder() {
        let entered = SnapshotView {
            folders: crate::pathmap::put(before.folders, path, kid.uuid),
            ..before
        };
        put_sets_one_key(before.folders, path, kid.uuid);
        assert(grows(before, entered));
        assert(value_of(entered.folders, path) is Some);
        if fuel > 0 {
            let sub = children(items, kid.uuid, false);
            all_steps_grow(items, kid.uuid, sub.len(), path, (fuel - 1) as nat, entered);
        }
    } else if can_stand(items, kid) {
        reveal_strlit("pdf");
        reveal_strlit("epub");
        reveal_strlit("notebook");
        assert("pdf"@.len() == 3 && "epub"@.len() == 4 && "notebook"@.len() == 8);
        if let Some(doc_type) = remote_type(kid.file_type) {
            pushing_keeps(before.docs, document_in(dir, kid, doc_type));
        } else {
            pushing_keeps(
                before.skips,
                ActionView::Skip {
                    path,
                    reason: "unsupported document type '"@ + kid.file_type->Some_0 + "'"@,
                },
            );
        }
    } else if !is_only_one(items, kid) {
        pushing_keeps(
            before.skips,
            ActionView::Skip { path, reason: "duplicate sibling name on device"@ },
        );
    } else {
        assert(!usable_name(kid.visible_name));
        pushing_keeps(
            before.skips,
            ActionView::Skip { path, reason: "name is not usable as a filename"@ },
        );
    }
}

proof fn all_steps_grow(
    items: Seq<ItemView>,
    parent: Seq<char>,
    n: nat,
    dir: Seq<char>,
    fuel: nat,
    s: SnapshotView,
)
    requires
        is_sound(s),
        n <= children(items, parent, false).len(),
    ensures
        grows(s, with_below(items, children(items, parent, false), n, dir, fuel, s)),
        is_sound(with_below(items, children(items, parent, false), n, dir, fuel, s)),
    decreases fuel, n, 1nat,
{
    let kids = children(items, parent, false);
    with_below_keeps(items, kids, n, dir, fuel, s);
    if n > 0 {
        all_steps_grow(items, parent, (n - 1) as nat, dir, fuel, s);
        one_step_grows(items, parent, n, dir, fuel, s);
    }
}

proof fn showing_lasts(
    items: Seq<ItemView>,
    s: SnapshotView,
    t: SnapshotView,
    dir: Seq<char>,
    x: ItemView,
)
    requires
        grows(s, t),
        shows(items, s, dir, x),
    ensures
        shows(items, t, dir, x),
{
}

spec fn goes_down(items: Seq<ItemView>, parent: Seq<char>, n: int, way: Seq<ItemView>) -> bool {
    &&& leads_below(items, parent, way)
    &&& exists|m: int| 0 <= m < n && #[trigger] children(items, parent, false)[m] == way[0]
    &&& forall|i: int| 0 <= i < way.len() - 1 ==> can_stand(items, #[trigger] way[i])
}

proof fn places_are_reached_from_the_front(dir: Seq<char>, way: Seq<ItemView>, k: nat)
    requires
        k < way.len(),
    ensures
        place(dir, way, k + 1) == place(
            joined(dir, way[0].visible_name),
            way.drop_first(),
            k,
        ),
    decreases k,
{
    if k > 0 {
        places_are_reached_from_the_front(dir, way, (k - 1) as nat);
        assert(way.drop_first()[k - 1] == way[k as int]);
    } else {
        assert(place(dir, way, 0) == dir);
    }
}

proof fn ways_go_on(items: Seq<ItemView>, parent: Seq<char>, way: Seq<ItemView>)
    requires
        leads_below(items, parent, way),
        way.len() > 1,
    ensures
        way[0].is_folder(),
        leads_below(items, way[0].uuid, way.drop_first()),
        children(items, way[0].uuid, false).contains(way[1]),
{
    let rest = way.drop_first();
    assert(is_step(way, 0));
    assert(items.contains(way[1]));
    children_membership(items, way[0].uuid, false, way[1]);
    assert forall|i: int| 0 <= i < rest.len() implies items.contains(#[trigger] rest[i]) by {
        assert(items.contains(way[i + 1]));
    }
    assert forall|i: int| 0 <= i < rest.len() - 1 implies #[trigger] is_step(rest, i) by {
        assert(is_step(way, i + 1));
        assert(rest[i] == way[i + 1] && rest[i + 1] == way[i + 2]);
    }
}

proof fn what_is_below_is_shown(
    items: Seq<ItemView>,
    parent: Seq<char>,
    n: nat,
    dir: Seq<char>,
    fuel: nat,
    s: SnapshotView,
    way: Seq<ItemView>,
)
    requires
        is_sound(s),
        n <= children(items, parent, false).len(),
        ends(items, false, Walk::Synced, children(items, parent, false), n, fuel),
        goes_down(items, parent, n as int, way),
    ensures
        shows(
            items,
            with_below(items, children(items, parent, false), n, dir, fuel, s),
            place(dir, way, (way.len() - 1) as nat),
            way.last(),
        ),
    decreases fuel, n,
{
    let kids = children(items, parent, false);
    let m = choose|m: int| 0 <= m < n && #[trigger] kids[m] == way[0];
    let before = with_below(items, kids, (n - 1) as nat, dir, fuel, s);
    let after = with_below(items, kids, n, dir, fuel, s);
    one_step_grows(items, parent, n, dir, fuel, s);
    if m < n - 1 {
        assert(kids[m] == way[0]);
        what_is_below_is_shown(items, parent, (n - 1) as nat, dir, fuel, s, way);
        showing_lasts(items, before, after, place(dir, way, (way.len() - 1) as nat), way.last());
    } else if way.len() > 1 {
        let kid = kids[n - 1];
        let rest = way.drop_first();
        let sub = children(items, kid.uuid, false);
        let path = joined(dir, kid.visible_name);
        ways_go_on(items, parent, way);
        assert(can_stand(items, way[0]));
        shared_names_are_counted(items, kid);
        assert(sub.len() > 0);
        let first = choose|first: int| 0 <= first < sub.len() && sub[first] == way[1];
        assert(sub[first] == rest[0]);
        assert forall|i: int| 0 <= i < rest.len() - 1 implies can_stand(
            items,
            #[trigger] rest[i],
        ) by {
            assert(can_stand(items, way[i + 1]));
        }
        let entered = SnapshotView {
            folders: crate::pathmap::put(before.folders, path, kid.uuid),
            ..before
        };
        all_steps_grow(items, parent, (n - 1) as nat, dir, fuel, s);
        put_sets_one_key(before.folders, path, kid.uuid);
        assert(goes_down(items, kid.uuid, sub.len() as int, rest));
        what_is_below_is_shown(items, kid.uuid, sub.len(), path, (fuel - 1) as nat, entered, rest);
        places_are_reached_from_the_front(dir, way, (way.len() - 2) as nat);
        assert(rest.last() == way.last());
    } else {
        assert(way.last() == kids[n - 1]);
        assert(place(dir, way, 0) == dir);
    }
}

proof fn strays_only_add(items: Seq<ItemView>, root: Seq<char>)
    ensures
        grows(subtree_of(items, root), snapshot_of(items, root)),
        snapshot_of(items, root).docs == subtree_of(items, root).docs,
        snapshot_of(items, root).folders == subtree_of(items, root).folders,
{
    let s = subtree_of(items, root);
    let r = snapshot_of(items, root);
    first_snapshot_is_sound(root);
    let kids = children(items, root, false);
    with_below_keeps(
        items,
        kids,
        kids.len(),
        Seq::empty(),
        items.len(),
        first_snapshot(root),
    );
    with_strays_keeps(items, root, items.len(), s);
    assert forall|x: ActionView| s.skips.contains(x) implies #[trigger] r.skips.contains(x) by {
        let i = choose|i: int| 0 <= i < s.skips.len() && s.skips[i] == x;
        assert(r.skips[i] == s.skips[i]);
    }
}

spec fn first_snapshot(root: Seq<char>) -> SnapshotView {
    SnapshotView {
        docs: Seq::empty(),
        folders: seq![(Seq::empty(), root)],
        skips: Seq::empty(),
    }
}

proof fn first_snapshot_is_sound(root: Seq<char>)
    ensures
        is_sound(first_snapshot(root)),
{
}

/// A snapshot leaves nothing out: whatever a way of folders leads to that can all be synced is shown,
/// under its own path, as the folder or the document that it is, or as skipped with the reason.
pub proof fn snapshots_show_all_that_is_below(
    items: Seq<ItemView>,
    root: Seq<char>,
    way: Seq<ItemView>,
)
    requires
        walk_ends(items, false, Walk::Synced, root),
        leads_below(items, root, way),
        forall|i: int| 0 <= i < way.len() - 1 ==> can_stand(items, #[trigger] way[i]),
    ensures
        shows(
            items,
            snapshot_of(items, root),
            place(Seq::empty(), way, (way.len() - 1) as nat),
            way.last(),
        ),
{
    let kids = children(items, root, false);
    first_snapshot_is_sound(root);
    assert(items.contains(way[0]));
    children_membership(items, root, false, way[0]);
    let m = choose|m: int| 0 <= m < kids.len() && kids[m] == way[0];
    assert(kids[m] == way[0]);
    what_is_below_is_shown(
        items,
        root,
        kids.len(),
        Seq::empty(),
        items.len(),
        first_snapshot(root),
        way,
    );
    strays_only_add(items, root);
    showing_lasts(
        items,
        subtree_of(items, root),
        snapshot_of(items, root),
        place(Seq::empty(), way, (way.len() - 1) as nat),
        way.last(),
    );
}

/// Whether the way leads to the document: all on it can be synced, and the document is what its last
/// item is, in the directory that the others lead to.
pub open spec fn leads_to(
    items: Seq<ItemView>,
    root: Seq<char>,
    dir: Seq<char>,
    way: Seq<ItemView>,
    doc: RemoteView,
) -> bool {
    &&& leads_below(items, root, way)
    &&& forall|i: int| 0 <= i < way.len() ==> can_stand(items, #[trigger] way[i])
    &&& !way.last().is_folder()
    &&& doc == document_in(place(dir, way, (way.len() - 1) as nat), way.last(), doc.doc_type)
    &&& match doc.doc_type {
        RemoteType::Notebook => way.last().file_type is None || way.last().file_type == Some(
            "notebook"@,
        ),
        RemoteType::Pdf => way.last().file_type == Some("pdf"@),
        RemoteType::Epub => way.last().file_type == Some("epub"@),
    }
}

proof fn shown_documents_are_below(
    items: Seq<ItemView>,
    parent: Seq<char>,
    n: nat,
    dir: Seq<char>,
    fuel: nat,
    s: SnapshotView,
    doc: RemoteView,
) -> (way: Seq<ItemView>)
    requires
        n <= children(items, parent, false).len(),
        with_below(items, children(items, parent, false), n, dir, fuel, s).docs.contains(doc),
        !s.docs.contains(doc),
    ensures
        leads_to(items, parent, dir, way, doc),
    decreases fuel, n,
{
    let kids = children(items, parent, false);
    let before = with_below(items, kids, (n - 1) as nat, dir, fuel, s);
    let kid = kids[n - 1];
    if before.docs.contains(doc) {
        shown_documents_are_below(items, parent, (n - 1) as nat, dir, fuel, s, doc)
    } else {
        assert(kids.contains(kid));
        children_membership(items, parent, false, kid);
        shared_names_are_counted(items, kid);
        assert(can_stand(items, kid));
        let path = joined(dir, kid.visible_name);
        if kid.is_folder() {
            let sub = children(items, kid.uuid, false);
            let entered = SnapshotView {
                folders: crate::pathmap::put(before.folders, path, kid.uuid),
                ..before
            };
            let rest = shown_documents_are_below(
                items,
                kid.uuid,
                sub.len(),
                path,
                (fuel - 1) as nat,
                entered,
                doc,
            );
            let way = seq![kid] + rest;
            ways_start_higher(items, parent, kid, rest);
            assert(way.drop_first() =~= rest);
            places_are_reached_from_the_front(dir, way, (rest.len() - 1) as nat);
            assert forall|i: int| 0 <= i < way.len() implies can_stand(items, #[trigger] way[i]) by {
                if i > 0 {
                    assert(can_stand(items, rest[i - 1]));
                }
            }
            assert(way.last() == rest.last());
            way
        } else {
            let way = seq![kid];
            if let Some(doc_type) = remote_type(kid.file_type) {
                pushing_keeps(before.docs, document_in(dir, kid, doc_type));
            }
            assert(place(dir, way, 0) == dir);
            way
        }
    }
}

proof fn ways_start_higher(
    items: Seq<ItemView>,
    parent: Seq<char>,
    kid: ItemView,
    rest: Seq<ItemView>,
)
    requires
        items.contains(kid),
        kid.parent == parent,
        kid.is_folder(),
        leads_below(items, kid.uuid, rest),
    ensures
        leads_below(items, parent, seq![kid] + rest),
{
    let way = seq![kid] + rest;
    assert forall|i: int| 0 <= i < way.len() implies items.contains(#[trigger] way[i]) by {
        if i > 0 {
            assert(items.contains(rest[i - 1]));
        }
    }
    assert forall|i: int| 0 <= i < way.len() - 1 implies #[trigger] is_step(way, i) by {
        if i > 0 {
            assert(is_step(rest, i - 1));
            assert(way[i] == rest[i - 1] && way[i + 1] == rest[i]);
        } else {
            assert(way[1] == rest[0]);
        }
    }
}

/// A snapshot makes nothing up: every document that it shows is an item below its root, as it is.
pub proof fn snapshots_show_only_what_is_below(
    items: Seq<ItemView>,
    root: Seq<char>,
    doc: RemoteView,
) -> (way: Seq<ItemView>)
    requires
        snapshot_of(items, root).docs.contains(doc),
    ensures
        leads_to(items, root, Seq::empty(), way, doc),
{
    strays_only_add(items, root);
    let kids = children(items, root, false);
    shown_documents_are_below(
        items,
        root,
        kids.len(),
        Seq::empty(),
        items.len(),
        first_snapshot(root),
        doc,
    )
}

proof fn shown_folders_are_below(
    items: Seq<ItemView>,
    parent: Seq<char>,
    n: nat,
    dir: Seq<char>,
    fuel: nat,
    s: SnapshotView,
    path: Seq<char>,
) -> (way: Seq<ItemView>)
    requires
        is_sound(s),
        n <= children(items, parent, false).len(),
        value_of(
            with_below(items, children(items, parent, false), n, dir, fuel, s).folders,
            path,
        ) != value_of(s.folders, path),
    ensures
        leads_below(items, parent, way),
        forall|i: int|
            0 <= i < way.len() ==> can_stand(items, #[trigger] way[i]) && way[i].is_folder(),
        place(dir, way, way.len()) == path,
        value_of(
            with_below(items, children(items, parent, false), n, dir, fuel, s).folders,
            path,
        ) == Some(way.last().uuid),
    decreases fuel, n,
{
    let kids = children(items, parent, false);
    let before = with_below(items, kids, (n - 1) as nat, dir, fuel, s);
    let after = with_below(items, kids, n, dir, fuel, s);
    let kid = kids[n - 1];
    all_steps_grow(items, parent, (n - 1) as nat, dir, fuel, s);
    if value_of(after.folders, path) == value_of(before.folders, path) {
        shown_folders_are_below(items, parent, (n - 1) as nat, dir, fuel, s, path)
    } else {
        assert(kids.contains(kid));
        children_membership(items, parent, false, kid);
        shared_names_are_counted(items, kid);
        assert(can_stand(items, kid) && kid.is_folder());
        let here = joined(dir, kid.visible_name);
        let entered = SnapshotView {
            folders: crate::pathmap::put(before.folders, here, kid.uuid),
            ..before
        };
        put_sets_one_key(before.folders, here, kid.uuid);
        if value_of(after.folders, path) == value_of(entered.folders, path) {
            let way = seq![kid];
            assert(place(dir, way, 0) == dir);
            assert(place(dir, way, 1) == here);
            way
        } else {
            let sub = children(items, kid.uuid, false);
            let rest = shown_folders_are_below(
                items,
                kid.uuid,
                sub.len(),
                here,
                (fuel - 1) as nat,
                entered,
                path,
            );
            let way = seq![kid] + rest;
            ways_start_higher(items, parent, kid, rest);
            assert(way.drop_first() =~= rest);
            places_are_reached_from_the_front(dir, way, rest.len());
            assert forall|i: int| 0 <= i < way.len() implies can_stand(items, #[trigger] way[i])
                && way[i].is_folder() by {
                if i > 0 {
                    assert(can_stand(items, rest[i - 1]));
                }
            }
            assert(way.last() == rest.last());
            way
        }
    }
}

/// Every folder of a snapshot but its root is one below the root, known by its own path and UUID.
pub proof fn snapshots_know_the_folders_below(
    items: Seq<ItemView>,
    root: Seq<char>,
    path: Seq<char>,
) -> (way: Seq<ItemView>)
    requires
        path.len() > 0,
        value_of(snapshot_of(items, root).folders, path) is Some,
    ensures
        leads_below(items, root, way),
        forall|i: int|
            0 <= i < way.len() ==> can_stand(items, #[trigger] way[i]) && way[i].is_folder(),
        place(Seq::empty(), way, way.len()) == path,
        value_of(snapshot_of(items, root).folders, path) == Some(way.last().uuid),
{
    strays_only_add(items, root);
    first_snapshot_is_sound(root);
    let kids = children(items, root, false);
    let first = first_snapshot(root);
    assert(value_of(first.folders, path) is None) by {
        assert(first.folders.last().0.len() == 0);
        assert(first.folders.drop_last().len() == 0);
        assert(value_of(first.folders.drop_last(), path) is None);
    }
    shown_folders_are_below(
        items,
        root,
        kids.len(),
        Seq::empty(),
        items.len(),
        first,
        path,
    )
}

/// An item outside the synced folder whose parents lead to no folder is skipped under its name: as
/// trashed, where they lead to the trash, and otherwise because its parent is missing.
pub proof fn strays_are_skipped_with_their_reason(items: Seq<ItemView>, root: Seq<char>, i: int)
    requires
        0 <= i < items.len(),
        ancestors(items, items[i].parent).len() > 0,
        lookup(items, ancestors(items, items[i].parent).last()) is None,
        !ancestors(items, items[i].parent).contains(root),
        items[i].uuid != root,
    ensures
        snapshot_of(items, root).skips.contains(
            ActionView::Skip {
                path: items[i].visible_name,
                reason: if ancestors(items, items[i].parent).last() == "trash"@ {
                    "in the trash"@
                } else {
                    "parent folder is missing on device"@
                },
            },
        ),
{
    crate::snapshot::strays_are_skipped(items, root, i);
}

} // verus!
