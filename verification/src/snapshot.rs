//! What both sides of a sync hold: the device subtree and the local files.
use vstd::prelude::*;
use crate::pathmap::{keys, put, put_sets_one_key, value_of};
use crate::sync::{
    extension_of, find_extension_dot, join_rel, joined, kind_of_extension, ActionView, DocKind,
    RemoteDoc, RemoteSnapshot, RemoteType, RemoteView, SnapshotView, SyncAction,
};
use crate::text::{ascending, cat3, from_chars, skip_chars, str_eq, to_chars};
use crate::tree::{children, children_map, ChildrenMap};
use crate::walk::{
    ancestor_chain, ancestors, ends, ends_prefix, find_last_item, is_shared_name, is_usable_name,
    lookup, name_count, usable_name, walk_ends, Walk,
};
use crate::xochitl::{Item, ItemView, TRASH_PARENT};

verus! {

/// The device type of a document, if it can be synced.
pub open spec fn remote_type(file_type: Option<Seq<char>>) -> Option<RemoteType> {
    match file_type {
        None => Some(RemoteType::Notebook),
        Some(t) => if t == "pdf"@ {
            Some(RemoteType::Pdf)
        } else if t == "epub"@ {
            Some(RemoteType::Epub)
        } else if t == "notebook"@ {
            Some(RemoteType::Notebook)
        } else {
            None
        },
    }
}

/// A snapshot with one more skipped item.
pub open spec fn with_skip(s: SnapshotView, path: Seq<char>, reason: Seq<char>) -> SnapshotView {
    SnapshotView { skips: s.skips.push(ActionView::Skip { path, reason }), ..s }
}

/// The snapshot `s` with the first `n` of the siblings `kids` of the directory `rel_dir`, and all
/// that is below them.
pub open spec fn with_below(
    items: Seq<ItemView>,
    kids: Seq<ItemView>,
    n: nat,
    rel_dir: Seq<char>,
    fuel: nat,
    s: SnapshotView,
) -> SnapshotView
    decreases fuel, n,
{
    if n == 0 {
        s
    } else {
        let before = with_below(items, kids, (n - 1) as nat, rel_dir, fuel, s);
        let kid = kids[n - 1];
        let path = joined(rel_dir, kid.visible_name);
        if name_count(kids, kids.len(), kid.visible_name) > 1 {
            with_skip(before, path, "duplicate sibling name on device"@)
        } else if !usable_name(kid.visible_name) {
            with_skip(before, path, "name is not usable as a filename"@)
        } else if kid.is_folder() {
            let entered = SnapshotView { folders: put(before.folders, path, kid.uuid), ..before };
            let sub = children(items, kid.uuid, false);
            if fuel > 0 {
                with_below(items, sub, sub.len(), path, (fuel - 1) as nat, entered)
            } else {
                entered
            }
        } else {
            match remote_type(kid.file_type) {
                None => with_skip(
                    before,
                    path,
                    "unsupported document type '"@ + kid.file_type->Some_0 + "'"@,
                ),
                Some(doc_type) => SnapshotView {
                    docs: before.docs.push(
                        RemoteView {
                            rel_dir,
                            name: kid.visible_name,
                            uuid: kid.uuid,
                            doc_type,
                            last_modified: kid.last_modified,
                            size_bytes: kid.size_bytes,
                        },
                    ),
                    ..before
                },
            }
        }
    }
}

/// Where the parents of an item lead, if they lead to no folder: to the trash, or to an unknown
/// UUID. Items below the folder `root`, and that folder itself, are not asked for.
pub open spec fn stray_end(items: Seq<ItemView>, root: Seq<char>, item: ItemView) -> Option<
    Seq<char>,
> {
    let up = ancestors(items, item.parent);
    if up.len() == 0 || lookup(items, up.last()) is Some || up.contains(root) || item.uuid == root {
        None
    } else {
        Some(up.last())
    }
}

/// Why an item whose parents lead to no folder is left out.
pub open spec fn stray_reason(end: Seq<char>) -> Seq<char> {
    if end == TRASH_PARENT@ {
        "in the trash"@
    } else {
        "parent folder is missing on device"@
    }
}

/// The snapshot `s` with those of the first `n` items skipped whose parents lead to no folder.
pub open spec fn with_strays(
    items: Seq<ItemView>,
    root: Seq<char>,
    n: nat,
    s: SnapshotView,
) -> SnapshotView
    decreases n,
{
    if n == 0 {
        s
    } else {
        let before = with_strays(items, root, (n - 1) as nat, s);
        match stray_end(items, root, items[n - 1]) {
            Some(end) => with_skip(before, items[n - 1].visible_name, stray_reason(end)),
            None => before,
        }
    }
}

/// The items below the folder `root`.
pub open spec fn subtree_of(items: Seq<ItemView>, root: Seq<char>) -> SnapshotView {
    let kids = children(items, root, false);
    with_below(
        items,
        kids,
        kids.len(),
        Seq::empty(),
        items.len(),
        SnapshotView {
            docs: Seq::empty(),
            folders: seq![(Seq::empty(), root)],
            skips: Seq::empty(),
        },
    )
}

/// The synced subtree below the folder `root`; trashed and orphaned items are skipped.
pub open spec fn snapshot_of(items: Seq<ItemView>, root: Seq<char>) -> SnapshotView {
    with_strays(items, root, items.len(), subtree_of(items, root))
}

pub(crate) proof fn with_below_keeps(
    items: Seq<ItemView>,
    kids: Seq<ItemView>,
    n: nat,
    rel_dir: Seq<char>,
    fuel: nat,
    s: SnapshotView,
)
    requires
        ascending(keys(s.folders)),
        forall|i: int| 0 <= i < s.skips.len() ==> (#[trigger] s.skips[i]) is Skip,
    ensures
        ({
            let r = with_below(items, kids, n, rel_dir, fuel, s);
            &&& ascending(keys(r.folders))
            &&& forall|i: int| 0 <= i < r.skips.len() ==> (#[trigger] r.skips[i]) is Skip
            &&& value_of(r.folders, Seq::empty()) == value_of(s.folders, Seq::empty())
        }),
    decreases fuel, n,
{
    if n > 0 {
        with_below_keeps(items, kids, (n - 1) as nat, rel_dir, fuel, s);
        let before = with_below(items, kids, (n - 1) as nat, rel_dir, fuel, s);
        let kid = kids[n - 1];
        let path = joined(rel_dir, kid.visible_name);
        put_sets_one_key(before.folders, path, kid.uuid);
        if name_count(kids, kids.len(), kid.visible_name) <= 1 && usable_name(kid.visible_name)
            && kid.is_folder() {
            assert(path.len() > 0);
            let entered = SnapshotView { folders: put(before.folders, path, kid.uuid), ..before };
            assert(value_of(entered.folders, Seq::empty()) == value_of(
                before.folders,
                Seq::empty(),
            ));
            if fuel > 0 {
                let sub = children(items, kid.uuid, false);
                with_below_keeps(items, sub, sub.len(), path, (fuel - 1) as nat, entered);
            }
        }
    }
}

/// A snapshot is what the planner expects: its folders are in order, the sync root stands for the
/// folder it was taken of, and what it leaves out it only skips.
pub proof fn snapshots_are_sound(items: Seq<ItemView>, root: Seq<char>)
    ensures
        ascending(keys(snapshot_of(items, root).folders)),
        value_of(snapshot_of(items, root).folders, Seq::empty()) == Some(root),
        forall|i: int|
            0 <= i < snapshot_of(items, root).skips.len() ==> (#[trigger] snapshot_of(
                items,
                root,
            ).skips[i]) is Skip,
{
    let kids = children(items, root, false);
    let start = SnapshotView {
        docs: Seq::empty(),
        folders: seq![(Seq::<char>::empty(), root)],
        skips: Seq::empty(),
    };
    assert(value_of(start.folders, Seq::empty()) == Some(root));
    with_below_keeps(items, kids, kids.len(), Seq::empty(), items.len(), start);
    with_strays_keeps(items, root, items.len(), subtree_of(items, root));
}

pub(crate) proof fn with_strays_keeps(items: Seq<ItemView>, root: Seq<char>, n: nat, s: SnapshotView)
    requires
        forall|i: int| 0 <= i < s.skips.len() ==> (#[trigger] s.skips[i]) is Skip,
    ensures
        ({
            let r = with_strays(items, root, n, s);
            &&& r.docs == s.docs
            &&& r.folders == s.folders
            &&& r.skips.len() >= s.skips.len()
            &&& forall|i: int| 0 <= i < s.skips.len() ==> #[trigger] r.skips[i] == s.skips[i]
            &&& forall|i: int| 0 <= i < r.skips.len() ==> (#[trigger] r.skips[i]) is Skip
        }),
    decreases n,
{
    if n > 0 {
        with_strays_keeps(items, root, (n - 1) as nat, s);
    }
}

proof fn strays_are_noted(items: Seq<ItemView>, root: Seq<char>, n: nat, s: SnapshotView, i: int)
    requires
        0 <= i < n <= items.len(),
        stray_end(items, root, items[i]) is Some,
    ensures
        with_strays(items, root, n, s).skips.contains(
            ActionView::Skip {
                path: items[i].visible_name,
                reason: stray_reason(stray_end(items, root, items[i])->Some_0),
            },
        ),
    decreases n,
{
    let skip = ActionView::Skip {
        path: items[i].visible_name,
        reason: stray_reason(stray_end(items, root, items[i])->Some_0),
    };
    let before = with_strays(items, root, (n - 1) as nat, s).skips;
    let now = with_strays(items, root, n, s).skips;
    if i < n - 1 {
        strays_are_noted(items, root, (n - 1) as nat, s, i);
        let k = choose|k: int| 0 <= k < before.len() && before[k] == skip;
        assert(now[k] == skip);
    } else {
        assert(now[before.len() as int] == skip);
    }
}

/// Trashed items and items with a missing parent are never left out silently: the snapshot holds a
/// skip for each.
pub proof fn strays_are_skipped(items: Seq<ItemView>, root: Seq<char>, i: int)
    requires
        0 <= i < items.len(),
        stray_end(items, root, items[i]) is Some,
    ensures
        snapshot_of(items, root).skips.contains(
            ActionView::Skip {
                path: items[i].visible_name,
                reason: stray_reason(stray_end(items, root, items[i])->Some_0),
            },
        ),
{
    strays_are_noted(items, root, items.len(), subtree_of(items, root), i);
}

/// Why an item is left out whose parents lead to no folder; `None` for any other item.
fn why_stray(items: &[Item], root: &str, item: &Item) -> (r: Option<String>)
    ensures
        match stray_end(items.deep_view(), root@, item.deep_view()) {
            Some(end) => r is Some && r->Some_0@ == stray_reason(end),
            None => r is None,
        },
{
    let up = ancestor_chain(items, item.parent.as_str());
    let ghost views = up.deep_view();
    assert(views.len() == up.len());
    if up.len() == 0 || str_eq(item.uuid.as_str(), root) {
        return None;
    }
    let mut i: usize = 0;
    while i < up.len()
        invariant
            i <= up.len(),
            views == up.deep_view(),
            views == ancestors(items.deep_view(), item.parent@),
            forall|k: int| 0 <= k < i ==> #[trigger] views[k] != root@,
        decreases up.len() - i,
    {
        assert(views[i as int] == up[i as int]@);
        if str_eq(up[i], root) {
            assert(views.contains(root@));
            return None;
        }
        i += 1;
    }
    let end = up[up.len() - 1];
    assert(views.last() == end@);
    if find_last_item(items, end).is_some() {
        return None;
    }
    if str_eq(end, TRASH_PARENT) {
        Some("in the trash".to_owned())
    } else {
        Some("parent folder is missing on device".to_owned())
    }
}

fn type_of(item: &Item) -> (r: Option<RemoteType>)
    ensures
        r == remote_type(item.deep_view().file_type),
{
    match &item.file_type {
        None => Some(RemoteType::Notebook),
        Some(t) => {
            if str_eq(t.as_str(), "pdf") {
                Some(RemoteType::Pdf)
            } else if str_eq(t.as_str(), "epub") {
                Some(RemoteType::Epub)
            } else if str_eq(t.as_str(), "notebook") {
                Some(RemoteType::Notebook)
            } else {
                None
            }
        },
    }
}

fn push_skip(snapshot: &mut RemoteSnapshot, path: String, reason: String)
    requires
        old(snapshot).folders.wf(),
    ensures
        final(snapshot).folders.wf(),
        final(snapshot).deep_view() == with_skip(old(snapshot).deep_view(), path@, reason@),
{
    let ghost skip = ActionView::Skip { path: path@, reason: reason@ };
    let ghost skips = snapshot.skips.deep_view();
    snapshot.skips.push(SyncAction::Skip { path, reason });
    assert(snapshot.skips.deep_view() =~= skips.push(skip));
}

fn push_doc(snapshot: &mut RemoteSnapshot, doc: RemoteDoc)
    requires
        old(snapshot).folders.wf(),
    ensures
        final(snapshot).folders.wf(),
        final(snapshot).deep_view() == (SnapshotView {
            docs: old(snapshot).deep_view().docs.push(doc.deep_view()),
            ..old(snapshot).deep_view()
        }),
{
    let ghost view = doc.deep_view();
    let ghost docs = snapshot.docs.deep_view();
    snapshot.docs.push(doc);
    assert(snapshot.docs.deep_view() =~= docs.push(view));
}

fn add_below(
    map: &ChildrenMap,
    kids: &Vec<&Item>,
    rel_dir: &str,
    snapshot: &mut RemoteSnapshot,
    Ghost(fuel): Ghost<nat>,
)
    requires
        map.wf(),
        !map.only_folders(),
        old(snapshot).folders.wf(),
        ends(map.items(), false, Walk::Synced, kids.deep_view(), kids.len() as nat, fuel),
    ensures
        final(snapshot).folders.wf(),
        final(snapshot).deep_view() == with_below(
            map.items(),
            kids.deep_view(),
            kids.len() as nat,
            rel_dir@,
            fuel,
            old(snapshot).deep_view(),
        ),
    decreases fuel,
{
    let ghost views = kids.deep_view();
    let ghost items = map.items();
    let ghost start = snapshot.deep_view();
    let mut i: usize = 0;
    while i < kids.len()
        invariant
            i <= kids.len(),
            map.wf(),
            !map.only_folders(),
            items == map.items(),
            views == kids.deep_view(),
            snapshot.folders.wf(),
            ends(items, false, Walk::Synced, views, kids.len() as nat, fuel),
            snapshot.deep_view() == with_below(items, views, i as nat, rel_dir@, fuel, start),
        decreases kids.len() - i,
    {
        let kid = kids[i];
        proof {
            assert(views[i as int] == kid.deep_view());
            assert(views.len() == kids.len());
            ends_prefix(
                items,
                false,
                Walk::Synced,
                views,
                (i + 1) as nat,
                kids.len() as nat,
                fuel,
            );
        }
        let name = kid.visible_name.as_str();
        let path = join_rel(rel_dir, name);
        if is_shared_name(kids, name) {
            push_skip(snapshot, path, "duplicate sibling name on device".to_owned());
        } else if !is_usable_name(name) {
            push_skip(snapshot, path, "name is not usable as a filename".to_owned());
        } else if kid.is_folder() {
            snapshot.folders.insert(path.clone(), kid.uuid.clone());
            match map.get(kid.uuid.as_str()) {
                Some(sub) => {
                    add_below(map, sub, path.as_str(), snapshot, Ghost((fuel - 1) as nat));
                },
                None => {
                    let ghost sub = children(items, kid.uuid@, false);
                    assert(sub.len() == 0 ==> with_below(
                        items,
                        sub,
                        sub.len(),
                        path@,
                        (fuel - 1) as nat,
                        snapshot.deep_view(),
                    ) == snapshot.deep_view());
                },
            }
        } else {
            match type_of(kid) {
                None => {
                    let other = match &kid.file_type {
                        Some(t) => t.as_str(),
                        None => "",
                    };
                    push_skip(snapshot, path, cat3("unsupported document type '", other, "'"));
                },
                Some(doc_type) => {
                    push_doc(
                        snapshot,
                        RemoteDoc {
                            rel_dir: rel_dir.to_owned(),
                            name: kid.visible_name.clone(),
                            uuid: kid.uuid.clone(),
                            doc_type,
                            last_modified: kid.last_modified,
                            size_bytes: kid.size_bytes,
                        },
                    );
                },
            }
        }
        i += 1;
    }
}

/// Builds the device-side snapshot from a full listing, scoped to the folder `root_uuid` (`""` is
/// the device root). Duplicate sibling names, names unusable as file names, trashed items and
/// orphans are excluded with `Skip` actions.
pub fn remote_snapshot(items: &[Item], root_uuid: &str) -> (r: RemoteSnapshot)
    requires
        walk_ends(items.deep_view(), false, Walk::Synced, root_uuid@),
    ensures
        r.folders.wf(),
        r.deep_view() == snapshot_of(items.deep_view(), root_uuid@),
{
    let ghost all = items.deep_view();
    let mut snapshot = RemoteSnapshot::default();
    let root = String::new();
    proof {
        reveal_strlit("");
        assert(root@ =~= Seq::empty());
        assert(""@ =~= Seq::empty());
    }
    snapshot.folders.insert(root, root_uuid.to_owned());
    assert(snapshot.deep_view().folders =~= seq![(Seq::<char>::empty(), root_uuid@)]);
    let map = children_map(items, false);
    match map.get(root_uuid) {
        Some(kids) => {
            add_below(&map, kids, "", &mut snapshot, Ghost(all.len()));
        },
        None => {},
    }
    let ghost below = snapshot.deep_view();
    assert(below == subtree_of(all, root_uuid@));
    let mut i: usize = 0;
    while i < items.len()
        invariant
            i <= items.len(),
            all == items.deep_view(),
            snapshot.folders.wf(),
            snapshot.deep_view() == with_strays(all, root_uuid@, i as nat, below),
        decreases items.len() - i,
    {
        assert(all[i as int] == items[i as int].deep_view());
        if let Some(reason) = why_stray(items, root_uuid, &items[i]) {
            push_skip(&mut snapshot, items[i].visible_name.clone(), reason);
        }
        i += 1;
    }
    snapshot
}

/// What becomes of one directory entry of the local side.
#[derive(Debug)]
pub enum LocalStep {
    /// Hidden, or neither file nor directory: passed over.
    Pass,
    /// A directory: its entries come next, under this relative path.
    Enter(String),
    /// A syncable file.
    Take(String, DocKind),
    /// A file of an unsupported type, which is only counted.
    Ignore,
}

/// What a [`LocalStep`] holds.
pub enum StepView {
    Pass,
    Enter(Seq<char>),
    Take(Seq<char>, DocKind),
    Ignore,
}

impl DeepView for LocalStep {
    type V = StepView;

    open spec fn deep_view(&self) -> StepView {
        match *self {
            LocalStep::Pass => StepView::Pass,
            LocalStep::Enter(path) => StepView::Enter(path@),
            LocalStep::Take(path, kind) => StepView::Take(path@, kind),
            LocalStep::Ignore => StepView::Ignore,
        }
    }
}

/// A character with ASCII capitals made small.
pub open spec fn ascii_lower(c: char) -> char {
    if 'A' <= c <= 'Z' {
        ((c as u32) + 32) as char
    } else {
        c
    }
}

/// A text with ASCII capitals made small.
pub open spec fn ascii_lowercase(s: Seq<char>) -> Seq<char> {
    Seq::new(s.len(), |i: int| ascii_lower(s[i]))
}

pub fn to_ascii_lower(s: &[char]) -> (out: Vec<char>)
    ensures
        out@ == ascii_lowercase(s@),
{
    let mut out: Vec<char> = Vec::new();
    let mut i: usize = 0;
    while i < s.len()
        invariant
            i <= s.len(),
            out@ == ascii_lowercase(s@.take(i as int)),
        decreases s.len() - i,
    {
        let c = s[i];
        let small = if 'A' <= c && c <= 'Z' {
            (((c as u32) + 32) as u8) as char
        } else {
            c
        };
        out.push(small);
        assert(out@ =~= ascii_lowercase(s@.take(i + 1)));
        i += 1;
    }
    assert(s@.take(i as int) =~= s@);
    out
}

/// The kind of a file by its name.
pub open spec fn kind_of_name(name: Seq<char>) -> Option<DocKind> {
    match extension_of(name) {
        Some(ext) => kind_of_extension(ascii_lowercase(ext)),
        None => None,
    }
}

/// The kind of a file by its name; the extension counts in any case.
pub fn kind_by_name(name: &str) -> (r: Option<DocKind>)
    ensures
        r == kind_of_name(name@),
{
    let chars = to_chars(name);
    match find_extension_dot(&chars) {
        Some(dot) => {
            let ext = from_chars(&to_ascii_lower(skip_chars(&chars, dot + 1)));
            DocKind::from_extension(ext.as_str())
        },
        None => None,
    }
}

/// What becomes of the entry `name` of the directory with relative path `prefix`.
pub open spec fn step_of(
    prefix: Seq<char>,
    name: Seq<char>,
    is_dir: bool,
    is_file: bool,
) -> StepView {
    if name.len() > 0 && name[0] == '.' {
        StepView::Pass
    } else if is_dir {
        StepView::Enter(joined(prefix, name))
    } else if !is_file {
        StepView::Pass
    } else {
        match kind_of_name(name) {
            Some(kind) => StepView::Take(joined(prefix, name), kind),
            None => StepView::Ignore,
        }
    }
}

/// What becomes of the entry `name` of the directory with relative path `prefix`. Hidden entries
/// (the state file among them) are passed over; files of unsupported types are counted but
/// otherwise left alone.
pub fn local_step(prefix: &str, name: &str, is_dir: bool, is_file: bool) -> (r: LocalStep)
    ensures
        r.deep_view() == if name@.len() > 0 && name@[0] == '.' {
            StepView::Pass
        } else if is_dir {
            StepView::Enter(joined(prefix@, name@))
        } else if !is_file {
            StepView::Pass
        } else {
            match kind_of_name(name@) {
                Some(kind) => StepView::Take(joined(prefix@, name@), kind),
                None => StepView::Ignore,
            }
        },
        r.deep_view() == step_of(prefix@, name@, is_dir, is_file),
{
    let chars = to_chars(name);
    if chars.len() > 0 && chars[0] == '.' {
        return LocalStep::Pass;
    }
    let rel = join_rel(prefix, name);
    if is_dir {
        return LocalStep::Enter(rel);
    }
    if !is_file {
        return LocalStep::Pass;
    }
    match kind_by_name(name) {
        Some(kind) => LocalStep::Take(rel, kind),
        None => LocalStep::Ignore,
    }
}

} // verus!
