//! The item tree as text.
use vstd::prelude::*;
use crate::text::{
    cat, cat3, ends_with, insert_text_in, sort_dedup, sort_dedup_is_ascending, str_eq,
};
use crate::tree::{children, children_map, children_membership, ChildrenMap};
use crate::walk::{does_walk_end, ends, ends_prefix, walk_ends, Walk};
use crate::xochitl::{Item, ItemView};

verus! {

/// One item as shown in the tree: a folder with a slash, a document with its type.
pub open spec fn label(item: ItemView, show_uuid: bool) -> Seq<char> {
    item.visible_name + (if item.is_folder() {
        "/"@
    } else {
        match item.file_type {
            Some(t) => " ("@ + t + ")"@,
            None => ""@,
        }
    }) + (if show_uuid {
        " ["@ + item.uuid + "]"@
    } else {
        ""@
    })
}

fn item_label(item: &Item, show_uuid: bool) -> (r: String)
    ensures
        r@ == label(item.deep_view(), show_uuid),
{
    let suffix = if item.is_folder() {
        cat("/", "")
    } else {
        match &item.file_type {
            Some(t) => cat3(" (", t.as_str(), ")"),
            None => cat("", ""),
        }
    };
    let uuid_part = if show_uuid {
        cat3(" [", item.uuid.as_str(), "]")
    } else {
        cat("", "")
    };
    proof {
        reveal_strlit("");
        assert("/"@ + ""@ =~= "/"@);
        assert(""@ + ""@ =~= ""@);
    }
    cat3(item.visible_name.as_str(), suffix.as_str(), uuid_part.as_str())
}

/// The line of the `n`-th sibling and of those before it, each followed by its subtree.
pub open spec fn lines_below(
    items: Seq<ItemView>,
    folders_only: bool,
    show_uuid: bool,
    prefix: Seq<char>,
    kids: Seq<ItemView>,
    n: nat,
    fuel: nat,
) -> Seq<Seq<char>>
    decreases fuel, n,
{
    if n == 0 {
        Seq::empty()
    } else {
        let kid = kids[n - 1];
        let last = n == kids.len();
        let sub = children(items, kid.uuid, folders_only);
        let line = prefix + (if last {
            "└─ "@
        } else {
            "├─ "@
        }) + label(kid, show_uuid);
        let here = lines_below(
            items,
            folders_only,
            show_uuid,
            prefix,
            kids,
            (n - 1) as nat,
            fuel,
        ).push(line);
        if kid.is_folder() && fuel > 0 {
            here + lines_below(
                items,
                folders_only,
                show_uuid,
                prefix + (if last {
                    "   "@
                } else {
                    "│  "@
                }),
                sub,
                sub.len(),
                (fuel - 1) as nat,
            )
        } else {
            here
        }
    }
}

/// The lines of everything below `root`.
pub open spec fn subtree_lines(
    items: Seq<ItemView>,
    folders_only: bool,
    show_uuid: bool,
    root: Seq<char>,
) -> Seq<Seq<char>> {
    let kids = children(items, root, folders_only);
    lines_below(items, folders_only, show_uuid, ""@, kids, kids.len(), items.len())
}

/// Whether some item has the given UUID.
pub open spec fn is_known(items: Seq<ItemView>, uuid: Seq<char>) -> bool {
    exists|i: int| 0 <= i < items.len() && (#[trigger] items[i]).uuid == uuid
}

/// The parents of the first `n` shown items that are neither the root nor an item.
pub open spec fn missing_parents(items: Seq<ItemView>, n: nat, folders_only: bool) -> Seq<Seq<char>>
    decreases n,
{
    if n == 0 {
        Seq::empty()
    } else {
        let before = missing_parents(items, (n - 1) as nat, folders_only);
        let item = items[n - 1];
        if (!folders_only || item.is_folder()) && item.parent.len() > 0 && !is_known(
            items,
            item.parent,
        ) {
            before.push(item.parent)
        } else {
            before
        }
    }
}

/// The parents of orphan items, each once, in ascending order.
pub open spec fn orphan_parents(items: Seq<ItemView>, folders_only: bool) -> Seq<Seq<char>> {
    sort_dedup(missing_parents(items, items.len(), folders_only))
}

/// The lines below the first `n` of the given roots.
pub open spec fn orphan_lines(
    items: Seq<ItemView>,
    folders_only: bool,
    show_uuid: bool,
    roots: Seq<Seq<char>>,
    n: nat,
) -> Seq<Seq<char>>
    decreases n,
{
    if n == 0 {
        Seq::empty()
    } else {
        orphan_lines(items, folders_only, show_uuid, roots, (n - 1) as nat) + subtree_lines(
            items,
            folders_only,
            show_uuid,
            roots[n - 1],
        )
    }
}

/// The tree from the root, and the orphan items behind it.
pub open spec fn tree_lines(items: Seq<ItemView>, show_uuid: bool, folders_only: bool) -> Seq<
    Seq<char>,
> {
    let orphans = orphan_parents(items, folders_only);
    seq!["(root)"@] + subtree_lines(items, folders_only, show_uuid, ""@) + (if orphans.len() == 0 {
        Seq::empty()
    } else {
        seq![""@, "Orphan items:"@] + orphan_lines(
            items,
            folders_only,
            show_uuid,
            orphans,
            orphans.len(),
        )
    })
}

/// Whether the tree can be rendered: no walk from the root or from an orphan parent meets a cycle
/// of parents.
pub open spec fn can_render(items: Seq<ItemView>, folders_only: bool) -> bool {
    &&& walk_ends(items, folders_only, Walk::Folders, ""@)
    &&& forall|i: int|
        0 <= i < orphan_parents(items, folders_only).len() ==> walk_ends(
            items,
            folders_only,
            Walk::Folders,
            #[trigger] orphan_parents(items, folders_only)[i],
        )
}

fn write_below(
    map: &ChildrenMap,
    show_uuid: bool,
    prefix: &str,
    kids: &Vec<&Item>,
    out: &mut Vec<String>,
    Ghost(fuel): Ghost<nat>,
)
    requires
        map.wf(),
        ends(
            map.items(),
            map.only_folders(),
            Walk::Folders,
            kids.deep_view(),
            kids.len() as nat,
            fuel,
        ),
    ensures
        final(out).deep_view() == old(out).deep_view() + lines_below(
            map.items(),
            map.only_folders(),
            show_uuid,
            prefix@,
            kids.deep_view(),
            kids.len() as nat,
            fuel,
        ),
    decreases fuel,
{
    let ghost views = kids.deep_view();
    let ghost items = map.items();
    let ghost fo = map.only_folders();
    let ghost start = out.deep_view();
    let mut i: usize = 0;
    assert(out.deep_view() =~= start + lines_below(items, fo, show_uuid, prefix@, views, 0, fuel));
    while i < kids.len()
        invariant
            i <= kids.len(),
            map.wf(),
            items == map.items(),
            fo == map.only_folders(),
            views == kids.deep_view(),
            ends(items, fo, Walk::Folders, views, kids.len() as nat, fuel),
            out.deep_view() == start + lines_below(
                items,
                fo,
                show_uuid,
                prefix@,
                views,
                i as nat,
                fuel,
            ),
        decreases kids.len() - i,
    {
        let kid = kids[i];
        let last = i == kids.len() - 1;
        proof {
            assert(views[i as int] == kid.deep_view());
            assert(views.len() == kids.len());
            ends_prefix(
                items,
                fo,
                Walk::Folders,
                views,
                (i + 1) as nat,
                kids.len() as nat,
                fuel,
            );
        }
        let branch = if last {
            "└─ "
        } else {
            "├─ "
        };
        let text = item_label(kid, show_uuid);
        let line = cat3(prefix, branch, text.as_str());
        let ghost before = out.deep_view();
        let ghost line_view = line@;
        let ghost sub = children(items, kid.uuid@, fo);
        out.push(line);
        assert(out.deep_view() =~= before.push(line_view));
        if kid.is_folder() {
            let indent = if last {
                "   "
            } else {
                "│  "
            };
            let child_prefix = cat(prefix, indent);
            match map.get(kid.uuid.as_str()) {
                Some(sub_kids) => {
                    write_below(
                        map,
                        show_uuid,
                        child_prefix.as_str(),
                        sub_kids,
                        out,
                        Ghost((fuel - 1) as nat),
                    );
                },
                None => {
                    assert(sub.len() == 0 ==> lines_below(
                        items,
                        fo,
                        show_uuid,
                        child_prefix@,
                        sub,
                        sub.len(),
                        (fuel - 1) as nat,
                    ).len() == 0);
                },
            }
        }
        assert(out.deep_view() =~= start + lines_below(
            items,
            fo,
            show_uuid,
            prefix@,
            views,
            (i + 1) as nat,
            fuel,
        ));
        i += 1;
    }
}

fn write_subtree(map: &ChildrenMap, show_uuid: bool, root: &str, out: &mut Vec<String>)
    requires
        map.wf(),
        walk_ends(map.items(), map.only_folders(), Walk::Folders, root@),
    ensures
        final(out).deep_view() == old(out).deep_view() + subtree_lines(
            map.items(),
            map.only_folders(),
            show_uuid,
            root@,
        ),
{
    let ghost start = out.deep_view();
    match map.get(root) {
        Some(kids) => {
            write_below(map, show_uuid, "", kids, out, Ghost(map.items().len()));
        },
        None => {},
    }
    assert(out.deep_view() =~= start + subtree_lines(
        map.items(),
        map.only_folders(),
        show_uuid,
        root@,
    ));
}

fn knows(items: &[Item], uuid: &str) -> (r: bool)
    ensures
        r == is_known(items.deep_view(), uuid@),
{
    let ghost all = items.deep_view();
    let mut i: usize = 0;
    while i < items.len()
        invariant
            i <= items.len(),
            all == items.deep_view(),
            forall|k: int| 0 <= k < i ==> (#[trigger] all[k]).uuid != uuid@,
        decreases items.len() - i,
    {
        assert(all[i as int] == items[i as int].deep_view());
        if str_eq(items[i].uuid.as_str(), uuid) {
            return true;
        }
        i += 1;
    }
    false
}

fn find_orphan_parents(items: &[Item], folders_only: bool) -> (out: Vec<String>)
    ensures
        out.deep_view() == orphan_parents(items.deep_view(), folders_only),
{
    let ghost all = items.deep_view();
    let mut out: Vec<String> = Vec::new();
    let mut i: usize = 0;
    assert(out.deep_view() =~= Seq::empty());
    while i < items.len()
        invariant
            i <= items.len(),
            all == items.deep_view(),
            out.deep_view() == sort_dedup(missing_parents(all, i as nat, folders_only)),
        decreases items.len() - i,
    {
        let item = &items[i];
        let ghost before = missing_parents(all, i as nat, folders_only);
        assert(all[i as int] == item.deep_view());
        if (!folders_only || item.is_folder()) && !item.parent.as_str().is_empty() && !knows(
            items,
            item.parent.as_str(),
        ) {
            insert_text_in(&mut out, item.parent.as_str());
            assert(before.push(item.parent@).drop_last() =~= before);
        }
        i += 1;
    }
    out
}

/// Whether the tree can be rendered, that is holds no cycle of parents that the rendering would
/// follow.
pub fn is_renderable(items: &[Item], folders_only: bool) -> (r: bool)
    ensures
        r == can_render(items.deep_view(), folders_only),
{
    let ghost all = items.deep_view();
    if !does_walk_end(items, folders_only, Walk::Folders, "") {
        return false;
    }
    let orphans = find_orphan_parents(items, folders_only);
    let ghost views = orphans.deep_view();
    let mut i: usize = 0;
    while i < orphans.len()
        invariant
            i <= orphans.len(),
            all == items.deep_view(),
            views == orphans.deep_view(),
            views == orphan_parents(all, folders_only),
            forall|k: int|
                0 <= k < i ==> walk_ends(all, folders_only, Walk::Folders, #[trigger] views[k]),
        decreases orphans.len() - i,
    {
        assert(views[i as int] == orphans[i as int]@);
        if !does_walk_end(items, folders_only, Walk::Folders, orphans[i].as_str()) {
            return false;
        }
        i += 1;
    }
    true
}

/// Renders the logical tree as text lines. Items whose parent UUID does not exist (e.g. `trash`)
/// are listed in a trailing "Orphan items" section.
pub fn render_tree(items: &[Item], show_uuid: bool, folders_only: bool) -> (lines: Vec<String>)
    requires
        can_render(items.deep_view(), folders_only),
    ensures
        lines.deep_view() == tree_lines(items.deep_view(), show_uuid, folders_only),
{
    let ghost all = items.deep_view();
    let map = children_map(items, folders_only);
    let mut lines: Vec<String> = Vec::new();
    lines.push("(root)".to_owned());
    assert(lines.deep_view() =~= seq!["(root)"@]);
    write_subtree(&map, show_uuid, "", &mut lines);
    let orphans = find_orphan_parents(items, folders_only);
    let ghost roots = orphans.deep_view();
    assert(roots.len() == orphans.len());
    if orphans.len() > 0 {
        let ghost tree = lines.deep_view();
        lines.push("".to_owned());
        lines.push("Orphan items:".to_owned());
        let ghost head = tree + seq![""@, "Orphan items:"@];
        assert(lines.deep_view() =~= head);
        let mut i: usize = 0;
        assert(lines.deep_view() =~= head + orphan_lines(all, folders_only, show_uuid, roots, 0));
        while i < orphans.len()
            invariant
                i <= orphans.len(),
                map.wf(),
                map.items() == all,
                map.only_folders() == folders_only,
                roots == orphans.deep_view(),
                roots == orphan_parents(all, folders_only),
                can_render(all, folders_only),
                lines.deep_view() == head + orphan_lines(
                    all,
                    folders_only,
                    show_uuid,
                    roots,
                    i as nat,
                ),
            decreases orphans.len() - i,
        {
            assert(roots[i as int] == orphans[i as int]@);
            write_subtree(&map, show_uuid, orphans[i].as_str(), &mut lines);
            assert(lines.deep_view() =~= head + orphan_lines(
                all,
                folders_only,
                show_uuid,
                roots,
                (i + 1) as nat,
            ));
            i += 1;
        }
        assert(lines.deep_view() =~= tree_lines(all, show_uuid, folders_only));
    } else {
        assert(lines.deep_view() =~= tree_lines(all, show_uuid, folders_only));
    }
    lines
}

/// Whether the item at position `i` of a way is in the one before it, which is a folder.
pub open spec fn steps_down(way: Seq<ItemView>, i: int) -> bool {
    way[i].parent == way[i - 1].uuid && way[i - 1].is_folder()
}

/// Whether `way` leads down from `root` to an item: each of its items is in the one before it, which
/// is a folder, and the first is in the root.
pub open spec fn leads_down(
    items: Seq<ItemView>,
    folders_only: bool,
    root: Seq<char>,
    way: Seq<ItemView>,
) -> bool {
    &&& way.len() > 0
    &&& way[0].parent == root
    &&& forall|i: int|
        0 <= i < way.len() ==> items.contains(#[trigger] way[i]) && (!folders_only
            || way[i].is_folder())
    &&& forall|i: int| 0 < i < way.len() ==> #[trigger] steps_down(way, i)
}

/// Whether some line shows an item, behind its place in the tree.
pub open spec fn shows(shown: Seq<Seq<char>>, item: ItemView, show_uuid: bool) -> bool {
    exists|i: int| 0 <= i < shown.len() && ends_with(#[trigger] shown[i], label(item, show_uuid))
}

proof fn lines_stay(
    items: Seq<ItemView>,
    folders_only: bool,
    show_uuid: bool,
    prefix: Seq<char>,
    kids: Seq<ItemView>,
    m: nat,
    n: nat,
    fuel: nat,
    item: ItemView,
)
    requires
        m <= n,
        shows(
            lines_below(items, folders_only, show_uuid, prefix, kids, m, fuel),
            item,
            show_uuid,
        ),
    ensures
        shows(
            lines_below(items, folders_only, show_uuid, prefix, kids, n, fuel),
            item,
            show_uuid,
        ),
    decreases n,
{
    if m < n {
        let k = (n - 1) as nat;
        lines_stay(items, folders_only, show_uuid, prefix, kids, m, k, fuel, item);
        let before = lines_below(items, folders_only, show_uuid, prefix, kids, k, fuel);
        let after = lines_below(items, folders_only, show_uuid, prefix, kids, n, fuel);
        let i = choose|i: int|
            0 <= i < before.len() && ends_with(#[trigger] before[i], label(item, show_uuid));
        assert(after[i] == before[i]);
    }
}

proof fn the_end_of_a_way_is_shown(
    items: Seq<ItemView>,
    folders_only: bool,
    show_uuid: bool,
    prefix: Seq<char>,
    root: Seq<char>,
    way: Seq<ItemView>,
    fuel: nat,
)
    requires
        leads_down(items, folders_only, root, way),
        ends(
            items,
            folders_only,
            Walk::Folders,
            children(items, root, folders_only),
            children(items, root, folders_only).len(),
            fuel,
        ),
    ensures
        shows(
            lines_below(
                items,
                folders_only,
                show_uuid,
                prefix,
                children(items, root, folders_only),
                children(items, root, folders_only).len(),
                fuel,
            ),
            way.last(),
            show_uuid,
        ),
    decreases way.len(),
{
    let kids = children(items, root, folders_only);
    let first = way[0];
    assert(items.contains(first));
    children_membership(items, root, folders_only, first);
    let j = choose|j: int| 0 <= j < kids.len() && kids[j] == first;
    let n = (j + 1) as nat;
    let last = n == kids.len();
    let mark = if last {
        "└─ "@
    } else {
        "├─ "@
    };
    let line = prefix + mark + label(first, show_uuid);
    let before = lines_below(items, folders_only, show_uuid, prefix, kids, j as nat, fuel);
    let here = lines_below(items, folders_only, show_uuid, prefix, kids, n, fuel);
    ends_prefix(items, folders_only, Walk::Folders, kids, n, kids.len(), fuel);
    if way.len() == 1 {
        assert(here[before.len() as int] == line);
        assert(line.skip(line.len() - label(first, show_uuid).len()) =~= label(first, show_uuid));
        assert(ends_with(here[before.len() as int], label(first, show_uuid)));
    } else {
        let sub = children(items, first.uuid, folders_only);
        let rest = way.skip(1);
        assert(steps_down(way, 1));
        assert(items.contains(way[1]));
        children_membership(items, first.uuid, folders_only, way[1]);
        assert(sub.len() > 0);
        assert forall|i: int| 0 <= i < rest.len() implies items.contains(#[trigger] rest[i]) && (
        !folders_only || rest[i].is_folder()) by {
            assert(rest[i] == way[i + 1]);
        }
        assert forall|i: int| 0 < i < rest.len() implies #[trigger] steps_down(rest, i) by {
            assert(steps_down(way, i + 1));
            assert(rest[i] == way[i + 1] && rest[i - 1] == way[i]);
        }
        let deeper = prefix + (if last {
            "   "@
        } else {
            "│  "@
        });
        the_end_of_a_way_is_shown(
            items,
            folders_only,
            show_uuid,
            deeper,
            first.uuid,
            rest,
            (fuel - 1) as nat,
        );
        let inner = lines_below(
            items,
            folders_only,
            show_uuid,
            deeper,
            sub,
            sub.len(),
            (fuel - 1) as nat,
        );
        assert(here == before.push(line) + inner);
        let i = choose|i: int|
            0 <= i < inner.len() && ends_with(#[trigger] inner[i], label(rest.last(), show_uuid));
        assert(here[before.len() + 1 + i] == inner[i]);
        assert(rest.last() == way.last());
    }
    lines_stay(items, folders_only, show_uuid, prefix, kids, n, kids.len(), fuel, way.last());
}

/// Every item below the root is shown.
pub proof fn items_below_the_root_are_shown(
    items: Seq<ItemView>,
    show_uuid: bool,
    folders_only: bool,
    way: Seq<ItemView>,
)
    requires
        can_render(items, folders_only),
        leads_down(items, folders_only, ""@, way),
    ensures
        shows(tree_lines(items, show_uuid, folders_only), way.last(), show_uuid),
{
    the_end_of_a_way_is_shown(items, folders_only, show_uuid, ""@, ""@, way, items.len());
    let below = subtree_lines(items, folders_only, show_uuid, ""@);
    let all = tree_lines(items, show_uuid, folders_only);
    let i = choose|i: int|
        0 <= i < below.len() && ends_with(#[trigger] below[i], label(way.last(), show_uuid));
    assert(all[i + 1] == below[i]);
}

proof fn missing_parents_are_found(items: Seq<ItemView>, n: nat, folders_only: bool, k: int)
    requires
        0 <= k < n <= items.len(),
        !folders_only || items[k].is_folder(),
        items[k].parent.len() > 0,
        !is_known(items, items[k].parent),
    ensures
        missing_parents(items, n, folders_only).contains(items[k].parent),
    decreases n,
{
    let before = missing_parents(items, (n - 1) as nat, folders_only);
    let all = missing_parents(items, n, folders_only);
    if k == n - 1 {
        assert(all[before.len() as int] == items[k].parent);
    } else {
        missing_parents_are_found(items, (n - 1) as nat, folders_only, k);
        let i = choose|i: int| 0 <= i < before.len() && before[i] == items[k].parent;
        assert(all[i] == items[k].parent);
    }
}

proof fn orphan_lines_stay(
    items: Seq<ItemView>,
    folders_only: bool,
    show_uuid: bool,
    roots: Seq<Seq<char>>,
    m: nat,
    n: nat,
    item: ItemView,
)
    requires
        m <= n,
        shows(orphan_lines(items, folders_only, show_uuid, roots, m), item, show_uuid),
    ensures
        shows(orphan_lines(items, folders_only, show_uuid, roots, n), item, show_uuid),
    decreases n,
{
    if m < n {
        let k = (n - 1) as nat;
        orphan_lines_stay(items, folders_only, show_uuid, roots, m, k, item);
        let before = orphan_lines(items, folders_only, show_uuid, roots, k);
        let after = orphan_lines(items, folders_only, show_uuid, roots, n);
        let i = choose|i: int|
            0 <= i < before.len() && ends_with(#[trigger] before[i], label(item, show_uuid));
        assert(after[i] == before[i]);
    }
}

/// Every item below a parent that does not exist (such as the trash) is shown as an orphan.
pub proof fn orphans_are_shown(
    items: Seq<ItemView>,
    show_uuid: bool,
    folders_only: bool,
    root: Seq<char>,
    way: Seq<ItemView>,
)
    requires
        can_render(items, folders_only),
        root.len() > 0,
        !is_known(items, root),
        leads_down(items, folders_only, root, way),
    ensures
        shows(tree_lines(items, show_uuid, folders_only), way.last(), show_uuid),
{
    let roots = orphan_parents(items, folders_only);
    let parents = missing_parents(items, items.len(), folders_only);
    assert(items.contains(way[0]));
    let k = choose|k: int| 0 <= k < items.len() && items[k] == way[0];
    missing_parents_are_found(items, items.len(), folders_only, k);
    sort_dedup_is_ascending(parents);
    assert(roots.contains(root));
    let r = choose|r: int| 0 <= r < roots.len() && roots[r] == root;
    assert(walk_ends(items, folders_only, Walk::Folders, roots[r]));
    the_end_of_a_way_is_shown(items, folders_only, show_uuid, ""@, root, way, items.len());
    let before = orphan_lines(items, folders_only, show_uuid, roots, r as nat);
    let below = subtree_lines(items, folders_only, show_uuid, root);
    let here = orphan_lines(items, folders_only, show_uuid, roots, (r + 1) as nat);
    let i = choose|i: int|
        0 <= i < below.len() && ends_with(#[trigger] below[i], label(way.last(), show_uuid));
    assert(here[before.len() + i] == below[i]);
    orphan_lines_stay(
        items,
        folders_only,
        show_uuid,
        roots,
        (r + 1) as nat,
        roots.len(),
        way.last(),
    );
    let orphans = orphan_lines(items, folders_only, show_uuid, roots, roots.len());
    let all = tree_lines(items, show_uuid, folders_only);
    let head = seq!["(root)"@] + subtree_lines(items, folders_only, show_uuid, ""@);
    assert(all == head + (seq![""@, "Orphan items:"@] + orphans));
    let o = choose|o: int|
        0 <= o < orphans.len() && ends_with(#[trigger] orphans[o], label(way.last(), show_uuid));
    assert(all[head.len() + 2 + o] == orphans[o]);
}

} // verus!
