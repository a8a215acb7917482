//! What the tree looks like: each folder's block is made of the blocks of what is in it.
use vstd::prelude::*;
use crate::render::{
    is_known, label, lines_below, missing_parents, orphan_lines, orphan_parents, subtree_lines,
    tree_lines,
};
use crate::text::{ascending, sort_dedup_is_ascending};
use crate::tree::children;
use crate::walk::{ends, walk_ends, Walk};
use crate::xochitl::ItemView;

verus! {

/// An item is shown by its name, marked as a folder by a slash and as a document by its type where it
/// is known, and with its UUID where that is asked for.
pub proof fn labels_tell_the_kind(item: ItemView)
    ensures
        item.is_folder() ==> label(item, false) == item.visible_name + "/"@,
        item.is_folder() ==> label(item, true) == item.visible_name + "/"@ + (" ["@ + item.uuid
            + "]"@),
        !item.is_folder() ==> (item.file_type matches Some(t) ==> label(item, false)
            == item.visible_name + (" ("@ + t + ")"@) && label(item, true) == item.visible_name + (
        " ("@ + t + ")"@) + (" ["@ + item.uuid + "]"@)),
        !item.is_folder() && item.file_type is None ==> label(item, false) == item.visible_name
            && label(item, true) == item.visible_name + (" ["@ + item.uuid + "]"@),
{
    reveal_strlit("");
    let none = ""@;
    assert(none =~= Seq::empty());
    assert(item.visible_name + none =~= item.visible_name);
    assert(item.visible_name + "/"@ + none =~= item.visible_name + "/"@);
    if let Some(t) = item.file_type {
        let typed = item.visible_name + (" ("@ + t + ")"@);
        assert(typed + none =~= typed);
    }
}

/// Lines set in by a text.
pub open spec fn set_in(by: Seq<char>, ls: Seq<Seq<char>>) -> Seq<Seq<char>> {
    Seq::new(ls.len(), |i: int| by + ls[i])
}

/// The lines of the first `n` of the siblings `kids`: each is drawn as a branch, the last one as the
/// end of the line, and what is in a folder follows it, set in, below the line where more comes.
pub open spec fn drawn(
    items: Seq<ItemView>,
    folders_only: bool,
    show_uuid: bool,
    kids: Seq<ItemView>,
    n: nat,
) -> Seq<Seq<char>>
    decreases n,
{
    if n == 0 {
        Seq::empty()
    } else {
        let kid = kids[n - 1];
        let before = drawn(items, folders_only, show_uuid, kids, (n - 1) as nat);
        let is_last = n == kids.len();
        let line = if is_last {
            "└─ "@ + label(kid, show_uuid)
        } else {
            "├─ "@ + label(kid, show_uuid)
        };
        if kid.is_folder() {
            before.push(line) + set_in(
                if is_last {
                    "   "@
                } else {
                    "│  "@
                },
                subtree_lines(items, folders_only, show_uuid, kid.uuid),
            )
        } else {
            before.push(line)
        }
    }
}

proof fn setting_in_twice(a: Seq<char>, b: Seq<char>, ls: Seq<Seq<char>>)
    ensures
        set_in(a, set_in(b, ls)) == set_in(a + b, ls),
{
    assert forall|i: int| 0 <= i < ls.len() implies set_in(a, set_in(b, ls))[i] == set_in(
        a + b,
        ls,
    )[i] by {
        assert(a + (b + ls[i]) =~= (a + b) + ls[i]);
    }
    assert(set_in(a, set_in(b, ls)) =~= set_in(a + b, ls));
}

proof fn setting_in_is_by_line(by: Seq<char>, a: Seq<Seq<char>>, b: Seq<Seq<char>>, x: Seq<char>)
    ensures
        set_in(by, a + b) == set_in(by, a) + set_in(by, b),
        set_in(by, a.push(x)) == set_in(by, a).push(by + x),
{
    assert(set_in(by, a + b) =~= set_in(by, a) + set_in(by, b));
    assert(set_in(by, a.push(x)) =~= set_in(by, a).push(by + x));
}

proof fn prefixes_set_in(
    items: Seq<ItemView>,
    folders_only: bool,
    show_uuid: bool,
    prefix: Seq<char>,
    kids: Seq<ItemView>,
    n: nat,
    fuel: nat,
)
    ensures
        lines_below(items, folders_only, show_uuid, prefix, kids, n, fuel) == set_in(
            prefix,
            lines_below(items, folders_only, show_uuid, ""@, kids, n, fuel),
        ),
    decreases fuel, n,
{
    reveal_strlit("");
    let none = ""@;
    assert(none =~= Seq::empty());
    if n == 0 {
        assert(set_in(
            prefix,
            lines_below(items, folders_only, show_uuid, none, kids, n, fuel),
        ) =~= Seq::empty());
    } else {
        let kid = kids[n - 1];
        let sub = children(items, kid.uuid, folders_only);
        let is_last = n == kids.len();
        let glyph = if is_last {
            "└─ "@
        } else {
            "├─ "@
        };
        let inset = if is_last {
            "   "@
        } else {
            "│  "@
        };
        prefixes_set_in(items, folders_only, show_uuid, prefix, kids, (n - 1) as nat, fuel);
        let before = lines_below(
            items,
            folders_only,
            show_uuid,
            none,
            kids,
            (n - 1) as nat,
            fuel,
        );
        let shown = label(kid, show_uuid);
        assert(prefix + (none + glyph + shown) =~= prefix + glyph + shown);
        setting_in_is_by_line(prefix, before, before, none + glyph + shown);
        if kid.is_folder() && fuel > 0 {
            let less = (fuel - 1) as nat;
            prefixes_set_in(items, folders_only, show_uuid, prefix + inset, sub, sub.len(), less);
            prefixes_set_in(items, folders_only, show_uuid, none + inset, sub, sub.len(), less);
            let below = lines_below(items, folders_only, show_uuid, none, sub, sub.len(), less);
            assert(none + inset =~= inset);
            setting_in_twice(prefix, inset, below);
            setting_in_is_by_line(
                prefix,
                before.push(none + glyph + shown),
                set_in(inset, below),
                none,
            );
        }
    }
}

proof fn more_levels_show_no_more(
    items: Seq<ItemView>,
    folders_only: bool,
    show_uuid: bool,
    prefix: Seq<char>,
    kids: Seq<ItemView>,
    n: nat,
    fuel: nat,
)
    requires
        ends(items, folders_only, Walk::Folders, kids, n, fuel),
    ensures
        lines_below(items, folders_only, show_uuid, prefix, kids, n, fuel + 1) == lines_below(
            items,
            folders_only,
            show_uuid,
            prefix,
            kids,
            n,
            fuel,
        ),
    decreases fuel, n,
{
    if n > 0 {
        let kid = kids[n - 1];
        let sub = children(items, kid.uuid, folders_only);
        let inset = prefix + if n == kids.len() {
            "   "@
        } else {
            "│  "@
        };
        more_levels_show_no_more(
            items,
            folders_only,
            show_uuid,
            prefix,
            kids,
            (n - 1) as nat,
            fuel,
        );
        let here = lines_below(items, folders_only, show_uuid, prefix, kids, n, fuel);
        let more = lines_below(items, folders_only, show_uuid, prefix, kids, n, fuel + 1);
        if kid.is_folder() {
            if sub.len() > 0 {
                more_levels_show_no_more(
                    items,
                    folders_only,
                    show_uuid,
                    inset,
                    sub,
                    sub.len(),
                    (fuel - 1) as nat,
                );
                assert(((fuel - 1) as nat) + 1 == fuel);
            } else {
                let none = Seq::<Seq<char>>::empty();
                assert(lines_below(items, folders_only, show_uuid, inset, sub, 0, fuel) == none);
                if fuel > 0 {
                    assert(lines_below(
                        items,
                        folders_only,
                        show_uuid,
                        inset,
                        sub,
                        0,
                        (fuel - 1) as nat,
                    ) == none);
                }
                assert(more =~= here);
            }
        }
    }
}

proof fn lines_are_drawn(
    items: Seq<ItemView>,
    folders_only: bool,
    show_uuid: bool,
    kids: Seq<ItemView>,
    n: nat,
)
    requires
        n <= kids.len(),
        items.len() > 0 || kids.len() == 0,
        ends(items, folders_only, Walk::Folders, kids, n, items.len()),
    ensures
        lines_below(items, folders_only, show_uuid, ""@, kids, n, items.len()) == drawn(
            items,
            folders_only,
            show_uuid,
            kids,
            n,
        ),
    decreases n,
{
    reveal_strlit("");
    let none = ""@;
    assert(none =~= Seq::empty());
    if n > 0 {
        let fuel = items.len();
        let kid = kids[n - 1];
        let sub = children(items, kid.uuid, folders_only);
        let inset = if n == kids.len() {
            "   "@
        } else {
            "│  "@
        };
        lines_are_drawn(items, folders_only, show_uuid, kids, (n - 1) as nat);
        let shown = label(kid, show_uuid);
        assert(none + "└─ "@ + shown =~= "└─ "@ + shown);
        assert(none + "├─ "@ + shown =~= "├─ "@ + shown);
        assert(none + inset =~= inset);
        let less = (fuel - 1) as nat;
        if kid.is_folder() {
            prefixes_set_in(items, folders_only, show_uuid, inset, sub, sub.len(), less);
            if sub.len() > 0 {
                more_levels_show_no_more(
                    items,
                    folders_only,
                    show_uuid,
                    none,
                    sub,
                    sub.len(),
                    less,
                );
                assert(less + 1 == fuel);
            }
            assert(subtree_lines(items, folders_only, show_uuid, kid.uuid) == lines_below(
                items,
                folders_only,
                show_uuid,
                none,
                sub,
                sub.len(),
                less,
            ));
        }
    }
}

/// What is below a folder is drawn child by child in their order, and what is below each child folder
/// is drawn the same way, set in behind it.
pub proof fn folders_are_drawn_child_by_child(
    items: Seq<ItemView>,
    folders_only: bool,
    show_uuid: bool,
    root: Seq<char>,
)
    requires
        walk_ends(items, folders_only, Walk::Folders, root),
    ensures
        subtree_lines(items, folders_only, show_uuid, root) == drawn(
            items,
            folders_only,
            show_uuid,
            children(items, root, folders_only),
            children(items, root, folders_only).len(),
        ),
{
    let kids = children(items, root, folders_only);
    if kids.len() > 0 {
        assert(kids.contains(kids[0]));
        crate::tree::children_membership(items, root, folders_only, kids[0]);
    }
    lines_are_drawn(items, folders_only, show_uuid, kids, kids.len());
}

proof fn parents_are_missing(items: Seq<ItemView>, n: nat, folders_only: bool, p: Seq<char>)
    requires
        n <= items.len(),
    ensures
        missing_parents(items, n, folders_only).contains(p) <==> exists|i: int|
            0 <= i < n && (#[trigger] items[i]).parent == p && p.len() > 0 && !is_known(items, p)
                && (folders_only ==> items[i].is_folder()),
    decreases n,
{
    if n > 0 {
        let m = (n - 1) as nat;
        parents_are_missing(items, m, folders_only, p);
        let before = missing_parents(items, m, folders_only);
        let all = missing_parents(items, n, folders_only);
        if before.contains(p) {
            let k = choose|k: int| 0 <= k < before.len() && before[k] == p;
            assert(all[k] == p);
            let i = choose|i: int|
                0 <= i < m && (#[trigger] items[i]).parent == p && p.len() > 0 && !is_known(
                    items,
                    p,
                ) && (folders_only ==> items[i].is_folder());
            assert(items[i].parent == p);
        }
        if all.contains(p) && !before.contains(p) {
            let k = choose|k: int| 0 <= k < all.len() && all[k] == p;
            if k < before.len() {
                assert(before[k] == p);
            }
            assert(items[n - 1].parent == p);
        }
        let item = items[n - 1];
        if item.parent == p && p.len() > 0 && !is_known(items, p) && (folders_only
            ==> item.is_folder()) {
            assert(all[before.len() as int] == p);
        }
    }
}

/// The parents of orphans are those that some shown item has and no item is, each once, in order.
pub proof fn orphans_have_no_parent(items: Seq<ItemView>, folders_only: bool, p: Seq<char>)
    ensures
        ascending(orphan_parents(items, folders_only)),
        orphan_parents(items, folders_only).contains(p) <==> p.len() > 0 && (exists|i: int|
            0 <= i < items.len() && (#[trigger] items[i]).parent == p && (folders_only
                ==> items[i].is_folder())) && forall|i: int|
            0 <= i < items.len() ==> (#[trigger] items[i]).uuid != p,
{
    sort_dedup_is_ascending(missing_parents(items, items.len(), folders_only));
    parents_are_missing(items, items.len(), folders_only, p);
    if orphan_parents(items, folders_only).contains(p) {
        let i = choose|i: int|
            0 <= i < items.len() && (#[trigger] items[i]).parent == p && p.len() > 0 && !is_known(
                items,
                p,
            ) && (folders_only ==> items[i].is_folder());
        assert(items[i].parent == p);
    }
}

/// The whole tree is the root, all that is below it and, under a heading of their own, the orphans of
/// every missing parent; without orphans there is no heading.
pub proof fn trees_end_with_their_orphans(
    items: Seq<ItemView>,
    show_uuid: bool,
    folders_only: bool,
)
    ensures
        ({
            let orphans = orphan_parents(items, folders_only);
            let all = tree_lines(items, show_uuid, folders_only);
            let below = subtree_lines(items, folders_only, show_uuid, ""@);
            &&& orphans.len() == 0 ==> all == seq!["(root)"@] + below
            &&& orphans.len() > 0 ==> all == seq!["(root)"@] + below + (seq![
                ""@,
                "Orphan items:"@,
            ] + orphan_lines(items, folders_only, show_uuid, orphans, orphans.len()))
        }),
{
    let below = subtree_lines(items, folders_only, show_uuid, ""@);
    assert(seq!["(root)"@] + below + Seq::empty() =~= seq!["(root)"@] + below);
}

/// Orphans are drawn parent by parent, in the order of the parents.
pub proof fn orphans_are_drawn_by_parent(
    items: Seq<ItemView>,
    folders_only: bool,
    show_uuid: bool,
    roots: Seq<Seq<char>>,
    n: nat,
)
    requires
        n < roots.len(),
    ensures
        orphan_lines(items, folders_only, show_uuid, roots, n + 1) == orphan_lines(
            items,
            folders_only,
            show_uuid,
            roots,
            n,
        ) + subtree_lines(items, folders_only, show_uuid, roots[n as int]),
        orphan_lines(items, folders_only, show_uuid, roots, 0).len() == 0,
{
}

} // verus!
