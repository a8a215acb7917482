//! Logical paths lead back to the items that they were built for.
use vstd::prelude::*;
use crate::error::ErrorView;
use crate::resolve::{first_item, follow, is_root_ref, named, resolved, segments, trimmed};
use crate::text::{contains, find, find_is_first, find_unique, join, split, trim, trim_start, Class};
use crate::walk::{lineage, logical_path, lookup, path_names};
use crate::xochitl::ItemView;

verus! {

proof fn join_from_front(parts: Seq<Seq<char>>, sep: Seq<char>)
    requires
        parts.len() >= 2,
    ensures
        join(parts, sep) == parts[0] + sep + join(parts.skip(1), sep),
    decreases parts.len(),
{
    let rest = parts.drop_last();
    if parts.len() == 2 {
        assert(rest.len() == 1 && rest[0] == parts[0]);
        assert(parts.skip(1).len() == 1 && parts.skip(1)[0] == parts[1]);
        assert(join(rest, sep) == parts[0]);
        assert(join(parts.skip(1), sep) == parts[1]);
    } else {
        join_from_front(rest, sep);
        assert(rest.skip(1) =~= parts.skip(1).drop_last());
        assert(parts.skip(1).last() == parts.last());
        assert(join(parts.skip(1), sep) == join(rest.skip(1), sep) + sep + parts.last());
        assert(join(parts, sep) =~= parts[0] + sep + join(parts.skip(1), sep));
    }
}

/// Pieces without the separator, joined and split again, are the same pieces.
pub proof fn splitting_undoes_joining(parts: Seq<Seq<char>>, c: char)
    requires
        parts.len() > 0,
        forall|i: int| 0 <= i < parts.len() ==> !contains(#[trigger] parts[i], Class::Only(c)),
    ensures
        split(join(parts, seq![c]), Class::Only(c)) == parts,
    decreases parts.len(),
{
    let k = Class::Only(c);
    let s = join(parts, seq![c]);
    assert(!contains(parts[0], k));
    if parts.len() == 1 {
        find_is_first(s, k);
        assert(split(s, k) =~= parts);
    } else {
        join_from_front(parts, seq![c]);
        let rest = parts.skip(1);
        let p = parts[0].len() as int;
        assert(s[p] == c);
        assert forall|i: int| 0 <= i < p implies !k.holds(#[trigger] s[i]) by {
            assert(s[i] == parts[0][i]);
        }
        find_unique(s, k, p);
        assert(s.take(p) =~= parts[0]);
        assert(s.skip(p + 1) =~= join(rest, seq![c]));
        assert forall|i: int| 0 <= i < rest.len() implies !contains(#[trigger] rest[i], k) by {
            assert(rest[i] == parts[i + 1]);
        }
        splitting_undoes_joining(rest, c);
        assert(split(s, k) == seq![parts[0]] + split(s.skip(p + 1), k));
        assert(seq![parts[0]] + rest =~= parts);
    }
}

/// A text, split and joined again, is the same text.
pub proof fn joining_undoes_splitting(s: Seq<char>, c: char)
    ensures
        join(split(s, Class::Only(c)), seq![c]) == s,
    decreases s.len(),
{
    let k = Class::Only(c);
    find_is_first(s, k);
    let i = find(s, k);
    let parts = split(s, k);
    if i < s.len() {
        let rest = s.skip(i + 1);
        joining_undoes_splitting(rest, c);
        find_is_first(rest, k);
        assert(split(rest, k).len() > 0);
        assert(parts.skip(1) =~= split(rest, k));
        join_from_front(parts, seq![c]);
        assert(s =~= s.take(i) + seq![c] + rest);
    }
}

proof fn join_ends(parts: Seq<Seq<char>>, c: char)
    requires
        parts.len() > 0,
        forall|i: int|
            0 <= i < parts.len() ==> (#[trigger] parts[i]).len() > 0 && !contains(
                parts[i],
                Class::Only(c),
            ),
    ensures
        join(parts, seq![c]).len() > 0,
        join(parts, seq![c])[0] != c,
        join(parts, seq![c]).last() != c,
{
    let s = join(parts, seq![c]);
    let k = Class::Only(c);
    assert(!contains(parts[0], k));
    assert(k.holds(parts[0][0]) == (parts[0][0] == c));
    let last = parts.last();
    assert(parts[parts.len() - 1] == last);
    assert(k.holds(last[last.len() - 1]) == (last[last.len() - 1] == c));
    if parts.len() > 1 {
        join_from_front(parts, seq![c]);
        assert(s[0] == parts[0][0]);
        assert(s.last() == last.last());
    }
}

proof fn trimmed_stay(parts: Seq<Seq<char>>, n: nat)
    requires
        n <= parts.len(),
        forall|i: int|
            0 <= i < parts.len() ==> (#[trigger] parts[i]).len() > 0 && trim(parts[i], Class::White)
                == parts[i],
    ensures
        trimmed(parts, n) == parts.take(n as int),
    decreases n,
{
    if n > 0 {
        trimmed_stay(parts, (n - 1) as nat);
        assert(parts.take(n as int) =~= parts.take(n - 1).push(parts[n - 1]));
    } else {
        assert(parts.take(0) =~= Seq::empty());
    }
}

proof fn lineage_goes_up(items: Seq<ItemView>, item: ItemView, n: nat, k: int)
    requires
        0 <= k < lineage(items, item, n).len() - 1,
    ensures
        lookup(items, lineage(items, item, n)[k].parent) == Some(lineage(items, item, n)[k + 1]),
    decreases n,
{
    let up = lineage(items, item, n);
    match lookup(items, item.parent) {
        Some(parent) => {
            let rest = lineage(items, parent, (n - 1) as nat);
            assert(up =~= seq![item] + rest);
            if k == 0 {
                assert(rest[0] == parent);
            } else {
                lineage_goes_up(items, parent, (n - 1) as nat, k - 1);
            }
        },
        None => {},
    }
}

proof fn looked_up_has_the_uuid(items: Seq<ItemView>, uuid: Seq<char>)
    ensures
        lookup(items, uuid) matches Some(item) ==> item.uuid == uuid,
    decreases items.len(),
{
    if items.len() > 0 && items.last().uuid != uuid {
        looked_up_has_the_uuid(items.drop_last(), uuid);
    }
}

/// Whether a name can stand in a path: it is not empty, has no white space around it, and no slash.
pub open spec fn is_path_name(name: Seq<char>) -> bool {
    name.len() > 0 && trim(name, Class::White) == name && !contains(name, Class::Only('/'))
}

/// Whether an item is the only one of its name in its folder.
pub open spec fn is_alone(items: Seq<ItemView>, item: ItemView) -> bool {
    named(items, item.parent, item.visible_name, false) == seq![item]
}

proof fn names_are_followed(
    items: Seq<ItemView>,
    item: ItemView,
    reference: Seq<char>,
    cap: nat,
    n: nat,
)
    requires
        0 < n <= lineage(items, item, cap).len(),
        lineage(items, item, cap).last().parent.len() == 0,
        forall|k: int|
            0 <= k < lineage(items, item, cap).len() ==> is_alone(
                items,
                #[trigger] lineage(items, item, cap)[k],
            ),
    ensures
        follow(items, reference, path_names(items, item, cap), n) == Ok::<
            Option<ItemView>,
            ErrorView,
        >(Some(lineage(items, item, cap)[lineage(items, item, cap).len() - n])),
    decreases n,
{
    let up = lineage(items, item, cap);
    let names = path_names(items, item, cap);
    let here = up[up.len() - n];
    assert(is_alone(items, here));
    assert(names[n - 1] == here.visible_name);
    if n == 1 {
        assert(here.parent =~= Seq::empty());
        assert(follow(items, reference, names, 0) == Ok::<Option<ItemView>, ErrorView>(None));
    } else {
        names_are_followed(items, item, reference, cap, (n - 1) as nat);
        lineage_goes_up(items, item, cap, up.len() - n);
        looked_up_has_the_uuid(items, here.parent);
    }
}

/// The path of an item resolves to that item, where the names on the way can stand in a path, no two
/// siblings share one, the way starts at the root, and the path is not the UUID of another item.
pub proof fn paths_resolve_to_their_items(items: Seq<ItemView>, item: ItemView)
    requires
        lineage(items, item, items.len() + 1).last().parent.len() == 0,
        forall|k: int|
            0 <= k < lineage(items, item, items.len() + 1).len() ==> is_alone(
                items,
                #[trigger] lineage(items, item, items.len() + 1)[k],
            ) && is_path_name(lineage(items, item, items.len() + 1)[k].visible_name),
        first_item(items, logical_path(items, item)) is None,
    ensures
        resolved(items, logical_path(items, item)) == Ok::<ItemView, ErrorView>(item),
{
    let cap = items.len() + 1;
    let up = lineage(items, item, cap);
    let names = path_names(items, item, cap);
    let slash = Class::Only('/');
    let joined = join(names, seq!['/']);
    let path = logical_path(items, item);
    assert(up[0] == item);
    assert forall|i: int| 0 <= i < names.len() implies is_path_name(#[trigger] names[i]) by {
        assert(names[i] == up[up.len() - 1 - i].visible_name);
    }
    assert forall|i: int| 0 <= i < names.len() implies (#[trigger] names[i]).len() > 0 && !contains(
        names[i],
        slash,
    ) by {
        assert(is_path_name(names[i]));
    }
    join_ends(names, '/');
    assert(path[0] == '/');
    assert(path.drop_first() =~= joined);
    assert(trim_start(path, slash) == trim_start(joined, slash));
    assert(trim(path, slash) == joined);
    assert(!is_root_ref(path)) by {
        reveal_strlit("/");
        reveal_strlit("(root)");
        assert("(root)"@[0] == '(');
    }
    splitting_undoes_joining(names, '/');
    assert forall|i: int| 0 <= i < names.len() implies (#[trigger] names[i]).len() > 0 && trim(
        names[i],
        Class::White,
    ) == names[i] by {
        assert(is_path_name(names[i]));
    }
    trimmed_stay(names, names.len());
    assert(names.take(names.len() as int) =~= names);
    assert(segments(joined) == names);
    assert forall|k: int| 0 <= k < up.len() implies is_alone(items, #[trigger] up[k]) by {}
    names_are_followed(items, item, path, cap, up.len());
}

} // verus!
