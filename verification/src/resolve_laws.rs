//! What names and references find in a listing.
use vstd::prelude::*;
use crate::error::ErrorView;
use crate::mkdir::{after_creating, beginning, next_step, MkdirView, StepView};
use crate::resolve::{
    first_item, follow, named, only_child, resolved, resolved_folder, segments, trimmed,
};
use crate::text::{split, trim, Class};
use crate::text_laws::{edges_are_trimmed, first_cuts, is_all, is_free_of};
use crate::xochitl::ItemView;

verus! {

/// Whether the listed item is in the folder and has the name; only folders count if so asked.
pub open spec fn is_called(
    item: ItemView,
    parent: Seq<char>,
    name: Seq<char>,
    folders_only: bool,
) -> bool {
    item.parent == parent && item.visible_name == name && (folders_only ==> item.is_folder())
}

proof fn named_items_are_positions(
    items: Seq<ItemView>,
    parent: Seq<char>,
    name: Seq<char>,
    folders_only: bool,
) -> (at: Seq<int>)
    ensures
        at.len() == named(items, parent, name, folders_only).len(),
        forall|k: int|
            0 <= k < at.len() ==> 0 <= #[trigger] at[k] < items.len() && is_called(
                items[at[k]],
                parent,
                name,
                folders_only,
            ) && named(items, parent, name, folders_only)[k] == items[at[k]],
        forall|j: int, k: int| 0 <= j < k < at.len() ==> #[trigger] at[j] < #[trigger] at[k],
        forall|i: int|
            0 <= i < items.len() && is_called(#[trigger] items[i], parent, name, folders_only)
                ==> at.contains(i),
    decreases items.len(),
{
    if items.len() == 0 {
        Seq::empty()
    } else {
        let rest = items.drop_last();
        let before = named_items_are_positions(rest, parent, name, folders_only);
        let is_in = is_called(items.last(), parent, name, folders_only);
        let at = if is_in {
            before.push(items.len() - 1)
        } else {
            before
        };
        assert forall|i: int|
            0 <= i < items.len() && is_called(
                #[trigger] items[i],
                parent,
                name,
                folders_only,
            ) implies at.contains(i) by {
            if i < rest.len() {
                assert(rest[i] == items[i]);
                assert(before.contains(i));
                let k = choose|k: int| 0 <= k < before.len() && before[k] == i;
                assert(at[k] == i);
            } else {
                assert(at[before.len() as int] == i);
            }
        }
        at
    }
}

/// A name finds the one item of the folder that has it, nothing where none has, and fails where
/// several do: siblings of the same name are never guessed between.
pub proof fn names_find_the_only_one(
    items: Seq<ItemView>,
    parent: Seq<char>,
    name: Seq<char>,
    folders_only: bool,
    i: int,
    j: int,
)
    ensures
        (forall|k: int|
            0 <= k < items.len() ==> !is_called(#[trigger] items[k], parent, name, folders_only))
            ==> only_child(items, parent, name, folders_only) == Ok::<Option<ItemView>, ErrorView>(
            None,
        ),
        0 <= i < items.len() && is_called(items[i], parent, name, folders_only) && (forall|k: int|
            0 <= k < items.len() && is_called(#[trigger] items[k], parent, name, folders_only) ==> k
                == i) ==> only_child(items, parent, name, folders_only) == Ok::<
            Option<ItemView>,
            ErrorView,
        >(Some(items[i])),
        0 <= i < j < items.len() && is_called(items[i], parent, name, folders_only) && is_called(
            items[j],
            parent,
            name,
            folders_only,
        ) ==> only_child(items, parent, name, folders_only) == Err::<Option<ItemView>, ErrorView>(
            ErrorView::AmbiguousPath {
                segment: name,
                path: if parent.len() == 0 {
                    "(root)"@
                } else {
                    parent
                },
            },
        ),
{
    let at = named_items_are_positions(items, parent, name, folders_only);
    if at.len() > 0 {
        assert(is_called(items[at[0]], parent, name, folders_only));
    }
    if at.len() > 1 {
        assert(at[0] < at[1]);
        assert(is_called(items[at[1]], parent, name, folders_only));
    }
    if 0 <= i < items.len() && is_called(items[i], parent, name, folders_only) {
        assert(at.contains(i));
        let p = choose|p: int| 0 <= p < at.len() && at[p] == i;
        assert(at[p] == i);
        if i < j < items.len() && is_called(items[j], parent, name, folders_only) {
            assert(at.contains(j));
            let q = choose|q: int| 0 <= q < at.len() && at[q] == j;
            assert(at[q] == j);
        }
    }
}

/// Whether the items lead from the root to the last of them, each being in the one before it.
pub open spec fn leads_on(items: Seq<ItemView>, way: Seq<ItemView>) -> bool {
    &&& way.len() > 0
    &&& way[0].parent.len() == 0
    &&& forall|i: int| 0 <= i < way.len() ==> items.contains(#[trigger] way[i])
    &&& forall|i: int| 0 <= i < way.len() - 1 ==> #[trigger] is_inside(way, i)
}

/// Whether the item behind position `i` is in the one at it.
pub open spec fn is_inside(way: Seq<ItemView>, i: int) -> bool {
    way[i + 1].parent == way[i].uuid
}

proof fn followed_ways_lead_on(
    items: Seq<ItemView>,
    reference: Seq<char>,
    parts: Seq<Seq<char>>,
    n: nat,
) -> (way: Seq<ItemView>)
    requires
        0 < n <= parts.len(),
        follow(items, reference, parts, n) is Ok,
    ensures
        leads_on(items, way),
        way.len() == n,
        forall|i: int| 0 <= i < n ==> (#[trigger] way[i]).visible_name == parts[i],
        follow(items, reference, parts, n) == Ok::<Option<ItemView>, ErrorView>(Some(way.last())),
    decreases n,
{
    let before = follow(items, reference, parts, (n - 1) as nat);
    let parent = match before->Ok_0 {
        Some(item) => item.uuid,
        None => Seq::empty(),
    };
    let at = named_items_are_positions(items, parent, parts[n - 1], false);
    let found = items[at[0]];
    assert(items.contains(found));
    if n == 1 {
        seq![found]
    } else {
        let less = followed_ways_lead_on(items, reference, parts, (n - 1) as nat);
        let way = less.push(found);
        assert(less.last().uuid == parent);
        assert forall|i: int| 0 <= i < way.len() implies items.contains(#[trigger] way[i]) by {
            if i < less.len() {
                assert(items.contains(less[i]));
            }
        }
        assert forall|i: int| 0 <= i < way.len() - 1 implies #[trigger] is_inside(way, i) by {
            if i < less.len() - 1 {
                assert(is_inside(less, i));
            }
        }
        assert forall|i: int| 0 <= i < n implies (#[trigger] way[i]).visible_name == parts[i] by {
            if i < n - 1 {
                assert(less[i].visible_name == parts[i]);
            }
        }
        way
    }
}

/// A reference that is no UUID is a path: what it resolves to is reached from the root by items of the
/// names in it, one after the other.
pub proof fn paths_lead_by_their_names(
    items: Seq<ItemView>,
    reference: Seq<char>,
    x: ItemView,
) -> (way: Seq<ItemView>)
    requires
        resolved(items, reference) == Ok::<ItemView, ErrorView>(x),
        forall|i: int| 0 <= i < items.len() ==> (#[trigger] items[i]).uuid != reference,
    ensures
        leads_on(items, way),
        way.last() == x,
        way.len() == segments(trim(reference, Class::Only('/'))).len(),
        forall|i: int|
            0 <= i < way.len() ==> (#[trigger] way[i]).visible_name == segments(
                trim(reference, Class::Only('/')),
            )[i],
{
    crate::resolve::first_from_is_listed(items, 0, reference);
    if let Some(item) = first_item(items, reference) {
        let k = choose|k: int| 0 <= k < items.len() && items[k] == item;
        assert(items[k].uuid != reference);
    }
    let parts = segments(trim(reference, Class::Only('/')));
    followed_ways_lead_on(items, reference, parts, parts.len())
}

proof fn only_ways_are_followed(
    items: Seq<ItemView>,
    reference: Seq<char>,
    parts: Seq<Seq<char>>,
    way: Seq<ItemView>,
    n: nat,
)
    requires
        0 < n <= way.len(),
        way.len() == parts.len(),
        leads_on(items, way),
        forall|i: int| 0 <= i < way.len() ==> (#[trigger] way[i]).visible_name == parts[i],
        forall|k: int, i: int, j: int|
            0 <= k < way.len() && 0 <= i < items.len() && 0 <= j < items.len() && is_called(
                #[trigger] items[i],
                (#[trigger] way[k]).parent,
                way[k].visible_name,
                false,
            ) && is_called(#[trigger] items[j], way[k].parent, way[k].visible_name, false) ==> i == j,
    ensures
        follow(items, reference, parts, n) == Ok::<Option<ItemView>, ErrorView>(
            Some(way[n - 1]),
        ),
    decreases n,
{
    if n > 1 {
        only_ways_are_followed(items, reference, parts, way, (n - 1) as nat);
        assert(is_inside(way, n - 2));
    }
    let x = way[n - 1];
    assert(n == 1 ==> x.parent =~= Seq::empty());
    assert(items.contains(x));
    let i = choose|i: int| 0 <= i < items.len() && items[i] == x;
    let at = named_items_are_positions(items, x.parent, x.visible_name, false);
    assert(is_called(items[i], x.parent, x.visible_name, false));
    assert(at.contains(i));
    let p = choose|p: int| 0 <= p < at.len() && at[p] == i;
    assert(is_called(items[at[0]], x.parent, x.visible_name, false));
    assert(at[0] == i);
    if at.len() > 1 {
        assert(is_called(items[at[1]], x.parent, x.visible_name, false));
        assert(at[0] < at[1]);
    }
    assert(x.visible_name == parts[n - 1]);
    let found = named(items, x.parent, parts[n - 1], false);
    assert(found.len() == 1 && found[0] == x);
    let before = follow(items, reference, parts, (n - 1) as nat);
    if n == 1 {
        assert(before == Ok::<Option<ItemView>, ErrorView>(None));
    } else {
        assert(before == Ok::<Option<ItemView>, ErrorView>(Some(way[n - 2])));
        assert(way[(n - 2) + 1] == x);
    }
}

/// A path finds the item that the items of its names lead to, where no two of their siblings share a
/// name and the path is neither a UUID nor the root.
pub proof fn names_on_the_way_find_the_item(
    items: Seq<ItemView>,
    reference: Seq<char>,
    way: Seq<ItemView>,
)
    requires
        reference.len() > 0 && reference != "/"@ && reference != "(root)"@,
        forall|i: int| 0 <= i < items.len() ==> (#[trigger] items[i]).uuid != reference,
        leads_on(items, way),
        trim(reference, Class::Only('/')).len() > 0,
        way.len() == segments(trim(reference, Class::Only('/'))).len(),
        forall|i: int|
            0 <= i < way.len() ==> (#[trigger] way[i]).visible_name == segments(
                trim(reference, Class::Only('/')),
            )[i],
        forall|k: int, i: int, j: int|
            0 <= k < way.len() && 0 <= i < items.len() && 0 <= j < items.len() && is_called(
                #[trigger] items[i],
                (#[trigger] way[k]).parent,
                way[k].visible_name,
                false,
            ) && is_called(#[trigger] items[j], way[k].parent, way[k].visible_name, false) ==> i == j,
    ensures
        resolved(items, reference) == Ok::<ItemView, ErrorView>(way.last()),
{
    crate::resolve::first_from_is_listed(items, 0, reference);
    if let Some(item) = first_item(items, reference) {
        let k = choose|k: int| 0 <= k < items.len() && items[k] == item;
        assert(items[k].uuid != reference);
    }
    let parts = segments(trim(reference, Class::Only('/')));
    only_ways_are_followed(items, reference, parts, way, parts.len());
}

/// The root is written as nothing, as a slash or by its name: it is a folder, but no item.
pub proof fn roots_are_folders_but_no_items(items: Seq<ItemView>, reference: Seq<char>)
    requires
        reference.len() == 0 || reference == "/"@ || reference == "(root)"@,
    ensures
        resolved_folder(items, reference) == Ok::<Seq<char>, ErrorView>(Seq::empty()),
        resolved(items, reference) == Err::<ItemView, ErrorView>(ErrorView::RootTarget),
{
}

/// A folder reference means the folder that it resolves to, and nothing else: a document is refused,
/// and what leads nowhere stays an error.
pub proof fn only_folders_are_folders(items: Seq<ItemView>, reference: Seq<char>)
    requires
        reference.len() > 0 && reference != "/"@ && reference != "(root)"@,
    ensures
        resolved_folder(items, reference) == match resolved(items, reference) {
            Ok(item) => if item.is_folder() {
                Ok::<Seq<char>, ErrorView>(item.uuid)
            } else {
                Err(ErrorView::NotAFolder(reference))
            },
            Err(e) => Err(e),
        },
{
}

proof fn trimmed_from_the_front(first: Seq<char>, rest: Seq<Seq<char>>, n: nat)
    requires
        n <= rest.len(),
    ensures
        trimmed(seq![first] + rest, n + 1) == if trim(first, Class::White).len() == 0 {
            trimmed(rest, n)
        } else {
            seq![trim(first, Class::White)] + trimmed(rest, n)
        },
    decreases n,
{
    let all = seq![first] + rest;
    let shown = trim(first, Class::White);
    if n == 0 {
        assert(trimmed(all, 0) =~= Seq::empty());
        assert(all[0] == first);
        assert(trimmed(rest, 0) =~= Seq::empty());
        assert(trimmed(all, 1) =~= if shown.len() == 0 {
            Seq::empty()
        } else {
            seq![shown]
        });
    } else {
        trimmed_from_the_front(first, rest, (n - 1) as nat);
        assert(all[n as int] == rest[n - 1]);
        assert(trimmed(all, n + 1) =~= if shown.len() == 0 {
            trimmed(rest, n)
        } else {
            seq![shown] + trimmed(rest, n)
        });
    }
}

/// The segments of a path are what stands between its slashes, without white space around it; where
/// nothing stands, there is no segment.
pub proof fn segments_stand_between_slashes(
    front: Seq<char>,
    name: Seq<char>,
    back: Seq<char>,
    rest: Seq<char>,
)
    requires
        is_all(front, Class::White),
        is_all(back, Class::White),
        name.len() > 0 ==> !Class::White.holds(name[0]) && !Class::White.holds(name.last()),
        is_free_of(name, Class::Only('/')),
    ensures
        ({
            let part = front + name + back;
            let these = if name.len() > 0 {
                seq![name]
            } else {
                Seq::empty()
            };
            &&& segments(part + seq!['/'] + rest) == these + segments(rest)
            &&& segments(part) == these
        }),
{
    let part = front + name + back;
    let slash = Class::Only('/');
    assert(is_free_of(part, slash)) by {
        assert forall|i: int| 0 <= i < part.len() implies !slash.holds(#[trigger] part[i]) by {
            if i < front.len() {
                assert(Class::White.holds(front[i]));
            } else if i < front.len() + name.len() {
                assert(part[i] == name[i - front.len()]);
            } else {
                assert(Class::White.holds(back[i - front.len() - name.len()]));
            }
        }
    }
    first_cuts(part, '/', rest, slash);
    edges_are_trimmed(front, name, back, Class::White);
    let pieces = split(rest, slash);
    let nothing = Seq::<Seq<char>>::empty();
    trimmed_from_the_front(part, pieces, pieces.len());
    trimmed_from_the_front(part, nothing, 0);
    assert(seq![part] + nothing =~= seq![part]);
    assert(segments(part) =~= if name.len() > 0 {
        seq![name]
    } else {
        Seq::empty()
    });
    assert(nothing + segments(rest) =~= segments(rest));
}

/// Creating a path goes on into the only folder of the next name. Where the folder has nothing of that
/// name it asks for one, there and under that name; a document of the name is in the way, and of
/// several folders none is guessed.
pub proof fn missing_folders_are_asked_for(v: MkdirView, i: int, j: int)
    requires
        v.at < v.parts.len(),
    ensures
        ({
            let name = v.parts[v.at as int];
            let shown = if v.parent.len() == 0 {
                "(root)"@
            } else {
                v.parent
            };
            &&& (forall|k: int|
                0 <= k < v.items.len() ==> !is_called(#[trigger] v.items[k], v.parent, name, false))
                ==> next_step(v) == Ok::<StepView, ErrorView>(
                StepView::Create { name, parent: v.parent, rest: v },
            )
            &&& 0 <= i < v.items.len() && is_called(v.items[i], v.parent, name, true) && (forall|
                k: int,
            |
                0 <= k < v.items.len() && is_called(#[trigger] v.items[k], v.parent, name, true)
                    ==> k == i) ==> next_step(v) == next_step(
                MkdirView {
                    parent: v.items[i].uuid,
                    at: v.at + 1,
                    current: Some(v.items[i]),
                    ..v
                },
            )
            &&& 0 <= i < v.items.len() && is_called(v.items[i], v.parent, name, false) && (forall|
                k: int,
            |
                0 <= k < v.items.len() ==> !is_called(#[trigger] v.items[k], v.parent, name, true))
                ==> next_step(v) == Err::<StepView, ErrorView>(
                ErrorView::NameConflict { name, parent: shown },
            )
            &&& 0 <= i < j < v.items.len() && is_called(v.items[i], v.parent, name, true)
                && is_called(v.items[j], v.parent, name, true) ==> next_step(v) == Err::<
                StepView,
                ErrorView,
            >(ErrorView::AmbiguousPath { segment: name, path: shown })
        }),
{
    let name = v.parts[v.at as int];
    names_find_the_only_one(v.items, v.parent, name, true, i, j);
    if forall|k: int|
        0 <= k < v.items.len() ==> !is_called(#[trigger] v.items[k], v.parent, name, false) {
        assert forall|k: int| 0 <= k < v.items.len() implies !is_called(
            #[trigger] v.items[k],
            v.parent,
            name,
            true,
        ) by {
            assert(!is_called(v.items[k], v.parent, name, false));
        }
        if crate::resolve::conflicts(v.items, v.parent, name, None) {
            let k = choose|k: int|
                0 <= k < v.items.len() && (#[trigger] v.items[k]).parent == v.parent
                    && v.items[k].visible_name == name;
            assert(is_called(v.items[k], v.parent, name, false));
        }
    }
}

/// Creating a path starts at the folder that was asked for with nothing made. A folder that was created
/// is known from then on, and is where the next one goes; with the last part the deepest folder is told,
/// and whether any had to be made.
pub proof fn created_folders_lead_on(
    items: Seq<ItemView>,
    parts: Seq<Seq<char>>,
    parent: Seq<char>,
    v: MkdirView,
    folder: ItemView,
)
    ensures
        ({
            let start = beginning(items, parts, parent);
            let after = after_creating(v, folder);
            &&& start.items == items && start.parts == parts && start.parent == parent
            &&& start.at == 0 && start.current is None && !start.made
            &&& after.items == v.items.push(folder) && after.parts == v.parts
            &&& after.parent == folder.uuid && after.current == Some(folder)
            &&& after.at == v.at + 1 && after.made
        }),
        v.at >= v.parts.len() ==> (v.current matches Some(last) ==> next_step(v) == Ok::<
            StepView,
            ErrorView,
        >(StepView::Done { folder: last, made: v.made })),
{
}

} // verus!
