//! References to items: UUIDs and logical paths, and the rules for new and moved items.
use vstd::prelude::*;
use crate::error::{agrees, Error, ErrorView};
use crate::text::{
    extend, from_chars, pieces, same, split, split_in, str_eq, to_chars, trim, trim_in, Class,
};
use crate::tree::is_child;
use crate::walk::{ancestors, is_descendant};
use crate::xochitl::{Item, ItemView};

verus! {

/// The first `n` pieces trimmed, without those that are empty then.
pub open spec fn trimmed(parts: Seq<Seq<char>>, n: nat) -> Seq<Seq<char>>
    decreases n,
{
    if n == 0 {
        Seq::empty()
    } else {
        let rest = trimmed(parts, (n - 1) as nat);
        let part = trim(parts[n - 1], Class::White);
        if part.len() == 0 {
            rest
        } else {
            rest.push(part)
        }
    }
}

/// The segments of a logical path: what stands between slashes, trimmed, empty ones dropped.
pub open spec fn segments(reference: Seq<char>) -> Seq<Seq<char>> {
    let parts = split(reference, Class::Only('/'));
    trimmed(parts, parts.len())
}

/// Splits a reference or pattern into its path segments.
pub fn path_segments(reference: &str) -> (out: Vec<Vec<char>>)
    ensures
        pieces(out@) == segments(reference@),
{
    let chars = to_chars(reference);
    segments_of(&chars)
}

fn segments_of(chars: &[char]) -> (out: Vec<Vec<char>>)
    ensures
        pieces(out@) == segments(chars@),
{
    let parts = split_in(chars, &Class::Only('/'));
    let mut out: Vec<Vec<char>> = Vec::new();
    let mut i: usize = 0;
    assert(pieces(out@) =~= trimmed(pieces(parts@), 0));
    while i < parts.len()
        invariant
            i <= parts.len(),
            pieces(parts@) == split(chars@, Class::Only('/')),
            pieces(out@) == trimmed(pieces(parts@), i as nat),
        decreases parts.len() - i,
    {
        let part = trim_in(&parts[i], &Class::White);
        assert(pieces(parts@)[i as int] == parts[i as int]@);
        if part.len() > 0 {
            let ghost before = out@;
            let mut kept: Vec<char> = Vec::new();
            extend(&mut kept, part);
            assert(kept@ =~= part@);
            out.push(kept);
            assert(pieces(out@) =~= pieces(before).push(part@));
        }
        i += 1;
    }
    assert(pieces(parts@).len() == parts.len());
    out
}

/// The items named `name` under `parent`, in listing order.
pub open spec fn named(
    items: Seq<ItemView>,
    parent: Seq<char>,
    name: Seq<char>,
    folders_only: bool,
) -> Seq<ItemView>
    decreases items.len(),
{
    if items.len() == 0 {
        Seq::empty()
    } else {
        let before = named(items.drop_last(), parent, name, folders_only);
        if is_child(items.last(), parent, folders_only) && items.last().visible_name == name {
            before.push(items.last())
        } else {
            before
        }
    }
}

fn named_in<'a>(items: &'a [Item], parent: &str, name: &[char], folders_only: bool) -> (out: Vec<
    &'a Item,
>)
    ensures
        out.deep_view() == named(items.deep_view(), parent@, name@, folders_only),
{
    let ghost all = items.deep_view();
    let mut out: Vec<&'a Item> = Vec::new();
    let mut i: usize = 0;
    assert(out.deep_view() =~= named(all.take(0), parent@, name@, folders_only));
    while i < items.len()
        invariant
            i <= items.len(),
            all == items.deep_view(),
            out.deep_view() == named(all.take(i as int), parent@, name@, folders_only),
        decreases items.len() - i,
    {
        let item = &items[i];
        let ghost before = out.deep_view();
        proof {
            assert(all.take(i + 1).drop_last() =~= all.take(i as int));
            assert(all.take(i + 1).last() == item.deep_view());
        }
        if str_eq(item.parent.as_str(), parent) && (!folders_only || item.is_folder()) && same(
            &to_chars(item.visible_name.as_str()),
            name,
        ) {
            out.push(item);
            assert(out.deep_view() =~= before.push(item.deep_view()));
        }
        i += 1;
    }
    assert(all.take(i as int) =~= all);
    out
}

/// The first item from position `i` on that has the given UUID.
pub open spec fn first_from(items: Seq<ItemView>, i: int, uuid: Seq<char>) -> Option<ItemView>
    decreases items.len() - i,
{
    if i < 0 || i >= items.len() {
        None
    } else if items[i].uuid == uuid {
        Some(items[i])
    } else {
        first_from(items, i + 1, uuid)
    }
}

/// The item with the given UUID; of several, the first.
pub open spec fn first_item(items: Seq<ItemView>, uuid: Seq<char>) -> Option<ItemView> {
    first_from(items, 0, uuid)
}

/// The item with the given UUID; of several, the first.
pub fn find_item<'a>(items: &'a [Item], uuid: &str) -> (r: Option<&'a Item>)
    ensures
        match r {
            Some(item) => first_item(items.deep_view(), uuid@) == Some(item.deep_view()),
            None => first_item(items.deep_view(), uuid@) is None,
        },
{
    let ghost all = items.deep_view();
    let mut i: usize = 0;
    while i < items.len()
        invariant
            i <= items.len(),
            all == items.deep_view(),
            first_item(all, uuid@) == first_from(all, i as int, uuid@),
        decreases items.len() - i,
    {
        assert(all[i as int] == items[i as int].deep_view());
        if str_eq(items[i].uuid.as_str(), uuid) {
            return Some(&items[i]);
        }
        i += 1;
    }
    None
}

/// Whether a reference means the root folder.
pub open spec fn is_root_ref(reference: Seq<char>) -> bool {
    reference.len() == 0 || reference == "/"@ || reference == "(root)"@
}

fn means_root(reference: &str) -> (r: bool)
    ensures
        r == is_root_ref(reference@),
{
    reference.is_empty() || str_eq(reference, "/") || str_eq(reference, "(root)")
}

/// Where the first `n` segments lead, starting at the root: each has to name exactly one child.
pub open spec fn follow(
    items: Seq<ItemView>,
    reference: Seq<char>,
    parts: Seq<Seq<char>>,
    n: nat,
) -> Result<Option<ItemView>, ErrorView>
    decreases n,
{
    if n == 0 {
        Ok(None)
    } else {
        match follow(items, reference, parts, (n - 1) as nat) {
            Err(e) => Err(e),
            Ok(at) => {
                let parent = match at {
                    Some(item) => item.uuid,
                    None => Seq::empty(),
                };
                let found = named(items, parent, parts[n - 1], false);
                if found.len() == 0 {
                    Err(ErrorView::PathNotFound(reference))
                } else if found.len() == 1 {
                    Ok(Some(found[0]))
                } else {
                    Err(ErrorView::AmbiguousPath { segment: parts[n - 1], path: reference })
                }
            },
        }
    }
}

/// What a reference (UUID or logical path) resolves to.
pub open spec fn resolved(items: Seq<ItemView>, reference: Seq<char>) -> Result<
    ItemView,
    ErrorView,
> {
    if is_root_ref(reference) {
        Err(ErrorView::RootTarget)
    } else {
        match first_item(items, reference) {
            Some(item) => Ok(item),
            None => {
                let path = trim(reference, Class::Only('/'));
                if path.len() == 0 {
                    Err(ErrorView::RootTarget)
                } else {
                    let parts = segments(path);
                    match follow(items, reference, parts, parts.len()) {
                        Err(e) => Err(e),
                        Ok(Some(item)) => Ok(item),
                        Ok(None) => Err(ErrorView::PathNotFound(reference)),
                    }
                }
            },
        }
    }
}

proof fn follow_stops(
    items: Seq<ItemView>,
    reference: Seq<char>,
    parts: Seq<Seq<char>>,
    n: nat,
    m: nat,
)
    requires
        n <= m,
        follow(items, reference, parts, n) is Err,
    ensures
        follow(items, reference, parts, m) == follow(items, reference, parts, n),
    decreases m,
{
    if n < m {
        follow_stops(items, reference, parts, n, (m - 1) as nat);
    }
}

/// Resolves a reference (UUID or logical path like `Books/Math`) to an item. Ambiguous paths are
/// rejected instead of guessed.
pub fn resolve_item_ref<'a>(items: &'a [Item], item_ref: &str) -> (r: Result<&'a Item, Error>)
    ensures
        agrees(r, resolved(items.deep_view(), item_ref@)),
{
    if means_root(item_ref) {
        return Err(Error::RootTarget);
    }
    if let Some(found) = find_item(items, item_ref) {
        return Ok(found);
    }
    let chars = to_chars(item_ref);
    let path = trim_in(&chars, &Class::Only('/'));
    if path.len() == 0 {
        return Err(Error::RootTarget);
    }
    let parts = segments_of(path);
    let ghost all = items.deep_view();
    let ghost segs = segments(path@);
    let mut current: Option<&'a Item> = None;
    let mut i: usize = 0;
    while i < parts.len()
        invariant
            i <= parts.len(),
            all == items.deep_view(),
            !is_root_ref(item_ref@),
            first_item(all, item_ref@) is None,
            path@ == trim(item_ref@, Class::Only('/')),
            path@.len() > 0,
            segs == segments(path@),
            pieces(parts@) == segs,
            follow(all, item_ref@, segs, i as nat) == Ok::<Option<ItemView>, ErrorView>(
                match current {
                    Some(item) => Some(item.deep_view()),
                    None => None,
                },
            ),
        decreases parts.len() - i,
    {
        let parent = match current {
            Some(item) => item.uuid.as_str(),
            None => "",
        };
        proof {
            reveal_strlit("");
            assert(""@ =~= Seq::empty());
            assert(segs[i as int] == parts[i as int]@);
            assert(segs.len() == parts.len());
        }
        let found = named_in(items, parent, &parts[i], false);
        proof {
            if found.len() != 1 {
                follow_stops(all, item_ref@, segs, (i + 1) as nat, segs.len());
            } else {
                assert(found.deep_view()[0] == found[0].deep_view());
            }
        }
        if found.len() == 0 {
            return Err(Error::PathNotFound(item_ref.to_owned()));
        }
        if found.len() > 1 {
            return Err(
                Error::AmbiguousPath {
                    segment: from_chars(&parts[i]),
                    path: item_ref.to_owned(),
                },
            );
        }
        current = Some(found[0]);
        i += 1;
    }
    assert(segs.len() == parts.len());
    match current {
        Some(item) => Ok(item),
        None => Err(Error::PathNotFound(item_ref.to_owned())),
    }
}

/// The UUID of the folder that a reference means; root references give the empty UUID.
pub open spec fn resolved_folder(items: Seq<ItemView>, reference: Seq<char>) -> Result<
    Seq<char>,
    ErrorView,
> {
    if is_root_ref(reference) {
        Ok(Seq::empty())
    } else {
        match resolved(items, reference) {
            Err(e) => Err(e),
            Ok(item) => if item.is_folder() {
                Ok(item.uuid)
            } else {
                Err(ErrorView::NotAFolder(reference))
            },
        }
    }
}

/// Resolves a folder reference to its UUID. `""`, `/`, and `(root)` all mean the root folder,
/// whose UUID is empty.
pub fn resolve_folder_ref(items: &[Item], folder_ref: &str) -> (r: Result<String, Error>)
    ensures
        agrees(r, resolved_folder(items.deep_view(), folder_ref@)),
{
    if means_root(folder_ref) {
        let root = String::new();
        assert(root.deep_view() =~= Seq::empty());
        return Ok(root);
    }
    match resolve_item_ref(items, folder_ref) {
        Err(e) => Err(e),
        Ok(item) => {
            if item.is_folder() {
                Ok(item.uuid.clone())
            } else {
                Err(Error::NotAFolder(folder_ref.to_owned()))
            }
        },
    }
}

/// A parent UUID as shown in messages.
pub open spec fn shown_parent(uuid: Seq<char>) -> Seq<char> {
    if uuid.len() == 0 {
        "(root)"@
    } else {
        uuid
    }
}

/// A parent UUID as shown in messages.
pub fn display_parent(parent_uuid: &str) -> (r: &str)
    ensures
        r@ == shown_parent(parent_uuid@),
{
    if parent_uuid.is_empty() {
        "(root)"
    } else {
        parent_uuid
    }
}

/// The only child of `parent` with the given name, if there is one.
pub open spec fn only_child(
    items: Seq<ItemView>,
    parent: Seq<char>,
    name: Seq<char>,
    folders_only: bool,
) -> Result<Option<ItemView>, ErrorView> {
    let found = named(items, parent, name, folders_only);
    if found.len() == 0 {
        Ok(None)
    } else if found.len() == 1 {
        Ok(Some(found[0]))
    } else {
        Err(ErrorView::AmbiguousPath { segment: name, path: shown_parent(parent) })
    }
}

/// Finds a uniquely-named child of `parent_uuid`, if any.
pub fn find_child<'a>(
    items: &'a [Item],
    parent_uuid: &str,
    name: &str,
    folders_only: bool,
) -> (r: Result<Option<&'a Item>, Error>)
    ensures
        agrees(r, only_child(items.deep_view(), parent_uuid@, name@, folders_only)),
{
    let found = named_in(items, parent_uuid, &to_chars(name), folders_only);
    let ghost views = found.deep_view();
    assert(views.len() == found.len());
    if found.len() == 0 {
        let none: Option<&'a Item> = None;
        assert(none.deep_view() is None);
        Ok(none)
    } else if found.len() == 1 {
        assert(views[0] == found[0].deep_view());
        let only: Option<&'a Item> = Some(found[0]);
        assert(only.deep_view() == Some(views[0]));
        Ok(only)
    } else {
        Err(
            Error::AmbiguousPath {
                segment: name.to_owned(),
                path: display_parent(parent_uuid).to_owned(),
            },
        )
    }
}

/// Whether `parent` holds an item named `name` other than `ignored`.
pub open spec fn conflicts(
    items: Seq<ItemView>,
    parent: Seq<char>,
    name: Seq<char>,
    ignored: Option<Seq<char>>,
) -> bool {
    exists|i: int|
        0 <= i < items.len() && (#[trigger] items[i]).parent == parent && items[i].visible_name
            == name && ignored != Some(items[i].uuid)
}

/// Errs if `parent_uuid` already contains an item named `name` other than `ignore_uuid`.
pub fn ensure_no_conflict(
    items: &[Item],
    parent_uuid: &str,
    name: &str,
    ignore_uuid: Option<&str>,
) -> (r: Result<(), Error>)
    ensures
        agrees(
            r,
            if conflicts(items.deep_view(), parent_uuid@, name@, ignore_uuid.deep_view()) {
                Err(ErrorView::NameConflict { name: name@, parent: shown_parent(parent_uuid@) })
            } else {
                Ok(())
            },
        ),
{
    let ghost all = items.deep_view();
    let ghost ignored = ignore_uuid.deep_view();
    let mut i: usize = 0;
    while i < items.len()
        invariant
            i <= items.len(),
            all == items.deep_view(),
            ignored == ignore_uuid.deep_view(),
            forall|k: int|
                0 <= k < i ==> !((#[trigger] all[k]).parent == parent_uuid@ && all[k].visible_name
                    == name@ && ignored != Some(all[k].uuid)),
        decreases items.len() - i,
    {
        let item = &items[i];
        assert(all[i as int] == item.deep_view());
        let is_ignored = match ignore_uuid {
            Some(uuid) => str_eq(uuid, item.uuid.as_str()),
            None => false,
        };
        if str_eq(item.parent.as_str(), parent_uuid) && str_eq(item.visible_name.as_str(), name)
            && !is_ignored {
            assert(conflicts(all, parent_uuid@, name@, ignored));
            return Err(
                Error::NameConflict {
                    name: name.to_owned(),
                    parent: display_parent(parent_uuid).to_owned(),
                },
            );
        }
        i += 1;
    }
    Ok(())
}

/// The items with the first `n` of the given UUIDs; a UUID that no item has is an error.
pub open spec fn picked(items: Seq<ItemView>, uuids: Seq<Seq<char>>, n: nat) -> Result<
    Seq<ItemView>,
    ErrorView,
>
    decreases n,
{
    if n == 0 {
        Ok(Seq::empty())
    } else {
        match picked(items, uuids, (n - 1) as nat) {
            Err(e) => Err(e),
            Ok(before) => match first_item(items, uuids[n - 1]) {
                Some(item) => Ok(before.push(item)),
                None => Err(ErrorView::PathNotFound(uuids[n - 1])),
            },
        }
    }
}

/// Those of the first `n` items that are not in the destination yet.
pub open spec fn to_move(moving: Seq<ItemView>, n: nat, destination: Seq<char>) -> Seq<ItemView>
    decreases n,
{
    if n == 0 {
        Seq::empty()
    } else {
        let before = to_move(moving, (n - 1) as nat, destination);
        if moving[n - 1].parent == destination {
            before
        } else {
            before.push(moving[n - 1])
        }
    }
}

/// Why the item at position `k` of `needed` cannot be moved to the destination.
pub open spec fn move_error(
    items: Seq<ItemView>,
    needed: Seq<ItemView>,
    k: int,
    destination: Seq<char>,
) -> Option<ErrorView> {
    let item = needed[k];
    if item.uuid == destination {
        Some(ErrorView::MoveIntoSelf)
    } else if item.is_folder() && ancestors(items, destination).contains(item.uuid) {
        Some(ErrorView::MoveIntoDescendant)
    } else if conflicts(items, destination, item.visible_name, Some(item.uuid)) || exists|j: int|
        0 <= j < k && (#[trigger] needed[j]).visible_name == item.visible_name {
        Some(
            ErrorView::NameConflict { name: item.visible_name, parent: shown_parent(destination) },
        )
    } else {
        None
    }
}

/// Why the first `n` of the needed moves cannot be made.
pub open spec fn first_move_error(
    items: Seq<ItemView>,
    needed: Seq<ItemView>,
    n: nat,
    destination: Seq<char>,
) -> Option<ErrorView>
    decreases n,
{
    if n == 0 {
        None
    } else {
        match first_move_error(items, needed, (n - 1) as nat, destination) {
            Some(e) => Some(e),
            None => move_error(items, needed, n - 1, destination),
        }
    }
}

/// The moves that bring the items with the given UUIDs into the destination, in their order,
/// without those that are there already; or why that is not allowed.
pub open spec fn planned_moves(
    items: Seq<ItemView>,
    uuids: Seq<Seq<char>>,
    destination: Seq<char>,
) -> Result<Seq<ItemView>, ErrorView> {
    match picked(items, uuids, uuids.len()) {
        Err(e) => Err(e),
        Ok(moving) => {
            let needed = to_move(moving, moving.len(), destination);
            match first_move_error(items, needed, needed.len(), destination) {
                Some(e) => Err(e),
                None => Ok(needed),
            }
        },
    }
}

proof fn picked_stops(items: Seq<ItemView>, uuids: Seq<Seq<char>>, n: nat, m: nat)
    requires
        n <= m,
        picked(items, uuids, n) is Err,
    ensures
        picked(items, uuids, m) == picked(items, uuids, n),
    decreases m,
{
    if n < m {
        picked_stops(items, uuids, n, (m - 1) as nat);
    }
}

proof fn move_error_stops(
    items: Seq<ItemView>,
    needed: Seq<ItemView>,
    n: nat,
    m: nat,
    destination: Seq<char>,
)
    requires
        n <= m,
        first_move_error(items, needed, n, destination) is Some,
    ensures
        first_move_error(items, needed, m, destination) == first_move_error(
            items,
            needed,
            n,
            destination,
        ),
    decreases m,
{
    if n < m {
        move_error_stops(items, needed, n, (m - 1) as nat, destination);
    }
}

fn pick<'a>(items: &'a [Item], uuids: &[String]) -> (r: Result<Vec<&'a Item>, Error>)
    ensures
        agrees(r, picked(items.deep_view(), uuids.deep_view(), uuids.len() as nat)),
{
    let ghost all = items.deep_view();
    let ghost wanted = uuids.deep_view();
    let mut out: Vec<&'a Item> = Vec::new();
    let mut i: usize = 0;
    assert(out.deep_view() =~= Seq::empty());
    while i < uuids.len()
        invariant
            i <= uuids.len(),
            all == items.deep_view(),
            wanted == uuids.deep_view(),
            picked(all, wanted, i as nat) == Ok::<Seq<ItemView>, ErrorView>(out.deep_view()),
        decreases uuids.len() - i,
    {
        assert(wanted[i as int] == uuids[i as int]@);
        match find_item(items, uuids[i].as_str()) {
            Some(item) => {
                let ghost before = out.deep_view();
                out.push(item);
                assert(out.deep_view() =~= before.push(item.deep_view()));
            },
            None => {
                proof {
                    picked_stops(all, wanted, (i + 1) as nat, uuids.len() as nat);
                }
                return Err(Error::PathNotFound(uuids[i].clone()));
            },
        }
        i += 1;
    }
    Ok(out)
}

fn check_move(items: &[Item], needed: &Vec<&Item>, k: usize, destination: &str) -> (r: Result<
    (),
    Error,
>)
    requires
        k < needed.len(),
    ensures
        agrees(
            r,
            match move_error(items.deep_view(), needed.deep_view(), k as int, destination@) {
                Some(e) => Err(e),
                None => Ok(()),
            },
        ),
{
    let item = needed[k];
    let ghost views = needed.deep_view();
    assert(views[k as int] == item.deep_view());
    if str_eq(item.uuid.as_str(), destination) {
        return Err(Error::MoveIntoSelf);
    }
    if item.is_folder() && is_descendant(items, destination, item.uuid.as_str()) {
        return Err(Error::MoveIntoDescendant);
    }
    let ignored: Option<&str> = Some(item.uuid.as_str());
    assert(ignored.deep_view() == Some(item.uuid@));
    match ensure_no_conflict(items, destination, item.visible_name.as_str(), ignored) {
        Err(e) => {
            return Err(e);
        },
        Ok(_) => {},
    }
    let mut j: usize = 0;
    while j < k
        invariant
            j <= k < needed.len(),
            views == needed.deep_view(),
            item == needed[k as int],
            views[k as int] == item.deep_view(),
            views[k as int].uuid != destination@,
            !(item.deep_view().is_folder() && ancestors(items.deep_view(), destination@).contains(
                item.uuid@,
            )),
            forall|i: int| 0 <= i < j ==> (#[trigger] views[i]).visible_name != item.visible_name@,
        decreases k - j,
    {
        assert(views[j as int] == needed[j as int].deep_view());
        if str_eq(needed[j].visible_name.as_str(), item.visible_name.as_str()) {
            return Err(
                Error::NameConflict {
                    name: item.visible_name.clone(),
                    parent: display_parent(destination).to_owned(),
                },
            );
        }
        j += 1;
    }
    Ok(())
}

/// Validates moving `uuids` into `destination_uuid`, returning the items that actually need
/// moving. Everything is checked before anything is written: self-moves, folder cycles, and name
/// conflicts in the destination, including conflicts among the moved set itself.
pub fn plan_moves<'a>(items: &'a [Item], uuids: &[String], destination_uuid: &str) -> (r: Result<
    Vec<&'a Item>,
    Error,
>)
    ensures
        agrees(r, planned_moves(items.deep_view(), uuids.deep_view(), destination_uuid@)),
{
    let ghost all = items.deep_view();
    let moving = match pick(items, uuids) {
        Err(e) => {
            return Err(e);
        },
        Ok(moving) => moving,
    };
    let mut needed: Vec<&'a Item> = Vec::new();
    let mut i: usize = 0;
    assert(needed.deep_view() =~= Seq::empty());
    while i < moving.len()
        invariant
            i <= moving.len(),
            needed.deep_view() == to_move(moving.deep_view(), i as nat, destination_uuid@),
        decreases moving.len() - i,
    {
        assert(moving.deep_view()[i as int] == moving[i as int].deep_view());
        if !str_eq(moving[i].parent.as_str(), destination_uuid) {
            let ghost before = needed.deep_view();
            needed.push(moving[i]);
            assert(needed.deep_view() =~= before.push(moving[i as int].deep_view()));
        }
        i += 1;
    }
    let mut k: usize = 0;
    while k < needed.len()
        invariant
            k <= needed.len(),
            all == items.deep_view(),
            picked(all, uuids.deep_view(), uuids.deep_view().len()) == Ok::<
                Seq<ItemView>,
                ErrorView,
            >(moving.deep_view()),
            needed.deep_view() == to_move(
                moving.deep_view(),
                moving.len() as nat,
                destination_uuid@,
            ),
            first_move_error(all, needed.deep_view(), k as nat, destination_uuid@) is None,
        decreases needed.len() - k,
    {
        match check_move(items, &needed, k, destination_uuid) {
            Err(e) => {
                proof {
                    move_error_stops(
                        all,
                        needed.deep_view(),
                        (k + 1) as nat,
                        needed.len() as nat,
                        destination_uuid@,
                    );
                }
                return Err(e);
            },
            Ok(_) => {},
        }
        k += 1;
    }
    Ok(needed)
}

proof fn moves_have_no_error(
    items: Seq<ItemView>,
    needed: Seq<ItemView>,
    n: nat,
    k: int,
    destination: Seq<char>,
)
    requires
        0 <= k < n,
        first_move_error(items, needed, n, destination) is None,
    ensures
        move_error(items, needed, k, destination) is None,
    decreases n,
{
    if k < n - 1 {
        moves_have_no_error(items, needed, (n - 1) as nat, k, destination);
    }
}

proof fn to_move_members(moving: Seq<ItemView>, n: nat, destination: Seq<char>)
    requires
        n <= moving.len(),
    ensures
        forall|x: ItemView| #[trigger]
            to_move(moving, n, destination).contains(x) <==> moving.take(n as int).contains(x)
                && x.parent != destination,
    decreases n,
{
    if n > 0 {
        to_move_members(moving, (n - 1) as nat, destination);
        let before = to_move(moving, (n - 1) as nat, destination);
        let now = to_move(moving, n, destination);
        let earlier = moving.take(n - 1);
        let whole = moving.take(n as int);
        assert forall|x: ItemView| #[trigger]
            now.contains(x) <==> whole.contains(x) && x.parent != destination by {
            if now.contains(x) {
                let i = choose|i: int| 0 <= i < now.len() && now[i] == x;
                if i < before.len() {
                    assert(before.contains(x));
                    let j = choose|j: int| 0 <= j < earlier.len() && earlier[j] == x;
                    assert(whole[j] == x);
                } else {
                    assert(whole[n - 1] == x);
                }
            }
            if whole.contains(x) && x.parent != destination {
                let j = choose|j: int| 0 <= j < whole.len() && whole[j] == x;
                if j < n - 1 {
                    assert(earlier[j] == x);
                    assert(before.contains(x));
                    let i = choose|i: int| 0 <= i < before.len() && before[i] == x;
                    assert(now[i] == x);
                } else {
                    assert(now[before.len() as int] == x);
                }
            }
        }
    }
}

/// Planned moves are safe to make: nothing moves into itself or, as a folder, into something
/// inside it; no moved item shares its name with another item of the destination or with another
/// moved item; and only items outside the destination move.
pub proof fn planned_moves_are_safe(
    items: Seq<ItemView>,
    uuids: Seq<Seq<char>>,
    destination: Seq<char>,
    moves: Seq<ItemView>,
)
    requires
        planned_moves(items, uuids, destination) == Ok::<Seq<ItemView>, ErrorView>(moves),
    ensures
        forall|k: int|
            0 <= k < moves.len() ==> {
                let item = #[trigger] moves[k];
                &&& item.uuid != destination
                &&& item.parent != destination
                &&& item.is_folder() ==> !ancestors(items, destination).contains(item.uuid)
                &&& !conflicts(items, destination, item.visible_name, Some(item.uuid))
            },
        forall|j: int, k: int|
            0 <= j < k < moves.len() ==> (#[trigger] moves[j]).visible_name != (
            #[trigger] moves[k]).visible_name,
{
    let moving = picked(items, uuids, uuids.len())->Ok_0;
    to_move_members(moving, moving.len(), destination);
    assert forall|k: int| 0 <= k < moves.len() implies {
        let item = #[trigger] moves[k];
        &&& item.uuid != destination
        &&& item.parent != destination
        &&& item.is_folder() ==> !ancestors(items, destination).contains(item.uuid)
        &&& !conflicts(items, destination, item.visible_name, Some(item.uuid))
    } by {
        moves_have_no_error(items, moves, moves.len(), k, destination);
        assert(moves.contains(moves[k]));
    }
    assert forall|j: int, k: int| 0 <= j < k < moves.len() implies (#[trigger] moves[j]).visible_name
        != (#[trigger] moves[k]).visible_name by {
        moves_have_no_error(items, moves, moves.len(), k, destination);
    }
}

pub(crate) proof fn first_from_is_listed(items: Seq<ItemView>, i: int, uuid: Seq<char>)
    requires
        0 <= i,
    ensures
        first_from(items, i, uuid) matches Some(item) ==> items.contains(item) && item.uuid == uuid,
    decreases items.len() - i,
{
    if i < items.len() {
        if items[i].uuid != uuid {
            first_from_is_listed(items, i + 1, uuid);
        }
    }
}

proof fn named_are_listed(
    items: Seq<ItemView>,
    parent: Seq<char>,
    name: Seq<char>,
    folders_only: bool,
)
    ensures
        forall|i: int|
            0 <= i < named(items, parent, name, folders_only).len() ==> items.contains(
                #[trigger] named(items, parent, name, folders_only)[i],
            ) && named(items, parent, name, folders_only)[i].parent == parent && named(
                items,
                parent,
                name,
                folders_only,
            )[i].visible_name == name,
    decreases items.len(),
{
    if items.len() > 0 {
        let rest = items.drop_last();
        named_are_listed(rest, parent, name, folders_only);
        let before = named(rest, parent, name, folders_only);
        let all = named(items, parent, name, folders_only);
        assert forall|i: int| 0 <= i < all.len() implies items.contains(#[trigger] all[i])
            && all[i].parent == parent && all[i].visible_name == name by {
            if i < before.len() {
                assert(all[i] == before[i]);
                assert(rest.contains(before[i]));
                let k = choose|k: int| 0 <= k < rest.len() && rest[k] == before[i];
                assert(items[k] == all[i]);
            } else {
                assert(items[items.len() - 1] == all[i]);
            }
        }
    }
}

proof fn followed_is_listed(
    items: Seq<ItemView>,
    reference: Seq<char>,
    parts: Seq<Seq<char>>,
    n: nat,
)
    ensures
        follow(items, reference, parts, n) matches Ok(Some(item)) ==> items.contains(item),
    decreases n,
{
    if n > 0 {
        followed_is_listed(items, reference, parts, (n - 1) as nat);
        if let Ok(at) = follow(items, reference, parts, (n - 1) as nat) {
            let parent = match at {
                Some(item) => item.uuid,
                None => Seq::empty(),
            };
            named_are_listed(items, parent, parts[n - 1], false);
        }
    }
}

/// What a reference resolves to is an item of the listing.
pub proof fn resolved_items_are_listed(items: Seq<ItemView>, reference: Seq<char>)
    ensures
        resolved(items, reference) matches Ok(item) ==> items.contains(item),
{
    first_from_is_listed(items, 0, reference);
    let parts = segments(trim(reference, Class::Only('/')));
    followed_is_listed(items, reference, parts, parts.len());
}

/// The UUID of an item means that item, where UUIDs are unique and none is a way to write the root.
pub proof fn uuids_resolve_to_their_items(items: Seq<ItemView>, item: ItemView)
    requires
        items.contains(item),
        !is_root_ref(item.uuid),
        forall|i: int, j: int|
            0 <= i < j < items.len() ==> (#[trigger] items[i]).uuid != (#[trigger] items[j]).uuid,
    ensures
        resolved(items, item.uuid) == Ok::<ItemView, ErrorView>(item),
{
    let k = choose|k: int| 0 <= k < items.len() && items[k] == item;
    first_is_only(items, 0, k);
}

pub(crate) proof fn first_is_only(items: Seq<ItemView>, i: int, k: int)
    requires
        0 <= i <= k < items.len(),
        forall|i: int, j: int|
            0 <= i < j < items.len() ==> (#[trigger] items[i]).uuid != (#[trigger] items[j]).uuid,
    ensures
        first_from(items, i, items[k].uuid) == Some(items[k]),
    decreases k - i,
{
    if i < k {
        assert(items[i].uuid != items[k].uuid);
        first_is_only(items, i + 1, k);
    }
}

/// A path that resolves names one item in every folder on its way: two siblings of the same name are
/// never guessed between.
pub proof fn resolved_paths_are_unambiguous(
    items: Seq<ItemView>,
    reference: Seq<char>,
    parts: Seq<Seq<char>>,
    n: nat,
)
    requires
        0 < n <= parts.len(),
        follow(items, reference, parts, parts.len()) is Ok,
    ensures
        follow(items, reference, parts, n) matches Ok(Some(item)) && named(
            items,
            item.parent,
            parts[n - 1],
            false,
        ) == seq![item],
    decreases n,
{
    if follow(items, reference, parts, n) is Err {
        follow_stops(items, reference, parts, n, parts.len());
    }
    if n > 1 {
        resolved_paths_are_unambiguous(items, reference, parts, (n - 1) as nat);
    }
    let parent = match follow(items, reference, parts, (n - 1) as nat)->Ok_0 {
        Some(item) => item.uuid,
        None => Seq::empty(),
    };
    named_are_listed(items, parent, parts[n - 1], false);
    let found = named(items, parent, parts[n - 1], false);
    assert(found =~= seq![found[0]]);
}

} // verus!
