//! Deleting, moving and renaming items.
use vstd::prelude::*;
use crate::action::{act, Action, ActionView, Operation, OperationView, Update, UpdateView};
use crate::client::{removal, Client};
use crate::deletion::{
    can_delete,
    can_delete_expanded,
    deletions,
    expanded_deletions,
    plan_delete,
    plan_empty_trash,
    trash_of,
};
use crate::error::{agrees, Error, ErrorView};
use crate::glob::{can_expand, expand_refs, expanded, expansions_are_listed};
use crate::metadata::ChangeView;
use crate::resolve::{
    conflicts,
    ensure_no_conflict,
    find_item,
    first_from,
    first_item,
    first_move_error,
    move_error,
    picked,
    plan_moves,
    planned_moves,
    planned_moves_are_safe,
    resolve_folder_ref,
    resolve_item_ref,
    resolved,
    resolved_folder,
    shown_parent,
    to_move,
};
use crate::ssh::quoted;
use crate::text::{cat3, contains, contains_in, from_chars, str_eq, to_chars, trim, trim_in, Class};
use crate::walk::ancestors;
use crate::xochitl::{Item, ItemView};

verus! {

/// The actions that delete the first `n` items, in order.
pub open spec fn deleting(dir: Seq<char>, order: Seq<ItemView>, n: nat) -> Seq<ActionView>
    decreases n,
{
    if n == 0 {
        Seq::empty()
    } else {
        deleting(dir, order, (n - 1) as nat).push(
            ActionView::Step("Deleting '"@ + order[n - 1].visible_name + "'"@),
        ).push(ActionView::Run(removal(dir, order[n - 1].uuid)))
    }
}

/// An item as it is in its new folder; one that is there already stays as it is.
pub open spec fn moved_item(item: ItemView, destination: Seq<char>, now_ms: i64) -> ItemView {
    if item.parent == destination {
        item
    } else {
        ItemView { parent: destination, last_modified: now_ms, ..item }
    }
}

/// The actions that move the first `n` items.
pub open spec fn moving(plan: Seq<ItemView>, n: nat, destination: Seq<char>, now_ms: i64) -> Seq<
    ActionView,
>
    decreases n,
{
    if n == 0 {
        Seq::empty()
    } else {
        moving(plan, (n - 1) as nat, destination, now_ms).push(
            ActionView::Step("Moving '"@ + plan[n - 1].visible_name + "'"@),
        ).push(
            ActionView::Update(
                UpdateView {
                    uuid: plan[n - 1].uuid,
                    change: ChangeView { parent: Some(destination), visible_name: None, now_ms },
                },
            ),
        )
    }
}

/// A move: what is done, and the items as they are then.
#[derive(Debug)]
pub struct Moves {
    pub actions: Vec<Action>,
    pub items: Vec<Item>,
}

/// What [`Moves`] holds.
pub struct MovesView {
    pub actions: Seq<ActionView>,
    pub items: Seq<ItemView>,
}

impl DeepView for Moves {
    type V = MovesView;

    open spec fn deep_view(&self) -> MovesView {
        MovesView { actions: self.actions.deep_view(), items: self.items.deep_view() }
    }
}

/// The move of everything that a reference or a pattern means into a folder.
pub open spec fn moves_of(
    items: Seq<ItemView>,
    item_ref: Seq<char>,
    destination_ref: Seq<char>,
    now_ms: i64,
) -> Result<MovesView, ErrorView> {
    match resolved_folder(items, destination_ref) {
        Err(e) => Err(e),
        Ok(destination) => match expanded(items, seq![item_ref], 1) {
            Err(e) => Err(e),
            Ok(uuids) => if uuids.contains(destination) {
                Err(ErrorView::MoveIntoSelf)
            } else {
                match planned_moves(items, uuids, destination) {
                    Err(e) => Err(e),
                    Ok(plan) => {
                        let matched = picked(items, uuids, uuids.len())->Ok_0;
                        Ok(
                            MovesView {
                                actions: if plan.len() == 0 {
                                    Seq::empty()
                                } else {
                                    moving(plan, plan.len(), destination, now_ms).push(
                                        ActionView::Finished,
                                    )
                                },
                                items: Seq::new(
                                    matched.len(),
                                    |i: int| moved_item(matched[i], destination, now_ms),
                                ),
                            },
                        )
                    },
                }
            },
        },
    }
}

/// The move of everything that a reference means, told by the last of it.
pub open spec fn last_moved(
    items: Seq<ItemView>,
    item_ref: Seq<char>,
    destination_ref: Seq<char>,
    now_ms: i64,
) -> Result<OperationView, ErrorView> {
    match moves_of(items, item_ref, destination_ref, now_ms) {
        Err(e) => Err(e),
        Ok(moves) => if moves.items.len() == 0 {
            Err(ErrorView::PathNotFound(item_ref))
        } else {
            Ok(OperationView { actions: moves.actions, item: moves.items.last() })
        },
    }
}

/// A new name without white space around it; it may be neither empty nor contain a slash.
pub open spec fn new_name_of(new_name: Seq<char>) -> Result<Seq<char>, ErrorView> {
    let name = trim(new_name, Class::White);
    if name.len() == 0 {
        Err(ErrorView::InvalidName("name cannot be empty"@))
    } else if contains(name, Class::Only('/')) {
        Err(ErrorView::InvalidName("name cannot contain '/'"@))
    } else {
        Ok(name)
    }
}

/// Checks a new name, which is trimmed.
pub fn check_name(new_name: &str) -> (r: Result<String, Error>)
    ensures
        agrees(r, new_name_of(new_name@)),
{
    let chars = to_chars(new_name);
    let name = trim_in(&chars, &Class::White);
    if name.len() == 0 {
        return Err(Error::InvalidName("name cannot be empty".to_owned()));
    }
    if contains_in(name, &Class::Only('/')) {
        return Err(Error::InvalidName("name cannot contain '/'".to_owned()));
    }
    Ok(from_chars(name))
}

/// The renaming of an item; an item that has the name already stays as it is.
pub open spec fn renaming(
    items: Seq<ItemView>,
    item_ref: Seq<char>,
    new_name: Seq<char>,
    now_ms: i64,
) -> Result<OperationView, ErrorView> {
    match new_name_of(new_name) {
        Err(e) => Err(e),
        Ok(name) => match resolved(items, item_ref) {
            Err(e) => Err(e),
            Ok(item) => if item.visible_name == name {
                Ok(OperationView { actions: Seq::empty(), item })
            } else if conflicts(items, item.parent, name, Some(item.uuid)) {
                Err(ErrorView::NameConflict { name, parent: shown_parent(item.parent) })
            } else {
                Ok(
                    OperationView {
                        actions: seq![
                            ActionView::Step("Updating metadata"@),
                            ActionView::Update(
                                UpdateView {
                                    uuid: item.uuid,
                                    change: ChangeView {
                                        parent: None,
                                        visible_name: Some(name),
                                        now_ms,
                                    },
                                },
                            ),
                            ActionView::Finished,
                        ],
                        item: ItemView { visible_name: name, last_modified: now_ms, ..item },
                    },
                )
            },
        },
    }
}

fn contains_uuid(uuids: &Vec<String>, uuid: &str) -> (r: bool)
    ensures
        r == uuids.deep_view().contains(uuid@),
{
    let ghost views = uuids.deep_view();
    let mut i: usize = 0;
    while i < uuids.len()
        invariant
            i <= uuids.len(),
            views == uuids.deep_view(),
            forall|k: int| 0 <= k < i ==> #[trigger] views[k] != uuid@,
        decreases uuids.len() - i,
    {
        assert(views[i as int] == uuids[i as int]@);
        if str_eq(uuids[i].as_str(), uuid) {
            return true;
        }
        i += 1;
    }
    false
}

proof fn picked_one_by_one(items: Seq<ItemView>, uuids: Seq<Seq<char>>, n: nat, k: int)
    requires
        picked(items, uuids, n) is Ok,
        0 <= k < n,
    ensures
        picked(items, uuids, n)->Ok_0.len() == n,
        first_item(items, uuids[k]) == Some(picked(items, uuids, n)->Ok_0[k]),
    decreases n,
{
    if k < n - 1 {
        picked_one_by_one(items, uuids, (n - 1) as nat, k);
    } else if n > 1 {
        picked_one_by_one(items, uuids, (n - 1) as nat, 0);
    }
}

impl<P> Client<P> {
    /// Plans the deletion of a document or folder. A folder that is not empty needs `recursive`;
    /// children are removed before parents.
    pub fn delete(&self, items: &[Item], item_ref: &str, recursive: bool) -> (r: Result<
        Vec<Item>,
        Error,
    >)
        requires
            can_delete_expanded(items.deep_view(), seq![item_ref@], recursive),
        ensures
            agrees(r, expanded_deletions(items.deep_view(), seq![item_ref@], recursive)),
    {
        let refs: [&str; 1] = [item_ref];
        assert(refs.deep_view() =~= seq![item_ref@]);
        self.delete_many(items, &refs, recursive)
    }

    /// Plans the deletion of several documents and folders in one pass.
    pub fn delete_many(&self, items: &[Item], item_refs: &[&str], recursive: bool) -> (r: Result<
        Vec<Item>,
        Error,
    >)
        requires
            can_delete_expanded(items.deep_view(), item_refs.deep_view(), recursive),
        ensures
            agrees(r, expanded_deletions(items.deep_view(), item_refs.deep_view(), recursive)),
    {
        plan_delete(items, item_refs, recursive)
    }

    /// Plans the permanent deletion of everything in the trash.
    pub fn empty_trash(&self, items: &[Item]) -> (r: Result<Vec<Item>, Error>)
        requires
            can_delete(items.deep_view(), trash_of(items.deep_view(), items.len() as nat), true),
        ensures
            agrees(
                r,
                deletions(items.deep_view(), trash_of(items.deep_view(), items.len() as nat), true),
            ),
    {
        plan_empty_trash(items)
    }

    /// The actions that delete items, in the given order.
    pub fn execute_deletions(&self, order: &Vec<Item>) -> (r: Vec<Action>)
        ensures
            r.deep_view() == deleting(self.dir@, order.deep_view(), order.len() as nat).push(
                ActionView::Finished,
            ),
    {
        let ghost views = order.deep_view();
        let mut actions: Vec<Action> = Vec::new();
        let mut i: usize = 0;
        assert(actions.deep_view() =~= Seq::empty());
        while i < order.len()
            invariant
                i <= order.len(),
                views == order.deep_view(),
                actions.deep_view() == deleting(self.dir@, views, i as nat),
            decreases order.len() - i,
        {
            assert(views[i as int] == order[i as int].deep_view());
            let step = cat3("Deleting '", order[i].visible_name.as_str(), "'");
            act(&mut actions, Action::Step(step));
            act(&mut actions, self.delete_document(order[i].uuid.as_str()));
            i += 1;
        }
        act(&mut actions, Action::Finished);
        actions
    }

    /// Moves one item, or everything that a glob pattern matches, into another folder (the root is
    /// allowed). All is validated against one listing before anything is written; items that are in
    /// the destination already are returned unchanged.
    pub fn move_items(&self, items: &[Item], item_ref: &str, destination_ref: &str, now_ms: i64) -> (r:
        Result<Moves, Error>)
        requires
            can_expand(items.deep_view(), seq![item_ref@]),
        ensures
            agrees(r, moves_of(items.deep_view(), item_ref@, destination_ref@, now_ms)),
    {
        let ghost all = items.deep_view();
        let destination = match resolve_folder_ref(items, destination_ref) {
            Err(e) => {
                return Err(e);
            },
            Ok(destination) => destination,
        };
        let refs: [&str; 1] = [item_ref];
        assert(refs.deep_view() =~= seq![item_ref@]);
        let uuids = match expand_refs(items, &refs) {
            Err(e) => {
                return Err(e);
            },
            Ok(uuids) => uuids,
        };
        if contains_uuid(&uuids, destination.as_str()) {
            return Err(Error::MoveIntoSelf);
        }
        let plan = match plan_moves(items, uuids.as_slice(), destination.as_str()) {
            Err(e) => {
                return Err(e);
            },
            Ok(plan) => plan,
        };
        let ghost ids = uuids.deep_view();
        let ghost matched = picked(all, ids, ids.len())->Ok_0;
        let ghost planned = plan.deep_view();
        assert(planned_moves(all, ids, destination@) == Ok::<Seq<ItemView>, ErrorView>(planned));
        assert(picked(all, ids, ids.len()) is Ok);
        let mut actions: Vec<Action> = Vec::new();
        let mut i: usize = 0;
        assert(actions.deep_view() =~= Seq::empty());
        while i < plan.len()
            invariant
                i <= plan.len(),
                planned == plan.deep_view(),
                actions.deep_view() == moving(planned, i as nat, destination@, now_ms),
            decreases plan.len() - i,
        {
            let item = plan[i];
            assert(planned[i as int] == item.deep_view());
            act(&mut actions, Action::Step(cat3("Moving '", item.visible_name.as_str(), "'")));
            let update = Update {
                uuid: item.uuid.clone(),
                parent: Some(destination.clone()),
                visible_name: None,
                now_ms,
            };
            act(&mut actions, Action::Update(update));
            i += 1;
        }
        assert(planned.len() == plan.len());
        if plan.len() > 0 {
            act(&mut actions, Action::Finished);
        }
        let ghost done = Seq::new(
            matched.len(),
            |i: int| moved_item(matched[i], destination@, now_ms),
        );
        let mut out: Vec<Item> = Vec::new();
        let mut k: usize = 0;
        proof {
            if ids.len() > 0 {
                picked_one_by_one(all, ids, ids.len(), 0);
            } else {
                assert(matched.len() == 0);
            }
            assert(out.deep_view() =~= done.take(0));
        }
        while k < uuids.len()
            invariant
                k <= uuids.len(),
                all == items.deep_view(),
                ids == uuids.deep_view(),
                picked(all, ids, ids.len()) is Ok,
                matched == picked(all, ids, ids.len())->Ok_0,
                matched.len() == ids.len(),
                done == Seq::new(
                    matched.len(),
                    |i: int| moved_item(matched[i], destination@, now_ms),
                ),
                out.deep_view() == done.take(k as int),
            decreases uuids.len() - k,
        {
            let ghost before = out.deep_view();
            assert(ids[k as int] == uuids[k as int]@);
            proof {
                picked_one_by_one(all, ids, ids.len(), k as int);
            }
            match find_item(items, uuids[k].as_str()) {
                Some(item) => {
                    let mut moved = item.clone();
                    if !str_eq(item.parent.as_str(), destination.as_str()) {
                        moved.parent = destination.clone();
                        moved.last_modified = now_ms;
                    }
                    let ghost view = moved.deep_view();
                    assert(view == done[k as int]);
                    out.push(moved);
                    assert(out.deep_view() =~= before.push(view));
                    assert(done.take(k + 1) =~= before.push(done[k as int]));
                },
                None => {},
            }
            k += 1;
        }
        assert(done.take(k as int) =~= done);
        Ok(Moves { actions, items: out })
    }

    /// Moves an item into another folder (the root is allowed); of several that a pattern matches,
    /// the last is reported.
    pub fn move_item(&self, items: &[Item], item_ref: &str, destination_ref: &str, now_ms: i64) -> (r:
        Result<Operation, Error>)
        requires
            can_expand(items.deep_view(), seq![item_ref@]),
        ensures
            agrees(
                r,
                match moves_of(items.deep_view(), item_ref@, destination_ref@, now_ms) {
                    Err(e) => Err(e),
                    Ok(moves) => if moves.items.len() == 0 {
                        Err(ErrorView::PathNotFound(item_ref@))
                    } else {
                        Ok(OperationView { actions: moves.actions, item: moves.items.last() })
                    },
                },
            ),
            agrees(r, last_moved(items.deep_view(), item_ref@, destination_ref@, now_ms)),
    {
        match self.move_items(items, item_ref, destination_ref, now_ms) {
            Err(e) => Err(e),
            Ok(moves) => {
                let ghost views = moves.items.deep_view();
                let mut moved = moves.items;
                assert(views.len() == moved.len());
                match moved.pop() {
                    Some(item) => {
                        assert(views.last() == item.deep_view());
                        Ok(Operation { actions: moves.actions, item })
                    },
                    None => Err(Error::PathNotFound(item_ref.to_owned())),
                }
            },
        }
    }

    /// Renames a document or folder.
    pub fn rename(&self, items: &[Item], item_ref: &str, new_name: &str, now_ms: i64) -> (r: Result<
        Operation,
        Error,
    >)
        ensures
            agrees(r, renaming(items.deep_view(), item_ref@, new_name@, now_ms)),
    {
        let name = match check_name(new_name) {
            Err(e) => {
                return Err(e);
            },
            Ok(name) => name,
        };
        let item = match resolve_item_ref(items, item_ref) {
            Err(e) => {
                return Err(e);
            },
            Ok(item) => item.clone(),
        };
        let mut actions: Vec<Action> = Vec::new();
        assert(actions.deep_view() =~= Seq::empty());
        if str_eq(item.visible_name.as_str(), name.as_str()) {
            return Ok(Operation { actions, item });
        }
        let own: Option<&str> = Some(item.uuid.as_str());
        assert(own.deep_view() == Some(item.uuid@));
        if let Err(e) = ensure_no_conflict(items, item.parent.as_str(), name.as_str(), own) {
            return Err(e);
        }
        let ghost old_item = item.deep_view();
        let update = Update {
            uuid: item.uuid.clone(),
            parent: None,
            visible_name: Some(name.clone()),
            now_ms,
        };
        act(&mut actions, Action::Step("Updating metadata".to_owned()));
        act(&mut actions, Action::Update(update));
        act(&mut actions, Action::Finished);
        assert(actions.deep_view() =~= seq![
            ActionView::Step("Updating metadata"@),
            ActionView::Update(
                UpdateView {
                    uuid: old_item.uuid,
                    change: ChangeView { parent: None, visible_name: Some(name@), now_ms },
                },
            ),
            ActionView::Finished,
        ]);
        let mut renamed = item;
        renamed.visible_name = name;
        renamed.last_modified = now_ms;
        Ok(Operation { actions, item: renamed })
    }
}

/// After a move everything that was matched is in the destination, and is otherwise what it was but
/// for its time of modification.
pub proof fn moves_end_in_the_destination(
    items: Seq<ItemView>,
    item_ref: Seq<char>,
    destination_ref: Seq<char>,
    now_ms: i64,
)
    requires
        moves_of(items, item_ref, destination_ref, now_ms) is Ok,
    ensures
        ({
            let destination = resolved_folder(items, destination_ref)->Ok_0;
            let uuids = expanded(items, seq![item_ref], 1)->Ok_0;
            let moved = moves_of(items, item_ref, destination_ref, now_ms)->Ok_0.items;
            &&& moved.len() == uuids.len()
            &&& forall|i: int|
                0 <= i < moved.len() ==> (#[trigger] moved[i]).uuid == uuids[i] && moved[i].parent
                    == destination && (first_item(items, uuids[i]) matches Some(item)
                    && moved[i].visible_name == item.visible_name && moved[i].kind == item.kind)
        }),
{
    let uuids = expanded(items, seq![item_ref], 1)->Ok_0;
    let matched = picked(items, uuids, uuids.len())->Ok_0;
    let moved = moves_of(items, item_ref, destination_ref, now_ms)->Ok_0.items;
    if uuids.len() > 0 {
        picked_one_by_one(items, uuids, uuids.len(), 0);
    }
    assert forall|i: int| 0 <= i < moved.len() implies (#[trigger] moved[i]).uuid == uuids[i]
        && moved[i].parent == resolved_folder(items, destination_ref)->Ok_0 && (first_item(
        items,
        uuids[i],
    ) matches Some(item) && moved[i].visible_name == item.visible_name && moved[i].kind
        == item.kind) by {
        picked_one_by_one(items, uuids, uuids.len(), i);
        first_items_have_their_uuid(items, 0, uuids[i]);
    }
}

proof fn first_items_have_their_uuid(items: Seq<ItemView>, i: int, uuid: Seq<char>)
    ensures
        first_from(items, i, uuid) matches Some(item) ==> item.uuid == uuid,
    decreases items.len() - i,
{
    if 0 <= i < items.len() && items[i].uuid != uuid {
        first_items_have_their_uuid(items, i + 1, uuid);
    }
}

/// A renamed item shares its new name with no other item of its folder.
pub proof fn renamed_items_are_alone(
    items: Seq<ItemView>,
    item_ref: Seq<char>,
    new_name: Seq<char>,
    now_ms: i64,
    other: int,
)
    requires
        renaming(items, item_ref, new_name, now_ms) is Ok,
        renaming(items, item_ref, new_name, now_ms)->Ok_0.actions.len() > 0,
        0 <= other < items.len(),
        items[other].parent == renaming(items, item_ref, new_name, now_ms)->Ok_0.item.parent,
        items[other].uuid != renaming(items, item_ref, new_name, now_ms)->Ok_0.item.uuid,
    ensures
        items[other].visible_name != renaming(
            items,
            item_ref,
            new_name,
            now_ms,
        )->Ok_0.item.visible_name,
{
}

proof fn moves_are_positions(moving: Seq<ItemView>, n: nat, destination: Seq<char>) -> (at: Seq<int>)
    requires
        n <= moving.len(),
    ensures
        at.len() == to_move(moving, n, destination).len(),
        forall|k: int|
            0 <= k < at.len() ==> 0 <= #[trigger] at[k] < n && moving[at[k]].parent != destination
                && to_move(moving, n, destination)[k] == moving[at[k]],
        forall|j: int, k: int| 0 <= j < k < at.len() ==> #[trigger] at[j] < #[trigger] at[k],
        forall|i: int|
            0 <= i < n && (#[trigger] moving[i]).parent != destination ==> at.contains(i),
    decreases n,
{
    if n == 0 {
        Seq::empty()
    } else {
        let before = moves_are_positions(moving, (n - 1) as nat, destination);
        if moving[n - 1].parent == destination {
            before
        } else {
            let at = before.push(n - 1);
            assert forall|i: int|
                0 <= i < n && (#[trigger] moving[i]).parent != destination implies at.contains(
                i,
            ) by {
                if i < n - 1 {
                    assert(before.contains(i));
                    let k = choose|k: int| 0 <= k < before.len() && before[k] == i;
                    assert(at[k] == i);
                } else {
                    assert(at[before.len() as int] == i);
                }
            }
            at
        }
    }
}

proof fn moving_is_one_by_one(
    plan: Seq<ItemView>,
    n: nat,
    destination: Seq<char>,
    now_ms: i64,
)
    ensures
        moving(plan, n, destination, now_ms).len() == 2 * n,
        forall|k: int|
            #![trigger plan[k]]
            0 <= k < n ==> moving(plan, n, destination, now_ms)[2 * k] == ActionView::Step(
                "Moving '"@ + plan[k].visible_name + "'"@,
            ) && moving(plan, n, destination, now_ms)[2 * k + 1] == ActionView::Update(
                UpdateView {
                    uuid: plan[k].uuid,
                    change: ChangeView { parent: Some(destination), visible_name: None, now_ms },
                },
            ),
    decreases n,
{
    if n > 0 {
        moving_is_one_by_one(plan, (n - 1) as nat, destination, now_ms);
    }
}

/// A move rewrites, in order, exactly the items that were meant and are elsewhere: `at` are their
/// positions among those meant. Each is announced by its name and then gets one update of its own
/// metadata, which names the destination as its parent and leaves its name alone; what is in the
/// destination already is reported as it was and not written. Where nothing moves nothing is done.
pub proof fn moves_update_what_is_elsewhere(
    items: Seq<ItemView>,
    item_ref: Seq<char>,
    destination_ref: Seq<char>,
    now_ms: i64,
) -> (at: Seq<int>)
    requires
        moves_of(items, item_ref, destination_ref, now_ms) is Ok,
    ensures
        ({
            let destination = resolved_folder(items, destination_ref)->Ok_0;
            let uuids = expanded(items, seq![item_ref], 1)->Ok_0;
            let actions = moves_of(items, item_ref, destination_ref, now_ms)->Ok_0.actions;
            let moved = moves_of(items, item_ref, destination_ref, now_ms)->Ok_0.items;
            &&& moved.len() == uuids.len()
            &&& forall|j: int, k: int| 0 <= j < k < at.len() ==> #[trigger] at[j] < #[trigger] at[k]
            &&& forall|k: int|
                0 <= k < at.len() ==> 0 <= #[trigger] at[k] < uuids.len() && (first_item(
                    items,
                    uuids[at[k]],
                ) matches Some(item) && item.parent != destination && moved[at[k]] == (ItemView {
                    parent: destination,
                    last_modified: now_ms,
                    ..item
                }) && actions[2 * k] == ActionView::Step("Moving '"@ + item.visible_name + "'"@)
                    && actions[2 * k + 1] == ActionView::Update(
                    UpdateView {
                        uuid: uuids[at[k]],
                        change: ChangeView {
                            parent: Some(destination),
                            visible_name: None,
                            now_ms,
                        },
                    },
                ))
            &&& forall|i: int|
                0 <= i < moved.len() && !at.contains(i) ==> Some(#[trigger] moved[i]) == first_item(
                    items,
                    uuids[i],
                ) && moved[i].parent == destination
            &&& forall|j: int, k: int|
                0 <= j < k < at.len() ==> uuids[#[trigger] at[j]] != uuids[#[trigger] at[k]]
            &&& at.len() == 0 ==> actions.len() == 0
            &&& at.len() > 0 ==> actions.len() == 2 * at.len() + 1 && actions.last()
                == ActionView::Finished
        }),
{
    let destination = resolved_folder(items, destination_ref)->Ok_0;
    let uuids = expanded(items, seq![item_ref], 1)->Ok_0;
    let matched = picked(items, uuids, uuids.len())->Ok_0;
    let plan = planned_moves(items, uuids, destination)->Ok_0;
    let all = moves_of(items, item_ref, destination_ref, now_ms)->Ok_0;
    let actions = all.actions;
    let moved = all.items;
    if uuids.len() > 0 {
        picked_one_by_one(items, uuids, uuids.len(), 0);
    }
    assert(plan == to_move(matched, matched.len(), destination));
    let at = moves_are_positions(matched, matched.len(), destination);
    moving_is_one_by_one(plan, plan.len(), destination, now_ms);
    planned_moves_are_safe(items, uuids, destination, plan);
    let made = moving(plan, plan.len(), destination, now_ms);
    assert forall|k: int| 0 <= k < at.len() implies 0 <= #[trigger] at[k] < uuids.len() && (
    first_item(items, uuids[at[k]]) matches Some(item) && item.parent != destination && moved[at[k]]
        == (ItemView { parent: destination, last_modified: now_ms, ..item }) && actions[2 * k]
        == ActionView::Step("Moving '"@ + item.visible_name + "'"@) && actions[2 * k + 1]
        == ActionView::Update(
        UpdateView {
            uuid: uuids[at[k]],
            change: ChangeView { parent: Some(destination), visible_name: None, now_ms },
        },
    )) by {
        picked_one_by_one(items, uuids, uuids.len(), at[k]);
        first_items_have_their_uuid(items, 0, uuids[at[k]]);
        assert(plan[k] == matched[at[k]]);
        assert(actions[2 * k] == made[2 * k]);
        assert(actions[2 * k + 1] == made[2 * k + 1]);
    }
    assert forall|i: int| 0 <= i < moved.len() && !at.contains(i) implies Some(#[trigger] moved[i])
        == first_item(items, uuids[i]) && moved[i].parent == destination by {
        picked_one_by_one(items, uuids, uuids.len(), i);
        assert(matched[i].parent == destination);
    }
    assert forall|j: int, k: int| 0 <= j < k < at.len() implies uuids[#[trigger] at[j]]
        != uuids[#[trigger] at[k]] by {
        picked_one_by_one(items, uuids, uuids.len(), at[j]);
        picked_one_by_one(items, uuids, uuids.len(), at[k]);
        assert(plan[j].visible_name != plan[k].visible_name);
    }
    at
}

proof fn nothing_stands_in_the_way(
    items: Seq<ItemView>,
    needed: Seq<ItemView>,
    n: nat,
    destination: Seq<char>,
)
    requires
        n <= needed.len(),
        forall|k: int|
            0 <= k < needed.len() ==> (#[trigger] needed[k]).uuid != destination && (
            needed[k].is_folder() ==> !ancestors(items, destination).contains(needed[k].uuid)),
        forall|i: int, k: int|
            0 <= i < items.len() && 0 <= k < needed.len() && (#[trigger] items[i]).parent
                == destination && items[i].visible_name == (#[trigger] needed[k]).visible_name
                ==> items[i].uuid == needed[k].uuid,
        forall|j: int, k: int|
            0 <= j < k < needed.len() ==> (#[trigger] needed[j]).visible_name != (
            #[trigger] needed[k]).visible_name,
    ensures
        first_move_error(items, needed, n, destination) is None,
    decreases n,
{
    if n > 0 {
        nothing_stands_in_the_way(items, needed, (n - 1) as nat, destination);
    }
}

/// A move that is in nobody's way is made: the destination is none of what moves nor below it, no
/// other item there has the name of one that comes, and no two that come have the same name.
pub proof fn safe_moves_are_made(
    items: Seq<ItemView>,
    item_ref: Seq<char>,
    destination_ref: Seq<char>,
    now_ms: i64,
    destination: Seq<char>,
    uuids: Seq<Seq<char>>,
)
    requires
        resolved_folder(items, destination_ref) == Ok::<Seq<char>, ErrorView>(destination),
        expanded(items, seq![item_ref], 1) == Ok::<Seq<Seq<char>>, ErrorView>(uuids),
        !uuids.contains(destination),
        forall|i: int|
            0 <= i < uuids.len() && first_item(items, uuids[i])->Some_0.is_folder()
                && first_item(items, uuids[i])->Some_0.parent != destination ==> !ancestors(
                items,
                destination,
            ).contains(#[trigger] uuids[i]),
        forall|i: int, k: int|
            0 <= i < items.len() && 0 <= k < uuids.len() && (#[trigger] items[i]).parent
                == destination && items[i].visible_name == first_item(
                items,
                #[trigger] uuids[k],
            )->Some_0.visible_name ==> items[i].uuid == uuids[k],
        forall|j: int, k: int|
            0 <= j < k < uuids.len() ==> first_item(
                items,
                #[trigger] uuids[j],
            )->Some_0.visible_name != first_item(
                items,
                #[trigger] uuids[k],
            )->Some_0.visible_name,
    ensures
        moves_of(items, item_ref, destination_ref, now_ms) is Ok,
{
    expanded_items_are_found(items, item_ref);
    listed_uuids_are_picked(items, uuids, uuids.len());
    let matched = picked(items, uuids, uuids.len())->Ok_0;
    if uuids.len() > 0 {
        picked_one_by_one(items, uuids, uuids.len(), 0);
    }
    let needed = to_move(matched, matched.len(), destination);
    let at = moves_are_positions(matched, matched.len(), destination);
    assert forall|k: int| 0 <= k < needed.len() implies (#[trigger] needed[k]) == matched[at[k]]
        && 0 <= at[k] < uuids.len() && needed[k].uuid == uuids[at[k]] && first_item(
        items,
        uuids[at[k]],
    ) == Some(needed[k]) && needed[k].parent != destination by {
        picked_one_by_one(items, uuids, uuids.len(), at[k]);
        first_items_have_their_uuid(items, 0, uuids[at[k]]);
    }
    assert forall|k: int| 0 <= k < needed.len() implies (#[trigger] needed[k]).uuid != destination
        && (needed[k].is_folder() ==> !ancestors(items, destination).contains(
        needed[k].uuid,
    )) by {
        assert(uuids.contains(uuids[at[k]]));
    }
    assert forall|i: int, k: int|
        0 <= i < items.len() && 0 <= k < needed.len() && (#[trigger] items[i]).parent
            == destination && items[i].visible_name == (#[trigger] needed[k]).visible_name implies
        items[i].uuid == needed[k].uuid by {
        assert(uuids[at[k]] == needed[k].uuid);
    }
    assert forall|j: int, k: int| 0 <= j < k < needed.len() implies (
    #[trigger] needed[j]).visible_name != (#[trigger] needed[k]).visible_name by {
        assert(at[j] < at[k]);
        assert(uuids[at[j]] == needed[j].uuid && uuids[at[k]] == needed[k].uuid);
    }
    nothing_stands_in_the_way(items, needed, needed.len(), destination);
}

proof fn expanded_items_are_found(items: Seq<ItemView>, item_ref: Seq<char>)
    ensures
        expanded(items, seq![item_ref], 1) matches Ok(uuids) ==> forall|i: int|
            0 <= i < uuids.len() ==> first_item(items, #[trigger] uuids[i]) is Some,
{
    expansions_are_listed(items, seq![item_ref], 1);
    if let Ok(uuids) = expanded(items, seq![item_ref], 1) {
        assert forall|i: int| 0 <= i < uuids.len() implies first_item(
            items,
            #[trigger] uuids[i],
        ) is Some by {
            let k = choose|k: int| 0 <= k < items.len() && (#[trigger] items[k]).uuid == uuids[i];
            listed_uuids_are_found(items, 0, k);
        }
    }
}

proof fn listed_uuids_are_found(items: Seq<ItemView>, i: int, k: int)
    requires
        0 <= i <= k < items.len(),
    ensures
        first_from(items, i, items[k].uuid) is Some,
    decreases k - i,
{
    if i < k && items[i].uuid != items[k].uuid {
        listed_uuids_are_found(items, i + 1, k);
    }
}

proof fn listed_uuids_are_picked(items: Seq<ItemView>, uuids: Seq<Seq<char>>, n: nat)
    requires
        n <= uuids.len(),
        forall|i: int| 0 <= i < uuids.len() ==> first_item(items, #[trigger] uuids[i]) is Some,
    ensures
        picked(items, uuids, n) is Ok,
    decreases n,
{
    if n > 0 {
        listed_uuids_are_picked(items, uuids, (n - 1) as nat);
        assert(first_item(items, uuids[n - 1]) is Some);
    }
}

/// Renaming rewrites the metadata of the item that was meant, and of nothing else: its name becomes
/// the new one without the white space around it, and its parent stays. An item that has the name
/// already is not written.
pub proof fn renames_update_the_item_meant(
    items: Seq<ItemView>,
    item_ref: Seq<char>,
    new_name: Seq<char>,
    now_ms: i64,
    item: ItemView,
)
    requires
        resolved(items, item_ref) == Ok::<ItemView, ErrorView>(item),
    ensures
        ({
            let name = trim(new_name, Class::White);
            let is_taken = exists|i: int|
                0 <= i < items.len() && (#[trigger] items[i]).parent == item.parent
                    && items[i].visible_name == name && items[i].uuid != item.uuid;
            match renaming(items, item_ref, new_name, now_ms) {
                Ok(done) => {
                    &&& name.len() > 0 && !name.contains('/')
                    &&& if item.visible_name == name {
                        done.actions.len() == 0 && done.item == item
                    } else {
                        !is_taken && done.actions.len() == 3 && done.actions[0] == ActionView::Step(
                            "Updating metadata"@,
                        ) && done.actions[1] == ActionView::Update(
                            UpdateView {
                                uuid: item.uuid,
                                change: ChangeView {
                                    parent: None,
                                    visible_name: Some(name),
                                    now_ms,
                                },
                            },
                        ) && done.actions[2] == ActionView::Finished && done.item == (ItemView {
                            visible_name: name,
                            last_modified: now_ms,
                            ..item
                        })
                    }
                },
                Err(ErrorView::InvalidName(why)) => if name.len() == 0 {
                    why == "name cannot be empty"@
                } else {
                    why == "name cannot contain '/'"@ && name.contains('/')
                },
                Err(ErrorView::NameConflict { name: n, parent }) => is_taken && n == name && parent
                    == if item.parent.len() == 0 {
                    "(root)"@
                } else {
                    item.parent
                },
                Err(_) => false,
            }
        }),
{
    let name = trim(new_name, Class::White);
    if contains(name, Class::Only('/')) {
        let i = choose|i: int| 0 <= i < name.len() && Class::Only('/').holds(#[trigger] name[i]);
        assert(name.contains(name[i]));
    }
    if name.contains('/') {
        let i = choose|i: int| 0 <= i < name.len() && name[i] == '/';
        assert(Class::Only('/').holds(name[i]));
    }
}

/// Deleting runs, in the given order, one removal for each item, which names its own files and is
/// announced by its name.
pub proof fn deletions_remove_each_item(dir: Seq<char>, order: Seq<ItemView>, k: int)
    requires
        0 <= k < order.len(),
    ensures
        deleting(dir, order, order.len()).len() == 2 * order.len(),
        deleting(dir, order, order.len())[2 * k] == ActionView::Step(
            "Deleting '"@ + order[k].visible_name + "'"@,
        ),
        deleting(dir, order, order.len())[2 * k + 1] == ActionView::Run(
            "cd "@ + quoted(dir) + " && rm -rf -- "@ + quoted(order[k].uuid) + " "@ + quoted(
                order[k].uuid,
            ) + ".*"@,
        ),
{
    deleting_is_one_by_one(dir, order, order.len(), k);
}

proof fn deleting_is_one_by_one(dir: Seq<char>, order: Seq<ItemView>, n: nat, k: int)
    ensures
        deleting(dir, order, n).len() == 2 * n,
        0 <= k < n ==> deleting(dir, order, n)[2 * k] == ActionView::Step(
            "Deleting '"@ + order[k].visible_name + "'"@,
        ) && deleting(dir, order, n)[2 * k + 1] == ActionView::Run(removal(dir, order[k].uuid)),
    decreases n,
{
    if n > 0 {
        deleting_is_one_by_one(dir, order, (n - 1) as nat, k);
    }
}

proof fn refused_moves_have_a_reason(
    items: Seq<ItemView>,
    needed: Seq<ItemView>,
    n: nat,
    destination: Seq<char>,
) -> (k: int)
    requires
        first_move_error(items, needed, n, destination) is Some,
    ensures
        0 <= k < n,
        first_move_error(items, needed, n, destination) == move_error(
            items,
            needed,
            k,
            destination,
        ),
    decreases n,
{
    if first_move_error(items, needed, (n - 1) as nat, destination) is Some {
        refused_moves_have_a_reason(items, needed, (n - 1) as nat, destination)
    } else {
        n - 1
    }
}

/// A move is refused only for cause, and says which: the destination itself is to move, or is inside
/// a folder that is to move, or the name of something that is to move is taken there, by an item of the
/// destination or by another one that comes.
pub proof fn refused_moves_say_why(
    items: Seq<ItemView>,
    item_ref: Seq<char>,
    destination_ref: Seq<char>,
    now_ms: i64,
    destination: Seq<char>,
    uuids: Seq<Seq<char>>,
)
    requires
        resolved_folder(items, destination_ref) == Ok::<Seq<char>, ErrorView>(destination),
        expanded(items, seq![item_ref], 1) == Ok::<Seq<Seq<char>>, ErrorView>(uuids),
    ensures
        uuids.contains(destination) <==> moves_of(items, item_ref, destination_ref, now_ms) == Err::<
            MovesView,
            ErrorView,
        >(ErrorView::MoveIntoSelf),
        match moves_of(items, item_ref, destination_ref, now_ms) {
            Ok(_) => true,
            Err(ErrorView::MoveIntoSelf) => true,
            Err(ErrorView::MoveIntoDescendant) => exists|i: int|
                0 <= i < uuids.len() && first_item(
                    items,
                    #[trigger] uuids[i],
                )->Some_0.is_folder() && ancestors(items, destination).contains(uuids[i]),
            Err(ErrorView::NameConflict { name, parent }) => parent == (if destination.len() == 0 {
                "(root)"@
            } else {
                destination
            }) && exists|i: int|
                0 <= i < uuids.len() && first_item(items, #[trigger] uuids[i])->Some_0.visible_name
                    == name && ((exists|j: int|
                    0 <= j < items.len() && (#[trigger] items[j]).parent == destination
                        && items[j].visible_name == name && items[j].uuid != uuids[i]) || exists|
                    j: int,
                |
                    0 <= j < i && first_item(items, #[trigger] uuids[j])->Some_0.visible_name
                        == name),
            Err(_) => false,
        },
{
    if !uuids.contains(destination) {
        expanded_items_are_found(items, item_ref);
        listed_uuids_are_picked(items, uuids, uuids.len());
        let matched = picked(items, uuids, uuids.len())->Ok_0;
        if uuids.len() > 0 {
            picked_one_by_one(items, uuids, uuids.len(), 0);
        }
        let needed = to_move(matched, matched.len(), destination);
        let at = moves_are_positions(matched, matched.len(), destination);
        assert forall|k: int| 0 <= k < needed.len() implies (#[trigger] needed[k]) == matched[at[k]]
            && 0 <= at[k] < uuids.len() && needed[k].uuid == uuids[at[k]] && first_item(
            items,
            uuids[at[k]],
        ) == Some(needed[k]) by {
            picked_one_by_one(items, uuids, uuids.len(), at[k]);
            first_items_have_their_uuid(items, 0, uuids[at[k]]);
        }
        if first_move_error(items, needed, needed.len(), destination) is Some {
            let k = refused_moves_have_a_reason(items, needed, needed.len(), destination);
            let item = needed[k];
            let i = at[k];
            assert(uuids[i] == item.uuid);
            assert(uuids.contains(uuids[i]));
            if conflicts(items, destination, item.visible_name, Some(item.uuid)) {
                let j = choose|j: int|
                    0 <= j < items.len() && (#[trigger] items[j]).parent == destination
                        && items[j].visible_name == item.visible_name && Some(item.uuid) != Some(
                        items[j].uuid,
                    );
                assert(items[j].uuid != uuids[i]);
            } else if exists|j: int|
                0 <= j < k && (#[trigger] needed[j]).visible_name == item.visible_name {
                let j = choose|j: int|
                    0 <= j < k && (#[trigger] needed[j]).visible_name == item.visible_name;
                assert(at[j] < at[k]);
                assert(uuids[at[j]] == needed[j].uuid);
            }
        }
    }
}

/// Moving one item does what moving all that its reference means does, and tells of the last of it as it
/// is then: in the destination, under the same UUID.
pub proof fn single_moves_tell_of_the_last(
    items: Seq<ItemView>,
    item_ref: Seq<char>,
    destination_ref: Seq<char>,
    now_ms: i64,
)
    ensures
        moves_of(items, item_ref, destination_ref, now_ms) matches Err(e) ==> last_moved(
            items,
            item_ref,
            destination_ref,
            now_ms,
        ) == Err::<OperationView, ErrorView>(e),
        moves_of(items, item_ref, destination_ref, now_ms) matches Ok(moves) ==> {
            let uuids = expanded(items, seq![item_ref], 1)->Ok_0;
            match last_moved(items, item_ref, destination_ref, now_ms) {
                Ok(done) => done.actions == moves.actions && uuids.len() > 0 && done.item.uuid
                    == uuids.last() && done.item.parent == resolved_folder(
                    items,
                    destination_ref,
                )->Ok_0,
                Err(e) => uuids.len() == 0 && e == ErrorView::PathNotFound(item_ref),
            }
        },
{
    if moves_of(items, item_ref, destination_ref, now_ms) is Ok {
        moves_end_in_the_destination(items, item_ref, destination_ref, now_ms);
        let moved = moves_of(items, item_ref, destination_ref, now_ms)->Ok_0.items;
        if moved.len() > 0 {
            assert(moved[moved.len() - 1] == moved.last());
        }
    }
}

} // verus!
