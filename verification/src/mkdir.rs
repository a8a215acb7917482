//! Creating nested folders, as `mkdir -p` does: existing folders are reused.
use vstd::prelude::*;
use crate::client::Client;
use crate::error::{agrees, Error, ErrorView};
use crate::family::distinct_uuids;
use crate::resolve::{
    conflicts, ensure_no_conflict, find_child, first_from, first_item, follow, named, only_child,
    path_segments, resolve_folder_ref, resolved_folder, segments, shown_parent,
};
use crate::text::{from_chars, pieces, trim, Class};
use crate::tree::is_child;
use crate::xochitl::{Item, ItemView};

verus! {

/// The names of the folders in a path; an empty path is refused.
pub fn folder_parts(folder_path: &str) -> (r: Result<Vec<String>, Error>)
    ensures
        agrees(
            r,
            if segments(folder_path@).len() == 0 {
                Err(ErrorView::EmptyPath)
            } else {
                Ok(segments(folder_path@))
            },
        ),
{
    let parts = path_segments(folder_path);
    let ghost views = segments(folder_path@);
    assert(views.len() == parts.len());
    if parts.len() == 0 {
        return Err(Error::EmptyPath);
    }
    let mut out: Vec<String> = Vec::new();
    let mut i: usize = 0;
    assert(out.deep_view() =~= views.take(0));
    while i < parts.len()
        invariant
            i <= parts.len(),
            views == pieces(parts@),
            out.deep_view() == views.take(i as int),
        decreases parts.len() - i,
    {
        let ghost before = out.deep_view();
        assert(views[i as int] == parts[i as int]@);
        out.push(from_chars(&parts[i]));
        assert(out.deep_view() =~= before.push(views[i as int]));
        assert(views.take(i + 1) =~= before.push(views[i as int]));
        i += 1;
    }
    assert(views.take(i as int) =~= views);
    Ok(out)
}

/// Creating a folder path, in the middle.
#[derive(Debug)]
pub struct Mkdir {
    /// The items that are known, those created on the way included.
    pub items: Vec<Item>,
    /// The folder that has been reached.
    pub parent: String,
    pub parts: Vec<String>,
    /// How many of the parts are there.
    pub at: usize,
    /// The folder of the last of them.
    pub current: Option<Item>,
    /// Whether any of them had to be made.
    pub made: bool,
}

/// What a [`Mkdir`] holds.
pub struct MkdirView {
    pub items: Seq<ItemView>,
    pub parent: Seq<char>,
    pub parts: Seq<Seq<char>>,
    pub at: nat,
    pub current: Option<ItemView>,
    pub made: bool,
}

impl DeepView for Mkdir {
    type V = MkdirView;

    open spec fn deep_view(&self) -> MkdirView {
        MkdirView {
            items: self.items.deep_view(),
            parent: self.parent@,
            parts: self.parts.deep_view(),
            at: self.at as nat,
            current: self.current.deep_view(),
            made: self.made,
        }
    }
}

impl MkdirView {
    /// The folder of the last part is known, and the parent is its UUID.
    pub open spec fn wf(self) -> bool {
        &&& self.at <= self.parts.len()
        &&& self.parts.len() > 0
        &&& self.at > 0 ==> (self.current matches Some(item) && item.uuid == self.parent)
    }
}

/// What comes next when creating a folder path.
#[derive(Debug)]
pub enum MkdirStep {
    /// Create a folder of the given name; go on with [`Mkdir::created`].
    Create { name: String, parent: String, rest: Mkdir },
    /// All folders are there; this is the deepest. `made` tells whether any had to be made.
    Done { folder: Item, made: bool },
}

/// What a [`MkdirStep`] holds.
pub enum StepView {
    Create { name: Seq<char>, parent: Seq<char>, rest: MkdirView },
    Done { folder: ItemView, made: bool },
}

impl DeepView for MkdirStep {
    type V = StepView;

    open spec fn deep_view(&self) -> StepView {
        match *self {
            MkdirStep::Create { name, parent, rest } => StepView::Create {
                name: name@,
                parent: parent@,
                rest: rest.deep_view(),
            },
            MkdirStep::Done { folder, made } => StepView::Done {
                folder: folder.deep_view(),
                made,
            },
        }
    }
}

/// Creating a path after its next part was found or made.
pub open spec fn entered(v: MkdirView, folder: ItemView) -> MkdirView {
    MkdirView { parent: folder.uuid, at: v.at + 1, current: Some(folder), ..v }
}

/// What comes next: the existing folders are entered up to the first that is missing.
pub open spec fn next_step(v: MkdirView) -> Result<StepView, ErrorView>
    decreases v.parts.len() - v.at,
{
    if v.at >= v.parts.len() {
        Ok(StepView::Done { folder: v.current->Some_0, made: v.made })
    } else {
        let part = v.parts[v.at as int];
        match only_child(v.items, v.parent, part, true) {
            Err(e) => Err(e),
            Ok(Some(folder)) => next_step(entered(v, folder)),
            Ok(None) => if conflicts(v.items, v.parent, part, None) {
                Err(ErrorView::NameConflict { name: part, parent: shown_parent(v.parent) })
            } else {
                Ok(StepView::Create { name: part, parent: v.parent, rest: v })
            },
        }
    }
}

impl Mkdir {
    /// What comes next.
    pub fn next(self) -> (r: Result<MkdirStep, Error>)
        requires
            self.deep_view().wf(),
        ensures
            agrees(r, next_step(self.deep_view())),
            r matches Ok(MkdirStep::Create { name, parent, rest }) ==> rest.deep_view().wf()
                && rest.at < rest.parts.len(),
    {
        let ghost start = self.deep_view();
        let mut this = self;
        while this.at < this.parts.len()
            invariant
                this.deep_view().wf(),
                start == self.deep_view(),
                next_step(this.deep_view()) == next_step(start),
            decreases this.parts.len() - this.at,
        {
            let ghost v = this.deep_view();
            assert(v.parts[v.at as int] == this.parts[this.at as int]@);
            let part = this.parts[this.at].clone();
            let found: Option<Item> = match find_child(
                this.items.as_slice(),
                this.parent.as_str(),
                part.as_str(),
                true,
            ) {
                Err(e) => {
                    return Err(e);
                },
                Ok(Some(folder)) => Some(folder.clone()),
                Ok(None) => None,
            };
            match found {
                Some(folder) => {
                    this.parent = folder.uuid.clone();
                    this.current = Some(folder);
                    this.at = this.at + 1;
                    assert(this.deep_view() == entered(v, folder.deep_view()));
                },
                None => {
                    let none: Option<&str> = None;
                    assert(none.deep_view() is None);
                    if let Err(e) = ensure_no_conflict(
                        this.items.as_slice(),
                        this.parent.as_str(),
                        part.as_str(),
                        none,
                    ) {
                        return Err(e);
                    }
                    let parent = this.parent.clone();
                    return Ok(MkdirStep::Create { name: part, parent, rest: this });
                },
            }
        }
        match this.current {
            Some(folder) => Ok(MkdirStep::Done { folder, made: this.made }),
            None => vstd::pervasive::unreached(),
        }
    }

    /// Goes on after the missing folder was created.
    pub fn created(self, folder: Item) -> (r: Mkdir)
        requires
            self.deep_view().wf(),
            self.at < self.parts.len(),
        ensures
            r.deep_view().wf(),
            r.deep_view() == after_creating(self.deep_view(), folder.deep_view()),
    {
        let ghost v = self.deep_view();
        let mut this = self;
        let ghost before = this.items.deep_view();
        this.parent = folder.uuid.clone();
        this.items.push(folder.clone());
        assert(this.items.deep_view() =~= before.push(folder.deep_view()));
        this.current = Some(folder);
        this.at = this.at + 1;
        this.made = true;
        this
    }
}

/// Creating a path after its next part was created.
pub open spec fn after_creating(v: MkdirView, folder: ItemView) -> MkdirView {
    MkdirView { items: v.items.push(folder), made: true, ..entered(v, folder) }
}

impl<P> Client<P> {
    /// Begins to create a nested folder path, as `mkdir -p` does, with the names that
    /// [`folder_parts`] gives.
    pub fn mkdir_path(&self, items: Vec<Item>, parts: Vec<String>, parent_ref: &str) -> (r: Result<
        Mkdir,
        Error,
    >)
        requires
            parts.len() > 0,
        ensures
            agrees(
                r,
                match resolved_folder(items.deep_view(), parent_ref@) {
                    Err(e) => Err(e),
                    Ok(parent) => Ok(beginning(items.deep_view(), parts.deep_view(), parent)),
                },
            ),
            r matches Ok(mkdir) ==> mkdir.deep_view().wf(),
    {
        match resolve_folder_ref(items.as_slice(), parent_ref) {
            Err(e) => Err(e),
            Ok(parent) => {
                let current: Option<Item> = None;
                assert(current.deep_view() is None);
                Ok(Mkdir { items, parent, parts, at: 0, current, made: false })
            },
        }
    }
}

/// The beginning of creating a folder path.
pub open spec fn beginning(items: Seq<ItemView>, parts: Seq<Seq<char>>, parent: Seq<char>) -> MkdirView {
    MkdirView { items, parent, parts, at: 0, current: None, made: false }
}

/// The folder to which the first `n` folders of a path lead, if all are there.
pub open spec fn way(items: Seq<ItemView>, start: Seq<char>, parts: Seq<Seq<char>>, n: nat) -> Option<
    Seq<char>,
>
    decreases n,
{
    if n == 0 {
        Some(start)
    } else {
        match way(items, start, parts, (n - 1) as nat) {
            Some(between) => match only_child(items, between, parts[n - 1], true) {
                Ok(Some(folder)) => Some(folder.uuid),
                _ => None,
            },
            None => None,
        }
    }
}

/// Creating the missing folder of a path makes the path lead on, and leaves the way to it as it was:
/// a created folder is found again, and no other part of the path with it.
pub proof fn created_folders_are_found(
    items: Seq<ItemView>,
    start: Seq<char>,
    parts: Seq<Seq<char>>,
    n: nat,
    parent: Seq<char>,
    folder: ItemView,
)
    requires
        n < parts.len(),
        way(items, start, parts, n) == Some(parent),
        only_child(items, parent, parts[n as int], true) == Ok::<Option<ItemView>, ErrorView>(None),
        folder.parent == parent,
        folder.visible_name == parts[n as int],
        folder.is_folder(),
    ensures
        way(items.push(folder), start, parts, n + 1) == Some(folder.uuid),
{
    way_stays(items, start, parts, n, parent, folder);
    assert(items.push(folder).drop_last() =~= items);
    assert(named(items, parent, parts[n as int], true).len() == 0);
    let found = named(items.push(folder), parent, parts[n as int], true);
    assert(found =~= seq![folder]);
}

proof fn way_stays(
    items: Seq<ItemView>,
    start: Seq<char>,
    parts: Seq<Seq<char>>,
    n: nat,
    end: Seq<char>,
    folder: ItemView,
)
    requires
        way(items, start, parts, n) == Some(end),
        only_child(items, folder.parent, folder.visible_name, true) == Ok::<
            Option<ItemView>,
            ErrorView,
        >(None),
    ensures
        way(items.push(folder), start, parts, n) == Some(end),
    decreases n,
{
    if n > 0 {
        let m = (n - 1) as nat;
        let between = way(items, start, parts, m)->Some_0;
        way_stays(items, start, parts, m, between, folder);
        assert(items.push(folder).drop_last() =~= items);
        assert(!(folder.parent == between && folder.visible_name == parts[n - 1]));
        assert(named(items.push(folder), between, parts[n - 1], true) == named(
            items,
            between,
            parts[n - 1],
            true,
        ));
    }
}

/// What follows a path that is there changes nothing, and ends at the folder that it leads to.
pub proof fn existing_paths_create_nothing(
    items: Seq<ItemView>,
    start: Seq<char>,
    parts: Seq<Seq<char>>,
    end: Seq<char>,
)
    requires
        parts.len() > 0,
        way(items, start, parts, parts.len()) == Some(end),
    ensures
        next_step(beginning(items, parts, start)) matches Ok(StepView::Done { folder, made })
            && folder.uuid == end && !made,
{
    let v = beginning(items, parts, start);
    let last = steps_along(items, start, parts, parts.len(), end);
    assert(next_step(v) == next_step(last));
}

proof fn steps_along(
    items: Seq<ItemView>,
    start: Seq<char>,
    parts: Seq<Seq<char>>,
    n: nat,
    end: Seq<char>,
) -> (v: MkdirView)
    requires
        n <= parts.len(),
        way(items, start, parts, n) == Some(end),
    ensures
        v.items == items,
        v.parts == parts,
        v.at == n,
        v.parent == end,
        !v.made,
        n > 0 ==> (v.current matches Some(x) && x.uuid == end),
        next_step(beginning(items, parts, start)) == next_step(v),
    decreases n,
{
    if n == 0 {
        beginning(items, parts, start)
    } else {
        let m = (n - 1) as nat;
        let between = way(items, start, parts, m)->Some_0;
        let before = steps_along(items, start, parts, m, between);
        let folder = only_child(items, between, parts[n - 1], true)->Ok_0->Some_0;
        entered(before, folder)
    }
}

/// Whether a folder is the one that was asked for.
pub open spec fn is_asked_for(folder: ItemView, name: Seq<char>, parent: Seq<char>) -> bool {
    folder.is_folder() && folder.visible_name == name && folder.parent == parent
}

/// The deepest folder that creating a path ends with, if `made` are the folders that were created on
/// the way, in their order.
pub open spec fn run_of(v: MkdirView, made: Seq<ItemView>) -> Option<ItemView>
    decreases made.len(),
{
    match next_step(v) {
        Err(_) => None,
        Ok(StepView::Done { folder, .. }) => if made.len() == 0 {
            Some(folder)
        } else {
            None
        },
        Ok(StepView::Create { name, parent, rest }) => if made.len() > 0 && is_asked_for(
            made[0],
            name,
            parent,
        ) {
            run_of(after_creating(rest, made[0]), made.drop_first())
        } else {
            None
        },
    }
}

/// Whether `again` lists the same items, in whatever order, each UUID once.
pub open spec fn lists_the_same(again: Seq<ItemView>, items: Seq<ItemView>) -> bool {
    &&& forall|x: ItemView| #[trigger] again.contains(x) <==> items.contains(x)
    &&& distinct_uuids(again)
}

/// What a step leads to lies on the way.
proof fn steps_stay_on_the_way(v: MkdirView, start: Seq<char>)
    requires
        v.wf(),
        way(v.items, start, v.parts, v.at) == Some(v.parent),
    ensures
        match next_step(v) {
            Err(_) => true,
            Ok(StepView::Done { folder, .. }) => way(v.items, start, v.parts, v.parts.len()) == Some(
                folder.uuid,
            ),
            Ok(StepView::Create { name, parent, rest }) => {
                &&& rest.wf()
                &&& rest.items == v.items
                &&& rest.parts == v.parts
                &&& rest.at < rest.parts.len()
                &&& rest.parent == parent
                &&& name == rest.parts[rest.at as int]
                &&& way(v.items, start, v.parts, rest.at) == Some(parent)
                &&& only_child(v.items, parent, name, true) == Ok::<Option<ItemView>, ErrorView>(None)
                &&& !conflicts(v.items, parent, name, None)
            },
        },
    decreases v.parts.len() - v.at,
{
    if v.at < v.parts.len() {
        let part = v.parts[v.at as int];
        match only_child(v.items, v.parent, part, true) {
            Ok(Some(folder)) => {
                steps_stay_on_the_way(entered(v, folder), start);
            },
            _ => {},
        }
    }
}

proof fn named_members(
    items: Seq<ItemView>,
    parent: Seq<char>,
    name: Seq<char>,
    folders_only: bool,
    x: ItemView,
)
    ensures
        named(items, parent, name, folders_only).contains(x) <==> items.contains(x) && is_child(
            x,
            parent,
            folders_only,
        ) && x.visible_name == name,
    decreases items.len(),
{
    if items.len() > 0 {
        let rest = items.drop_last();
        let last = items.last();
        let before = named(rest, parent, name, folders_only);
        let now = named(items, parent, name, folders_only);
        named_members(rest, parent, name, folders_only, x);
        if rest.contains(x) {
            let k = choose|k: int| 0 <= k < rest.len() && rest[k] == x;
            assert(items[k] == x);
        }
        if items.contains(x) && x != last {
            let k = choose|k: int| 0 <= k < items.len() && items[k] == x;
            assert(rest[k] == x);
        }
        assert(items[items.len() - 1] == last);
        if before.contains(x) {
            let k = choose|k: int| 0 <= k < before.len() && before[k] == x;
            assert(now[k] == x);
        }
        if now.contains(x) {
            let k = choose|k: int| 0 <= k < now.len() && now[k] == x;
            if k < before.len() {
                assert(before[k] == x);
            }
        }
        if is_child(last, parent, folders_only) && last.visible_name == name {
            assert(now[before.len() as int] == last);
        }
    }
}

proof fn named_uuids_differ(
    items: Seq<ItemView>,
    parent: Seq<char>,
    name: Seq<char>,
    folders_only: bool,
)
    requires
        distinct_uuids(items),
    ensures
        distinct_uuids(named(items, parent, name, folders_only)),
    decreases items.len(),
{
    if items.len() > 0 {
        let rest = items.drop_last();
        let last = items.last();
        assert forall|i: int, j: int| 0 <= i < j < rest.len() implies (#[trigger] rest[i]).uuid != (
        #[trigger] rest[j]).uuid by {
            assert(items[i].uuid != items[j].uuid);
        }
        named_uuids_differ(rest, parent, name, folders_only);
        let before = named(rest, parent, name, folders_only);
        let found = named(items, parent, name, folders_only);
        assert forall|i: int, j: int| 0 <= i < j < found.len() implies (#[trigger] found[i]).uuid != (
        #[trigger] found[j]).uuid by {
            if j < before.len() {
                assert(before[i].uuid != before[j].uuid);
            } else {
                assert(before.contains(before[i]));
                named_members(rest, parent, name, folders_only, before[i]);
                let k = choose|k: int| 0 <= k < rest.len() && rest[k] == before[i];
                assert(items[k].uuid != items[items.len() - 1].uuid);
            }
        }
    }
}

/// A name that means one item means the same one however the items are listed.
proof fn one_name_one_item(
    items: Seq<ItemView>,
    again: Seq<ItemView>,
    parent: Seq<char>,
    name: Seq<char>,
    folders_only: bool,
)
    requires
        lists_the_same(again, items),
        named(items, parent, name, folders_only).len() == 1,
    ensures
        named(again, parent, name, folders_only) == named(items, parent, name, folders_only),
{
    let one = named(items, parent, name, folders_only);
    let other = named(again, parent, name, folders_only);
    assert(one.contains(one[0]));
    named_members(items, parent, name, folders_only, one[0]);
    named_members(again, parent, name, folders_only, one[0]);
    named_uuids_differ(again, parent, name, folders_only);
    assert(other.contains(one[0]));
    assert forall|k: int| 0 <= k < other.len() implies #[trigger] other[k] == one[0] by {
        assert(other.contains(other[k]));
        named_members(again, parent, name, folders_only, other[k]);
        named_members(items, parent, name, folders_only, other[k]);
        let m = choose|m: int| 0 <= m < one.len() && one[m] == other[k];
    }
    if other.len() > 1 {
        assert(other[0].uuid != other[1].uuid);
    }
    assert(other =~= one);
}

proof fn way_is_the_same(
    items: Seq<ItemView>,
    again: Seq<ItemView>,
    start: Seq<char>,
    parts: Seq<Seq<char>>,
    n: nat,
)
    requires
        lists_the_same(again, items),
        way(items, start, parts, n) is Some,
    ensures
        way(again, start, parts, n) == way(items, start, parts, n),
    decreases n,
{
    if n > 0 {
        let m = (n - 1) as nat;
        way_is_the_same(items, again, start, parts, m);
        let between = way(items, start, parts, m)->Some_0;
        one_name_one_item(items, again, between, parts[n - 1], true);
    }
}

proof fn follow_is_the_same(
    items: Seq<ItemView>,
    again: Seq<ItemView>,
    reference: Seq<char>,
    parts: Seq<Seq<char>>,
    n: nat,
)
    requires
        lists_the_same(again, items),
        follow(items, reference, parts, n) is Ok,
    ensures
        follow(again, reference, parts, n) == follow(items, reference, parts, n),
    decreases n,
{
    if n > 0 {
        let m = (n - 1) as nat;
        follow_is_the_same(items, again, reference, parts, m);
        let parent = match follow(items, reference, parts, m)->Ok_0 {
            Some(item) => item.uuid,
            None => Seq::empty(),
        };
        one_name_one_item(items, again, parent, parts[n - 1], false);
    }
}

/// A path that leads somewhere leads there still when a folder of a new name is added.
proof fn follow_stays(
    items: Seq<ItemView>,
    reference: Seq<char>,
    parts: Seq<Seq<char>>,
    n: nat,
    folder: ItemView,
)
    requires
        follow(items, reference, parts, n) is Ok,
        !conflicts(items, folder.parent, folder.visible_name, None),
    ensures
        follow(items.push(folder), reference, parts, n) == follow(items, reference, parts, n),
    decreases n,
{
    if n > 0 {
        let m = (n - 1) as nat;
        follow_stays(items, reference, parts, m, folder);
        let parent = match follow(items, reference, parts, m)->Ok_0 {
            Some(item) => item.uuid,
            None => Seq::empty(),
        };
        let found = named(items, parent, parts[n - 1], false);
        assert(items.push(folder).drop_last() =~= items);
        assert(found.contains(found[0]));
        named_members(items, parent, parts[n - 1], false, found[0]);
        let k = choose|k: int| 0 <= k < items.len() && items[k] == found[0];
        assert(items[k].parent == parent && items[k].visible_name == parts[n - 1]);
        assert(!(folder.parent == parent && folder.visible_name == parts[n - 1]));
    }
}

proof fn first_from_finds(items: Seq<ItemView>, i: int, uuid: Seq<char>)
    requires
        0 <= i,
    ensures
        match first_from(items, i, uuid) {
            Some(item) => items.contains(item) && item.uuid == uuid,
            None => forall|k: int| i <= k < items.len() ==> (#[trigger] items[k]).uuid != uuid,
        },
    decreases items.len() - i,
{
    if i < items.len() && items[i].uuid != uuid {
        first_from_finds(items, i + 1, uuid);
    }
}

proof fn folder_ref_is_the_same(items: Seq<ItemView>, again: Seq<ItemView>, reference: Seq<char>)
    requires
        lists_the_same(again, items),
        forall|i: int, j: int|
            0 <= i < j < items.len() && (#[trigger] items[i]).uuid == reference ==> (
            #[trigger] items[j]).uuid != reference,
        resolved_folder(items, reference) is Ok,
    ensures
        resolved_folder(again, reference) == resolved_folder(items, reference),
{
    first_from_finds(items, 0, reference);
    first_from_finds(again, 0, reference);
    match first_item(items, reference) {
        Some(item) => {
            assert(again.contains(item));
            let k = choose|k: int| 0 <= k < again.len() && again[k] == item;
            assert(again[k].uuid == reference);
            let other = first_item(again, reference)->Some_0;
            assert(items.contains(other));
            let a = choose|a: int| 0 <= a < items.len() && items[a] == item;
            let b = choose|b: int| 0 <= b < items.len() && items[b] == other;
            assert(a == b);
        },
        None => {
            if first_item(again, reference) is Some {
                let other = first_item(again, reference)->Some_0;
                assert(items.contains(other));
                let b = choose|b: int| 0 <= b < items.len() && items[b] == other;
                assert(items[b].uuid != reference);
            }
            let parts = segments(trim(reference, Class::Only('/')));
            if follow(items, reference, parts, parts.len()) is Ok {
                follow_is_the_same(items, again, reference, parts, parts.len());
            }
        },
    }
}

/// Adding a folder of a new name, with a UUID that is not the reference, changes nothing about where
/// the reference leads.
proof fn folder_ref_stays(items: Seq<ItemView>, reference: Seq<char>, folder: ItemView)
    requires
        resolved_folder(items, reference) is Ok,
        !conflicts(items, folder.parent, folder.visible_name, None),
        folder.uuid != reference,
    ensures
        resolved_folder(items.push(folder), reference) == resolved_folder(items, reference),
{
    first_from_grows(items, 0, reference, folder);
    if first_item(items, reference) is None {
        let parts = segments(trim(reference, Class::Only('/')));
        if follow(items, reference, parts, parts.len()) is Ok {
            follow_stays(items, reference, parts, parts.len(), folder);
        }
    }
}

proof fn first_from_grows(items: Seq<ItemView>, i: int, uuid: Seq<char>, folder: ItemView)
    requires
        0 <= i <= items.len(),
        folder.uuid != uuid,
    ensures
        first_from(items.push(folder), i, uuid) == first_from(items, i, uuid),
    decreases items.len() - i,
{
    if i < items.len() {
        assert(items.push(folder)[i] == items[i]);
        first_from_grows(items, i + 1, uuid, folder);
    } else {
        assert(first_from(items.push(folder), i + 1, uuid) is None);
    }
}

/// A whole run: the path is there in the end, and what was resolved before is resolved still.
proof fn runs_make_the_path(
    v: MkdirView,
    start: Seq<char>,
    reference: Seq<char>,
    made: Seq<ItemView>,
)
    requires
        v.wf(),
        way(v.items, start, v.parts, v.at) == Some(v.parent),
        resolved_folder(v.items, reference) == Ok::<Seq<char>, ErrorView>(start),
        run_of(v, made) is Some,
        forall|k: int| 0 <= k < made.len() ==> (#[trigger] made[k]).uuid != reference,
    ensures
        way(v.items + made, start, v.parts, v.parts.len()) == Some(run_of(v, made)->Some_0.uuid),
        resolved_folder(v.items + made, reference) == Ok::<Seq<char>, ErrorView>(start),
    decreases made.len(),
{
    steps_stay_on_the_way(v, start);
    match next_step(v) {
        Ok(StepView::Create { name, parent, rest }) => {
            let folder = made[0];
            let next = after_creating(rest, folder);
            created_folders_are_found(v.items, start, v.parts, rest.at, parent, folder);
            folder_ref_stays(v.items, reference, folder);
            assert forall|k: int| 0 <= k < made.drop_first().len() implies (
            #[trigger] made.drop_first()[k]).uuid != reference by {
                assert(made[k + 1].uuid != reference);
            }
            runs_make_the_path(next, start, reference, made.drop_first());
            assert(v.items + made =~= next.items + made.drop_first());
        },
        _ => {
            assert(v.items + made =~= v.items);
        },
    }
}

/// Creating a path a second time creates nothing and ends at the same folder: after a whole run
/// that created the folders `made`, none of them with the reference for its UUID, the path is there
/// for every later listing of the same items.
pub proof fn repeated_mkdirs_create_nothing(
    items: Seq<ItemView>,
    parts: Seq<Seq<char>>,
    parent_ref: Seq<char>,
    made: Seq<ItemView>,
    again: Seq<ItemView>,
)
    requires
        parts.len() > 0,
        resolved_folder(items, parent_ref) is Ok,
        run_of(beginning(items, parts, resolved_folder(items, parent_ref)->Ok_0), made) is Some,
        forall|k: int| 0 <= k < made.len() ==> (#[trigger] made[k]).uuid != parent_ref,
        distinct_uuids(items),
        lists_the_same(again, items + made),
    ensures
        ({
            let start = resolved_folder(items, parent_ref)->Ok_0;
            let first = run_of(beginning(items, parts, start), made)->Some_0;
            &&& resolved_folder(again, parent_ref) == Ok::<Seq<char>, ErrorView>(start)
            &&& next_step(beginning(again, parts, start)) matches Ok(
                StepView::Done { folder, made: any },
            ) && folder.uuid == first.uuid && !any
        }),
{
    let start = resolved_folder(items, parent_ref)->Ok_0;
    let v = beginning(items, parts, start);
    let all = items + made;
    runs_make_the_path(v, start, parent_ref, made);
    way_is_the_same(all, again, start, parts, parts.len());
    let end = run_of(v, made)->Some_0.uuid;
    existing_paths_create_nothing(again, start, parts, end);
    assert forall|i: int, j: int|
        0 <= i < j < all.len() && (#[trigger] all[i]).uuid == parent_ref implies (
    #[trigger] all[j]).uuid != parent_ref by {
        if i < items.len() && j < items.len() {
            assert(items[i].uuid != items[j].uuid);
        } else if j >= items.len() {
            assert(made[j - items.len()].uuid != parent_ref);
        }
    }
    folder_ref_is_the_same(all, again, parent_ref);
}

} // verus!
