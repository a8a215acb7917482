//! The item tree: children in display order, walks, ancestors, logical paths.
use vstd::prelude::*;
use crate::text::{lex_irreflexive, lex_lt, lex_total, lex_transitive, str_eq, str_less};
use crate::xochitl::{Item, ItemView};

verus! {

/// What `str::to_lowercase` makes of a text.
pub uninterp spec fn lowercase(s: Seq<char>) -> Seq<char>;

/// `str::to_lowercase`: the lowercase equivalent of a text by the Unicode tables, which is a
/// function of the text alone.
#[verifier::external_body]
pub(crate) fn lowercase_of(s: &str) -> (r: String)
    ensures
        r@ == lowercase(s@),
{
    s.to_lowercase()
}

/// Display order of siblings: folders first, then by lowercase name, then by UUID.
pub open spec fn precedes(a: ItemView, b: ItemView) -> bool {
    if a.is_folder() != b.is_folder() {
        a.is_folder()
    } else if lowercase(a.visible_name) != lowercase(b.visible_name) {
        lex_lt(lowercase(a.visible_name), lowercase(b.visible_name))
    } else {
        lex_lt(a.uuid, b.uuid)
    }
}

/// `x` inserted into the sorted `s`, behind everything it does not precede.
pub open spec fn insert_sorted(s: Seq<ItemView>, x: ItemView) -> Seq<ItemView>
    decreases s.len(),
{
    if s.len() > 0 && precedes(x, s.last()) {
        insert_sorted(s.drop_last(), x).push(s.last())
    } else {
        s.push(x)
    }
}

/// Whether the item is shown under `parent`.
pub open spec fn is_child(item: ItemView, parent: Seq<char>, folders_only: bool) -> bool {
    item.parent == parent && (!folders_only || item.is_folder())
}

/// The children of `parent` in display order; equals keep the order of `items`.
pub open spec fn children(items: Seq<ItemView>, parent: Seq<char>, folders_only: bool) -> Seq<
    ItemView,
>
    decreases items.len(),
{
    if items.len() == 0 {
        Seq::empty()
    } else {
        let before = children(items.drop_last(), parent, folders_only);
        if is_child(items.last(), parent, folders_only) {
            insert_sorted(before, items.last())
        } else {
            before
        }
    }
}

proof fn insert_sorted_at(s: Seq<ItemView>, x: ItemView, at: int)
    requires
        0 <= at <= s.len(),
        forall|j: int| at <= j < s.len() ==> precedes(x, #[trigger] s[j]),
        at > 0 ==> !precedes(x, s[at - 1]),
    ensures
        insert_sorted(s, x) == s.insert(at, x),
    decreases s.len(),
{
    if at < s.len() {
        assert(precedes(x, s[s.len() - 1]));
        insert_sorted_at(s.drop_last(), x, at);
        assert(s.insert(at, x) =~= s.drop_last().insert(at, x).push(s.last()));
    } else {
        assert(s.insert(at, x) =~= s.push(x));
    }
}

/// The order of siblings is transitive.
proof fn precedes_transitive(a: ItemView, b: ItemView, c: ItemView)
    requires
        precedes(a, b),
        precedes(b, c),
    ensures
        precedes(a, c),
{
    let (la, lb, lc) = (
        lowercase(a.visible_name),
        lowercase(b.visible_name),
        lowercase(c.visible_name),
    );
    if a.is_folder() == b.is_folder() && b.is_folder() == c.is_folder() {
        if la != lb && lb != lc {
            lex_transitive(la, lb, lc);
            if la == lc {
                lex_irreflexive(la);
            }
        } else if la == lb && lb == lc {
            lex_transitive(a.uuid, b.uuid, c.uuid);
        }
    }
}

/// Not preceding is transitive too.
proof fn not_precedes_transitive(a: ItemView, b: ItemView, c: ItemView)
    requires
        !precedes(b, a),
        !precedes(c, b),
    ensures
        !precedes(c, a),
{
    if precedes(c, a) {
        lex_total(lowercase(b.visible_name), lowercase(c.visible_name));
        lex_total(lowercase(a.visible_name), lowercase(b.visible_name));
        lex_total(b.uuid, c.uuid);
        lex_total(a.uuid, b.uuid);
        if precedes(b, c) {
            precedes_transitive(b, c, a);
        } else if precedes(a, b) {
            precedes_transitive(c, a, b);
        } else {
            lex_irreflexive(a.uuid);
        }
    }
}

spec fn ordered(s: Seq<ItemView>) -> bool {
    forall|i: int, j: int| 0 <= i <= j < s.len() ==> !precedes(#[trigger] s[j], #[trigger] s[i])
}

proof fn insert_sorted_keeps(s: Seq<ItemView>, x: ItemView)
    requires
        ordered(s),
    ensures
        ordered(insert_sorted(s, x)),
        insert_sorted(s, x).to_multiset() =~= s.to_multiset().insert(x),
    decreases s.len(),
{
    broadcast use vstd::seq_lib::group_to_multiset_ensures;

    lex_irreflexive(x.uuid);
    if s.len() > 0 && precedes(x, s.last()) {
        let r = insert_sorted(s.drop_last(), x);
        insert_sorted_keeps(s.drop_last(), x);
        assert(s =~= s.drop_last().push(s.last()));
        assert(r.push(s.last()).to_multiset() =~= r.to_multiset().insert(s.last()));
        lex_irreflexive(s.last().uuid);
        assert forall|i: int, j: int| 0 <= i <= j < r.push(s.last()).len() implies !precedes(
            #[trigger] r.push(s.last())[j],
            #[trigger] r.push(s.last())[i],
        ) by {
            if j == r.len() && i < j {
                assert(r.to_multiset().count(r[i]) > 0) by {
                    assert(r.contains(r[i]));
                }
                assert(s.drop_last().to_multiset().insert(x).count(r[i]) > 0);
                if r[i] != x {
                    assert(s.drop_last().contains(r[i]));
                    let k = choose|k: int| 0 <= k < s.drop_last().len() && s.drop_last()[k] == r[i];
                    assert(s[k] == r[i]);
                    assert(!precedes(s[s.len() - 1], s[k]));
                } else if precedes(s.last(), x) {
                    precedes_transitive(s.last(), x, s.last());
                }
            }
        }
    } else {
        let r = s.push(x);
        assert forall|i: int, j: int| 0 <= i <= j < r.len() implies !precedes(
            #[trigger] r[j],
            #[trigger] r[i],
        ) by {
            if j == s.len() && i < j {
                assert(!precedes(s[s.len() - 1], s[i]));
                not_precedes_transitive(s[i], s.last(), x);
            }
        }
    }
}

/// The children of a parent are exactly the items with that parent (folders, if only those
/// are asked for), each as often as it is listed, and none precedes one before it.
pub proof fn children_are_sorted_and_complete(
    items: Seq<ItemView>,
    parent: Seq<char>,
    folders_only: bool,
)
    ensures
        children(items, parent, folders_only).to_multiset() =~= items.filter(
            |x: ItemView| is_child(x, parent, folders_only),
        ).to_multiset(),
        forall|i: int, j: int|
            0 <= i <= j < children(items, parent, folders_only).len() ==> !precedes(
                #[trigger] children(items, parent, folders_only)[j],
                #[trigger] children(items, parent, folders_only)[i],
            ),
    decreases items.len(),
{
    broadcast use vstd::seq_lib::group_to_multiset_ensures;

    reveal(Seq::filter);
    let keep = |x: ItemView| is_child(x, parent, folders_only);
    if items.len() > 0 {
        let rest = items.drop_last();
        children_are_sorted_and_complete(rest, parent, folders_only);
        let before = children(rest, parent, folders_only);
        assert(ordered(before));
        insert_sorted_keeps(before, items.last());
        if keep(items.last()) {
            assert(items.filter(keep) =~= rest.filter(keep).push(items.last()));
            assert(ordered(children(items, parent, folders_only)));
        } else {
            assert(items.filter(keep) =~= rest.filter(keep));
        }
    }
}

/// An item is among the children exactly when it is listed with that parent.
pub proof fn children_membership(
    items: Seq<ItemView>,
    parent: Seq<char>,
    folders_only: bool,
    x: ItemView,
)
    ensures
        children(items, parent, folders_only).contains(x) <==> items.contains(x) && is_child(
            x,
            parent,
            folders_only,
        ),
{
    broadcast use vstd::seq_lib::group_to_multiset_ensures;

    children_are_sorted_and_complete(items, parent, folders_only);
    let keep = |x: ItemView| is_child(x, parent, folders_only);
    let kids = children(items, parent, folders_only);
    let kept = items.filter(keep);
    assert(kids.contains(x) <==> kids.to_multiset().count(x) > 0);
    assert(kept.contains(x) <==> kept.to_multiset().count(x) > 0);
    if kept.contains(x) {
        items.lemma_filter_contains_rev(keep, x);
        let i = choose|i: int| 0 <= i < kept.len() && kept[i] == x;
        items.lemma_filter_pred(keep, i);
    }
    if items.contains(x) && keep(x) {
        let i = choose|i: int| 0 <= i < items.len() && items[i] == x;
        items.lemma_filter_contains(keep, i);
    }
}

/// The children of one parent, with the lowercase name of each.
struct Group<'a> {
    parent: &'a str,
    lowers: Vec<String>,
    kids: Vec<&'a Item>,
}

impl<'a> Group<'a> {
    spec fn holds(&self, items: Seq<ItemView>, folders_only: bool) -> bool {
        &&& self.kids.deep_view() == children(items, self.parent@, folders_only)
        &&& self.kids.len() > 0
        &&& self.lowers.len() == self.kids.len()
        &&& forall|i: int|
            0 <= i < self.kids.len() ==> #[trigger] self.lowers[i]@ == lowercase(
                self.kids[i].visible_name@,
            )
    }

    fn insert(&mut self, item: &'a Item, Ghost(items): Ghost<Seq<ItemView>>, Ghost(fo): Ghost<bool>)
        requires
            old(self).holds(items, fo),
            is_child(item.deep_view(), old(self).parent@, fo),
        ensures
            final(self).holds(items.push(item.deep_view()), fo),
            final(self).parent == old(self).parent,
    {
        let lower = lowercase_of(item.visible_name.as_str());
        let ghost kids = self.kids.deep_view();
        let ghost x = item.deep_view();
        let mut at: usize = self.kids.len();
        while at > 0 && item_precedes(item, lower.as_str(), self.kids[at - 1], self.lowers[at
            - 1].as_str())
            invariant
                at <= self.kids.len(),
                self.lowers.len() == self.kids.len(),
                lower@ == lowercase(item.visible_name@),
                kids == self.kids.deep_view(),
                x == item.deep_view(),
                forall|i: int|
                    0 <= i < self.kids.len() ==> #[trigger] self.lowers[i]@ == lowercase(
                        self.kids[i].visible_name@,
                    ),
                forall|j: int| at <= j < kids.len() ==> precedes(x, #[trigger] kids[j]),
            decreases at,
        {
            at -= 1;
        }
        proof {
            insert_sorted_at(kids, x, at as int);
            assert(items.push(x).drop_last() =~= items);
        }
        self.lowers.insert(at, lower);
        self.kids.insert(at, item);
        assert(self.kids.deep_view() =~= kids.insert(at as int, x));
    }
}

fn item_precedes(a: &Item, lower_a: &str, b: &Item, lower_b: &str) -> (r: bool)
    requires
        lower_a@ == lowercase(a.visible_name@),
        lower_b@ == lowercase(b.visible_name@),
    ensures
        r == precedes(a.deep_view(), b.deep_view()),
{
    if a.is_folder() != b.is_folder() {
        a.is_folder()
    } else if !str_eq(lower_a, lower_b) {
        str_less(lower_a, lower_b)
    } else {
        str_less(a.uuid.as_str(), b.uuid.as_str())
    }
}

/// Children by parent UUID, each list in display order.
pub struct ChildrenMap<'a> {
    groups: Vec<Group<'a>>,
    source: Ghost<Seq<ItemView>>,
    folders_only: bool,
}

impl<'a> ChildrenMap<'a> {
    /// The items that the map was made of.
    pub closed spec fn items(&self) -> Seq<ItemView> {
        self.source@
    }

    /// Whether the map leaves documents out.
    pub closed spec fn only_folders(&self) -> bool {
        self.folders_only
    }

    /// The map lists the children of every parent among its items.
    pub closed spec fn wf(&self) -> bool {
        self.lists(self.source@, self.folders_only)
    }

    spec fn lists(&self, items: Seq<ItemView>, folders_only: bool) -> bool {
        &&& forall|i: int|
            0 <= i < self.groups.len() ==> (#[trigger] self.groups[i]).holds(items, folders_only)
        &&& forall|i: int, j: int|
            0 <= i < j < self.groups.len() ==> (#[trigger] self.groups[i]).parent@ != (
            #[trigger] self.groups[j]).parent@
        &&& forall|p: Seq<char>|
            (forall|i: int| 0 <= i < self.groups.len() ==> (#[trigger] self.groups[i]).parent@ != p)
                ==> (#[trigger] children(items, p, folders_only)).len() == 0
    }

    fn find(&self, parent: &str) -> (r: Option<usize>)
        ensures
            match r {
                Some(i) => i < self.groups.len() && self.groups[i as int].parent@ == parent@,
                None => forall|i: int|
                    0 <= i < self.groups.len() ==> (#[trigger] self.groups[i]).parent@ != parent@,
            },
    {
        let mut i: usize = 0;
        while i < self.groups.len()
            invariant
                i <= self.groups.len(),
                forall|k: int| 0 <= k < i ==> (#[trigger] self.groups[k]).parent@ != parent@,
            decreases self.groups.len() - i,
        {
            if str_eq(self.groups[i].parent, parent) {
                return Some(i);
            }
            i += 1;
        }
        None
    }

    /// The children of `parent`, in display order.
    pub fn get(&self, parent: &str) -> (r: Option<&Vec<&'a Item>>)
        requires
            self.wf(),
        ensures
            match r {
                Some(kids) => kids.deep_view() == children(
                    self.items(),
                    parent@,
                    self.only_folders(),
                ) && kids.len() > 0,
                None => children(self.items(), parent@, self.only_folders()).len() == 0,
            },
    {
        match self.find(parent) {
            Some(i) => Some(&self.groups[i].kids),
            None => None,
        }
    }
}

/// Map of parent UUID to sorted children (folders first, then by name).
pub fn children_map<'a>(items: &'a [Item], folders_only: bool) -> (map: ChildrenMap<'a>)
    ensures
        map.wf(),
        map.items() == items.deep_view(),
        map.only_folders() == folders_only,
{
    let ghost all = items.deep_view();
    let mut map = ChildrenMap { groups: Vec::new(), source: Ghost(all), folders_only };
    let mut i: usize = 0;
    while i < items.len()
        invariant
            i <= items.len(),
            all == items.deep_view(),
            map.source@ == all,
            map.folders_only == folders_only,
            map.lists(all.take(i as int), folders_only),
        decreases items.len() - i,
    {
        let item = &items[i];
        let ghost before = all.take(i as int);
        let ghost groups = map.groups@;
        proof {
            assert(all.take(i + 1) =~= before.push(item.deep_view()));
            assert(before.push(item.deep_view()).drop_last() =~= before);
        }
        let ghost mut home: int = 0;
        if !folders_only || item.is_folder() {
            match map.find(item.parent.as_str()) {
                Some(g) => {
                    proof {
                        home = g as int;
                    }
                    map.groups[g].insert(item, Ghost(before), Ghost(folders_only));
                },
                None => {
                    proof {
                        home = map.groups.len() as int;
                    }
                    let mut lowers: Vec<String> = Vec::new();
                    lowers.push(lowercase_of(item.visible_name.as_str()));
                    let mut kids: Vec<&'a Item> = Vec::new();
                    kids.push(item);
                    assert(kids.deep_view() =~= Seq::<ItemView>::empty().push(item.deep_view()));
                    assert(children(before, item.parent@, folders_only) =~= Seq::empty());
                    map.groups.push(Group { parent: item.parent.as_str(), lowers, kids });
                },
            }
        }
        proof {
            let now = all.take(i + 1);
            assert forall|k: int| 0 <= k < map.groups.len() implies (
            #[trigger] map.groups[k]).holds(now, folders_only) by {
                if k < groups.len() {
                    assert(groups[k].holds(before, folders_only));
                }
            }
            assert forall|p: Seq<char>|
                (forall|k: int|
                    0 <= k < map.groups.len() ==> (#[trigger] map.groups[k]).parent@
                        != p) implies (#[trigger] children(now, p, folders_only)).len() == 0 by {
                assert forall|k: int| 0 <= k < groups.len() implies (
                #[trigger] groups[k]).parent@ != p by {
                    assert(map.groups[k].parent@ == groups[k].parent@);
                }
                assert(children(before, p, folders_only).len() == 0);
                if is_child(item.deep_view(), p, folders_only) {
                    assert(map.groups[home].parent@ == p);
                }
            }
        }
        i += 1;
    }
    assert(all.take(i as int) =~= all);
    map
}

} // verus!
