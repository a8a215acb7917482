//! How items are listed, ordered and named by their paths.
use vstd::prelude::*;
use vstd::utf8::encode_utf8;
use crate::json::{json_of, JsonView};
use crate::listing::{
    items_of, list_command, listed, listed_item, size_of_line, sized, ListingView,
};
use crate::metadata::item_of;
use crate::number::parse_nat;
use crate::pathmap::{keys, put_sets_one_key, value_of};
use crate::ssh::quoted;
use crate::text::{ascending, ends_with, join, lex_lt, lines, Class};
use crate::text_laws::{edges_are_trimmed, first_cuts, is_free_of};
use crate::tree::{children, children_are_sorted_and_complete, lowercase, precedes};
use crate::walk::{lineage, logical_path, lookup, path_names};
use crate::xochitl::{ItemKind, ItemView};

verus! {

/// Siblings are shown with the folders first, each kind in the order of their lowercase names, and
/// those of the same name in the order of their UUIDs.
pub proof fn siblings_are_shown_in_order(
    items: Seq<ItemView>,
    parent: Seq<char>,
    folders_only: bool,
    i: int,
    j: int,
)
    requires
        0 <= i < j < children(items, parent, folders_only).len(),
    ensures
        ({
            let a = children(items, parent, folders_only)[i];
            let b = children(items, parent, folders_only)[j];
            &&& b.is_folder() ==> a.is_folder()
            &&& a.is_folder() == b.is_folder() ==> !lex_lt(
                lowercase(b.visible_name),
                lowercase(a.visible_name),
            ) || lowercase(a.visible_name) == lowercase(b.visible_name)
            &&& a.is_folder() == b.is_folder() && lowercase(a.visible_name) == lowercase(
                b.visible_name,
            ) ==> !lex_lt(b.uuid, a.uuid)
        }),
{
    children_are_sorted_and_complete(items, parent, folders_only);
    let a = children(items, parent, folders_only)[i];
    let b = children(items, parent, folders_only)[j];
    assert(!precedes(b, a));
}

/// Every item with the parent is shown under it, and nothing else is; where only folders are asked
/// for, only those are.
pub proof fn siblings_have_the_same_parent(
    items: Seq<ItemView>,
    parent: Seq<char>,
    folders_only: bool,
    x: ItemView,
)
    ensures
        children(items, parent, folders_only).contains(x) <==> items.contains(x) && x.parent
            == parent && (x.is_folder() || !folders_only),
{
    crate::tree::children_membership(items, parent, folders_only, x);
}

proof fn whole_lineages_stay(items: Seq<ItemView>, item: ItemView, n: nat)
    requires
        lineage(items, item, n).len() < n,
    ensures
        lineage(items, item, n + 1) == lineage(items, item, n),
    decreases n,
{
    if let Some(parent) = lookup(items, item.parent) {
        let rest = lineage(items, parent, (n - 1) as nat);
        assert(lineage(items, item, n) == seq![item] + rest);
        whole_lineages_stay(items, parent, (n - 1) as nat);
    }
}

/// The path of an item is that of its folder, a slash and its name; an item that is in no listed
/// folder has only its name behind the slash. Parents that form a cycle have no such path.
pub proof fn paths_go_through_the_folder(items: Seq<ItemView>, item: ItemView, parent: ItemView)
    requires
        lineage(items, item, items.len() + 1).len() <= items.len(),
    ensures
        lookup(items, item.parent) is None ==> logical_path(items, item) == seq!['/']
            + item.visible_name,
        lookup(items, item.parent) == Some(parent) ==> logical_path(items, item) == logical_path(
            items,
            parent,
        ) + seq!['/'] + item.visible_name,
{
    let n = items.len();
    let up = lineage(items, item, n + 1);
    let names = path_names(items, item, n + 1);
    match lookup(items, item.parent) {
        None => {
            assert(up =~= seq![item]);
            assert(names =~= seq![item.visible_name]);
            assert(join(names, seq!['/']) =~= item.visible_name) by {
                assert(names.drop_last() =~= Seq::<Seq<char>>::empty());
            }
        },
        Some(p) => {
            let rest = lineage(items, p, n);
            assert(up =~= seq![item] + rest);
            whole_lineages_stay(items, p, n);
            let above = path_names(items, p, n + 1);
            assert(names =~= above.push(item.visible_name)) by {
                assert forall|i: int| 0 <= i < above.len() implies names[i] == above[i] by {
                    assert(up[up.len() - 1 - i] == rest[rest.len() - 1 - i]);
                }
            }
            assert(names.drop_last() =~= above);
            assert(above.len() > 0);
            assert(join(names, seq!['/']) == join(above, seq!['/']) + seq!['/']
                + item.visible_name);
            assert(logical_path(items, item) =~= logical_path(items, p) + seq!['/']
                + item.visible_name);
        },
    }
}

/// A line about a payload is its size and its name.
pub proof fn sizes_stand_before_their_files(size: Seq<char>, name: Seq<char>)
    requires
        size.len() > 0,
        is_free_of(size, Class::White),
    ensures
        size_of_line(size + seq![' '] + name) == match parse_nat(size, u64::MAX as nat) {
            Some(n) => Some((name, n as u64)),
            None => None,
        },
{
    let none = Seq::<char>::empty();
    assert(is_free_of(size, Class::Only(' '))) by {
        assert forall|i: int| 0 <= i < size.len() implies !Class::Only(' ').holds(
            #[trigger] size[i],
        ) by {
            assert(!Class::White.holds(size[i]));
        }
    }
    first_cuts(size, ' ', name, Class::Only(' '));
    assert(!Class::White.holds(size[0]) && !Class::White.holds(size[size.len() - 1]));
    edges_are_trimmed(none, size, none, Class::White);
    assert(none + size + none =~= size);
}

proof fn listed_in_a_prefix(
    found: Seq<(Seq<char>, Seq<char>)>,
    more: (Seq<char>, Seq<char>),
    n: nat,
)
    requires
        n <= found.len(),
    ensures
        listed(found.push(more), n) == listed(found, n),
        ascending(keys(listed(found, n).metadata)),
        ascending(keys(listed(found, n).content)),
    decreases n,
{
    if n > 0 {
        listed_in_a_prefix(found, more, (n - 1) as nat);
        assert(found.push(more)[n - 1] == found[n - 1]);
        let before = listed(found, (n - 1) as nat);
        let (name, body) = found[n - 1];
        let uuid = name.take(name.len() - ".metadata"@.len());
        let other = name.take(name.len() - ".content"@.len());
        put_sets_one_key(before.metadata, uuid, body);
        put_sets_one_key(before.content, other, body);
    }
}

/// A section of a listing counts by its name: a metadata or a content file under its UUID, the sizes
/// line by line, and any other section not at all.
pub proof fn sections_count_by_their_names(
    found: Seq<(Seq<char>, Seq<char>)>,
    uuid: Seq<char>,
    name: Seq<char>,
    body: Seq<char>,
    other: Seq<char>,
)
    requires
        other != uuid,
        name != "__sizes__"@,
        !ends_with(name, ".metadata"@),
        !ends_with(name, ".content"@),
    ensures
        ({
            let n = found.len();
            let before = listed(found, n);
            let described = listed(found.push((uuid + ".metadata"@, body)), n + 1);
            let filled = listed(found.push((uuid + ".content"@, body)), n + 1);
            let measured = listed(found.push(("__sizes__"@, body)), n + 1);
            let stray = listed(found.push((name, body)), n + 1);
            &&& value_of(described.metadata, uuid) == Some(body)
            &&& value_of(described.metadata, other) == value_of(before.metadata, other)
            &&& described.content == before.content && described.sizes == before.sizes
            &&& value_of(filled.content, uuid) == Some(body)
            &&& value_of(filled.content, other) == value_of(before.content, other)
            &&& filled.metadata == before.metadata && filled.sizes == before.sizes
            &&& measured.metadata == before.metadata && measured.content == before.content
            &&& measured.sizes == sized(before.sizes, lines(body), lines(body).len())
            &&& stray == before
        }),
{
    reveal_strlit(".metadata");
    reveal_strlit(".content");
    reveal_strlit("__sizes__");
    let n = found.len();
    let before = listed(found, n);
    let m = (uuid + ".metadata"@, body);
    let c = (uuid + ".content"@, body);
    listed_in_a_prefix(found, m, n);
    listed_in_a_prefix(found, c, n);
    listed_in_a_prefix(found, ("__sizes__"@, body), n);
    listed_in_a_prefix(found, (name, body), n);
    assert(found.push(m)[n as int] == m);
    assert(found.push(c)[n as int] == c);
    assert(found.push(("__sizes__"@, body))[n as int] == ("__sizes__"@, body));
    assert(found.push((name, body))[n as int] == (name, body));
    assert(".metadata"@.len() == 9 && ".content"@.len() == 8 && "__sizes__"@.len() == 9);
    assert(m.0.last() == 'a' && c.0.last() == 't' && "__sizes__"@.last() == '_');
    assert(m.0.skip(m.0.len() - 9) =~= ".metadata"@);
    assert(m.0.take(m.0.len() - 9) =~= uuid);
    assert(c.0.skip(c.0.len() - 8) =~= ".content"@);
    assert(c.0.take(c.0.len() - 8) =~= uuid);
    assert(".metadata"@.last() == 'a');
    if ends_with(c.0, ".metadata"@) {
        assert(c.0.skip(c.0.len() - 9).last() == c.0.last());
    }
    put_sets_one_key(before.metadata, uuid, body);
    put_sets_one_key(before.content, uuid, body);
}

/// The items of a listing are exactly those that its metadata files describe, by their own content and
/// the size of their own payload; metadata that cannot be read describes none.
pub proof fn items_are_described_by_their_files(
    listing: ListingView,
    uuid: Seq<char>,
    body: Seq<char>,
    json: JsonView,
)
    requires
        value_of(listing.metadata, uuid) == Some(body),
    ensures
        json_of(encode_utf8(body)) is Err ==> listed_item(listing, uuid) is None,
        json_of(encode_utf8(body)) == Ok::<JsonView, Seq<char>>(json) ==> {
            &&& value_of(listing.content, uuid) is None ==> listed_item(listing, uuid) == item_of(
                uuid,
                json,
                None,
                None,
            )
            &&& value_of(listing.content, uuid) matches Some(text) ==> match json_of(
                encode_utf8(text),
            ) {
                Err(_) => listed_item(listing, uuid) == item_of(uuid, json, None, None),
                Ok(content) => listed_item(listing, uuid) == item_of(
                    uuid,
                    json,
                    Some(content),
                    match content.some_text("fileType"@) {
                        Some(t) => value_of(listing.sizes, uuid + "."@ + t),
                        None => None,
                    },
                ),
            }
        },
{
}

/// Every metadata file that describes an item gives that item, and nothing else does.
pub proof fn listed_items_are_all_described(listing: ListingView, n: nat, x: ItemView)
    requires
        n <= listing.metadata.len(),
    ensures
        items_of(listing, n).contains(x) <==> exists|k: int|
            0 <= k < n && listed_item(listing, (#[trigger] listing.metadata[k]).0) == Some(x),
    decreases n,
{
    if n > 0 {
        let m = (n - 1) as nat;
        listed_items_are_all_described(listing, m, x);
        let before = items_of(listing, m);
        let all = items_of(listing, n);
        if before.contains(x) {
            let i = choose|i: int| 0 <= i < before.len() && before[i] == x;
            assert(all[i] == x);
            let k = choose|k: int|
                0 <= k < m && listed_item(listing, (#[trigger] listing.metadata[k]).0) == Some(x);
            assert(listed_item(listing, listing.metadata[k].0) == Some(x));
        }
        if all.contains(x) && !before.contains(x) {
            let i = choose|i: int| 0 <= i < all.len() && all[i] == x;
            if i < before.len() {
                assert(before[i] == x);
            }
            assert(listed_item(listing, listing.metadata[n - 1].0) == Some(x));
        }
        if listed_item(listing, listing.metadata[n - 1].0) == Some(x) {
            assert(all[before.len() as int] == x);
        }
    }
}

/// The script behind a listing prints every metadata and content file behind a marked line of its name,
/// and then the size and the name of every payload.
pub proof fn listings_print_all_files(dir: Seq<char>, marker: Seq<char>)
    ensures
        list_command(dir, marker) == "cd "@ + quoted(dir)
            + " || exit 9\nfor f in *.metadata *.content; do\n[ -f \"$f\" ] || continue\nprintf '\\n%s %s\\n' "@
            + quoted(marker) + " \"$f\"\ncat \"$f\"\ndone\nprintf '\\n%s __sizes__\\n' "@ + quoted(
            marker,
        )
            + "\nfor f in *.pdf *.epub; do\n[ -f \"$f\" ] || continue\nprintf '%s %s\\n' \"$(wc -c < \"$f\")\" \"$f\"\ndone\n"@,
{
}

/// A folder is an item of the kind of folders, and every other one is a document.
pub proof fn folders_are_known_by_kind(item: ItemView)
    ensures
        item.is_folder() <==> item.kind == ItemKind::Folder,
        !item.is_folder() <==> item.kind == ItemKind::Document,
{
}

/// Every line of sizes counts; of several about one file, the last one does.
pub proof fn every_size_counts(
    sizes: Seq<(Seq<char>, u64)>,
    ls: Seq<Seq<char>>,
    line: Seq<char>,
    name: Seq<char>,
)
    requires
        ascending(keys(sizes)),
    ensures
        sized(sizes, ls, 0) == sizes,
        ({
            let before = sized(sizes, ls, ls.len());
            let after = sized(sizes, ls.push(line), ls.len() + 1);
            value_of(after, name) == match size_of_line(line) {
                Some((file, size)) => if file == name {
                    Some(size)
                } else {
                    value_of(before, name)
                },
                None => value_of(before, name),
            }
        }),
{
    sized_by_a_prefix(sizes, ls, line, ls.len());
    assert(ls.push(line)[ls.len() as int] == line);
    if let Some((file, size)) = size_of_line(line) {
        put_sets_one_key(sized(sizes, ls, ls.len()), file, size);
    }
}

proof fn sized_by_a_prefix(
    sizes: Seq<(Seq<char>, u64)>,
    ls: Seq<Seq<char>>,
    line: Seq<char>,
    n: nat,
)
    requires
        ascending(keys(sizes)),
        n <= ls.len(),
    ensures
        sized(sizes, ls.push(line), n) == sized(sizes, ls, n),
        ascending(keys(sized(sizes, ls, n))),
    decreases n,
{
    if n > 0 {
        sized_by_a_prefix(sizes, ls, line, (n - 1) as nat);
        assert(ls.push(line)[n - 1] == ls[n - 1]);
        if let Some((file, size)) = size_of_line(ls[n - 1]) {
            put_sets_one_key(sized(sizes, ls, (n - 1) as nat), file, size);
        }
    }
}

} // verus!
