//! What a bundle takes in, refuses and carries over.
use vstd::prelude::*;
use vstd::utf8::encode_utf8;
use crate::archive::{zip_listing, EntryView, SlotView, TarItemView, TarKind};
use crate::bundle::{
    belongs, bundle_of, bundle_path, carried, document_uuid, found_uuid_has_an_entry, gathered,
    gathering_stops, is_sidecar, metadata_uuid, retargeted, rmdoc_of, slot_name, strip_dot_slash,
    uuid_search_stops, RmdocView,
};
use crate::error::ErrorView;
use crate::text::{contains, ends_with, find_last, find_last_is_last, starts_with, trim_end, Class};
use crate::text_laws::ends_are_trimmed;

verus! {

/// Whether a name begins as those of sidecars do.
pub open spec fn begins_as_sidecar(name: Seq<char>) -> bool {
    name.len() >= 2 && name[0] == '.' && name[1] == '_'
}

/// A sidecar is known by how its own name begins, in whatever directory it is.
pub proof fn sidecars_are_known_by_name(dir: Seq<char>, name: Seq<char>)
    requires
        !name.contains('/'),
    ensures
        is_sidecar(name) <==> begins_as_sidecar(name),
        is_sidecar(dir + seq!['/'] + name) <==> begins_as_sidecar(name),
{
    let slash = Class::Only('/');
    let path = dir + seq!['/'] + name;
    find_last_is_last(name, slash);
    find_last_is_last(path, slash);
    if find_last(name, slash) >= 0 {
        assert(name.contains(name[find_last(name, slash)]));
    }
    assert(path[dir.len() as int] == '/');
    let at = find_last(path, slash);
    if at > dir.len() {
        assert(path[at] == name[at - dir.len() - 1]);
        assert(name.contains(path[at]));
    }
    assert(name.skip(0) =~= name);
    assert(path.skip(dir.len() as int + 1) =~= name);
    if begins_as_sidecar(name) {
        assert(name.take(2) =~= seq!['.', '_']);
    }
    if starts_with(name, seq!['.', '_']) {
        assert(name.take(2)[0] == '.' && name.take(2)[1] == '_');
    }
}

/// A path belongs to a document where it is its UUID, alone or with an extension or a directory behind
/// it; one that only begins like it does not.
pub proof fn files_belong_by_their_uuid(uuid: Seq<char>, rest: Seq<char>, path: Seq<char>)
    ensures
        belongs(uuid + rest, uuid) <==> rest.len() == 0 || rest[0] == '.' || rest[0] == '/',
        belongs(path, uuid) ==> path.len() >= uuid.len() && path.take(uuid.len() as int) == uuid,
{
    let both = uuid + rest;
    assert(both.take(uuid.len() as int) =~= uuid);
    if rest.len() > 0 {
        assert(both[uuid.len() as int] == rest[0]);
    }
}

/// The path of a carried file is without `./` before it and slashes behind it.
pub proof fn carried_paths_are_bare(path: Seq<char>, slashes: Seq<char>)
    requires
        path.len() > 0,
        path.last() != '/',
        !(path.len() >= 2 && path[0] == '.' && path[1] == '/'),
        path != seq!['.'] || slashes.len() == 0,
        forall|i: int| 0 <= i < slashes.len() ==> #[trigger] slashes[i] == '/',
    ensures
        bundle_path(path + slashes) == path,
        bundle_path(seq!['.', '/'] + (path + slashes)) == path,
{
    let whole = path + slashes;
    let dotted = seq!['.', '/'] + whole;
    assert(dotted.skip(2) =~= whole);
    assert(strip_dot_slash(dotted) == strip_dot_slash(whole));
    if whole.len() >= 2 && whole[0] == '.' && whole[1] == '/' {
        if path.len() == 1 {
            assert(path =~= seq!['.']);
        } else {
            assert(whole[1] == path[1]);
        }
    }
    assert(strip_dot_slash(whole) == whole);
    ends_are_trimmed(path, slashes, Class::Only('/'));
}

proof fn carried_in_a_prefix(items: Seq<TarItemView>, item: TarItemView, n: nat)
    requires
        n <= items.len(),
    ensures
        carried(items.push(item), n) == carried(items, n),
    decreases n,
{
    if n > 0 {
        carried_in_a_prefix(items, item, (n - 1) as nat);
        assert(items.push(item)[n - 1] == items[n - 1]);
    }
}

/// Files and directories of a stream are carried over one by one, in order, with their data; sidecars,
/// special files and the top directory itself are not.
pub proof fn files_and_directories_are_carried(items: Seq<TarItemView>, item: TarItemView)
    ensures
        ({
            let before = carried(items, items.len());
            let after = carried(items.push(item), items.len() + 1);
            let path = bundle_path(item.path);
            if path.len() == 0 || is_sidecar(path) || item.kind == TarKind::Special {
                after == before
            } else if item.kind == TarKind::Directory {
                after == before.push(EntryView { path, data: None, stored: false })
            } else {
                after == before.push(EntryView { path, data: Some(item.data), stored: false })
            }
        }),
        carried(items, 0).len() == 0,
{
    carried_in_a_prefix(items, item, items.len());
    assert(items.push(item)[items.len() as int] == item);
}

/// Whether an entry is the metadata of the document, at the top of the archive.
pub open spec fn is_metadata_of(name: Seq<char>, uuid: Seq<char>) -> bool {
    name == uuid + ".metadata"@ && !name.contains('/') && !begins_as_sidecar(name)
}

proof fn metadata_names_tell_the_uuid(name: Seq<char>, uuid: Seq<char>)
    ensures
        metadata_uuid(name) == Some(uuid) <==> is_metadata_of(name, uuid),
{
    let slash = Class::Only('/');
    let suffix = ".metadata"@;
    if contains(name, slash) {
        let i = choose|i: int| 0 <= i < name.len() && slash.holds(#[trigger] name[i]);
        assert(name.contains(name[i]));
    }
    if name.contains('/') {
        let i = choose|i: int| 0 <= i < name.len() && name[i] == '/';
        assert(slash.holds(name[i]));
    } else {
        sidecars_are_known_by_name(Seq::empty(), name);
    }
    if ends_with(name, suffix) {
        assert(name =~= name.take(name.len() - suffix.len()) + name.skip(
            name.len() - suffix.len(),
        ));
    }
    if name == uuid + suffix {
        assert(name.skip(name.len() - suffix.len()) =~= suffix);
        assert(name.take(name.len() - suffix.len()) =~= uuid);
    }
}

proof fn one_metadata_is_found(slots: Seq<SlotView>, n: nat, k: int, uuid: Seq<char>)
    requires
        n <= slots.len(),
        document_uuid(slots, n) is Ok,
        0 <= k < n,
        metadata_uuid(slot_name(slots[k])) == Some(uuid),
    ensures
        document_uuid(slots, n) == Ok::<Option<Seq<char>>, ErrorView>(Some(uuid)),
        forall|j: int|
            0 <= j < n && metadata_uuid(slot_name(#[trigger] slots[j])) is Some ==> j == k,
    decreases n,
{
    let m = (n - 1) as nat;
    if document_uuid(slots, m) is Err {
        uuid_search_stops(slots, m, n);
    }
    if k < m {
        one_metadata_is_found(slots, m, k, uuid);
    } else {
        if document_uuid(slots, m)->Ok_0 is Some {
            assert(false);
        }
        assert forall|j: int|
            0 <= j < m implies metadata_uuid(slot_name(#[trigger] slots[j])) is None by {
            if let Some(other) = metadata_uuid(slot_name(slots[j])) {
                one_metadata_is_found(slots, m, j, other);
            }
        }
    }
}

/// A bundle is of one document: an archive that is one has exactly one metadata entry at its top, and
/// the bundle has its UUID. An archive with none or with several is refused.
pub proof fn bundles_are_of_one_document(slots: Seq<SlotView>, i: int, j: int, a: Seq<char>, b: Seq<char>)
    ensures
        (forall|k: int, u: Seq<char>|
            0 <= k < slots.len() ==> !#[trigger] is_metadata_of(slot_name(slots[k]), u)) ==> bundle_of(
            slots,
        ) is Err,
        0 <= i < j < slots.len() && is_metadata_of(slot_name(slots[i]), a) && is_metadata_of(
            slot_name(slots[j]),
            b,
        ) ==> bundle_of(slots) is Err,
        0 <= i < slots.len() && is_metadata_of(slot_name(slots[i]), a) ==> (bundle_of(slots)
            matches Ok(rmdoc) ==> rmdoc.uuid == a),
{
    if 0 <= i < slots.len() && is_metadata_of(slot_name(slots[i]), a) {
        metadata_names_tell_the_uuid(slot_name(slots[i]), a);
        if document_uuid(slots, slots.len()) is Ok {
            one_metadata_is_found(slots, slots.len(), i, a);
            if i < j < slots.len() && is_metadata_of(slot_name(slots[j]), b) {
                metadata_names_tell_the_uuid(slot_name(slots[j]), b);
                assert(metadata_uuid(slot_name(slots[j])) is Some);
            }
        }
    }
    if (forall|k: int, u: Seq<char>|
        0 <= k < slots.len() ==> !#[trigger] is_metadata_of(slot_name(slots[k]), u))
        && bundle_of(slots) is Ok {
        let k = found_uuid_has_an_entry(slots, slots.len());
        let u = document_uuid(slots, slots.len())->Ok_0->Some_0;
        metadata_names_tell_the_uuid(slot_name(slots[k]), u);
        assert(is_metadata_of(slot_name(slots[k]), u));
    }
}

/// A bundle takes in nothing of another document: one such entry, unless it is a sidecar, and there is
/// no bundle.
pub proof fn strange_entries_are_refused(slots: Seq<SlotView>, k: int)
    requires
        0 <= k < slots.len(),
        bundle_of(slots) is Ok,
    ensures
        ({
            let path = trim_end(slot_name(slots[k]), Class::Only('/'));
            path.len() == 0 || is_sidecar(path) || belongs(path, bundle_of(slots)->Ok_0.uuid)
        }),
{
    let uuid = document_uuid(slots, slots.len())->Ok_0->Some_0;
    let path = trim_end(slot_name(slots[k]), Class::Only('/'));
    if path.len() > 0 && !is_sidecar(path) && !belongs(path, uuid) {
        if gathered(slots, k as nat, uuid) is Err {
            gathering_stops(slots, k as nat, slots.len(), uuid);
        }
        assert(gathered(slots, (k + 1) as nat, uuid) is Err);
        gathering_stops(slots, (k + 1) as nat, slots.len(), uuid);
    }
}

/// Under a new UUID every file of a bundle keeps its data and what stands behind the UUID in its path.
pub proof fn files_move_with_their_data(
    rmdoc: RmdocView,
    new_uuid: Seq<char>,
    text: Seq<char>,
    i: int,
    rest: Seq<char>,
)
    requires
        0 <= i < rmdoc.files.len(),
        rmdoc.files[i].path == rmdoc.uuid + rest,
    ensures
        retargeted(rmdoc, new_uuid, text).len() == rmdoc.files.len() + 1,
        retargeted(rmdoc, new_uuid, text)[i] == (EntryView {
            path: new_uuid + rest,
            data: rmdoc.files[i].data,
            stored: false,
        }),
        retargeted(rmdoc, new_uuid, text).last() == (EntryView {
            path: new_uuid + ".metadata"@,
            data: Some(encode_utf8(text)),
            stored: false,
        }),
{
    assert((rmdoc.uuid + rest).skip(rmdoc.uuid.len() as int) =~= rest);
}

/// Bytes are a bundle where they are an archive whose entries are one; what is wrong with an archive is
/// told as it is.
pub proof fn bundles_are_archives(bytes: Seq<u8>)
    ensures
        match zip_listing(bytes) {
            Ok(slots) => rmdoc_of(bytes) == bundle_of(slots),
            Err(message) => rmdoc_of(bytes) == Err::<RmdocView, ErrorView>(
                ErrorView::Bundle(message),
            ),
        },
{
}

} // verus!
