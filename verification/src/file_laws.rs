//! What file names, paths and arguments mean, by the parts they are made of.
use vstd::prelude::*;
use crate::cli::{
    identity_of, password_in, policy_for, root_of, suffix_of, summary_of, ConflictArg, RootView,
};
use crate::error::ErrorView;
use crate::execute::Outcome;
use crate::number::decimal;
use crate::reorganize::new_name_of;
use crate::resolve::resolved_folder;
use crate::snapshot::{ascii_lowercase, kind_of_name, step_of, StepView};
use crate::sync::{
    endpoint_of, extension_of, joined, kind_of_extension, prefixes, prefixes_before, pulled_as,
    pulled_extension, split_dir, stem_of, target_of, ConflictPolicy, DocKind, EndpointView,
    RemoteType,
};
use crate::text::{
    contains, find, find_is_first, find_last, find_last_is_last, find_unique, Class,
};
use crate::text_laws::{
    edges_are_trimmed, ends_are_trimmed, is_all, is_free_of, last_cuts, newlines_end_lines,
};
use crate::transfer::{lowered_texts_are_spelled, spells};
use crate::xochitl::ItemView;

verus! {

/// The extension of a file is what stands behind its last dot, and its name what stands before it.
pub proof fn names_end_before_their_extension(stem: Seq<char>, extension: Seq<char>)
    requires
        stem.len() > 0,
        !extension.contains('.'),
        stem != seq!['.'] || extension.len() > 0,
    ensures
        stem_of(stem + seq!['.'] + extension) == stem,
        extension_of(stem + seq!['.'] + extension) == Some(extension),
{
    let name = stem + seq!['.'] + extension;
    let dot = Class::Only('.');
    assert(is_free_of(extension, dot)) by {
        assert forall|i: int| 0 <= i < extension.len() implies !dot.holds(
            #[trigger] extension[i],
        ) by {
            assert(extension.contains(extension[i]));
        }
    }
    last_cuts(stem, '.', extension, dot);
    find_last_is_last(name, dot);
    let at = find_last(name, dot);
    if at > stem.len() {
        assert(name[at] == extension[at - stem.len() - 1]);
    }
    assert(name[stem.len() as int] == '.');
    assert(at == stem.len());
    if name == seq!['.', '.'] {
        assert(stem =~= seq!['.']);
        assert(extension.len() == 0);
    }
    assert(name.take(stem.len() as int) =~= stem);
    assert(name.skip(stem.len() as int + 1) =~= extension);
}

/// A name without a dot, and one whose only dot is its first character, has no extension.
pub proof fn hidden_files_have_no_extension(name: Seq<char>)
    requires
        !name.contains('.'),
    ensures
        stem_of(name) == name,
        extension_of(name) is None,
        stem_of(seq!['.'] + name) == seq!['.'] + name,
        extension_of(seq!['.'] + name) is None,
{
    let dot = Class::Only('.');
    let hidden = seq!['.'] + name;
    find_last_is_last(name, dot);
    find_last_is_last(hidden, dot);
    if find_last(name, dot) >= 0 {
        assert(name.contains(name[find_last(name, dot)]));
    }
    if find_last(hidden, dot) > 0 {
        let at = find_last(hidden, dot);
        assert(hidden[at] == name[at - 1]);
        assert(name.contains(name[at - 1]));
    }
}

/// A path in a directory is split into the two, and one without a slash is in no directory.
pub proof fn paths_split_where_they_were_joined(dir: Seq<char>, name: Seq<char>)
    requires
        !name.contains('/'),
    ensures
        split_dir(joined(dir, name)) == (dir, name),
        dir.len() > 0 ==> joined(dir, name) == dir + seq!['/'] + name,
        dir.len() == 0 ==> joined(dir, name) == name,
{
    reveal_strlit("/");
    assert("/"@ =~= seq!['/']);
    let slash = Class::Only('/');
    assert(is_free_of(name, slash)) by {
        assert forall|i: int| 0 <= i < name.len() implies !slash.holds(#[trigger] name[i]) by {
            assert(name.contains(name[i]));
        }
    }
    last_cuts(dir, '/', name, slash);
    assert(dir.len() == 0 ==> dir =~= Seq::empty());
}

/// A local file goes to the device directory of the same path, under its name without its extension.
pub proof fn files_keep_their_place(dir: Seq<char>, stem: Seq<char>, extension: Seq<char>)
    requires
        stem.len() > 0,
        !stem.contains('/'),
        !extension.contains('/'),
        !extension.contains('.'),
        stem != seq!['.'] || extension.len() > 0,
    ensures
        target_of(joined(dir, stem + seq!['.'] + extension)) == (dir, stem),
{
    let name = stem + seq!['.'] + extension;
    assert(!name.contains('/')) by {
        if name.contains('/') {
            let i = choose|i: int| 0 <= i < name.len() && name[i] == '/';
            if i < stem.len() {
                assert(stem[i] == '/');
            } else {
                assert(extension[i - stem.len() - 1] == '/');
            }
        }
    }
    paths_split_where_they_were_joined(dir, name);
    names_end_before_their_extension(stem, extension);
}

/// A file is synced by its extension, and what a pull writes is read back as the kind it was pulled
/// as.
pub proof fn kinds_go_by_extension(extension: Seq<char>, doc_type: RemoteType)
    ensures
        kind_of_extension(extension) == Some(DocKind::Pdf) <==> extension == "pdf"@,
        kind_of_extension(extension) == Some(DocKind::Epub) <==> extension == "epub"@,
        kind_of_extension(extension) == Some(DocKind::Markdown) <==> extension == "md"@ || extension
            == "markdown"@,
        kind_of_extension(extension) == Some(DocKind::Text) <==> extension == "txt"@,
        kind_of_extension(extension) == Some(DocKind::Rmdoc) <==> extension == "rmdoc"@,
        kind_of_extension(pulled_extension(doc_type)) == Some(pulled_as(doc_type)),
        pulled_as(doc_type) == DocKind::Rmdoc <==> doc_type == RemoteType::Notebook,
        pulled_as(doc_type) == DocKind::Pdf <==> doc_type == RemoteType::Pdf,
        pulled_as(doc_type) == DocKind::Epub <==> doc_type == RemoteType::Epub,
{
    reveal_strlit("pdf");
    reveal_strlit("epub");
    reveal_strlit("md");
    reveal_strlit("markdown");
    reveal_strlit("txt");
    reveal_strlit("rmdoc");
    assert("pdf"@.len() == 3 && "pdf"@[0] == 'p');
    assert("txt"@.len() == 3 && "txt"@[0] == 't');
    assert("epub"@.len() == 4 && "md"@.len() == 2 && "markdown"@.len() == 8 && "rmdoc"@.len() == 5);
}

proof fn prefixes_end_before_slashes(path: Seq<char>, n: nat, p: Seq<char>)
    requires
        n <= path.len(),
    ensures
        prefixes_before(path, n).contains(p) <==> exists|i: int|
            0 <= i < n && #[trigger] path[i] == '/' && p == path.take(i),
        forall|i: int, j: int|
            0 <= i < j < prefixes_before(path, n).len() ==> (#[trigger] prefixes_before(
                path,
                n,
            )[i]).len() < (#[trigger] prefixes_before(path, n)[j]).len(),
        forall|i: int|
            0 <= i < prefixes_before(path, n).len() ==> (#[trigger] prefixes_before(path, n)[i]).len()
                < n,
    decreases n,
{
    if n > 0 {
        let before = prefixes_before(path, (n - 1) as nat);
        let all = prefixes_before(path, n);
        prefixes_end_before_slashes(path, (n - 1) as nat, p);
        if before.contains(p) {
            let k = choose|k: int| 0 <= k < before.len() && before[k] == p;
            assert(all[k] == p);
            let i = choose|i: int| 0 <= i < n - 1 && #[trigger] path[i] == '/' && p == path.take(i);
            assert(path[i] == '/');
        }
        if all.contains(p) && !before.contains(p) {
            let k = choose|k: int| 0 <= k < all.len() && all[k] == p;
            if k < before.len() {
                assert(before[k] == p);
            }
            assert(path[n - 1] == '/');
        }
        if path[n - 1] == '/' && p == path.take(n - 1) {
            assert(all[before.len() as int] == p);
        }
    }
}

/// The directories on the way to a path, from the outermost on, are what stands before each of its
/// slashes, and the path itself.
pub proof fn ways_go_through_all_directories(path: Seq<char>, dir: Seq<char>)
    requires
        path.len() > 0,
    ensures
        prefixes(path).contains(dir) <==> dir == path || exists|i: int|
            0 <= i < path.len() && #[trigger] path[i] == '/' && dir == path.take(i),
        forall|i: int, j: int|
            0 <= i < j < prefixes(path).len() ==> (#[trigger] prefixes(path)[i]).len() < (
            #[trigger] prefixes(path)[j]).len(),
        prefixes(path).last() == path,
        prefixes(Seq::empty()).len() == 0,
{
    let before = prefixes_before(path, path.len());
    let all = prefixes(path);
    prefixes_end_before_slashes(path, path.len(), dir);
    if before.contains(dir) {
        let k = choose|k: int| 0 <= k < before.len() && before[k] == dir;
        assert(all[k] == dir);
    }
    if all.contains(dir) && dir != path {
        let k = choose|k: int| 0 <= k < all.len() && all[k] == dir;
        assert(before[k] == dir);
    }
    assert(all[before.len() as int] == path);
}

/// An argument with a colon behind a host is a path on that host; the host is not empty and has no
/// slash. Everything else is a local path.
pub proof fn hosts_stand_before_a_colon(host: Seq<char>, path: Seq<char>, arg: Seq<char>)
    requires
        !host.contains(':'),
        !arg.contains(':'),
    ensures
        host.len() > 0 && !host.contains('/') ==> endpoint_of(host + seq![':'] + path)
            == (EndpointView::Remote { destination: host, path }),
        host.len() == 0 || host.contains('/') ==> endpoint_of(host + seq![':'] + path)
            == EndpointView::Local(host + seq![':'] + path),
        endpoint_of(arg) == EndpointView::Local(arg),
{
    let colon = Class::Only(':');
    let slash = Class::Only('/');
    let both = host + seq![':'] + path;
    assert forall|i: int| 0 <= i < host.len() implies !colon.holds(#[trigger] both[i]) by {
        assert(both[i] == host[i]);
        assert(host.contains(host[i]));
    }
    assert(both[host.len() as int] == ':');
    find_unique(both, colon, host.len() as int);
    assert(both.take(host.len() as int) =~= host);
    assert(both.skip(host.len() as int + 1) =~= path);
    if contains(host, slash) {
        let i = choose|i: int| 0 <= i < host.len() && slash.holds(#[trigger] host[i]);
        assert(host.contains(host[i]));
    }
    if host.contains('/') {
        let i = choose|i: int| 0 <= i < host.len() && host[i] == '/';
        assert(slash.holds(host[i]));
    }
    find_is_first(arg, colon);
    if find(arg, colon) < arg.len() {
        assert(arg.contains(arg[find(arg, colon)]));
    }
}

/// The first argument is the side that wins by `src` and the second the one that wins by `dst`,
/// whichever of them the options call local.
pub proof fn winners_are_the_arguments_named(src_is_local: bool)
    ensures
        policy_for(ConflictArg::Src, src_is_local) == ConflictPolicy::PreferLocal <==> src_is_local,
        policy_for(ConflictArg::Src, src_is_local) == ConflictPolicy::PreferRemote
            <==> !src_is_local,
        policy_for(ConflictArg::Dst, src_is_local) == ConflictPolicy::PreferRemote <==> src_is_local,
        policy_for(ConflictArg::Dst, src_is_local) == ConflictPolicy::PreferLocal <==> !src_is_local,
        policy_for(ConflictArg::Skip, src_is_local) == ConflictPolicy::Skip,
        policy_for(ConflictArg::Newest, src_is_local) == ConflictPolicy::Newest,
{
}

/// The synced folder of a tablet is the one that its path means. Only a path that leads nowhere, on a
/// side that is written to, is made; every other failure stays one.
pub proof fn missing_roots_are_made_where_written(
    items: Seq<ItemView>,
    path: Seq<char>,
    written: bool,
)
    ensures
        resolved_folder(items, path) matches Ok(uuid) ==> root_of(items, path, written) == Ok::<
            RootView,
            ErrorView,
        >(RootView::Found(uuid)),
        resolved_folder(items, path) matches Err(e) ==> (root_of(items, path, written) == Ok::<
            RootView,
            ErrorView,
        >(RootView::Missing) <==> written && e is PathNotFound),
        resolved_folder(items, path) matches Err(e) ==> !(written && e is PathNotFound) ==> root_of(
            items,
            path,
            written,
        ) == Err::<RootView, ErrorView>(e),
{
}

/// A folder on a host has one identity, however many slashes end its path.
pub proof fn slashes_do_not_change_identities(
    destination: Seq<char>,
    path: Seq<char>,
    slashes: Seq<char>,
)
    requires
        path.len() > 0 ==> path.last() != '/',
        forall|i: int| 0 <= i < slashes.len() ==> #[trigger] slashes[i] == '/',
    ensures
        identity_of(destination, path + slashes) == destination + ":"@ + path,
{
    ends_are_trimmed(path, slashes, Class::Only('/'));
}

/// The password of a file is its first line; what stands behind it is not part of it.
pub proof fn passwords_are_the_first_line(password: Seq<char>, rest: Seq<char>)
    requires
        !password.contains('\n'),
        password.len() > 0 ==> password.last() != '\r',
    ensures
        password_in(password + seq!['\n'] + rest) == password,
        password_in(password + seq!['\r', '\n'] + rest) == password,
        password_in(password) == password,
{
    newlines_end_lines(password, rest);
    let dos = password.push('\r');
    assert(!dos.contains('\n')) by {
        if dos.contains('\n') {
            let i = choose|i: int| 0 <= i < dos.len() && dos[i] == '\n';
            assert(password[i] == '\n');
        }
    }
    newlines_end_lines(dos, rest);
    assert(dos.drop_last() =~= password);
    assert(password + seq!['\r', '\n'] + rest =~= dos + seq!['\n'] + rest);
    assert(password.len() == 0 ==> password =~= Seq::empty());
}

/// A folder is marked by a slash and a document by its type, where it is known.
pub proof fn items_are_marked_by_kind(item: ItemView)
    ensures
        item.is_folder() ==> suffix_of(item) == "/"@,
        !item.is_folder() && item.file_type is None ==> suffix_of(item).len() == 0,
        !item.is_folder() ==> (item.file_type matches Some(t) ==> suffix_of(item) == " ("@ + t
            + ")"@),
{
}

/// The summary of a sync names every count once; what was deleted is what was deleted on either side.
pub proof fn summaries_name_every_count(outcome: Outcome, emptied: nat, ignored: nat)
    ensures
        summary_of(outcome, emptied, ignored) == "Sync complete: "@ + decimal(
            outcome.uploaded as nat,
        ) + " uploaded, "@ + decimal(outcome.updated as nat) + " updated, "@ + decimal(
            outcome.downloaded as nat,
        ) + " downloaded, "@ + decimal((outcome.deleted_local + outcome.deleted_remote) as nat)
            + " deleted ("@ + decimal(outcome.deleted_local as nat) + " local / "@ + decimal(
            outcome.deleted_remote as nat,
        ) + " device), "@ + decimal(outcome.folders_created as nat) + " folder(s) created, "@
            + decimal(emptied) + " emptied folder(s) removed, "@ + decimal(
            outcome.conflicts.len() as nat,
        ) + " conflict(s), "@ + decimal(outcome.skipped.len() as nat) + " skipped, "@ + decimal(
            ignored,
        ) + " unsupported file(s) ignored."@,
{
}

/// The kind of a file goes by its extension in any case; a file without one is not synced.
pub proof fn kinds_go_by_name(stem: Seq<char>, extension: Seq<char>, name: Seq<char>)
    requires
        stem.len() > 0,
        !extension.contains('.'),
        stem != seq!['.'] || extension.len() > 0,
        !name.contains('.'),
    ensures
        ({
            let kind = kind_of_name(stem + seq!['.'] + extension);
            &&& kind == Some(DocKind::Pdf) <==> spells(extension, "pdf"@)
            &&& kind == Some(DocKind::Epub) <==> spells(extension, "epub"@)
            &&& kind == Some(DocKind::Markdown) <==> spells(extension, "md"@) || spells(
                extension,
                "markdown"@,
            )
            &&& kind == Some(DocKind::Text) <==> spells(extension, "txt"@)
            &&& kind == Some(DocKind::Rmdoc) <==> spells(extension, "rmdoc"@)
            &&& kind_of_name(name) is None
            &&& kind_of_name(seq!['.'] + name) is None
        }),
{
    names_end_before_their_extension(stem, extension);
    hidden_files_have_no_extension(name);
    reveal_strlit("pdf");
    reveal_strlit("epub");
    reveal_strlit("md");
    reveal_strlit("markdown");
    reveal_strlit("txt");
    reveal_strlit("rmdoc");
    lowered_texts_are_spelled(extension, "pdf"@);
    lowered_texts_are_spelled(extension, "epub"@);
    lowered_texts_are_spelled(extension, "md"@);
    lowered_texts_are_spelled(extension, "markdown"@);
    lowered_texts_are_spelled(extension, "txt"@);
    lowered_texts_are_spelled(extension, "rmdoc"@);
    kinds_go_by_extension(ascii_lowercase(extension), RemoteType::Pdf);
}

/// A new name is used without the white space around it; it is refused where nothing is left of it, or
/// where it holds a slash.
pub proof fn names_are_trimmed_and_checked(front: Seq<char>, name: Seq<char>, back: Seq<char>)
    requires
        is_all(front, Class::White),
        is_all(back, Class::White),
        name.len() > 0 ==> !Class::White.holds(name[0]) && !Class::White.holds(name.last()),
    ensures
        new_name_of(front + name + back) == if name.len() == 0 {
            Err::<Seq<char>, ErrorView>(ErrorView::InvalidName("name cannot be empty"@))
        } else if name.contains('/') {
            Err(ErrorView::InvalidName("name cannot contain '/'"@))
        } else {
            Ok(name)
        },
{
    edges_are_trimmed(front, name, back, Class::White);
    let slash = Class::Only('/');
    if contains(name, slash) {
        let i = choose|i: int| 0 <= i < name.len() && slash.holds(#[trigger] name[i]);
        assert(name.contains(name[i]));
    }
    if name.contains('/') {
        let i = choose|i: int| 0 <= i < name.len() && name[i] == '/';
        assert(slash.holds(name[i]));
    }
}

/// A local directory is read entry by entry: what begins with a dot is passed over, every other directory
/// is gone into, a file of a known kind is taken under its path, and any other file is counted as
/// ignored. What is neither a file nor a directory is passed over.
pub proof fn local_entries_are_taken_by_kind(
    prefix: Seq<char>,
    name: Seq<char>,
    is_dir: bool,
    is_file: bool,
)
    requires
        name.len() > 0,
    ensures
        ({
            let path = if prefix.len() == 0 {
                name
            } else {
                prefix + "/"@ + name
            };
            let step = step_of(prefix, name, is_dir, is_file);
            &&& name[0] == '.' ==> step is Pass
            &&& name[0] != '.' && is_dir ==> step == StepView::Enter(path)
            &&& name[0] != '.' && !is_dir && !is_file ==> step is Pass
            &&& name[0] != '.' && !is_dir && is_file ==> (kind_of_name(name) matches Some(kind)
                ==> step == StepView::Take(path, kind))
            &&& name[0] != '.' && !is_dir && is_file && kind_of_name(name) is None ==> step is Ignore
        }),
{
}

} // verus!
