//! What the command line means, and how results are put into words.
use vstd::prelude::*;
use crate::error::{agrees, Error, ErrorView};
use crate::execute::Outcome;
use crate::number::{decimal, show_u64};
use crate::resolve::{display_parent, resolve_folder_ref, resolved_folder, shown_parent};
use crate::sync::{ConflictPolicy, Mode, SyncOptions};
use crate::text::{
    cat, cat3, cat5, from_chars, lines, lines_in, pieces, to_chars, trim_end, trim_end_in, Class,
};
use crate::xochitl::{Item, ItemView};

verus! {

/// Which side wins a conflict, in terms of the arguments.
#[derive(Debug, Clone, Copy, PartialEq, Eq, Structural)]
pub enum ConflictArg {
    /// Report conflicts and change nothing.
    Skip,
    /// The side with the newer timestamp wins.
    Newest,
    /// The first argument's side wins.
    Src,
    /// The second argument's side wins.
    Dst,
}

/// The policy that a choice stands for, given whether the first argument is the local side.
pub open spec fn policy_for(conflict: ConflictArg, src_is_local_side: bool) -> ConflictPolicy {
    match conflict {
        ConflictArg::Skip => ConflictPolicy::Skip,
        ConflictArg::Newest => ConflictPolicy::Newest,
        ConflictArg::Src => if src_is_local_side {
            ConflictPolicy::PreferLocal
        } else {
            ConflictPolicy::PreferRemote
        },
        ConflictArg::Dst => if src_is_local_side {
            ConflictPolicy::PreferRemote
        } else {
            ConflictPolicy::PreferLocal
        },
    }
}

/// The policy that a choice stands for, given whether the first argument is the local side.
pub fn map_conflict(conflict: ConflictArg, src_is_local_side: bool) -> (r: ConflictPolicy)
    ensures
        r == policy_for(conflict, src_is_local_side),
{
    match conflict {
        ConflictArg::Skip => ConflictPolicy::Skip,
        ConflictArg::Newest => ConflictPolicy::Newest,
        ConflictArg::Src => if src_is_local_side {
            ConflictPolicy::PreferLocal
        } else {
            ConflictPolicy::PreferRemote
        },
        ConflictArg::Dst => if src_is_local_side {
            ConflictPolicy::PreferRemote
        } else {
            ConflictPolicy::PreferLocal
        },
    }
}

/// Swapping the arguments and the side that wins changes nothing.
pub proof fn sides_follow_the_arguments(src_is_local_side: bool)
    ensures
        policy_for(ConflictArg::Src, src_is_local_side) == policy_for(
            ConflictArg::Dst,
            !src_is_local_side,
        ),
        policy_for(ConflictArg::Dst, src_is_local_side) == policy_for(
            ConflictArg::Src,
            !src_is_local_side,
        ),
{
}

/// The direction of a sync: both ways if asked for, else from the first argument to the second.
pub open spec fn direction(two_way: bool, a_is_src: bool) -> Mode {
    if two_way {
        Mode::TwoWay
    } else if a_is_src {
        Mode::Push
    } else {
        Mode::Pull
    }
}

/// The options of a sync, given whether side A, which the options call local, is the first
/// argument.
pub fn sync_options(two_way: bool, a_is_src: bool, delete: bool, conflict: ConflictArg) -> (r:
    SyncOptions)
    ensures
        r.mode == direction(two_way, a_is_src),
        r.delete == delete,
        r.conflict == policy_for(conflict, a_is_src),
{
    let mode = if two_way {
        Mode::TwoWay
    } else if a_is_src {
        Mode::Push
    } else {
        Mode::Pull
    };
    SyncOptions { mode, delete, conflict: map_conflict(conflict, a_is_src) }
}

/// Whether side A is written to, so that its folder is made where it is missing: unless it is the
/// pure source.
pub fn writes_a(mode: Mode) -> (r: bool)
    ensures
        r == (mode != Mode::Push),
{
    match mode {
        Mode::Push => false,
        _ => true,
    }
}

/// Whether side B is written to, so that its folder is made where it is missing: unless it is the
/// pure source.
pub fn writes_b(mode: Mode) -> (r: bool)
    ensures
        r == (mode != Mode::Pull),
{
    match mode {
        Mode::Pull => false,
        _ => true,
    }
}

/// The folder of a tablet that is synced.
#[derive(Debug)]
pub enum SyncRoot {
    /// It is there, with the given UUID.
    Found(String),
    /// It has to be made first.
    Missing,
}

/// What a [`SyncRoot`] holds.
pub enum RootView {
    Found(Seq<char>),
    Missing,
}

impl DeepView for SyncRoot {
    type V = RootView;

    open spec fn deep_view(&self) -> RootView {
        match *self {
            SyncRoot::Found(uuid) => RootView::Found(uuid@),
            SyncRoot::Missing => RootView::Missing,
        }
    }
}

/// The folder of a tablet that is synced. A path that leads nowhere is made on a side that is
/// written to.
pub open spec fn root_of(items: Seq<ItemView>, path: Seq<char>, written: bool) -> Result<
    RootView,
    ErrorView,
> {
    match resolved_folder(items, path) {
        Ok(uuid) => Ok(RootView::Found(uuid)),
        Err(e) => if e is PathNotFound && written {
            Ok(RootView::Missing)
        } else {
            Err(e)
        },
    }
}

/// Finds the folder of a tablet that is synced.
pub fn sync_root(items: &[Item], path: &str, written: bool) -> (r: Result<SyncRoot, Error>)
    ensures
        agrees(r, root_of(items.deep_view(), path@, written)),
{
    match resolve_folder_ref(items, path) {
        Ok(uuid) => Ok(SyncRoot::Found(uuid)),
        Err(Error::PathNotFound(p)) => {
            if written {
                Ok(SyncRoot::Missing)
            } else {
                Err(Error::PathNotFound(p))
            }
        },
        Err(e) => Err(e),
    }
}

/// What is left to do after the storage of a tablet was, or was not, changed.
#[derive(Debug, Clone, Copy, PartialEq, Eq, Structural)]
pub enum Afterwards {
    Nothing,
    /// Restart the interface, so that it shows the changes.
    Restart,
    /// Say that the interface was not restarted.
    Note,
}

/// What is left to do after a command.
pub fn afterwards(modified: bool, no_restart: bool) -> (r: Afterwards)
    ensures
        r == if !modified {
            Afterwards::Nothing
        } else if no_restart {
            Afterwards::Note
        } else {
            Afterwards::Restart
        },
{
    if !modified {
        Afterwards::Nothing
    } else if no_restart {
        Afterwards::Note
    } else {
        Afterwards::Restart
    }
}

/// A stable identity for a folder on another host: slashes at its end do not count.
pub open spec fn identity_of(destination: Seq<char>, path: Seq<char>) -> Seq<char> {
    destination + ":"@ + trim_end(path, Class::Only('/'))
}

/// A stable identity for a folder on another host.
pub fn tablet_identity(destination: &str, path: &str) -> (r: String)
    ensures
        r@ == identity_of(destination@, path@),
{
    let chars = to_chars(path);
    let path = from_chars(trim_end_in(&chars, &Class::Only('/')));
    cat3(destination, ":", path.as_str())
}

/// The password in a file: its first line.
pub open spec fn password_in(text: Seq<char>) -> Seq<char> {
    if lines(text).len() > 0 {
        lines(text)[0]
    } else {
        Seq::empty()
    }
}

/// The password in a file: its first line.
pub fn password_from_file(text: &str) -> (r: String)
    ensures
        r@ == password_in(text@),
{
    let all = lines_in(&to_chars(text));
    assert(pieces(all@) == lines(text@));
    if all.len() > 0 {
        assert(pieces(all@)[0] == all[0]@);
        from_chars(&all[0])
    } else {
        String::new()
    }
}

/// What marks a folder or tells the type of a document.
pub open spec fn suffix_of(item: ItemView) -> Seq<char> {
    if item.is_folder() {
        "/"@
    } else {
        match item.file_type {
            Some(t) => " ("@ + t + ")"@,
            None => Seq::empty(),
        }
    }
}

/// What marks a folder or tells the type of a document.
pub fn item_suffix(item: &Item) -> (r: String)
    ensures
        r@ == suffix_of(item.deep_view()),
{
    if item.is_folder() {
        return "/".to_owned();
    }
    match &item.file_type {
        Some(t) => cat3(" (", t.as_str(), ")"),
        None => String::new(),
    }
}

/// The line about a deleted item.
pub fn deleted_line(item: &Item) -> (r: String)
    ensures
        r@ == "  "@ + item.visible_name@ + suffix_of(item.deep_view()) + " ["@ + item.uuid@ + "]"@,
{
    let suffix = item_suffix(item);
    let head = cat3("  ", item.visible_name.as_str(), suffix.as_str());
    let tail = cat3(head.as_str(), " [", item.uuid.as_str());
    cat(tail.as_str(), "]")
}

/// The line about a moved item.
pub fn moved_line(item: &Item) -> (r: String)
    ensures
        r@ == "Moved '"@ + item.visible_name@ + "' to "@ + shown_parent(item.parent@),
{
    let head = cat3("Moved '", item.visible_name.as_str(), "' to ");
    cat(head.as_str(), display_parent(item.parent.as_str()))
}

/// The line that sums up a sync: what it did, how many folders it removed because they had become
/// empty, and how many files it did not look at.
pub open spec fn summary_of(outcome: Outcome, emptied: nat, ignored: nat) -> Seq<char> {
    "Sync complete: "@ + decimal(outcome.uploaded as nat) + " uploaded, "@ + decimal(
        outcome.updated as nat,
    ) + " updated, "@ + decimal(outcome.downloaded as nat) + " downloaded, "@ + decimal(
        (outcome.deleted_local + outcome.deleted_remote) as nat,
    ) + " deleted ("@ + decimal(outcome.deleted_local as nat) + " local / "@ + decimal(
        outcome.deleted_remote as nat,
    ) + " device), "@ + decimal(outcome.folders_created as nat) + " folder(s) created, "@ + decimal(emptied)
        + " emptied folder(s) removed, "@ + decimal(outcome.conflicts.len() as nat) + " conflict(s), "@ + decimal(outcome.skipped.len() as nat) + " skipped, "@ + decimal(ignored)
        + " unsupported file(s) ignored."@
}

/// The line that sums up a sync.
pub fn sync_summary(outcome: &Outcome, emptied: usize, ignored: usize) -> (r: String)
    requires
        outcome.deleted_local + outcome.deleted_remote <= usize::MAX,
    ensures
        r@ == summary_of(*outcome, emptied as nat, ignored as nat),
{
    let deleted: usize = outcome.deleted_local + outcome.deleted_remote;
    let uploaded = show_u64(outcome.uploaded as u64);
    let updated = show_u64(outcome.updated as u64);
    let downloaded = show_u64(outcome.downloaded as u64);
    let deleted = show_u64(deleted as u64);
    let local = show_u64(outcome.deleted_local as u64);
    let remote = show_u64(outcome.deleted_remote as u64);
    let folders = show_u64(outcome.folders_created as u64);
    let emptied = show_u64(emptied as u64);
    let conflicts = show_u64(outcome.conflicts.len() as u64);
    let skipped = show_u64(outcome.skipped.len() as u64);
    let ignored = show_u64(ignored as u64);
    let s = cat5("Sync complete: ", uploaded.as_str(), " uploaded, ", updated.as_str(), " updated, ");
    let s = cat5(s.as_str(), downloaded.as_str(), " downloaded, ", deleted.as_str(), " deleted (");
    let s = cat5(s.as_str(), local.as_str(), " local / ", remote.as_str(), " device), ");
    let s = cat5(
        s.as_str(),
        folders.as_str(),
        " folder(s) created, ",
        emptied.as_str(),
        " emptied folder(s) removed, ",
    );
    let s = cat5(s.as_str(), conflicts.as_str(), " conflict(s), ", skipped.as_str(), " skipped, ");
    cat3(s.as_str(), ignored.as_str(), " unsupported file(s) ignored.")
}

} // verus!
