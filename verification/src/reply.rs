//! What each command has to say: lines for people, results for programs, and whether the storage
//! of the tablet changed.
use vstd::prelude::*;
use crate::action::Operation;
use crate::cli::{deleted_line, moved_line, suffix_of};
use crate::json::{
    all_printed, all_writable, is_printed, json_text, list_text, print_list, write_json, Field,
    FieldView,
};
use crate::metadata::assign;
use crate::number::{decimal, show_u64};
use crate::pathmap::{put, put_sets_one_key, value_of, PathMap};
use crate::render::{can_render, render_tree, tree_lines};
use crate::reorganize::Moves;
use crate::resolve::shown_parent;
use crate::status::{percents_fit, render, report, texts_of, Readings, SystemStatus};
use crate::text::{cat, cat3, cat5};
use crate::walk::{build_path, logical_path};
use crate::xochitl::{Item, ItemView};

verus! {

/// What a command has to say.
#[derive(Debug)]
pub struct Reply {
    /// Status lines for people.
    pub notes: Vec<String>,
    /// Results that a program can use.
    pub output: Vec<String>,
    /// Whether the storage of the tablet changed.
    pub modified: bool,
}

/// What a [`Reply`] holds.
pub struct ReplyView {
    pub notes: Seq<Seq<char>>,
    pub output: Seq<Seq<char>>,
    pub modified: bool,
}

impl DeepView for Reply {
    type V = ReplyView;

    open spec fn deep_view(&self) -> ReplyView {
        ReplyView {
            notes: self.notes.deep_view(),
            output: self.output.deep_view(),
            modified: self.modified,
        }
    }
}

fn one_line(line: String) -> (r: Vec<String>)
    ensures
        r.deep_view() == seq![line@],
{
    let mut r: Vec<String> = Vec::new();
    r.push(line);
    assert(r.deep_view() =~= seq![line@]);
    r
}

fn no_lines() -> (r: Vec<String>)
    ensures
        r.deep_view() == Seq::<Seq<char>>::empty(),
{
    let r: Vec<String> = Vec::new();
    assert(r.deep_view() =~= Seq::<Seq<char>>::empty());
    r
}

/// A folder path is there: the UUID of the deepest folder is the result. `made` tells whether any
/// folder of the path had to be made.
pub fn folder_made(item: &Item, made: bool) -> (r: Reply)
    ensures
        r.deep_view() == (ReplyView {
            notes: seq!["Created folder: "@ + item.visible_name@ + "/"@],
            output: seq![item.uuid@],
            modified: made,
        }),
{
    Reply {
        notes: one_line(cat3("Created folder: ", item.visible_name.as_str(), "/")),
        output: one_line(item.uuid.clone()),
        modified: made,
    }
}

/// A file was uploaded: the UUID of the new document is the result.
pub fn file_uploaded(file: &str, item: &Item) -> (r: Reply)
    ensures
        r.deep_view() == (ReplyView {
            notes: seq![
                "Uploaded "@ + file@ + " as '"@ + item.visible_name@ + "' ("@ + (
                match item.deep_view().file_type {
                    Some(t) => t,
                    None => "?"@,
                }) + ")"@,
            ],
            output: seq![item.uuid@],
            modified: true,
        }),
{
    let file_type = match &item.file_type {
        Some(t) => t.as_str(),
        None => "?",
    };
    let head = cat5("Uploaded ", file, " as '", item.visible_name.as_str(), "' (");
    Reply {
        notes: one_line(cat3(head.as_str(), file_type, ")")),
        output: one_line(item.uuid.clone()),
        modified: true,
    }
}

/// Files were downloaded: their paths are the result.
pub fn files_downloaded(paths: Vec<String>) -> (r: Reply)
    ensures
        r.deep_view() == (ReplyView {
            notes: seq!["Downloaded to:"@],
            output: paths.deep_view(),
            modified: false,
        }),
{
    Reply { notes: one_line("Downloaded to:".to_owned()), output: paths, modified: false }
}

/// The line about a deleted item.
pub open spec fn deleted_text(item: ItemView) -> Seq<char> {
    "  "@ + item.visible_name + suffix_of(item) + " ["@ + item.uuid + "]"@
}

/// The head line and one line for each deleted item.
pub open spec fn deleted_texts(head: Seq<char>, items: Seq<ItemView>) -> Seq<Seq<char>> {
    seq![head] + Seq::new(items.len(), |i: int| deleted_text(items[i]))
}

fn list_deleted(head: String, items: &[Item]) -> (r: Vec<String>)
    ensures
        r.deep_view() == deleted_texts(head@, items.deep_view()),
{
    let ghost all = items.deep_view();
    let mut out = one_line(head);
    let mut i: usize = 0;
    assert(out.deep_view() =~= deleted_texts(head@, all).take(1));
    while i < items.len()
        invariant
            i <= items.len(),
            all == items.deep_view(),
            out.deep_view() == deleted_texts(head@, all).take(i + 1),
        decreases items.len() - i,
    {
        let ghost before = out.deep_view();
        let line = deleted_line(&items[i]);
        assert(all[i as int] == items[i as int].deep_view());
        out.push(line);
        assert(out.deep_view() =~= before.push(line@));
        assert(out.deep_view() =~= deleted_texts(head@, all).take(i + 2));
        i += 1;
    }
    assert(out.deep_view() =~= deleted_texts(head@, all));
    out
}

/// Items were deleted.
pub fn items_deleted(items: &[Item]) -> (r: Reply)
    ensures
        r.deep_view() == (ReplyView {
            notes: deleted_texts(
                "Deleted "@ + decimal(items.len() as nat) + " item(s):"@,
                items.deep_view(),
            ),
            output: seq![],
            modified: items.len() > 0,
        }),
{
    let count = show_u64(items.len() as u64);
    let head = cat3("Deleted ", count.as_str(), " item(s):");
    Reply { notes: list_deleted(head, items), output: no_lines(), modified: items.len() > 0 }
}

/// The trash was emptied. Where it was empty already, nothing changed.
pub fn trash_emptied(items: &[Item]) -> (r: Reply)
    ensures
        r.deep_view() == if items.len() == 0 {
            ReplyView {
                notes: seq!["Trash is already empty."@],
                output: seq![],
                modified: false,
            }
        } else {
            ReplyView {
                notes: deleted_texts(
                    "Emptied trash: "@ + decimal(items.len() as nat) + " item(s):"@,
                    items.deep_view(),
                ),
                output: seq![],
                modified: true,
            }
        },
{
    if items.len() == 0 {
        return Reply {
            notes: one_line("Trash is already empty.".to_owned()),
            output: no_lines(),
            modified: false,
        };
    }
    let count = show_u64(items.len() as u64);
    let head = cat3("Emptied trash: ", count.as_str(), " item(s):");
    Reply { notes: list_deleted(head, items), output: no_lines(), modified: true }
}

/// The lines about moved items.
pub open spec fn moved_texts(items: Seq<ItemView>) -> Seq<Seq<char>> {
    Seq::new(
        items.len(),
        |i: int| "Moved '"@ + items[i].visible_name + "' to "@ + shown_parent(items[i].parent),
    )
}

/// Items were moved. Where all of them were in place already, nothing was planned and nothing
/// changed.
pub fn items_moved(moves: &Moves) -> (r: Reply)
    ensures
        r.deep_view() == (ReplyView {
            notes: moved_texts(moves.deep_view().items),
            output: seq![],
            modified: moves.deep_view().actions.len() > 0,
        }),
{
    let items = &moves.items;
    let ghost all = items.deep_view();
    let ghost lines = moved_texts(all);
    let mut notes = no_lines();
    let mut i: usize = 0;
    while i < items.len()
        invariant
            i <= items.len(),
            all == items.deep_view(),
            lines == moved_texts(all),
            notes.deep_view() == lines.take(i as int),
        decreases items.len() - i,
    {
        let ghost before = notes.deep_view();
        assert(all[i as int] == items[i as int].deep_view());
        let line = moved_line(&items[i]);
        notes.push(line);
        assert(notes.deep_view() =~= before.push(line@));
        assert(notes.deep_view() =~= lines.take(i + 1));
        i += 1;
    }
    assert(lines.take(i as int) =~= lines);
    Reply { notes, output: no_lines(), modified: moves.actions.len() > 0 }
}

/// An item was renamed. Where it had the name already, nothing was planned and nothing changed.
pub fn item_renamed(operation: &Operation) -> (r: Reply)
    ensures
        r.deep_view() == (ReplyView {
            notes: seq!["Renamed to: "@ + operation.deep_view().item.visible_name],
            output: seq![],
            modified: operation.deep_view().actions.len() > 0,
        }),
{
    Reply {
        notes: one_line(cat("Renamed to: ", operation.item.visible_name.as_str())),
        output: no_lines(),
        modified: operation.actions.len() > 0,
    }
}

/// The interface was restarted.
pub fn restarted() -> (r: Reply)
    ensures
        r.deep_view() == (ReplyView {
            notes: seq!["xochitl restarted"@],
            output: seq![],
            modified: false,
        }),
{
    Reply {
        notes: one_line("xochitl restarted".to_owned()),
        output: no_lines(),
        modified: false,
    }
}

/// The tree of items is the result.
pub fn tree_listed(items: &[Item], show_uuid: bool, folders_only: bool) -> (r: Reply)
    requires
        can_render(items.deep_view(), folders_only),
    ensures
        r.deep_view() == (ReplyView {
            notes: seq![],
            output: tree_lines(items.deep_view(), show_uuid, folders_only),
            modified: false,
        }),
{
    Reply {
        notes: no_lines(),
        output: render_tree(items, show_uuid, folders_only),
        modified: false,
    }
}

/// The report on the system is the result.
pub fn status_shown(status: &SystemStatus, readings: &Readings) -> (r: Reply)
    requires
        percents_fit(status.disks.deep_view()),
    ensures
        r.deep_view() == (ReplyView {
            notes: seq![],
            output: report(
                status.deep_view(),
                readings.uptime_minutes,
                texts_of(readings.load),
            ),
            modified: false,
        }),
{
    Reply { notes: no_lines(), output: render(status, readings), modified: false }
}

/// A text, or null.
pub open spec fn text_or_null(text: Option<Seq<char>>) -> FieldView {
    match text {
        Some(t) => FieldView::Text(t),
        None => FieldView::Null,
    }
}

/// A number, or null.
pub open spec fn number_or_null(number: Option<u64>) -> FieldView {
    match number {
        Some(n) => FieldView::Natural(n),
        None => FieldView::Null,
    }
}

/// The fields of a listed item.
pub open spec fn listed_fields(items: Seq<ItemView>, item: ItemView) -> Seq<
    (Seq<char>, FieldView),
> {
    let s = Seq::<(Seq<char>, FieldView)>::empty();
    let s = put(s, "uuid"@, FieldView::Text(item.uuid));
    let s = put(s, "name"@, FieldView::Text(item.visible_name));
    let s = put(s, "parent_uuid"@, FieldView::Text(item.parent));
    let s = put(
        s,
        "type"@,
        FieldView::Text(
            if item.is_folder() {
                "folder"@
            } else {
                "document"@
            },
        ),
    );
    let s = put(s, "path"@, FieldView::Text(logical_path(items, item)));
    let s = put(s, "file_type"@, text_or_null(item.file_type));
    let s = put(s, "created_time"@, FieldView::Integer(item.created_time));
    let s = put(s, "last_modified"@, FieldView::Integer(item.last_modified));
    put(s, "size_bytes"@, number_or_null(item.size_bytes))
}

/// The objects of all listed items.
pub open spec fn listed_texts(items: Seq<ItemView>) -> Seq<Seq<char>> {
    Seq::new(items.len(), |i: int| json_text(listed_fields(items, items[i]))->Ok_0)
}

fn list_item(items: &[Item], item: &Item) -> (r: String)
    ensures
        json_text(listed_fields(items.deep_view(), item.deep_view())) == Ok::<
            Seq<char>,
            Seq<char>,
        >(r@),
        is_printed(r@),
{
    let mut fields: PathMap<Field> = PathMap::new();
    assign(&mut fields, "uuid", Field::Text(item.uuid.clone()));
    assign(&mut fields, "name", Field::Text(item.visible_name.clone()));
    assign(&mut fields, "parent_uuid", Field::Text(item.parent.clone()));
    let kind = if item.is_folder() {
        "folder"
    } else {
        "document"
    };
    assign(&mut fields, "type", Field::Text(kind.to_owned()));
    assign(&mut fields, "path", Field::Text(build_path(items, item)));
    let file_type = match &item.file_type {
        Some(t) => Field::Text(t.clone()),
        None => Field::Null,
    };
    assign(&mut fields, "file_type", file_type);
    assign(&mut fields, "created_time", Field::Integer(item.created_time));
    assign(&mut fields, "last_modified", Field::Integer(item.last_modified));
    let size = match item.size_bytes {
        Some(n) => Field::Natural(n),
        None => Field::Null,
    };
    assign(&mut fields, "size_bytes", size);
    assert(fields.pairs() == listed_fields(items.deep_view(), item.deep_view()));
    assert(all_writable(fields.pairs()));
    match write_json(&fields) {
        Ok(text) => text,
        Err(_) => vstd::pervasive::unreached(),
    }
}

/// The list of all items, as JSON, is the result.
pub fn items_listed(items: &[Item]) -> (r: Reply)
    ensures
        list_text(listed_texts(items.deep_view())) is Ok,
        r.deep_view() == (ReplyView {
            notes: seq![],
            output: seq![list_text(listed_texts(items.deep_view()))->Ok_0],
            modified: false,
        }),
{
    let ghost all = items.deep_view();
    let mut texts = no_lines();
    let mut i: usize = 0;
    while i < items.len()
        invariant
            i <= items.len(),
            all == items.deep_view(),
            texts.deep_view() == listed_texts(all).take(i as int),
            all_printed(texts.deep_view()),
        decreases items.len() - i,
    {
        let ghost before = texts.deep_view();
        let text = list_item(items, &items[i]);
        assert(all[i as int] == items[i as int].deep_view());
        texts.push(text);
        assert(texts.deep_view() =~= before.push(text@));
        assert(texts.deep_view() =~= listed_texts(all).take(i + 1));
        i += 1;
    }
    assert(texts.deep_view() =~= listed_texts(all));
    match print_list(&texts) {
        Ok(text) => Reply { notes: no_lines(), output: one_line(text), modified: false },
        Err(_) => vstd::pervasive::unreached(),
    }
}

/// What a listing for programs tells of an item, field by field; what is not known is null.
pub proof fn listed_field_values(items: Seq<ItemView>, item: ItemView)
    ensures
        ({
            let fields = listed_fields(items, item);
            &&& value_of(fields, "uuid"@) == Some(FieldView::Text(item.uuid))
            &&& value_of(fields, "name"@) == Some(FieldView::Text(item.visible_name))
            &&& value_of(fields, "parent_uuid"@) == Some(FieldView::Text(item.parent))
            &&& item.is_folder() ==> value_of(fields, "type"@) == Some(FieldView::Text("folder"@))
            &&& !item.is_folder() ==> value_of(fields, "type"@) == Some(
                FieldView::Text("document"@),
            )
            &&& value_of(fields, "path"@) == Some(FieldView::Text(logical_path(items, item)))
            &&& item.file_type matches Some(t) ==> value_of(fields, "file_type"@) == Some(
                FieldView::Text(t),
            )
            &&& item.file_type is None ==> value_of(fields, "file_type"@) == Some(FieldView::Null)
            &&& value_of(fields, "created_time"@) == Some(FieldView::Integer(item.created_time))
            &&& value_of(fields, "last_modified"@) == Some(FieldView::Integer(item.last_modified))
            &&& item.size_bytes matches Some(n) ==> value_of(fields, "size_bytes"@) == Some(
                FieldView::Natural(n),
            )
            &&& item.size_bytes is None ==> value_of(fields, "size_bytes"@) == Some(
                FieldView::Null,
            )
        }),
{
    reveal_strlit("uuid");
    reveal_strlit("name");
    reveal_strlit("parent_uuid");
    reveal_strlit("type");
    reveal_strlit("path");
    reveal_strlit("file_type");
    reveal_strlit("created_time");
    reveal_strlit("last_modified");
    reveal_strlit("size_bytes");
    assert("uuid"@[0] == 'u' && "name"@[0] == 'n' && "parent_uuid"@[0] == 'p' && "type"@[0] == 't'
        && "path"@[0] == 'p' && "file_type"@[0] == 'f' && "created_time"@[0] == 'c'
        && "last_modified"@[0] == 'l' && "size_bytes"@[0] == 's');
    assert("parent_uuid"@.len() == 11 && "path"@.len() == 4);
    let kind = FieldView::Text(
        if item.is_folder() {
            "folder"@
        } else {
            "document"@
        },
    );
    let path = FieldView::Text(logical_path(items, item));
    let s0 = Seq::<(Seq<char>, FieldView)>::empty();
    put_sets_one_key(s0, "uuid"@, FieldView::Text(item.uuid));
    let s1 = put(s0, "uuid"@, FieldView::Text(item.uuid));
    put_sets_one_key(s1, "name"@, FieldView::Text(item.visible_name));
    let s2 = put(s1, "name"@, FieldView::Text(item.visible_name));
    put_sets_one_key(s2, "parent_uuid"@, FieldView::Text(item.parent));
    let s3 = put(s2, "parent_uuid"@, FieldView::Text(item.parent));
    put_sets_one_key(s3, "type"@, kind);
    let s4 = put(s3, "type"@, kind);
    put_sets_one_key(s4, "path"@, path);
    let s5 = put(s4, "path"@, path);
    put_sets_one_key(s5, "file_type"@, text_or_null(item.file_type));
    let s6 = put(s5, "file_type"@, text_or_null(item.file_type));
    put_sets_one_key(s6, "created_time"@, FieldView::Integer(item.created_time));
    let s7 = put(s6, "created_time"@, FieldView::Integer(item.created_time));
    put_sets_one_key(s7, "last_modified"@, FieldView::Integer(item.last_modified));
    let s8 = put(s7, "last_modified"@, FieldView::Integer(item.last_modified));
    put_sets_one_key(s8, "size_bytes"@, number_or_null(item.size_bytes));
}

/// Every deleted or moved item has a line of its own, in order, which names it: a deleted one by its
/// UUID too, a moved one by where it is now.
pub proof fn every_item_has_its_line(head: Seq<char>, items: Seq<ItemView>, i: int)
    requires
        0 <= i < items.len(),
    ensures
        deleted_texts(head, items).len() == items.len() + 1,
        deleted_texts(head, items)[0] == head,
        items[i].is_folder() ==> deleted_texts(head, items)[i + 1] == "  "@ + items[i].visible_name
            + "/"@ + " ["@ + items[i].uuid + "]"@,
        !items[i].is_folder() ==> (items[i].file_type matches Some(t) ==> deleted_texts(
            head,
            items,
        )[i + 1] == "  "@ + items[i].visible_name + (" ("@ + t + ")"@) + " ["@ + items[i].uuid
            + "]"@),
        moved_texts(items).len() == items.len(),
        moved_texts(items)[i] == "Moved '"@ + items[i].visible_name + "' to "@ + if items[i].parent.len()
            == 0 {
            "(root)"@
        } else {
            items[i].parent
        },
{
}

} // verus!
