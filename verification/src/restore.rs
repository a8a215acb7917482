//! Restoring a bundle: its metadata is changed, every file goes under a fresh UUID, and one tar
//! stream is unpacked in the data directory.
use vstd::prelude::*;
use crate::action::{act, Action, ActionView, Operation};
use crate::archive::{all_relative, any_refused, tar_listing, tar_of};
use crate::bundle::{renamed, retargeted, rmdoc_to_tar, Rmdoc, RmdocView};
use crate::client::Client;
use crate::error::{Error, ErrorView};
use crate::json::{printed, FieldView, Json, JsonView};
use crate::metadata::{
    apply_change,
    changed,
    changes_preserve_unknown_fields,
    item_from_metadata,
    item_of,
    Change,
    ChangeView,
};
use crate::number::shown_integer_reads_back;
use crate::pathmap::{keys, value_of};
use crate::ssh::{quoted, shell_quote};
use crate::text::{ascending, cat3, str_eq};

verus! {

/// Whether a bundle holds a document.
pub open spec fn is_document_bundle(metadata: JsonView) -> bool {
    metadata.text("type"@) == Some("DocumentType"@)
}

/// A bundle with its metadata changed.
pub open spec fn prepared(rmdoc: RmdocView, change: ChangeView) -> RmdocView {
    RmdocView {
        metadata: match rmdoc.metadata {
            JsonView::Object(fields) => JsonView::Object(changed(fields, change)),
            JsonView::Other(raw) => JsonView::Other(raw),
        },
        ..rmdoc
    }
}

/// The actions that restore a bundle from a tar stream.
pub open spec fn restoring(dir: Seq<char>, name: Seq<char>, tar: Seq<u8>) -> Seq<ActionView> {
    seq![
        ActionView::Step("Restoring bundle '"@ + name + "'"@),
        ActionView::Send { command: "cd "@ + quoted(dir) + " && tar -xf -"@, data: tar },
        ActionView::Finished,
    ]
}

impl<P> Client<P> {
    /// Restores a bundle under a fresh UUID; whether the name is free is for the caller to see to.
    /// All other metadata fields are kept.
    pub fn restore_bundle(
        &self,
        rmdoc: Rmdoc,
        parent_uuid: &str,
        name: &str,
        new_uuid: &str,
        now_ms: i64,
    ) -> (r: Result<Operation, Error>)
        requires
            rmdoc.wf(),
        ensures
            !is_document_bundle(rmdoc.deep_view().metadata) ==> (r matches Err(e) && e.deep_view()
                == ErrorView::Bundle("bundle metadata is not a DocumentType item"@)),
            is_document_bundle(rmdoc.deep_view().metadata) ==> ({
                let change = ChangeView {
                    parent: Some(parent_uuid@),
                    visible_name: Some(name@),
                    now_ms,
                };
                let ready = prepared(rmdoc.deep_view(), change);
                &&& r matches Ok(operation) ==> {
                    &&& item_of(new_uuid@, ready.metadata, ready.content, None) == Some(
                        operation.item.deep_view(),
                    )
                    &&& exists|tar: Seq<u8>|
                        {
                            &&& operation.actions.deep_view() == #[trigger] restoring(
                                self.dir@,
                                name@,
                                tar,
                            )
                            &&& printed(ready.metadata) matches Ok(text) ==> (all_relative(
                                retargeted(ready, new_uuid@, text),
                            ) ==> tar_listing(tar) == tar_of(retargeted(ready, new_uuid@, text)))
                        }
                }
                &&& match printed(ready.metadata) {
                    Ok(text) => (r matches Err(e) ==> e is Io) && (any_refused(
                        retargeted(ready, new_uuid@, text),
                    ) ==> r is Err) && (all_relative(retargeted(ready, new_uuid@, text)) ==> r
                        is Ok),
                    Err(message) => r matches Err(e) && (any_refused(
                        renamed(ready.files, ready.uuid, new_uuid@),
                    ) ==> e is Io) && (all_relative(
                        renamed(ready.files, ready.uuid, new_uuid@),
                    ) ==> e.deep_view() == (ErrorView::Json {
                        path: new_uuid@ + ".metadata"@,
                        message,
                    })),
                }
            }),
    {
        let is_document = match rmdoc.metadata.text("type") {
            Some(t) => str_eq(t, "DocumentType"),
            None => false,
        };
        if !is_document {
            return Err(Error::Bundle("bundle metadata is not a DocumentType item".to_owned()));
        }
        let ghost start = rmdoc.deep_view();
        let change = Change { parent: Some(parent_uuid), visible_name: Some(name), now_ms };
        let ghost change_view = change.deep_view();
        let Rmdoc { uuid, metadata, content, files } = rmdoc;
        let metadata = match metadata {
            Json::Object(fields) => {
                let mut fields = fields;
                proof {
                    reveal_strlit("type");
                    reveal_strlit("parent");
                    reveal_strlit("visibleName");
                    reveal_strlit("lastModified");
                    assert("type"@.len() == 4 && "parent"@.len() == 6);
                    assert("visibleName"@.len() == 11 && "lastModified"@.len() == 12);
                    changes_preserve_unknown_fields(fields.pairs(), change_view, "type"@);
                }
                apply_change(&mut fields, &change);
                Json::Object(fields)
            },
            Json::Other(raw) => Json::Other(raw),
        };
        let ready = Rmdoc { uuid, metadata, content, files };
        assert(ready.deep_view() == prepared(start, change_view));
        let tar = match rmdoc_to_tar(&ready, new_uuid) {
            Err(e) => {
                return Err(e);
            },
            Ok(tar) => tar,
        };
        let ghost bytes = tar@;
        let content: Option<&Json> = match &ready.content {
            Some(json) => Some(json),
            None => None,
        };
        assert(content.deep_view() == ready.deep_view().content);
        let item = match item_from_metadata(new_uuid, &ready.metadata, content, None) {
            Some(item) => item,
            None => vstd::pervasive::unreached(),
        };
        let mut actions: Vec<Action> = Vec::new();
        let dir = shell_quote(self.dir.as_str());
        act(&mut actions, Action::Step(cat3("Restoring bundle '", name, "'")));
        let command = cat3("cd ", dir.as_str(), " && tar -xf -");
        act(&mut actions, Action::Send { command, data: tar });
        act(&mut actions, Action::Finished);
        assert(actions.deep_view() =~= restoring(self.dir@, name@, bytes));
        Ok(Operation { actions, item })
    }
}

/// A restored bundle goes under the parent and the name that were asked for, and was changed just now;
/// all else that it holds stays as it was.
pub proof fn restored_bundles_keep_what_they_hold(
    rmdoc: RmdocView,
    fields: Seq<(Seq<char>, FieldView)>,
    parent: Seq<char>,
    name: Seq<char>,
    now_ms: i64,
    field: Seq<char>,
)
    requires
        rmdoc.metadata == JsonView::Object(fields),
        ascending(keys(fields)),
        field != "parent"@ && field != "visibleName"@ && field != "lastModified"@,
    ensures
        ({
            let change = ChangeView { parent: Some(parent), visible_name: Some(name), now_ms };
            let ready = prepared(rmdoc, change);
            &&& ready.uuid == rmdoc.uuid && ready.content == rmdoc.content && ready.files
                == rmdoc.files
            &&& ready.metadata.text("parent"@) == Some(parent)
            &&& ready.metadata.text("visibleName"@) == Some(name)
            &&& ready.metadata.lenient_integer("lastModified"@) == now_ms
            &&& ready.metadata.field(field) == rmdoc.metadata.field(field)
        }),
{
    let change = ChangeView { parent: Some(parent), visible_name: Some(name), now_ms };
    changes_preserve_unknown_fields(fields, change, field);
    shown_integer_reads_back(now_ms as int);
}

/// Restoring announces the name and unpacks the stream in the data directory, and nothing else.
pub proof fn bundles_are_unpacked_in_place(dir: Seq<char>, name: Seq<char>, tar: Seq<u8>)
    ensures
        restoring(dir, name, tar).len() == 3,
        restoring(dir, name, tar)[0] == ActionView::Step("Restoring bundle '"@ + name + "'"@),
        restoring(dir, name, tar)[1] == (ActionView::Send {
            command: "cd "@ + quoted(dir) + " && tar -xf -"@,
            data: tar,
        }),
        restoring(dir, name, tar)[2] == ActionView::Finished,
{
}

/// Only a bundle that says that it is a document is one.
pub proof fn bundles_of_documents_say_so(fields: Seq<(Seq<char>, FieldView)>)
    ensures
        is_document_bundle(JsonView::Object(fields)) <==> value_of(fields, "type"@) == Some(
            FieldView::Text("DocumentType"@),
        ),
{
}

} // verus!
