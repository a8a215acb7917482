//! High-level logical operations on the tablet's storage.
//!
//! Every write only touches files under the data directory; callers should restart the interface
//! afterwards so that it shows the changes. An operation is worked out here, on a listing, as the
//! actions to perform on the device.
use vstd::prelude::*;
use crate::action::{
    act,
    from_file,
    into_file,
    read_command,
    write_command,
    Action,
    ActionView,
    Operation,
    Update,
    UpdateView,
};
use crate::json::{json_of, json_text, reads_back, FieldView, JsonView};
use crate::listing::{build_items, items_of, listing_of, list_command, list_script, parse_listing};
use crate::metadata::{
    content_fields,
    document_content_json,
    document_fields,
    document_metadata_json,
    folder_fields,
    folder_metadata_json,
    ChangeView,
};
use crate::progress::NoProgress;
use crate::sections::sections;
use crate::ssh::{quoted, quoting_is_undone_by_the_shell, shell_quote, SshSession};
use crate::status::{
    document_counts,
    live_count,
    parse_status,
    status_of,
    trashed_count,
    StatusView,
    SystemStatus,
};
use crate::text::{cat, cat3, cat5, from_chars, lines, to_chars, trim_end, trim_end_in, Class};
use crate::xochitl::{Item, ItemKind, ItemView};

verus! {

/// High-level client for one device.
pub struct Client<P> {
    pub session: SshSession,
    /// The data directory, without a slash at its end.
    pub dir: String,
    /// Observer of operations.
    pub progress: P,
}

impl Client<NoProgress> {
    pub fn new(session: SshSession, xochitl_dir: &str) -> (r: Self)
        ensures
            r.session == session,
            r.dir@ == trim_end(xochitl_dir@, Class::Only('/')),
    {
        let chars = to_chars(xochitl_dir);
        let dir = from_chars(trim_end_in(&chars, &Class::Only('/')));
        Client { session, dir, progress: NoProgress }
    }
}

/// The path of a file in a data directory.
pub open spec fn path_in(dir: Seq<char>, name: Seq<char>) -> Seq<char> {
    dir + "/"@ + name
}

/// The path of an item's file with the given extension.
pub open spec fn file_in(dir: Seq<char>, uuid: Seq<char>, extension: Seq<char>) -> Seq<char> {
    path_in(dir, uuid + "."@ + extension)
}

/// Writing a text to a file of an item.
pub open spec fn writes(
    dir: Seq<char>,
    uuid: Seq<char>,
    extension: Seq<char>,
    text: Seq<char>,
) -> ActionView {
    ActionView::Write { command: into_file(file_in(dir, uuid, extension)), text }
}

/// The item of a new document.
pub open spec fn new_document(
    uuid: Seq<char>,
    name: Seq<char>,
    parent: Seq<char>,
    file_type: Seq<char>,
    now_ms: i64,
    size_bytes: Option<u64>,
) -> ItemView {
    ItemView {
        uuid,
        visible_name: name,
        parent,
        kind: ItemKind::Document,
        file_type: Some(file_type),
        created_time: now_ms,
        last_modified: now_ms,
        size_bytes,
    }
}

/// The item of a new folder.
pub open spec fn new_folder(
    uuid: Seq<char>,
    name: Seq<char>,
    parent: Seq<char>,
    now_ms: i64,
) -> ItemView {
    ItemView {
        uuid,
        visible_name: name,
        parent,
        kind: ItemKind::Folder,
        file_type: None,
        created_time: now_ms,
        last_modified: now_ms,
        size_bytes: None,
    }
}

/// What makes an uploaded payload a document: its content, its page directory, its page data and,
/// last, its metadata.
pub open spec fn registration(
    dir: Seq<char>,
    uuid: Seq<char>,
    content: Seq<char>,
    metadata: Seq<char>,
) -> Seq<ActionView> {
    seq![
        ActionView::Step("Registering document"@),
        writes(dir, uuid, "content"@, content),
        ActionView::Run("mkdir -p "@ + quoted(path_in(dir, uuid))),
        writes(dir, uuid, "pagedata"@, ""@),
        writes(dir, uuid, "metadata"@, metadata),
        ActionView::Finished,
    ]
}

/// The actions that move and rename a document by its metadata.
pub open spec fn relocation(
    uuid: Seq<char>,
    parent: Seq<char>,
    name: Seq<char>,
    now_ms: i64,
) -> Seq<ActionView> {
    seq![
        ActionView::Step("Moving '"@ + name + "' (metadata only)"@),
        ActionView::Update(
            UpdateView {
                uuid,
                change: ChangeView { parent: Some(parent), visible_name: Some(name), now_ms },
            },
        ),
        ActionView::Finished,
    ]
}

/// The actions that copy a payload on the device.
pub open spec fn copying(
    dir: Seq<char>,
    from_uuid: Seq<char>,
    file_type: Seq<char>,
    uuid: Seq<char>,
    name: Seq<char>,
) -> Seq<ActionView> {
    seq![
        ActionView::Step("Copying payload on device for '"@ + name + "'"@),
        ActionView::Run(
            "cp -f "@ + quoted(file_in(dir, from_uuid, file_type)) + " "@ + quoted(
                file_in(dir, uuid, file_type),
            ),
        ),
    ]
}

/// The command that takes away all files of an item.
pub open spec fn removal(dir: Seq<char>, uuid: Seq<char>) -> Seq<char> {
    "cd "@ + quoted(dir) + " && rm -rf -- "@ + quoted(uuid) + " "@ + quoted(uuid) + ".*"@
}

/// The script that packs all files of an item into a tar stream.
pub open spec fn packing(dir: Seq<char>, uuid: Seq<char>) -> Seq<char> {
    "cd "@ + quoted(dir) + " || exit 9\nset --\nfor f in "@ + quoted(uuid) + " "@ + quoted(uuid)
        + ".*; do [ -e \"$f\" ] && set -- \"$@\" \"$f\"; done\n[ \"$#\" -gt 0 ] || exit 8\ntar -cf - \"$@\"\n"@
}

/// What the metadata file of a new document or folder reads as.
pub open spec fn reads_as_fields(
    text: Seq<char>,
    fields: Seq<(Seq<char>, FieldView)>,
) -> bool {
    json_of(vstd::utf8::encode_utf8(text)) == Ok::<JsonView, Seq<char>>(JsonView::Object(fields))
}

impl<P> Client<P> {
    /// Attaches a progress observer (the library itself never prints).
    pub fn with_progress<Q>(self, progress: Q) -> (r: Client<Q>)
        ensures
            r.session == self.session,
            r.dir == self.dir,
            r.progress == progress,
    {
        Client { session: self.session, dir: self.dir, progress }
    }

    /// The path of a file in the data directory.
    pub fn remote_path(&self, name: &str) -> (r: String)
        ensures
            r@ == path_in(self.dir@, name@),
    {
        cat3(self.dir.as_str(), "/", name)
    }

    fn remote_file(&self, uuid: &str, extension: &str) -> (r: String)
        ensures
            r@ == file_in(self.dir@, uuid@, extension@),
    {
        let name = cat3(uuid, ".", extension);
        self.remote_path(name.as_str())
    }

    fn write_text(&self, uuid: &str, extension: &str, text: String) -> (r: Action)
        ensures
            r.deep_view() == writes(self.dir@, uuid@, extension@, text@),
    {
        let path = self.remote_file(uuid, extension);
        Action::Write { command: write_command(path.as_str()), text }
    }

    /// The script that prints the document index.
    pub fn list_script(&self, marker: &str) -> (r: String)
        ensures
            r@ == list_command(self.dir@, marker@),
    {
        list_script(self.dir.as_str(), marker)
    }

    /// The logical items, from what the listing script printed.
    pub fn list_items(&self, marker: &str, output: &str) -> (r: Vec<Item>)
        ensures
            r.deep_view() == items_of(
                listing_of(marker@, output@),
                listing_of(marker@, output@).metadata.len(),
            ),
    {
        build_items(&parse_listing(marker, output))
    }

    /// The command that prints the metadata file of an item.
    pub fn read_metadata(&self, uuid: &str) -> (r: String)
        ensures
            r@ == from_file(file_in(self.dir@, uuid@, "metadata"@)),
    {
        let path = self.remote_file(uuid, "metadata");
        read_command(path.as_str())
    }

    /// Writing the metadata file of an item.
    pub fn write_metadata(&self, uuid: &str, text: String) -> (r: Action)
        ensures
            r.deep_view() == writes(self.dir@, uuid@, "metadata"@, text@),
    {
        self.write_text(uuid, "metadata", text)
    }

    /// Sends a local payload file under a fresh UUID. It is followed by
    /// [`Client::register_document`]; whether the name is free is for the caller to see to.
    pub fn store_payload(&self, file_name: &str, doc_uuid: &str, file_type: &str) -> (r: Vec<Action>)
        ensures
            r.deep_view() == seq![
                ActionView::Step("Uploading "@ + file_name@),
                ActionView::Upload {
                    command: into_file(file_in(self.dir@, doc_uuid@, file_type@)),
                },
            ],
    {
        let mut actions: Vec<Action> = Vec::new();
        let path = self.remote_file(doc_uuid, file_type);
        act(&mut actions, Action::Step(cat("Uploading ", file_name)));
        act(&mut actions, Action::Upload { command: write_command(path.as_str()) });
        assert(actions.deep_view() =~= seq![
            ActionView::Step("Uploading "@ + file_name@),
            ActionView::Upload { command: into_file(file_in(self.dir@, doc_uuid@, file_type@)) },
        ]);
        actions
    }

    /// [`Client::store_payload`] for bytes in memory.
    pub fn store_payload_bytes(
        &self,
        data: Vec<u8>,
        name: &str,
        doc_uuid: &str,
        file_type: &str,
    ) -> (r: Vec<Action>)
        ensures
            r.deep_view() == seq![
                ActionView::Step("Uploading '"@ + name@ + "'"@),
                ActionView::Send {
                    command: into_file(file_in(self.dir@, doc_uuid@, file_type@)),
                    data: data@,
                },
            ],
    {
        let ghost bytes = data@;
        let mut actions: Vec<Action> = Vec::new();
        let path = self.remote_file(doc_uuid, file_type);
        act(&mut actions, Action::Step(cat3("Uploading '", name, "'")));
        act(&mut actions, Action::Send { command: write_command(path.as_str()), data });
        assert(actions.deep_view() =~= seq![
            ActionView::Step("Uploading '"@ + name@ + "'"@),
            ActionView::Send {
                command: into_file(file_in(self.dir@, doc_uuid@, file_type@)),
                data: bytes,
            },
        ]);
        actions
    }

    /// Makes an uploaded payload a document. The metadata is written last: a document only becomes
    /// visible once it exists, so that an interrupted upload leaves invisible files instead of a
    /// broken document.
    pub fn register_document(
        &self,
        doc_uuid: &str,
        name: &str,
        parent: &str,
        file_type: &str,
        now_ms: i64,
        size_bytes: Option<u64>,
    ) -> (r: Operation)
        ensures
            r.item.deep_view() == new_document(
                doc_uuid@,
                name@,
                parent@,
                file_type@,
                now_ms,
                size_bytes,
            ),
            exists|content: Seq<char>, metadata: Seq<char>|
                {
                    &&& r.actions.deep_view() == #[trigger] registration(
                        self.dir@,
                        doc_uuid@,
                        content,
                        metadata,
                    )
                    &&& json_text(content_fields(file_type@)) == Ok::<Seq<char>, Seq<char>>(content)
                    &&& reads_back(content, content_fields(file_type@))
                    &&& reads_as_fields(metadata, document_fields(name@, parent@, now_ms))
                },
    {
        let content = document_content_json(file_type);
        let metadata = document_metadata_json(name, parent, now_ms);
        let ghost c = content@;
        let ghost m = metadata@;
        let directory = self.remote_path(doc_uuid);
        let directory = shell_quote(directory.as_str());
        let mut actions: Vec<Action> = Vec::new();
        act(&mut actions, Action::Step("Registering document".to_owned()));
        act(&mut actions, self.write_text(doc_uuid, "content", content));
        act(&mut actions, Action::Run(cat("mkdir -p ", directory.as_str())));
        act(&mut actions, self.write_text(doc_uuid, "pagedata", "".to_owned()));
        act(&mut actions, self.write_text(doc_uuid, "metadata", metadata));
        act(&mut actions, Action::Finished);
        assert(actions.deep_view() =~= registration(self.dir@, doc_uuid@, c, m));
        let item = Item {
            uuid: doc_uuid.to_owned(),
            visible_name: name.to_owned(),
            parent: parent.to_owned(),
            kind: ItemKind::Document,
            file_type: Some(file_type.to_owned()),
            created_time: now_ms,
            last_modified: now_ms,
            size_bytes,
        };
        Operation { actions, item }
    }

    /// Creates a folder; whether the name is free is for the caller to see to.
    pub fn create_folder_in(
        &self,
        visible_name: &str,
        parent_uuid: &str,
        folder_uuid: &str,
        now_ms: i64,
    ) -> (r: Operation)
        ensures
            r.item.deep_view() == new_folder(folder_uuid@, visible_name@, parent_uuid@, now_ms),
            exists|metadata: Seq<char>|
                {
                    &&& r.actions.deep_view() == seq![
                        #[trigger] writes(self.dir@, folder_uuid@, "metadata"@, metadata),
                        writes(self.dir@, folder_uuid@, "content"@, "[]"@),
                        writes(self.dir@, folder_uuid@, "pagedata"@, "\n"@),
                    ]
                    &&& reads_as_fields(
                        metadata,
                        folder_fields(visible_name@, parent_uuid@, now_ms),
                    )
                },
    {
        let metadata = folder_metadata_json(visible_name, parent_uuid, now_ms);
        let ghost m = metadata@;
        let mut actions: Vec<Action> = Vec::new();
        act(&mut actions, self.write_text(folder_uuid, "metadata", metadata));
        act(&mut actions, self.write_text(folder_uuid, "content", "[]".to_owned()));
        act(&mut actions, self.write_text(folder_uuid, "pagedata", "\n".to_owned()));
        assert(actions.deep_view() =~= seq![
            writes(self.dir@, folder_uuid@, "metadata"@, m),
            writes(self.dir@, folder_uuid@, "content"@, "[]"@),
            writes(self.dir@, folder_uuid@, "pagedata"@, "\n"@),
        ]);
        let item = Item {
            uuid: folder_uuid.to_owned(),
            visible_name: visible_name.to_owned(),
            parent: parent_uuid.to_owned(),
            kind: ItemKind::Folder,
            file_type: None,
            created_time: now_ms,
            last_modified: now_ms,
            size_bytes: None,
        };
        Operation { actions, item }
    }

    /// Overwrites an existing document's payload with a local file. Annotations and the place in the
    /// tree stay. It is followed by [`Client::touch_last_modified`].
    pub fn update_payload_from_file(&self, uuid: &str, file_type: &str, file_name: &str) -> (r: Vec<
        Action,
    >)
        ensures
            r.deep_view() == seq![
                ActionView::Step("Updating "@ + file_name@),
                ActionView::Upload { command: into_file(file_in(self.dir@, uuid@, file_type@)) },
            ],
    {
        let mut actions: Vec<Action> = Vec::new();
        let path = self.remote_file(uuid, file_type);
        act(&mut actions, Action::Step(cat("Updating ", file_name)));
        act(&mut actions, Action::Upload { command: write_command(path.as_str()) });
        assert(actions.deep_view() =~= seq![
            ActionView::Step("Updating "@ + file_name@),
            ActionView::Upload { command: into_file(file_in(self.dir@, uuid@, file_type@)) },
        ]);
        actions
    }

    /// Overwrites an existing document's payload with bytes in memory (e.g. a regenerated EPUB). It
    /// is followed by [`Client::touch_last_modified`].
    pub fn update_payload_bytes(&self, uuid: &str, file_type: &str, data: Vec<u8>) -> (r: Vec<
        Action,
    >)
        ensures
            r.deep_view() == seq![
                ActionView::Step("Updating document"@),
                ActionView::Send {
                    command: into_file(file_in(self.dir@, uuid@, file_type@)),
                    data: data@,
                },
            ],
    {
        let ghost bytes = data@;
        let mut actions: Vec<Action> = Vec::new();
        let path = self.remote_file(uuid, file_type);
        act(&mut actions, Action::Step("Updating document".to_owned()));
        act(&mut actions, Action::Send { command: write_command(path.as_str()), data });
        assert(actions.deep_view() =~= seq![
            ActionView::Step("Updating document"@),
            ActionView::Send {
                command: into_file(file_in(self.dir@, uuid@, file_type@)),
                data: bytes,
            },
        ]);
        actions
    }

    /// Sets the time of modification of an item.
    pub fn touch_last_modified(&self, uuid: &str, now_ms: i64) -> (r: Vec<Action>)
        ensures
            r.deep_view() == seq![
                ActionView::Update(
                    UpdateView {
                        uuid: uuid@,
                        change: ChangeView { parent: None, visible_name: None, now_ms },
                    },
                ),
                ActionView::Finished,
            ],
    {
        let mut actions: Vec<Action> = Vec::new();
        let update = Update { uuid: uuid.to_owned(), parent: None, visible_name: None, now_ms };
        act(&mut actions, Action::Update(update));
        act(&mut actions, Action::Finished);
        assert(actions.deep_view() =~= seq![
            ActionView::Update(
                UpdateView {
                    uuid: uuid@,
                    change: ChangeView { parent: None, visible_name: None, now_ms },
                },
            ),
            ActionView::Finished,
        ]);
        actions
    }

    /// Moves and renames a document by its metadata alone: no bytes are transferred and annotations
    /// stay. Whether the destination is a folder and the name is free is for the caller to see to.
    pub fn move_document(&self, uuid: &str, parent_uuid: &str, name: &str, now_ms: i64) -> (r: Vec<
        Action,
    >)
        ensures
            r.deep_view() == seq![
                ActionView::Step("Moving '"@ + name@ + "' (metadata only)"@),
                ActionView::Update(
                    UpdateView {
                        uuid: uuid@,
                        change: ChangeView {
                            parent: Some(parent_uuid@),
                            visible_name: Some(name@),
                            now_ms,
                        },
                    },
                ),
                ActionView::Finished,
            ],
            r.deep_view() == relocation(uuid@, parent_uuid@, name@, now_ms),
    {
        let mut actions: Vec<Action> = Vec::new();
        let update = Update {
            uuid: uuid.to_owned(),
            parent: Some(parent_uuid.to_owned()),
            visible_name: Some(name.to_owned()),
            now_ms,
        };
        act(&mut actions, Action::Step(cat3("Moving '", name, "' (metadata only)")));
        act(&mut actions, Action::Update(update));
        act(&mut actions, Action::Finished);
        assert(actions.deep_view() =~= seq![
            ActionView::Step("Moving '"@ + name@ + "' (metadata only)"@),
            ActionView::Update(
                UpdateView {
                    uuid: uuid@,
                    change: ChangeView {
                        parent: Some(parent_uuid@),
                        visible_name: Some(name@),
                        now_ms,
                    },
                },
            ),
            ActionView::Finished,
        ]);
        actions
    }

    /// Copies an existing payload on the device, where the bytes are already. It is followed by
    /// [`Client::register_document`], so that an interruption leaves an invisible payload, never a
    /// broken document.
    pub fn copy_payload_on_device(
        &self,
        from_uuid: &str,
        file_type: &str,
        doc_uuid: &str,
        name: &str,
    ) -> (r: Vec<Action>)
        ensures
            r.deep_view() == seq![
                ActionView::Step("Copying payload on device for '"@ + name@ + "'"@),
                ActionView::Run(
                    "cp -f "@ + quoted(file_in(self.dir@, from_uuid@, file_type@)) + " "@ + quoted(
                        file_in(self.dir@, doc_uuid@, file_type@),
                    ),
                ),
            ],
            r.deep_view() == copying(self.dir@, from_uuid@, file_type@, doc_uuid@, name@),
    {
        let from = self.remote_file(from_uuid, file_type);
        let from = shell_quote(from.as_str());
        let to = self.remote_file(doc_uuid, file_type);
        let to = shell_quote(to.as_str());
        let mut actions: Vec<Action> = Vec::new();
        act(&mut actions, Action::Step(cat3("Copying payload on device for '", name, "'")));
        let head = cat("cp -f ", from.as_str());
        act(&mut actions, Action::Run(cat3(head.as_str(), " ", to.as_str())));
        assert(actions.deep_view() =~= seq![
            ActionView::Step("Copying payload on device for '"@ + name@ + "'"@),
            ActionView::Run(
                "cp -f "@ + quoted(file_in(self.dir@, from_uuid@, file_type@)) + " "@ + quoted(
                    file_in(self.dir@, doc_uuid@, file_type@),
                ),
            ),
        ]);
        actions
    }

    /// The command that prints a document's payload, to be stored in a local file.
    pub fn download_payload_to(&self, uuid: &str, file_type: &str) -> (r: String)
        ensures
            r@ == from_file(file_in(self.dir@, uuid@, file_type@)),
    {
        let path = self.remote_file(uuid, file_type);
        read_command(path.as_str())
    }

    /// The command that prints a document's payload.
    pub fn download_payload_bytes(&self, uuid: &str, file_type: &str) -> (r: String)
        ensures
            r@ == from_file(file_in(self.dir@, uuid@, file_type@)),
    {
        self.download_payload_to(uuid, file_type)
    }

    /// The script that packs every file of an item (`<uuid>` and `<uuid>.*`) into one tar stream.
    /// The `.*` stands outside the quotes on purpose; names that match nothing are left out.
    pub fn fetch_item_tar(&self, uuid: &str) -> (r: String)
        ensures
            r@ == packing(self.dir@, uuid@),
    {
        let dir = shell_quote(self.dir.as_str());
        let uuid = shell_quote(uuid);
        let head = cat5(
            "cd ",
            dir.as_str(),
            " || exit 9\nset --\nfor f in ",
            uuid.as_str(),
            " ",
        );
        cat3(
            head.as_str(),
            uuid.as_str(),
            ".*; do [ -e \"$f\" ] && set -- \"$@\" \"$f\"; done\n[ \"$#\" -gt 0 ] || exit 8\ntar -cf - \"$@\"\n",
        )
    }

    /// The system state, from what the status script printed and the document listing.
    pub fn system_status(&self, marker: &str, output: &str, items: &[Item]) -> (r: SystemStatus)
        ensures
            r.documents matches Some(counts) && counts.documents == live_count(
                items.deep_view(),
                items.len() as nat,
                false,
            ) && counts.folders == live_count(items.deep_view(), items.len() as nat, true)
                && counts.trashed == trashed_count(items.deep_view(), items.len() as nat),
            r.deep_view() == (StatusView {
                documents: r.documents,
                ..status_of(sections(marker@, lines(output@), lines(output@).len()))
            }),
    {
        let mut status = parse_status(marker, output);
        status.documents = Some(document_counts(items));
        status
    }

    /// Takes away all files of one document, with no look at the tree: callers must not use this on
    /// folders with children.
    pub fn delete_document(&self, uuid: &str) -> (r: Action)
        ensures
            r.deep_view() == ActionView::Run(removal(self.dir@, uuid@)),
    {
        let dir = shell_quote(self.dir.as_str());
        let uuid = shell_quote(uuid);
        let head = cat5("cd ", dir.as_str(), " && rm -rf -- ", uuid.as_str(), " ");
        Action::Run(cat3(head.as_str(), uuid.as_str(), ".*"))
    }
}

/// Whether an action changes the device.
pub open spec fn touches_device(action: ActionView) -> bool {
    !(action is Step) && !(action is Finished)
}

/// A document is registered all or not at all: as soon as its metadata is written, which makes it
/// visible, nothing else is left to do on the device.
pub proof fn metadata_is_written_last(
    dir: Seq<char>,
    uuid: Seq<char>,
    content: Seq<char>,
    metadata: Seq<char>,
    i: int,
    j: int,
)
    requires
        0 <= i < registration(dir, uuid, content, metadata).len(),
        0 <= j < registration(dir, uuid, content, metadata).len(),
        registration(dir, uuid, content, metadata)[i] == writes(dir, uuid, "metadata"@, metadata),
        touches_device(registration(dir, uuid, content, metadata)[j]),
    ensures
        j <= i,
{
    let actions = registration(dir, uuid, content, metadata);
    assert(actions[5] is Finished);
    if i < 4 {
        reveal_strlit("content");
        reveal_strlit("pagedata");
        reveal_strlit("metadata");
        assert("pagedata"@[0] == 'p' && "metadata"@[0] == 'm' && "content"@[0] == 'c');
        files_differ(dir, uuid, "content"@, "metadata"@);
        files_differ(dir, uuid, "pagedata"@, "metadata"@);
    }
}

proof fn files_differ(dir: Seq<char>, uuid: Seq<char>, a: Seq<char>, b: Seq<char>)
    requires
        a != b,
    ensures
        into_file(file_in(dir, uuid, a)) != into_file(file_in(dir, uuid, b)),
{
    let x = file_in(dir, uuid, a);
    let y = file_in(dir, uuid, b);
    if into_file(x) == into_file(y) {
        let n = "cat > "@.len() as int;
        assert(into_file(x).skip(n) =~= quoted(x));
        assert(into_file(y).skip(n) =~= quoted(y));
        quoting_is_undone_by_the_shell(x);
        quoting_is_undone_by_the_shell(y);
        assert(x == y);
        let m = dir.len() + "/"@.len() + uuid.len() + "."@.len();
        assert(x.skip(m as int) =~= a);
        assert(y.skip(m as int) =~= b);
    }
}

/// A document is registered by its own files in the data directory and nothing else: its content, its
/// page directory, empty page data and its metadata.
pub proof fn documents_are_registered_by_their_files(
    dir: Seq<char>,
    uuid: Seq<char>,
    content: Seq<char>,
    metadata: Seq<char>,
)
    ensures
        ({
            let actions = registration(dir, uuid, content, metadata);
            let base = dir + "/"@;
            &&& actions.len() == 6
            &&& actions[0] == ActionView::Step("Registering document"@)
            &&& actions[1] == (ActionView::Write {
                command: "cat > "@ + quoted(base + (uuid + "."@ + "content"@)),
                text: content,
            })
            &&& actions[2] == ActionView::Run("mkdir -p "@ + quoted(base + uuid))
            &&& actions[3] == (ActionView::Write {
                command: "cat > "@ + quoted(base + (uuid + "."@ + "pagedata"@)),
                text: ""@,
            })
            &&& actions[4] == (ActionView::Write {
                command: "cat > "@ + quoted(base + (uuid + "."@ + "metadata"@)),
                text: metadata,
            })
            &&& actions[5] == ActionView::Finished
        }),
{
}

/// A file of an item lies in the data directory under the UUID of the item and its extension; what is
/// written goes there, and what is read comes from there.
pub proof fn files_lie_under_their_uuid(
    dir: Seq<char>,
    uuid: Seq<char>,
    extension: Seq<char>,
    text: Seq<char>,
)
    ensures
        file_in(dir, uuid, extension) == dir + "/"@ + (uuid + "."@ + extension),
        writes(dir, uuid, extension, text) == (ActionView::Write {
            command: "cat > "@ + quoted(dir + "/"@ + (uuid + "."@ + extension)),
            text,
        }),
        into_file(file_in(dir, uuid, extension)) == "cat > "@ + quoted(
            dir + "/"@ + (uuid + "."@ + extension),
        ),
        from_file(file_in(dir, uuid, extension)) == "cat "@ + quoted(
            dir + "/"@ + (uuid + "."@ + extension),
        ),
{
}

/// A new document is what it was uploaded as, and a new folder has neither a type nor a size; both were
/// made and changed just now.
pub proof fn new_items_are_what_was_asked_for(
    uuid: Seq<char>,
    name: Seq<char>,
    parent: Seq<char>,
    file_type: Seq<char>,
    now_ms: i64,
    size_bytes: Option<u64>,
)
    ensures
        ({
            let document = new_document(uuid, name, parent, file_type, now_ms, size_bytes);
            let folder = new_folder(uuid, name, parent, now_ms);
            &&& document.uuid == uuid && document.visible_name == name && document.parent == parent
            &&& !document.is_folder() && document.file_type == Some(file_type)
            &&& document.size_bytes == size_bytes
            &&& document.created_time == now_ms && document.last_modified == now_ms
            &&& folder.uuid == uuid && folder.visible_name == name && folder.parent == parent
            &&& folder.is_folder() && folder.file_type is None && folder.size_bytes is None
            &&& folder.created_time == now_ms && folder.last_modified == now_ms
        }),
{
}

/// A document is moved and renamed by one update of its own metadata, with both its new parent and its
/// new name, and no file of it is touched.
pub proof fn relocations_touch_metadata_alone(
    uuid: Seq<char>,
    parent: Seq<char>,
    name: Seq<char>,
    now_ms: i64,
)
    ensures
        relocation(uuid, parent, name, now_ms).len() == 3,
        relocation(uuid, parent, name, now_ms)[0] == ActionView::Step(
            "Moving '"@ + name + "' (metadata only)"@,
        ),
        relocation(uuid, parent, name, now_ms)[1] == ActionView::Update(
            UpdateView {
                uuid,
                change: ChangeView { parent: Some(parent), visible_name: Some(name), now_ms },
            },
        ),
        relocation(uuid, parent, name, now_ms)[2] == ActionView::Finished,
{
}

/// A payload is copied from the document that has it to the one that is to have it, both in the data
/// directory and of the same type.
pub proof fn payloads_are_copied_to_the_new_document(
    dir: Seq<char>,
    from_uuid: Seq<char>,
    file_type: Seq<char>,
    uuid: Seq<char>,
    name: Seq<char>,
)
    ensures
        copying(dir, from_uuid, file_type, uuid, name).len() == 2,
        copying(dir, from_uuid, file_type, uuid, name)[0] == ActionView::Step(
            "Copying payload on device for '"@ + name + "'"@,
        ),
        copying(dir, from_uuid, file_type, uuid, name)[1] == ActionView::Run(
            "cp -f "@ + quoted(dir + "/"@ + (from_uuid + "."@ + file_type)) + " "@ + quoted(
                dir + "/"@ + (uuid + "."@ + file_type),
            ),
        ),
{
}

} // verus!
