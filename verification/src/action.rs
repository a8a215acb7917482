//! What an operation has to do on the device, step by step.
use vstd::prelude::*;
use crate::metadata::{rewrite_metadata, rewritten, Change, ChangeView};
use crate::error::{agrees, Error};
use crate::ssh::{quoted, shell_quote};
use crate::text::cat;
use crate::xochitl::{text_of, Item, ItemView};

verus! {

/// A change of an item's metadata that waits for the file to be read.
#[derive(Debug)]
pub struct Update {
    pub uuid: String,
    pub parent: Option<String>,
    pub visible_name: Option<String>,
    pub now_ms: i64,
}

/// What an [`Update`] holds.
pub struct UpdateView {
    pub uuid: Seq<char>,
    pub change: ChangeView,
}

impl DeepView for Update {
    type V = UpdateView;

    open spec fn deep_view(&self) -> UpdateView {
        UpdateView {
            uuid: self.uuid@,
            change: ChangeView {
                parent: text_of(self.parent),
                visible_name: text_of(self.visible_name),
                now_ms: self.now_ms,
            },
        }
    }
}

impl Update {
    /// The new text of the metadata file, given the text that it holds. Unknown fields are kept.
    pub fn apply(&self, text: &str) -> (r: Result<String, Error>)
        ensures
            agrees(r, rewritten(self.uuid@, text@, self.deep_view().change)),
    {
        let parent: Option<&str> = match &self.parent {
            Some(p) => Some(p.as_str()),
            None => None,
        };
        let visible_name: Option<&str> = match &self.visible_name {
            Some(n) => Some(n.as_str()),
            None => None,
        };
        let change = Change { parent, visible_name, now_ms: self.now_ms };
        assert(change.deep_view() == self.deep_view().change);
        rewrite_metadata(self.uuid.as_str(), text, &change)
    }
}

/// One step of an operation. The steps are taken in order, and the first that fails ends the
/// operation.
#[derive(Debug)]
pub enum Action {
    /// Announce what happens next.
    Step(String),
    /// Run a command.
    Run(String),
    /// Run a command with a small text as its input, without reporting progress.
    Write { command: String, text: String },
    /// Run a command with bytes as its input.
    Send { command: String, data: Vec<u8> },
    /// Run a command with the local file as its input.
    Upload { command: String },
    /// Read a metadata file, change it and write it back.
    Update(Update),
    /// Announce the end.
    Finished,
}

/// What an [`Action`] holds.
pub enum ActionView {
    Step(Seq<char>),
    Run(Seq<char>),
    Write { command: Seq<char>, text: Seq<char> },
    Send { command: Seq<char>, data: Seq<u8> },
    Upload { command: Seq<char> },
    Update(UpdateView),
    Finished,
}

impl DeepView for Action {
    type V = ActionView;

    open spec fn deep_view(&self) -> ActionView {
        match *self {
            Action::Step(s) => ActionView::Step(s@),
            Action::Run(s) => ActionView::Run(s@),
            Action::Write { command, text } => ActionView::Write { command: command@, text: text@ },
            Action::Send { command, data } => ActionView::Send { command: command@, data: data@ },
            Action::Upload { command } => ActionView::Upload { command: command@ },
            Action::Update(u) => ActionView::Update(u.deep_view()),
            Action::Finished => ActionView::Finished,
        }
    }
}

/// An operation that ends in a new or changed item.
#[derive(Debug)]
pub struct Operation {
    pub actions: Vec<Action>,
    /// The item as it is once all actions are done.
    pub item: Item,
}

/// What an [`Operation`] holds.
pub struct OperationView {
    pub actions: Seq<ActionView>,
    pub item: ItemView,
}

impl DeepView for Operation {
    type V = OperationView;

    open spec fn deep_view(&self) -> OperationView {
        OperationView { actions: self.actions.deep_view(), item: self.item.deep_view() }
    }
}

/// Appends an action.
pub fn act(actions: &mut Vec<Action>, action: Action)
    ensures
        final(actions).deep_view() == old(actions).deep_view().push(action.deep_view()),
{
    let ghost before = actions.deep_view();
    let ghost view = action.deep_view();
    actions.push(action);
    assert(actions.deep_view() =~= before.push(view));
}

/// The command that stores its input in a file.
pub open spec fn into_file(path: Seq<char>) -> Seq<char> {
    "cat > "@ + quoted(path)
}

/// The command that prints a file.
pub open spec fn from_file(path: Seq<char>) -> Seq<char> {
    "cat "@ + quoted(path)
}

/// The command that stores its input in a file.
pub fn write_command(path: &str) -> (r: String)
    ensures
        r@ == into_file(path@),
{
    let path = shell_quote(path);
    cat("cat > ", path.as_str())
}

/// The command that prints a file.
pub fn read_command(path: &str) -> (r: String)
    ensures
        r@ == from_file(path@),
{
    let path = shell_quote(path);
    cat("cat ", path.as_str())
}

} // verus!
