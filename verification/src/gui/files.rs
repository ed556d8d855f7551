//! The file windows: the folder that is shown, the editor, and what both ask of the file
//! system.
use crate::fixed;
use crate::fixed::InlineString;
use crate::gui;
use crate::gui::{
    BrowserEntry, BrowserKind, Desktop, DesktopUi, DesktopView, EntryView, WindowId, WindowState,
};
use crate::linux::errno;
use crate::linux::errno::Errno;
use crate::text;
use vstd::prelude::*;
use vstd::slice::slice_subrange;
use vstd::string::*;
use vstd::utf8::*;

verus! {

/// What the desktop asks to be done.
#[derive(Clone, Copy)]
pub enum DesktopRequest {
    Nothing,
    /// The folder that is shown is to be listed.
    RefreshFiles,
    /// A file is to be opened in the editor.
    OpenEditor(InlineString<64>),
    /// A new folder or file is to be made in the folder that is shown.
    CreateEntry(BrowserKind),
    /// The text of the editor is to be written.
    SaveEditor,
    /// A setting is to be raised or lowered.
    AdjustSetting { volume: bool, up: bool },
    CycleTheme,
    StepVideo { forward: bool },
    PlayVideo,
    PlayAudio,
}

/// What the desktop asks to be done.
#[verifier::ext_equal]
pub enum RequestView {
    Nothing,
    RefreshFiles,
    OpenEditor(Seq<u8>),
    CreateEntry(BrowserKind),
    SaveEditor,
    AdjustSetting { volume: bool, up: bool },
    CycleTheme,
    StepVideo { forward: bool },
    PlayVideo,
    PlayAudio,
}

impl View for DesktopRequest {
    type V = RequestView;

    open spec fn view(&self) -> RequestView {
        match *self {
            DesktopRequest::Nothing => RequestView::Nothing,
            DesktopRequest::RefreshFiles => RequestView::RefreshFiles,
            DesktopRequest::OpenEditor(path) => RequestView::OpenEditor(path@),
            DesktopRequest::CreateEntry(kind) => RequestView::CreateEntry(kind),
            DesktopRequest::SaveEditor => RequestView::SaveEditor,
            DesktopRequest::AdjustSetting { volume, up } => RequestView::AdjustSetting {
                volume,
                up,
            },
            DesktopRequest::CycleTheme => RequestView::CycleTheme,
            DesktopRequest::StepVideo { forward } => RequestView::StepVideo { forward },
            DesktopRequest::PlayVideo => RequestView::PlayVideo,
            DesktopRequest::PlayAudio => RequestView::PlayAudio,
        }
    }
}

/// The path of an entry of a folder, as far as its pieces fit in 64 bytes.
pub open spec fn child_path(parent: Seq<u8>, child: Seq<u8>) -> Seq<u8> {
    let start = if parent == seq![47u8] {
        Seq::<u8>::empty()
    } else {
        fixed::appended(Seq::empty(), parent, 64)
    };
    fixed::appended(fixed::appended(start, seq![47u8], 64), child, 64)
}

pub fn set_child_path(parent: &[u8], child: &[u8]) -> (path: InlineString<64>)
    requires
        valid_utf8(parent@),
        valid_utf8(child@),
    ensures
        path@ == child_path(parent@, child@),
{
    let mut path: InlineString<64> = InlineString::new();
    let slash: [u8; 1] = [47];
    assert(slash@ =~= seq![47u8]);
    if !text::equal(parent, slash.as_slice()) {
        let _ = path.push_bytes(parent);
    }
    let _ = path.push_byte(47);
    let _ = path.push_bytes(child);
    path
}

/// An entry that the file system lists.
pub struct ListedEntry {
    pub name: Vec<u8>,
    pub is_directory: bool,
}

/// The names of the entries are text.
pub open spec fn listing_ok(listed: Seq<ListedEntry>) -> bool {
    forall|i: int| 0 <= i < listed.len() ==> valid_utf8((#[trigger] listed[i]).name@)
}

/// An entry as it is shown.
pub open spec fn shown_entry(name: Seq<u8>, is_directory: bool) -> EntryView {
    EntryView {
        name: fixed::appended(Seq::empty(), name, 32),
        kind: if is_directory {
            BrowserKind::Directory
        } else {
            BrowserKind::File
        },
    }
}

/// The first entries of a list as they are shown.
pub open spec fn shown_entries(list: Seq<ListedEntry>) -> Seq<EntryView> {
    Seq::new(
        if list.len() < 12 {
            list.len()
        } else {
            12
        },
        |i: int| shown_entry(list[i].name@, list[i].is_directory),
    )
}

/// The desktop with the folder listed, or with the news that it cannot be.
pub open spec fn refreshed(view: DesktopView, list: Option<Seq<ListedEntry>>) -> DesktopView {
    match list {
        None => DesktopView {
            ui: DesktopUi { selected_file_entry: None, ..view.ui },
            entries: Seq::empty(),
            file_status: gui::kept(text::literal("Folder unavailable")),
            ..view
        },
        Some(listed) => {
            let entries = shown_entries(listed);
            DesktopView {
                ui: DesktopUi {
                    selected_file_entry: match view.ui.selected_file_entry {
                        Some(selected) => if selected >= entries.len() {
                            None
                        } else {
                            Some(selected)
                        },
                        None => None,
                    },
                    ..view.ui
                },
                entries,
                file_status: gui::kept(view.files_path),
                ..view
            }
        },
    }
}

/// The desktop with another folder to be listed.
pub open spec fn navigated(view: DesktopView, path: Seq<u8>) -> DesktopView {
    DesktopView {
        ui: DesktopUi { selected_file_entry: None, last_file_click: None, ..view.ui },
        files_path: gui::kept(path),
        ..view
    }
}

/// The place of the last slash of the first `count` bytes of a path, or -1.
pub open spec fn last_slash(path: Seq<u8>, count: nat) -> int
    decreases count,
{
    if count == 0 {
        -1
    } else if path[count - 1] == 47 {
        count - 1
    } else {
        last_slash(path, (count - 1) as nat)
    }
}

/// The folder that holds another.
pub open spec fn parent_path(path: Seq<u8>) -> Seq<u8> {
    let at = last_slash(path, path.len());
    if at <= 0 {
        seq![47u8]
    } else {
        path.take(at)
    }
}

/// What came of looking for a file to edit.
pub struct EditorSource<'a> {
    pub is_directory: bool,
    pub exists: bool,
    /// Whether it could be made, where it was not there.
    pub created: bool,
    /// What it holds, where it could be read.
    pub text: Option<&'a [u8]>,
}

/// Whether a file can be edited.
pub open spec fn editable(source: EditorSource<'_>) -> bool {
    !source.is_directory && (source.exists || source.created) && source.text is Some
}

/// The desktop with a file open in the editor.
pub open spec fn editing(view: DesktopView, path: Seq<u8>, text: Seq<u8>) -> DesktopView {
    DesktopView {
        ui: DesktopUi {
            editor: WindowState { open: true, minimized: false, ..view.ui.editor },
            active: WindowId::Editor,
            ..view.ui
        },
        editor_path: gui::kept(path),
        editor_text: fixed::appended(Seq::empty(), text, 2048),
        editor_status: gui::kept(text::literal("Editing - F2 saves")),
        ..view
    }
}

/// The desktop once the text of the editor was written, or could not be.
pub open spec fn saved(view: DesktopView, result: Result<(), Errno>) -> (DesktopView, RequestView) {
    match result {
        Ok(_) => (
            DesktopView { editor_status: gui::kept(text::literal("Saved")), ..view },
            RequestView::RefreshFiles,
        ),
        Err(error) => (
            DesktopView {
                editor_status: gui::kept(message_bytes(error)),
                ..view
            },
            RequestView::Nothing,
        ),
    }
}

/// The bytes of the message of an error.
pub open spec fn message_bytes(error: Errno) -> Seq<u8> {
    vstd::utf8::encode_utf8(errno::errno_message(error))
}

fn error_note(error: Errno) -> (note: InlineString<64>)
    ensures
        note@ == gui::kept(message_bytes(error)),
{
    reveal(text::utf8);
    let message = error.message();
    gui::keep(text::utf8_bytes(message))
}

impl Desktop {
    /// Takes over what the folder that is shown holds, where it could be listed.
    pub fn refresh_files_view(&mut self, list: Option<&[ListedEntry]>)
        requires
            old(self)@.wf(),
            list matches Some(listed) ==> listing_ok(listed@),
        ensures
            final(self)@.wf(),
            final(self)@ == refreshed(
                old(self)@,
                match list {
                    Some(listed) => Some(listed@),
                    None => None,
                },
            ),
    {
        let mut entries: Vec<BrowserEntry> = Vec::new();
        match list {
            None => {
                self.file_status = gui::note("Folder unavailable");
                self.ui.selected_file_entry = None;
                self.entries = entries;
                assert(self@.entries =~= Seq::<EntryView>::empty());
            },
            Some(listed) => {
                self.file_status = gui::keep(self.files_path.as_bytes());
                let mut index: usize = 0;
                while index < listed.len() && index < 12
                    invariant
                        index <= listed@.len(),
                        index <= 12,
                        listing_ok(listed@),
                        entries@.len() == index,
                        forall|i: int|
                            0 <= i < index ==> (#[trigger] entries@[i])@ == shown_entry(
                                listed@[i].name@,
                                listed@[i].is_directory,
                            ),
                    decreases 12 - index,
                {
                    let mut name: InlineString<32> = InlineString::new();
                    let _ = name.push_bytes(listed[index].name.as_slice());
                    let kind = if listed[index].is_directory {
                        BrowserKind::Directory
                    } else {
                        BrowserKind::File
                    };
                    entries.push(BrowserEntry { name, kind });
                    index += 1;
                }
                if let Some(selected) = self.ui.selected_file_entry {
                    if selected >= entries.len() {
                        self.ui.selected_file_entry = None;
                    }
                }
                self.entries = entries;
                assert(self@.entries =~= shown_entries(listed@));
            },
        }
    }

    /// Goes to another folder, which is then to be listed.
    pub fn navigate_to(&mut self, path: &[u8]) -> (request: DesktopRequest)
        requires
            old(self)@.wf(),
            valid_utf8(path@),
        ensures
            final(self)@.wf(),
            final(self)@ == navigated(old(self)@, path@),
            request@ == RequestView::RefreshFiles,
    {
        self.files_path = gui::keep(path);
        self.ui.selected_file_entry = None;
        self.ui.last_file_click = None;
        DesktopRequest::RefreshFiles
    }

    /// Goes to the folder that holds the one that is shown; the topmost has none.
    pub fn navigate_parent(&mut self) -> (request: DesktopRequest)
        requires
            old(self)@.wf(),
        ensures
            final(self)@.wf(),
            (final(self)@, request@) == went_up(old(self)@),
    {
        let current = self.files_path;
        let path = current.as_bytes();
        let slash: [u8; 1] = [47];
        assert(slash@ =~= seq![47u8]);
        if text::equal(path, slash.as_slice()) {
            return DesktopRequest::Nothing;
        }
        let mut count: usize = path.len();
        while count > 0 && path[count - 1] != 47
            invariant
                count <= path@.len(),
                last_slash(path@, count as nat) == last_slash(path@, path@.len()),
            decreases count,
        {
            count -= 1;
        }
        if count <= 1 {
            proof {
                fixed::law_push_keeps_utf8(Seq::empty(), 47);
                assert(slash@ =~= Seq::<u8>::empty().push(47));
            }
            self.navigate_to(slash.as_slice())
        } else {
            proof {
                text::lemma_cut_at_ascii(path@, count - 1);
            }
            let parent = slice_subrange(path, 0, count - 1);
            assert(parent@ =~= path@.take(count - 1));
            self.navigate_to(parent)
        }
    }

    /// Opens a file in the editor, where it can be edited.
    pub fn open_editor_internal(&mut self, path: &[u8], source: EditorSource<'_>) -> (opened: bool)
        requires
            old(self)@.wf(),
            valid_utf8(path@),
            source.text matches Some(text) ==> valid_utf8(text@),
        ensures
            final(self)@.wf(),
            opened == editable(source),
            final(self)@ == (if editable(source) {
                editing(old(self)@, path@, source.text->Some_0@)
            } else {
                old(self)@
            }),
    {
        if source.is_directory {
            return false;
        }
        if !source.exists && !source.created {
            return false;
        }
        let given = match source.text {
            None => {
                return false;
            },
            Some(given) => given,
        };
        self.editor_path = gui::keep(path);
        let mut buffer: InlineString<2048> = InlineString::new();
        let _ = buffer.push_bytes(given);
        self.editor_text = buffer;
        self.editor_status = gui::note("Editing - F2 saves");
        self.ui.editor.open = true;
        self.ui.editor.minimized = false;
        self.ui.active = WindowId::Editor;
        true
    }

    /// Takes over what came of writing the text of the editor.
    pub fn save_editor(&mut self, result: Result<(), Errno>) -> (request: DesktopRequest)
        requires
            old(self)@.wf(),
        ensures
            final(self)@.wf(),
            (final(self)@, request@) == saved(old(self)@, result),
    {
        match result {
            Ok(_) => {
                self.editor_status = gui::note("Saved");
                DesktopRequest::RefreshFiles
            },
            Err(error) => {
                self.editor_status = error_note(error);
                DesktopRequest::Nothing
            },
        }
    }
}

/// The desktop with the folder that holds the one that is shown.
pub open spec fn went_up(view: DesktopView) -> (DesktopView, RequestView) {
    if view.files_path == seq![47u8] {
        (view, RequestView::Nothing)
    } else {
        (navigated(view, parent_path(view.files_path)), RequestView::RefreshFiles)
    }
}

/// The name of a new entry: a number behind it from the second on.
pub open spec fn new_name(kind: BrowserKind, suffix: int) -> Seq<u8> {
    let base = match kind {
        BrowserKind::Directory => text::literal("NewFolder"),
        BrowserKind::File => text::literal("NewFile"),
    };
    let named = fixed::appended(Seq::empty(), base, 32);
    let tens = if suffix >= 10 {
        fixed::appended(named, seq![(48 + suffix / 10) as u8], 32)
    } else {
        named
    };
    let numbered = if suffix > 1 {
        fixed::appended(tens, seq![(48 + suffix % 10) as u8], 32)
    } else {
        named
    };
    if kind == BrowserKind::File {
        fixed::appended(numbered, text::literal(".txt"), 32)
    } else {
        numbered
    }
}

fn push_digit(name: &mut InlineString<32>, digit: u8)
    requires
        digit <= 9,
    ensures
        final(name)@ == fixed::appended(old(name)@, seq![(48 + digit) as u8], 32),
{
    let _ = name.push_byte(48 + digit);
    assert(old(name)@.push((48 + digit) as u8) =~= old(name)@ + seq![(48 + digit) as u8]);
}

fn entry_name(kind: BrowserKind, suffix: u8) -> (name: InlineString<32>)
    requires
        1 <= suffix <= 99,
    ensures
        name@ == new_name(kind, suffix as int),
{
    let mut name: InlineString<32> = InlineString::new();
    let _ = match kind {
        BrowserKind::Directory => name.push_bytes(text::literal_bytes("NewFolder")),
        BrowserKind::File => name.push_bytes(text::literal_bytes("NewFile")),
    };
    if suffix > 1 {
        if suffix >= 10 {
            push_digit(&mut name, suffix / 10);
        }
        push_digit(&mut name, suffix % 10);
    }
    if kind == BrowserKind::File {
        let _ = name.push_bytes(text::literal_bytes(".txt"));
    }
    name
}

/// What was said of the path that was asked for.
#[derive(Clone, Copy, Debug, PartialEq, Eq)]
pub enum CreateReply {
    /// Nothing was asked for yet.
    Begin,
    Exists(bool),
    Created(Result<(), Errno>),
    /// The folder was listed again.
    Listed,
}

/// What the making of a new entry asks for.
#[derive(Clone, Copy)]
pub enum CreateRequest {
    /// Whether a path is taken.
    Exists(InlineString<64>),
    /// A folder or a file at a path.
    Create(BrowserKind, InlineString<64>),
    /// The folder that is shown is to be listed again.
    Refresh,
    Finished,
}

/// What the making of a new entry asks for.
#[verifier::ext_equal]
pub enum CreateView {
    Exists(Seq<u8>),
    Create(BrowserKind, Seq<u8>),
    Refresh,
    Finished,
}

impl View for CreateRequest {
    type V = CreateView;

    open spec fn view(&self) -> CreateView {
        match *self {
            CreateRequest::Exists(path) => CreateView::Exists(path@),
            CreateRequest::Create(kind, path) => CreateView::Create(kind, path@),
            CreateRequest::Refresh => CreateView::Refresh,
            CreateRequest::Finished => CreateView::Finished,
        }
    }
}

/// The making of a new entry, as far as it has come: the number that is tried.
#[derive(Clone, Copy, Debug, PartialEq, Eq, Structural)]
pub struct EntryCreation {
    pub kind: BrowserKind,
    pub suffix: u8,
    pub done: bool,
}

impl EntryCreation {
    pub open spec fn wf(self) -> bool {
        1 <= self.suffix <= 99
    }

    /// The path that is tried.
    pub open spec fn path(self, view: DesktopView) -> Seq<u8> {
        child_path(gui::kept(view.files_path), new_name(self.kind, self.suffix as int))
    }

    /// What follows on a reply.
    pub open spec fn after(self, view: DesktopView, reply: CreateReply) -> (
        EntryCreation,
        DesktopView,
        CreateView,
    ) {
        let end = EntryCreation { done: true, ..self };
        match reply {
            CreateReply::Begin => (self, view, CreateView::Exists(self.path(view))),
            CreateReply::Exists(taken) => if !taken {
                (self, view, CreateView::Create(self.kind, self.path(view)))
            } else if self.suffix < 99 {
                let next = EntryCreation { suffix: (self.suffix + 1) as u8, ..self };
                (next, view, CreateView::Exists(next.path(view)))
            } else {
                (
                    end,
                    DesktopView {
                        file_status: gui::kept(text::literal("No available name")),
                        ..view
                    },
                    CreateView::Finished,
                )
            },
            CreateReply::Created(Ok(_)) => (self, view, CreateView::Refresh),
            CreateReply::Created(Err(error)) => (
                end,
                DesktopView { file_status: gui::kept(message_bytes(error)), ..view },
                CreateView::Finished,
            ),
            CreateReply::Listed => (
                end,
                DesktopView { file_status: gui::kept(self.path(view)), ..view },
                CreateView::Finished,
            ),
        }
    }

    /// A making that has not begun.
    pub fn new(kind: BrowserKind) -> (creation: Self)
        ensures
            creation.wf(),
            creation == (EntryCreation { kind, suffix: 1, done: false }),
    {
        EntryCreation { kind, suffix: 1, done: false }
    }

    fn candidate(&self, desktop: &Desktop) -> (path: InlineString<64>)
        requires
            self.wf(),
        ensures
            path@ == self.path(desktop@),
    {
        let name = entry_name(self.kind, self.suffix);
        let parent = gui::keep(desktop.files_path.as_bytes());
        set_child_path(parent.as_bytes(), name.as_bytes())
    }

    /// Takes a reply and gives the next request.
    pub fn create_files_entry(&mut self, desktop: &mut Desktop, reply: CreateReply) -> (request:
        CreateRequest)
        requires
            old(self).wf(),
            old(desktop)@.wf(),
        ensures
            final(self).wf(),
            final(desktop)@.wf(),
            (*final(self), final(desktop)@, request@) == old(self).after(old(desktop)@, reply),
    {
        match reply {
            CreateReply::Begin => CreateRequest::Exists(self.candidate(desktop)),
            CreateReply::Exists(taken) => {
                if !taken {
                    return CreateRequest::Create(self.kind, self.candidate(desktop));
                }
                if self.suffix < 99 {
                    self.suffix = self.suffix + 1;
                    return CreateRequest::Exists(self.candidate(desktop));
                }
                self.done = true;
                desktop.file_status = gui::note("No available name");
                CreateRequest::Finished
            },
            CreateReply::Created(Ok(_)) => CreateRequest::Refresh,
            CreateReply::Created(Err(error)) => {
                self.done = true;
                desktop.file_status = error_note(error);
                CreateRequest::Finished
            },
            CreateReply::Listed => {
                self.done = true;
                let path = self.candidate(desktop);
                desktop.file_status = gui::keep(path.as_bytes());
                CreateRequest::Finished
            },
        }
    }
}

/// A folder that is shown has at most twelve entries, and none of those is selected that
/// it does not have.
pub proof fn law_selection_is_shown(view: DesktopView, list: Option<Seq<ListedEntry>>)
    ensures
        refreshed(view, list).entries.len() <= 12,
        refreshed(view, list).ui.selected_file_entry matches Some(selected) ==> selected
            < refreshed(view, list).entries.len(),
{
}

} // verus!
