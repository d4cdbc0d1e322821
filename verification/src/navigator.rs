//! The interactive navigator as a state machine: it takes commands and the
//! answers to its requests, and says what it needs next.

use vstd::prelude::*;
use vstd::string::StringExecFns;
use crate::entry::{shown_entries, visible_entries, EntryInfo, EntryKind};
use crate::format::{
    format_size, format_time, label_text, modified_printable, modified_text, size_text, tui_label,
};
use crate::options::ListOptions;
use crate::order::{dir_count, sort_entries, sorted_entries};
use crate::text::{decimal_text, push_decimal};

verus! {

/// Where the navigator stands and how it lists.
#[derive(Debug, PartialEq, Eq)]
pub struct BrowserState {
    pub cwd: String,
    pub options: ListOptions,
}

/// What the user asks of the navigator. An entry is named by its place in
/// the list.
#[derive(Clone, Copy, Debug, PartialEq, Eq, Structural)]
pub enum Command {
    Reload,
    Select(usize),
    Activate(usize),
    NavigateUp,
    ToggleHidden,
    Quit,
}

/// What happens to the navigator: a command, or the answer to its last
/// request.
#[derive(Debug, PartialEq, Eq)]
pub enum Event {
    Command(Command),
    /// What a directory holds, hidden entries included, or why it could not be read.
    Entries(Result<Vec<EntryInfo>, String>),
    /// The metadata of a path, or why it could not be read.
    Metadata(Result<EntryInfo, String>),
}

/// What an event says.
pub enum EventView {
    Command(Command),
    Entries(Result<Seq<EntryInfo>, Seq<char>>),
    Metadata(Result<EntryInfo, Seq<char>>),
}

impl View for Event {
    type V = EventView;

    open spec fn view(&self) -> EventView {
        match self {
            Event::Command(c) => EventView::Command(*c),
            Event::Entries(Ok(raw)) => EventView::Entries(Ok(raw@)),
            Event::Entries(Err(m)) => EventView::Entries(Err(m@)),
            Event::Metadata(Ok(info)) => EventView::Metadata(Ok(*info)),
            Event::Metadata(Err(m)) => EventView::Metadata(Err(m@)),
        }
    }
}

/// What the navigator waits for before it takes the next command.
#[derive(Debug, PartialEq, Eq)]
pub enum Pending {
    Nothing,
    /// The entries of the current directory, to list them.
    Entries,
    /// The metadata of a path, to describe it.
    Description { path: String },
    /// The entries of a directory that is being described, to count them.
    Children { path: String, info: EntryInfo },
    /// The metadata of a path, to open it if it is a directory.
    Opening { path: String },
}

/// What a pending request says.
pub enum PendingView {
    Nothing,
    Entries,
    Description { path: Seq<char> },
    Children { path: Seq<char>, info: EntryInfo },
    Opening { path: Seq<char> },
}

impl View for Pending {
    type V = PendingView;

    open spec fn view(&self) -> PendingView {
        match self {
            Pending::Nothing => PendingView::Nothing,
            Pending::Entries => PendingView::Entries,
            Pending::Description { path } => PendingView::Description { path: path@ },
            Pending::Children { path, info } => PendingView::Children { path: path@, info: *info },
            Pending::Opening { path } => PendingView::Opening { path: path@ },
        }
    }
}

/// One entry of the navigator's list: what is shown, and the path behind it.
#[derive(Debug, PartialEq, Eq)]
pub struct Item {
    pub label: String,
    pub path: String,
}

/// What an entry of the list says.
pub struct ItemView {
    pub label: Seq<char>,
    pub path: Seq<char>,
}

impl View for Item {
    type V = ItemView;

    open spec fn view(&self) -> ItemView {
        ItemView { label: self.label@, path: self.path@ }
    }
}

/// What the navigator asks of the world around it.
#[derive(Debug, PartialEq, Eq)]
pub enum Request {
    /// The next command of the user.
    AwaitCommand,
    /// What the directory at this path holds: everything with `all`, else
    /// without the hidden entries, which then need not be looked at.
    ReadDirectory { path: String, all: bool },
    /// The metadata of this path itself, not of what a link points to.
    ReadMetadata(String),
    /// Nothing more: the navigator has ended.
    Stop,
}

/// What a request says.
pub enum RequestView {
    AwaitCommand,
    ReadDirectory { path: Seq<char>, all: bool },
    ReadMetadata(Seq<char>),
    Stop,
}

impl View for Request {
    type V = RequestView;

    open spec fn view(&self) -> RequestView {
        match self {
            Request::AwaitCommand => RequestView::AwaitCommand,
            Request::ReadDirectory { path, all } => RequestView::ReadDirectory {
                path: path@,
                all: *all,
            },
            Request::ReadMetadata(p) => RequestView::ReadMetadata(p@),
            Request::Stop => RequestView::Stop,
        }
    }
}

/// The parent that `std::path::Path::parent` gives for a path, as text, on
/// the platform for which the library is built.
pub uninterp spec fn path_parent(path: Seq<char>) -> Option<Seq<char>>;

/// Takes the parent of a path with `std::path::Path::parent`: the path
/// without its last component, or none for a root and for the empty path.
/// The result depends on the path alone and is known only as `path_parent`.
#[verifier::external_body]
fn parent_path(path: &str) -> (r: Option<String>)
    ensures
        match path_parent(path@) {
            Some(p) => r matches Some(text) && text@ == p,
            None => r is None,
        },
{
    std::path::Path::new(path).parent().map(|p| p.to_string_lossy().into_owned())
}

/// The options with hidden entries switched from shown to not shown or back.
pub open spec fn toggled(options: ListOptions) -> ListOptions {
    ListOptions { all: !options.all, ..options }
}

/// The list for what a directory holds: the entries that a listing shows,
/// in listing order, each with its label and its path.
pub open spec fn shown_items(raw: Seq<EntryInfo>, options: ListOptions) -> Seq<ItemView> {
    sorted_entries(visible_entries(raw, options.all), options.sort, options.reverse).map_values(
        |e: EntryInfo| ItemView { label: label_text(e, options.icons), path: e.path@ },
    )
}

/// The title of the navigator's window.
pub open spec fn title_text(cwd: Seq<char>) -> Seq<char> {
    "lz interactive - "@ + cwd
}

/// Counts the directories and the other entries of a directory, hidden ones
/// included.
pub fn count_children(raw: &Vec<EntryInfo>) -> (r: (u64, u64))
    ensures
        r.0 == dir_count(raw@),
        r.1 == raw@.len() - dir_count(raw@),
{
    let mut dirs: u64 = 0;
    let mut files: u64 = 0;
    let mut i: usize = 0;
    while i < raw.len()
        invariant
            i <= raw.len(),
            dirs == dir_count(raw@.take(i as int)),
            dirs + files == i,
        decreases raw.len() - i,
    {
        proof {
            assert(raw@.take(i as int + 1).drop_last() == raw@.take(i as int));
        }
        if raw[i].is_dir() {
            dirs += 1;
        } else {
            files += 1;
        }
        i += 1;
    }
    assert(raw@.take(raw.len() as int) == raw@);
    (dirs, files)
}

/// The kind of an entry in its description.
pub open spec fn kind_name(info: EntryInfo) -> Seq<char> {
    if info.is_dir() {
        "Directory"@
    } else if info.is_symlink() {
        "Symlink"@
    } else {
        "File"@
    }
}

/// The lines of a description that depend on the kind: the size of a
/// regular file, the children of a directory once they are counted.
pub open spec fn detail_extra(info: EntryInfo, children: Option<(nat, nat)>) -> Seq<char> {
    if info.kind == EntryKind::File {
        "Size: "@ + size_text(info.len as nat, true) + "\n"@
    } else if info.is_dir() {
        match children {
            Some((dirs, files)) => "Children: "@ + decimal_text(dirs) + " dirs, "@ + decimal_text(
                files,
            ) + " files\n"@,
            None => Seq::empty(),
        }
    } else {
        Seq::empty()
    }
}

/// The description of an entry: path, kind, time of modification, size or
/// children, and whether it can be written.
pub open spec fn detail_text(path: Seq<char>, info: EntryInfo, children: Option<(nat, nat)>) -> Seq<
    char,
> {
    "Path: "@ + path + "\n"@ + "Type: "@ + kind_name(info) + "\n"@ + "Modified: "@ + modified_text(
        info.modified,
    ) + "\n"@ + detail_extra(info, children) + "Writable: "@ + (if info.readonly {
        "no"@
    } else {
        "yes"@
    }) + "\n"@
}

/// Describes an entry for the detail panel.
pub fn update_summary(path: &str, info: &EntryInfo, children: Option<(u64, u64)>) -> (r: String)
    requires
        modified_printable(info.modified),
    ensures
        r@ == detail_text(
            path@,
            *info,
            match children {
                Some((dirs, files)) => Some((dirs as nat, files as nat)),
                None => None,
            },
        ),
{
    let mut text = String::from_str("Path: ");
    text.append(path);
    text.append("\n");
    text.append("Type: ");
    text.append(
        if info.is_dir() {
            "Directory"
        } else if info.is_symlink() {
            "Symlink"
        } else {
            "File"
        },
    );
    text.append("\n");
    text.append("Modified: ");
    match &info.modified {
        Some(t) => {
            let time = format_time(t);
            text.append(time.as_str());
        },
        None => {
            text.append("-");
        },
    }
    text.append("\n");
    let ghost head = text@;
    if info.kind == EntryKind::File {
        text.append("Size: ");
        let size = format_size(info.len, true);
        text.append(size.as_str());
        text.append("\n");
    } else if info.is_dir() {
        match children {
            Some((dirs, files)) => {
                text.append("Children: ");
                push_decimal(&mut text, dirs);
                text.append(" dirs, ");
                push_decimal(&mut text, files);
                text.append(" files\n");
            },
            None => {},
        }
    }
    assert(text@ =~= head + detail_extra(
        *info,
        match children {
            Some((dirs, files)) => Some((dirs as nat, files as nat)),
            None => None,
        },
    ));
    text.append("Writable: ");
    text.append(
        if info.readonly {
            "no"
        } else {
            "yes"
        },
    );
    text.append("\n");
    text
}


/// The navigator: where it stands, the list it shows with its title, the
/// text of the detail panel, and what it waits for.
#[derive(Debug, PartialEq, Eq)]
pub struct Navigator {
    pub state: BrowserState,
    pub items: Vec<Item>,
    /// The place in the list of the entry that is selected, if there is one.
    pub selected: Option<usize>,
    pub title: String,
    pub detail: String,
    pub pending: Pending,
    pub running: bool,
}

/// What the navigator says.
pub struct NavigatorView {
    pub cwd: Seq<char>,
    pub options: ListOptions,
    pub items: Seq<ItemView>,
    pub selected: Option<usize>,
    pub title: Seq<char>,
    pub detail: Seq<char>,
    pub pending: PendingView,
    pub running: bool,
}

/// What the entries of a list say.
pub open spec fn item_views(items: Seq<Item>) -> Seq<ItemView> {
    items.map_values(|i: Item| i@)
}

impl View for Navigator {
    type V = NavigatorView;

    open spec fn view(&self) -> NavigatorView {
        NavigatorView {
            cwd: self.state.cwd@,
            options: self.state.options,
            items: item_views(self.items@),
            selected: self.selected,
            title: self.title@,
            detail: self.detail@,
            pending: self.pending@,
            running: self.running,
        }
    }
}

impl NavigatorView {
    /// Whether the time of an entry that waits to be described can be shown.
    pub open spec fn wf(self) -> bool {
        self.pending matches PendingView::Children { info, .. } ==> modified_printable(
            info.modified,
        )
    }

    /// What the navigator asks for next: nothing once it has ended, the
    /// next command while it waits for nothing, else what it waits for. The
    /// list needs the hidden entries only where they are shown; the children
    /// of a directory are counted with the hidden ones.
    pub open spec fn request(self) -> RequestView {
        if !self.running {
            RequestView::Stop
        } else {
            match self.pending {
                PendingView::Nothing => RequestView::AwaitCommand,
                PendingView::Entries => RequestView::ReadDirectory {
                    path: self.cwd,
                    all: self.options.all,
                },
                PendingView::Description { path } => RequestView::ReadMetadata(path),
                PendingView::Children { path, .. } => RequestView::ReadDirectory {
                    path,
                    all: true,
                },
                PendingView::Opening { path } => RequestView::ReadMetadata(path),
            }
        }
    }

    /// The navigator after a command. To reload is to wait for the entries
    /// of the current directory. To select an entry is to wait for its
    /// metadata, to describe it; to activate it is to wait for its metadata,
    /// to open it. To go up is to stand in the parent and reload, and
    /// nothing at a root. To toggle hidden entries is to switch them and
    /// reload. To quit is to end. A place that is not in the list changes
    /// nothing.
    pub open spec fn after_command(self, command: Command) -> NavigatorView {
        match command {
            Command::Reload => NavigatorView { pending: PendingView::Entries, ..self },
            Command::Select(i) => if i < self.items.len() {
                NavigatorView {
                    selected: Some(i),
                    pending: PendingView::Description { path: self.items[i as int].path },
                    ..self
                }
            } else {
                self
            },
            Command::Activate(i) => if i < self.items.len() {
                NavigatorView {
                    selected: Some(i),
                    pending: PendingView::Opening { path: self.items[i as int].path },
                    ..self
                }
            } else {
                self
            },
            Command::NavigateUp => match path_parent(self.cwd) {
                Some(parent) => NavigatorView {
                    cwd: parent,
                    pending: PendingView::Entries,
                    ..self
                },
                None => self,
            },
            Command::ToggleHidden => NavigatorView {
                options: toggled(self.options),
                pending: PendingView::Entries,
                ..self
            },
            Command::Quit => NavigatorView { running: false, ..self },
        }
    }

    /// The navigator after the entries of a directory came, or the reason
    /// why they did not. While it reloads, the entries become the list, the
    /// title names the directory, and the first entry is to be described,
    /// or the panel says that there is none. While it describes a
    /// directory, the entries are counted into the description. A failure
    /// is shown in the panel and leaves the rest as it is.
    pub open spec fn after_entries(self, result: Result<Seq<EntryInfo>, Seq<char>>) -> NavigatorView {
        match self.pending {
            PendingView::Entries => match result {
                Ok(raw) => {
                    let items = shown_items(raw, self.options);
                    if items.len() == 0 {
                        NavigatorView {
                            items,
                            selected: None,
                            title: title_text(self.cwd),
                            detail: "(empty)"@,
                            pending: PendingView::Nothing,
                            ..self
                        }
                    } else {
                        NavigatorView {
                            items,
                            selected: Some(0),
                            title: title_text(self.cwd),
                            pending: PendingView::Description { path: items[0].path },
                            ..self
                        }
                    }
                },
                Err(m) => NavigatorView { detail: m, pending: PendingView::Nothing, ..self },
            },
            PendingView::Children { path, info } => match result {
                Ok(raw) => NavigatorView {
                    detail: detail_text(
                        path,
                        info,
                        Some((dir_count(raw), (raw.len() - dir_count(raw)) as nat)),
                    ),
                    pending: PendingView::Nothing,
                    ..self
                },
                Err(m) => NavigatorView { detail: m, pending: PendingView::Nothing, ..self },
            },
            _ => self,
        }
    }

    /// The navigator after the metadata of a path came, or the reason why
    /// it did not. While it describes, a directory waits for its entries to
    /// be counted and anything else is described at once. While it opens, a
    /// directory becomes the current directory and is loaded, and anything
    /// else is described as if it had been selected. A failure is shown in
    /// the panel and leaves the rest as it is.
    pub open spec fn after_metadata(self, result: Result<EntryInfo, Seq<char>>) -> NavigatorView {
        match self.pending {
            PendingView::Description { path } => match result {
                Ok(info) => if info.is_dir() {
                    NavigatorView { pending: PendingView::Children { path, info }, ..self }
                } else {
                    NavigatorView {
                        detail: detail_text(path, info, None),
                        pending: PendingView::Nothing,
                        ..self
                    }
                },
                Err(m) => NavigatorView { detail: m, pending: PendingView::Nothing, ..self },
            },
            PendingView::Opening { path } => match result {
                Ok(info) => if info.is_dir() {
                    NavigatorView { cwd: path, pending: PendingView::Entries, ..self }
                } else {
                    NavigatorView { pending: PendingView::Description { path }, ..self }
                },
                Err(m) => NavigatorView { detail: m, pending: PendingView::Nothing, ..self },
            },
            _ => self,
        }
    }

    /// The navigator after an event. Once it has ended nothing changes it. A
    /// command counts only while nothing is awaited, so that each transition
    /// is complete before the next begins; an answer counts only for the
    /// request that awaits it.
    pub open spec fn stepped(self, event: EventView) -> NavigatorView {
        if !self.running {
            self
        } else {
            match event {
                EventView::Command(c) => if self.pending is Nothing {
                    self.after_command(c)
                } else {
                    self
                },
                EventView::Entries(result) => self.after_entries(result),
                EventView::Metadata(result) => self.after_metadata(result),
            }
        }
    }
}

/// Whether the time that an event brings can be shown where the navigator
/// writes it: only the metadata that answers a description is written out.
pub open spec fn event_printable(nav: NavigatorView, event: EventView) -> bool {
    nav.running && nav.pending is Description ==> (event matches EventView::Metadata(Ok(info))
        ==> modified_printable(info.modified))
}

/// Makes the navigator's list from what a directory holds.
pub fn list_items(raw: &Vec<EntryInfo>, options: &ListOptions) -> (r: Vec<Item>)
    ensures
        item_views(r@) == shown_items(raw@, *options),
{
    let mut entries = shown_entries(raw, options.all);
    sort_entries(&mut entries, options.sort, options.reverse);
    let ghost want = shown_items(raw@, *options);
    let mut items: Vec<Item> = Vec::new();
    let mut i: usize = 0;
    while i < entries.len()
        invariant
            i <= entries.len(),
            want == entries@.map_values(
                |e: EntryInfo| ItemView { label: label_text(e, options.icons), path: e.path@ },
            ),
            item_views(items@) == want.take(i as int),
        decreases entries.len() - i,
    {
        let ghost before = item_views(items@);
        let entry = &entries[i];
        items.push(Item { label: tui_label(entry, options), path: entry.path.clone() });
        assert(item_views(items@) =~= before.push(want[i as int]));
        assert(item_views(items@) =~= want.take(i as int + 1));
        i += 1;
    }
    assert(want.take(entries.len() as int) == want);
    items
}

impl Navigator {
    /// A navigator that starts in a directory: it has no list yet and waits
    /// for the entries of the directory.
    pub fn new(start: String, options: ListOptions) -> (r: Navigator)
        ensures
            r@.cwd == start@,
            r@.options == options,
            r@.items.len() == 0,
            r@.selected is None,
            r@.detail == "Select an entry"@,
            r@.pending is Entries,
            r@.running,
            r@.wf(),
    {
        Navigator {
            state: BrowserState { cwd: start, options },
            items: Vec::new(),
            selected: None,
            title: String::new(),
            detail: String::from_str("Select an entry"),
            pending: Pending::Entries,
            running: true,
        }
    }

    /// Whether the time of an entry that waits to be described can be shown.
    pub fn well_formed(&self) -> (r: bool)
        ensures
            r == self@.wf(),
    {
        match &self.pending {
            Pending::Children { info, .. } => match &info.modified {
                Some(t) => t.printable(),
                None => true,
            },
            _ => true,
        }
    }

    /// Whether the navigator can take an event: it is well formed, and the
    /// time that the event brings can be shown where it is written.
    pub fn takes(&self, event: &Event) -> (r: bool)
        ensures
            r == (self@.wf() && event_printable(self@, event@)),
    {
        if !self.well_formed() {
            return false;
        }
        if !self.running {
            return true;
        }
        match (&self.pending, event) {
            (Pending::Description { .. }, Event::Metadata(Ok(info))) => match &info.modified {
                Some(t) => t.printable(),
                None => true,
            },
            _ => true,
        }
    }

    /// What the navigator asks for next.
    pub fn request(&self) -> (r: Request)
        ensures
            r@ == self@.request(),
    {
        if !self.running {
            return Request::Stop;
        }
        match &self.pending {
            Pending::Nothing => Request::AwaitCommand,
            Pending::Entries => Request::ReadDirectory {
                path: self.state.cwd.clone(),
                all: self.state.options.all,
            },
            Pending::Description { path } => Request::ReadMetadata(path.clone()),
            Pending::Children { path, .. } => Request::ReadDirectory {
                path: path.clone(),
                all: true,
            },
            Pending::Opening { path } => Request::ReadMetadata(path.clone()),
        }
    }

    /// Switches hidden entries from shown to not shown or back, and reloads.
    pub fn interactive_toggle_hidden(self) -> (r: Navigator)
        ensures
            r@ == self@.after_command(Command::ToggleHidden),
    {
        let Navigator { state, items, selected, title, detail, pending, running } = self;
        let BrowserState { cwd, options } = state;
        let mut options = options;
        options.all = !options.all;
        Navigator {
            state: BrowserState { cwd, options },
            items,
            selected,
            title,
            detail,
            pending: Pending::Entries,
            running,
        }
    }

    /// Goes to the parent of the current directory and reloads; at a root
    /// nothing changes.
    pub fn interactive_go_up(self) -> (r: Navigator)
        ensures
            r@ == self@.after_command(Command::NavigateUp),
    {
        match parent_path(self.state.cwd.as_str()) {
            Some(parent) => {
                let Navigator { state, items, selected, title, detail, pending, running } = self;
                Navigator {
                    state: BrowserState { cwd: parent, options: state.options },
                    items,
                    selected,
                    title,
                    detail,
                    pending: Pending::Entries,
                    running,
                }
            },
            None => self,
        }
    }

    /// Takes a command of the user.
    pub fn command(self, command: Command) -> (r: Navigator)
        ensures
            r@ == self@.after_command(command),
    {
        match command {
            Command::Reload => {
                let Navigator { state, items, selected, title, detail, pending, running } = self;
                Navigator {
                    state,
                    items,
                    selected,
                    title,
                    detail,
                    pending: Pending::Entries,
                    running,
                }
            },
            Command::Select(i) => {
                if i < self.items.len() {
                    let path = self.items[i].path.clone();
                    let Navigator { state, items, selected, title, detail, pending, running } = self;
                    Navigator {
                        state,
                        items,
                        selected: Some(i),
                        title,
                        detail,
                        pending: Pending::Description { path },
                        running,
                    }
                } else {
                    self
                }
            },
            Command::Activate(i) => {
                if i < self.items.len() {
                    let path = self.items[i].path.clone();
                    let Navigator { state, items, selected, title, detail, pending, running } = self;
                    Navigator {
                        state,
                        items,
                        selected: Some(i),
                        title,
                        detail,
                        pending: Pending::Opening { path },
                        running,
                    }
                } else {
                    self
                }
            },
            Command::NavigateUp => self.interactive_go_up(),
            Command::ToggleHidden => self.interactive_toggle_hidden(),
            Command::Quit => {
                let Navigator { state, items, selected, title, detail, pending, running } = self;
                Navigator { state, items, selected, title, detail, pending, running: false }
            },
        }
    }

    /// Takes the entries of a directory, or the reason why they could not
    /// be read: to list them while the navigator reloads, to count them
    /// while it describes a directory.
    pub fn interactive_reload(self, result: Result<Vec<EntryInfo>, String>) -> (r: Navigator)
        requires
            self@.wf(),
        ensures
            r@ == self@.after_entries(
                match result {
                    Ok(raw) => Ok(raw@),
                    Err(m) => Err(m@),
                },
            ),
            r@.wf(),
    {
        let Navigator { state, items, selected, title, detail, pending, running } = self;
        match pending {
            Pending::Entries => match result {
                Ok(raw) => {
                    let listed = list_items(&raw, &state.options);
                    let mut title = String::from_str("lz interactive - ");
                    title.append(state.cwd.as_str());
                    if listed.len() == 0 {
                        Navigator {
                            state,
                            items: listed,
                            selected: None,
                            title,
                            detail: String::from_str("(empty)"),
                            pending: Pending::Nothing,
                            running,
                        }
                    } else {
                        let path = listed[0].path.clone();
                        Navigator {
                            state,
                            items: listed,
                            selected: Some(0),
                            title,
                            detail,
                            pending: Pending::Description { path },
                            running,
                        }
                    }
                },
                Err(m) => Navigator {
                    state,
                    items,
                    selected,
                    title,
                    detail: m,
                    pending: Pending::Nothing,
                    running,
                },
            },
            Pending::Children { path, info } => match result {
                Ok(raw) => {
                    let counts = count_children(&raw);
                    let text = update_summary(path.as_str(), &info, Some(counts));
                    Navigator {
                        state,
                        items,
                        selected,
                        title,
                        detail: text,
                        pending: Pending::Nothing,
                        running,
                    }
                },
                Err(m) => Navigator {
                    state,
                    items,
                    selected,
                    title,
                    detail: m,
                    pending: Pending::Nothing,
                    running,
                },
            },
            other => Navigator { state, items, selected, title, detail, pending: other, running },
        }
    }

    /// Takes the metadata of a path, or the reason why it could not be
    /// read: to describe the path, or to open it if it is a directory and
    /// describe it if it is none.
    pub fn interactive_open_or_select(self, result: Result<EntryInfo, String>) -> (r: Navigator)
        requires
            self@.wf(),
            self@.pending is Description ==> (result matches Ok(info) ==> modified_printable(
                info.modified,
            )),
        ensures
            r@ == self@.after_metadata(
                match result {
                    Ok(info) => Ok(info),
                    Err(m) => Err(m@),
                },
            ),
            r@.wf(),
    {
        let Navigator { state, items, selected, title, detail, pending, running } = self;
        match pending {
            Pending::Description { path } => match result {
                Ok(info) => {
                    if info.is_dir() {
                        Navigator {
                            state,
                            items,
                            selected,
                            title,
                            detail,
                            pending: Pending::Children { path, info },
                            running,
                        }
                    } else {
                        let text = update_summary(path.as_str(), &info, None);
                        Navigator {
                            state,
                            items,
                            selected,
                            title,
                            detail: text,
                            pending: Pending::Nothing,
                            running,
                        }
                    }
                },
                Err(m) => Navigator {
                    state,
                    items,
                    selected,
                    title,
                    detail: m,
                    pending: Pending::Nothing,
                    running,
                },
            },
            Pending::Opening { path } => match result {
                Ok(info) => {
                    if info.is_dir() {
                        Navigator {
                            state: BrowserState { cwd: path, options: state.options },
                            items,
                            selected,
                            title,
                            detail,
                            pending: Pending::Entries,
                            running,
                        }
                    } else {
                        Navigator {
                            state,
                            items,
                            selected,
                            title,
                            detail,
                            pending: Pending::Description { path },
                            running,
                        }
                    }
                },
                Err(m) => Navigator {
                    state,
                    items,
                    selected,
                    title,
                    detail: m,
                    pending: Pending::Nothing,
                    running,
                },
            },
            other => Navigator { state, items, selected, title, detail, pending: other, running },
        }
    }

    /// Takes an event and gives the navigator after it. What it asks for
    /// next is told by `request`.
    pub fn step(self, event: Event) -> (r: Navigator)
        requires
            self@.wf(),
            event_printable(self@, event@),
        ensures
            r@ == self@.stepped(event@),
            r@.wf(),
    {
        if !self.running {
            return self;
        }
        match event {
            Event::Command(c) => {
                if matches!(self.pending, Pending::Nothing) {
                    self.command(c)
                } else {
                    self
                }
            },
            Event::Entries(result) => self.interactive_reload(result),
            Event::Metadata(result) => self.interactive_open_or_select(result),
        }
    }
}

/// Switching hidden entries twice gives the options back, and with them
/// the list that a directory is shown as: after the second switch the
/// navigator shows what a plain reload would have shown.
pub proof fn lemma_toggle_hidden_twice(nav: NavigatorView, raw: Seq<EntryInfo>)
    ensures
        toggled(toggled(nav.options)) == nav.options,
        nav.after_command(Command::ToggleHidden).after_command(Command::ToggleHidden).options
            == nav.options,
        nav.after_command(Command::ToggleHidden).after_command(Command::ToggleHidden).cwd
            == nav.cwd,
        nav.after_command(Command::ToggleHidden).after_command(
            Command::ToggleHidden,
        ).after_entries(Ok(raw)).items == shown_items(raw, nav.options),
        nav.after_command(Command::Reload).after_entries(Ok(raw)).items == shown_items(
            raw,
            nav.options,
        ),
{
    let once = nav.after_command(Command::ToggleHidden);
    let twice = once.after_command(Command::ToggleHidden);
    assert(once.options == toggled(nav.options));
    assert(twice.options == toggled(once.options));
    assert(twice.options == nav.options);
    assert(twice.pending is Entries);
    lemma_reload_shows(twice, raw);
    lemma_reload_shows(nav.after_command(Command::Reload), raw);
}

/// A navigator that reloads shows the entries that come, as its options
/// have them listed.
pub proof fn lemma_reload_shows(nav: NavigatorView, raw: Seq<EntryInfo>)
    requires
        nav.pending is Entries,
    ensures
        nav.after_entries(Ok(raw)).items == shown_items(raw, nav.options),
{
}

} // verus!
