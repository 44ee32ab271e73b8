//! Values that cross the wire or describe sessions and panes, with their mathematical models.

use crate::layout::{LayoutNode, Tree};
use crate::text::{decimal, decimal_text, text_option, views};
use vstd::prelude::*;
use vstd::string::StringExecFns;

verus! {

/// Identity of an attached client.
#[derive(Clone, Copy, Debug, PartialEq, Eq, Structural)]
pub struct ClientId(pub u64);

/// Identity of a client connection, kept across transport switches.
#[derive(Clone, Copy, Debug, PartialEq, Eq, Structural)]
pub struct ConnectionId(pub u64);

/// Position in a pane's output stream.
#[derive(Clone, Copy, Debug, PartialEq, Eq, Structural)]
pub struct SequenceNo(pub u64);

/// A terminal's size in cells and, where known, in pixels (`0` = unknown).
#[derive(Clone, Copy, Debug, PartialEq, Eq, Structural)]
pub struct TermSize {
    pub rows: u16,
    pub cols: u16,
    pub pixel_width: u16,
    pub pixel_height: u16,
}

impl Default for TermSize {
    fn default() -> (r: Self)
        ensures
            r == (TermSize { rows: 24, cols: 80, pixel_width: 0, pixel_height: 0 }),
    {
        TermSize { rows: 24, cols: 80, pixel_width: 0, pixel_height: 0 }
    }
}

/// Rendering capabilities a client declares when it authenticates.
#[derive(Clone, Copy, Debug, PartialEq, Eq, Structural)]
pub struct ClientCapabilities {
    pub kitty_graphics: bool,
    pub kitty_keyboard: bool,
    pub truecolor: bool,
}

impl Default for ClientCapabilities {
    fn default() -> (r: Self)
        ensures
            !r.kitty_graphics && !r.kitty_keyboard && !r.truecolor,
    {
        ClientCapabilities { kitty_graphics: false, kitty_keyboard: false, truecolor: false }
    }
}

/// Who may write to a pane.
#[derive(Clone, Copy, Debug, PartialEq, Eq, Structural)]
pub enum InputMode {
    /// Every attached client.
    Open,
    /// Only the holder of the lock.
    Locked(ClientId),
    /// Nobody.
    Disabled,
}

/// Lifecycle of a pane's child process.
#[derive(Clone, Copy, Debug, PartialEq, Eq, Structural)]
pub enum SessionStatus {
    Running,
    Exited(Option<i32>),
}

/// Progress state a program reports through OSC 9;4.
#[derive(Clone, Copy, Debug, PartialEq, Eq, Structural)]
pub enum PaneProgressState {
    Inactive,
    Normal,
    Error,
    Indeterminate,
    Paused,
}

/// Why a pane asks for the user's attention.
#[derive(Clone, Copy, Debug, PartialEq, Eq, Structural)]
pub enum AttentionKind {
    TurnDone,
    NeedsInput,
}

/// What happened to a key.
#[derive(Clone, Copy, Debug, PartialEq, Eq, Structural)]
pub enum KeyAction {
    Press,
    Repeat,
    Release,
}

/// One key event, as a client reports it.
#[derive(Clone, Debug)]
pub struct KeyEvent {
    /// The physical key.
    pub code: u32,
    /// Modifier keys held, one bit each.
    pub mods: u16,
    pub action: KeyAction,
    /// Text the key produces.
    pub text: String,
    /// The character the key produces without modifiers.
    pub unshifted_codepoint: u32,
}

pub struct KeyView {
    pub code: u32,
    pub mods: u16,
    pub action: KeyAction,
    pub text: Seq<char>,
    pub unshifted_codepoint: u32,
}

impl View for KeyEvent {
    type V = KeyView;

    open spec fn view(&self) -> KeyView {
        KeyView {
            code: self.code,
            mods: self.mods,
            action: self.action,
            text: self.text@,
            unshifted_codepoint: self.unshifted_codepoint,
        }
    }
}

/// Identity and naming of a session.
#[derive(Clone, Debug)]
pub struct SessionMeta {
    /// Creation order.
    pub index: u32,
    /// Unique word naming the session.
    pub word_id: String,
    /// Display name.
    pub name: String,
    /// Directory its panes start in.
    pub cwd: String,
}

pub struct MetaView {
    pub index: u32,
    pub word_id: Seq<char>,
    pub name: Seq<char>,
    pub cwd: Seq<char>,
}

impl View for SessionMeta {
    type V = MetaView;

    open spec fn view(&self) -> MetaView {
        MetaView {
            index: self.index,
            word_id: self.word_id@,
            name: self.name@,
            cwd: self.cwd@,
        }
    }
}

impl SessionMeta {
    /// A copy.
    pub fn copy(&self) -> (r: SessionMeta)
        ensures
            r@ == self@,
    {
        SessionMeta {
            index: self.index,
            word_id: self.word_id.clone(),
            name: self.name.clone(),
            cwd: self.cwd.clone(),
        }
    }
}

/// A tab as reported to clients.
#[derive(Clone, Debug)]
pub struct TabInfo {
    pub tab_index: u32,
    pub name: String,
    pub layout: LayoutNode,
    pub focused_pane: u32,
}

pub struct TabView {
    pub tab_index: u32,
    pub name: Seq<char>,
    pub layout: Tree,
    pub focused_pane: u32,
}

impl View for TabInfo {
    type V = TabView;

    open spec fn view(&self) -> TabView {
        TabView {
            tab_index: self.tab_index,
            name: self.name@,
            layout: self.layout@,
            focused_pane: self.focused_pane,
        }
    }
}

impl TabInfo {
    /// An equal tab.
    pub fn copy(&self) -> (r: TabInfo)
        ensures
            r@ == self@,
    {
        TabInfo {
            tab_index: self.tab_index,
            name: self.name.clone(),
            layout: self.layout.duplicate(),
            focused_pane: self.focused_pane,
        }
    }
}

/// A pane as reported to clients.
#[derive(Clone, Debug)]
pub struct PaneInfo {
    pub pane_id: String,
    pub pane_index: u32,
    pub program: String,
    pub size: TermSize,
    pub attached_clients: Vec<ClientId>,
    pub status: SessionStatus,
    pub title: String,
    pub progress_state: PaneProgressState,
    pub progress: Option<u8>,
}

pub struct PaneInfoView {
    pub pane_id: Seq<char>,
    pub pane_index: u32,
    pub program: Seq<char>,
    pub size: TermSize,
    pub attached_clients: Seq<ClientId>,
    pub status: SessionStatus,
    pub title: Seq<char>,
    pub progress_state: PaneProgressState,
    pub progress: Option<u8>,
}

impl View for PaneInfo {
    type V = PaneInfoView;

    open spec fn view(&self) -> PaneInfoView {
        PaneInfoView {
            pane_id: self.pane_id@,
            pane_index: self.pane_index,
            program: self.program@,
            size: self.size,
            attached_clients: self.attached_clients@,
            status: self.status,
            title: self.title@,
            progress_state: self.progress_state,
            progress: self.progress,
        }
    }
}

impl PaneInfo {
    /// An equal pane.
    pub fn copy(&self) -> (r: PaneInfo)
        ensures
            r@ == self@,
    {
        let mut attached_clients: Vec<ClientId> = Vec::new();
        let mut i: usize = 0;
        while i < self.attached_clients.len()
            invariant
                0 <= i <= self.attached_clients@.len(),
                attached_clients@ == self.attached_clients@.take(i as int),
            decreases self.attached_clients@.len() - i,
        {
            attached_clients.push(self.attached_clients[i]);
            i = i + 1;
        }
        assert(self.attached_clients@.take(i as int) =~= self.attached_clients@);
        PaneInfo {
            pane_id: self.pane_id.clone(),
            pane_index: self.pane_index,
            program: self.program.clone(),
            size: self.size,
            attached_clients,
            status: self.status,
            title: self.title.clone(),
            progress_state: self.progress_state,
            progress: self.progress,
        }
    }
}

/// A session as reported to clients.
#[derive(Clone, Debug)]
pub struct SessionEntry {
    pub meta: SessionMeta,
    pub panes: Vec<PaneInfo>,
    pub tabs: Vec<TabInfo>,
    pub active_tab: u32,
    /// The peer that hosts the session; none hosts one of this daemon's own.
    pub peer: Option<String>,
}

pub struct SessionEntryView {
    pub meta: MetaView,
    pub panes: Seq<PaneInfoView>,
    pub tabs: Seq<TabView>,
    pub active_tab: u32,
    pub peer: Option<Seq<char>>,
}

impl View for SessionEntry {
    type V = SessionEntryView;

    open spec fn view(&self) -> SessionEntryView {
        SessionEntryView {
            meta: self.meta@,
            panes: views(self.panes@),
            tabs: views(self.tabs@),
            active_tab: self.active_tab,
            peer: text_option(self.peer),
        }
    }
}

impl SessionEntry {
    /// An equal entry.
    pub fn copy(&self) -> (r: SessionEntry)
        ensures
            r@ == self@,
    {
        let mut panes: Vec<PaneInfo> = Vec::new();
        let mut i: usize = 0;
        while i < self.panes.len()
            invariant
                0 <= i <= self.panes@.len(),
                panes@.len() == i,
                forall|j: int| 0 <= j < i ==> (#[trigger] panes@[j])@ == self.panes@[j]@,
            decreases self.panes@.len() - i,
        {
            panes.push(self.panes[i].copy());
            i = i + 1;
        }
        let mut tabs: Vec<TabInfo> = Vec::new();
        let mut k: usize = 0;
        while k < self.tabs.len()
            invariant
                0 <= k <= self.tabs@.len(),
                tabs@.len() == k,
                forall|j: int| 0 <= j < k ==> (#[trigger] tabs@[j])@ == self.tabs@[j]@,
            decreases self.tabs@.len() - k,
        {
            tabs.push(self.tabs[k].copy());
            k = k + 1;
        }
        assert(views(panes@) =~= views(self.panes@));
        assert(views(tabs@) =~= views(self.tabs@));
        SessionEntry {
            meta: self.meta.copy(),
            panes,
            tabs,
            active_tab: self.active_tab,
            peer: match &self.peer {
                Some(p) => Some(p.clone()),
                None => None,
            },
        }
    }
}

/// A closed session that can still be restored, as reported to clients.
#[derive(Clone, Debug)]
pub struct ClosedSessionEntry {
    pub meta: SessionMeta,
    pub last_active_ms: u64,
    pub closed_at_ms: u64,
    pub pane_count: u32,
}

pub struct ClosedEntryView {
    pub meta: MetaView,
    pub last_active_ms: u64,
    pub closed_at_ms: u64,
    pub pane_count: u32,
}

impl View for ClosedSessionEntry {
    type V = ClosedEntryView;

    open spec fn view(&self) -> ClosedEntryView {
        ClosedEntryView {
            meta: self.meta@,
            last_active_ms: self.last_active_ms,
            closed_at_ms: self.closed_at_ms,
            pane_count: self.pane_count,
        }
    }
}

/// Error codes reported to clients.
#[derive(Clone, Copy, Debug, PartialEq, Eq, Structural)]
pub enum ErrorCode {
    NotAuthenticated,
    SessionNotFound,
    SessionAlreadyExists,
    PaneNotFound,
    ClientNotFound,
    InputLocked,
    InvalidMessage,
    InternalError,
}

/// System error numbers the daemon itself reports.
#[derive(Clone, Copy, Debug, PartialEq, Eq, Structural)]
pub enum Errno {
    /// Operation not permitted.
    EPERM,
    /// Invalid argument.
    EINVAL,
    /// Any other number.
    Other(i32),
}

/// What can go wrong with a session or pane operation.
#[derive(Clone, Debug)]
pub enum KmuxError {
    SessionNotFound { name: String },
    SessionAlreadyExists { name: String },
    PaneNotFound { id: String },
    InputQueueFull { pane_id: String },
    Spawn(String),
    Pty(Errno),
}

pub enum ErrorView {
    SessionNotFound(Seq<char>),
    SessionAlreadyExists(Seq<char>),
    PaneNotFound(Seq<char>),
    InputQueueFull(Seq<char>),
    Spawn(Seq<char>),
    Pty(Errno),
}

impl View for KmuxError {
    type V = ErrorView;

    open spec fn view(&self) -> ErrorView {
        match self {
            KmuxError::SessionNotFound { name } => ErrorView::SessionNotFound(name@),
            KmuxError::SessionAlreadyExists { name } => ErrorView::SessionAlreadyExists(name@),
            KmuxError::PaneNotFound { id } => ErrorView::PaneNotFound(id@),
            KmuxError::InputQueueFull { pane_id } => ErrorView::InputQueueFull(pane_id@),
            KmuxError::Spawn(reason) => ErrorView::Spawn(reason@),
            KmuxError::Pty(errno) => ErrorView::Pty(*errno),
        }
    }
}

impl ErrorView {
    /// The code a client is given for the error.
    pub open spec fn code(self) -> ErrorCode {
        match self {
            ErrorView::SessionNotFound(_) => ErrorCode::SessionNotFound,
            ErrorView::SessionAlreadyExists(_) => ErrorCode::SessionAlreadyExists,
            ErrorView::PaneNotFound(_) => ErrorCode::PaneNotFound,
            ErrorView::Pty(Errno::EPERM) => ErrorCode::InputLocked,
            _ => ErrorCode::InternalError,
        }
    }

    /// The text a client is given for the error.
    pub open spec fn text(self) -> Seq<char> {
        match self {
            ErrorView::SessionNotFound(name) => "session not found: "@ + name,
            ErrorView::SessionAlreadyExists(name) => "session already exists: "@ + name,
            ErrorView::PaneNotFound(id) => "pane not found: "@ + id,
            ErrorView::InputQueueFull(id) => "input queue full: "@ + id,
            ErrorView::Spawn(reason) => reason,
            ErrorView::Pty(Errno::EPERM) => "EPERM: Operation not permitted"@,
            ErrorView::Pty(Errno::EINVAL) => "EINVAL: Invalid argument"@,
            ErrorView::Pty(Errno::Other(n)) => "pty error "@ + signed_text(n as int),
        }
    }
}

/// The decimal form of a number, with a minus sign where it is negative.
pub open spec fn signed_text(n: int) -> Seq<char> {
    if n < 0 {
        "-"@ + decimal_text((-n) as nat)
    } else {
        decimal_text(n as nat)
    }
}

fn signed_decimal(n: i32) -> (r: String)
    ensures
        r@ == signed_text(n as int),
{
    if n < 0 {
        let digits = decimal((-(n as i64)) as u64);
        "-".to_owned().concat(digits.as_str())
    } else {
        decimal(n as u64)
    }
}

impl KmuxError {
    /// Human-readable description.
    pub fn message(&self) -> (r: String)
        ensures
            r@ == self@.text(),
    {
        match self {
            KmuxError::SessionNotFound { name } => "session not found: ".to_owned().concat(
                name.as_str(),
            ),
            KmuxError::SessionAlreadyExists { name } => "session already exists: ".to_owned()
                .concat(name.as_str()),
            KmuxError::PaneNotFound { id } => "pane not found: ".to_owned().concat(id.as_str()),
            KmuxError::InputQueueFull { pane_id } => "input queue full: ".to_owned().concat(
                pane_id.as_str(),
            ),
            KmuxError::Spawn(reason) => reason.clone(),
            KmuxError::Pty(errno) => match errno {
                Errno::EPERM => "EPERM: Operation not permitted".to_owned(),
                Errno::EINVAL => "EINVAL: Invalid argument".to_owned(),
                Errno::Other(n) => {
                    let digits = signed_decimal(*n);
                    "pty error ".to_owned().concat(digits.as_str())
                },
            },
        }
    }
}

/// The code a client is given for an error.
pub fn classify_error(e: &KmuxError) -> (r: ErrorCode)
    ensures
        r == e@.code(),
{
    match e {
        KmuxError::SessionNotFound { .. } => ErrorCode::SessionNotFound,
        KmuxError::SessionAlreadyExists { .. } => ErrorCode::SessionAlreadyExists,
        KmuxError::PaneNotFound { .. } => ErrorCode::PaneNotFound,
        KmuxError::Pty(Errno::EPERM) => ErrorCode::InputLocked,
        _ => ErrorCode::InternalError,
    }
}

/// The error every pane lookup answers with when `pane_id` names no live pane: an unparseable id,
/// an unknown session and an unknown index are deliberately indistinguishable.
pub fn pane_not_found(pane_id: &str) -> (r: KmuxError)
    ensures
        r@ == ErrorView::PaneNotFound(pane_id@),
{
    KmuxError::PaneNotFound { id: pane_id.to_owned() }
}

/// The error for a session word that names no live session.
pub fn session_not_found(word_id: &str) -> (r: KmuxError)
    ensures
        r@ == ErrorView::SessionNotFound(word_id@),
{
    KmuxError::SessionNotFound { name: word_id.to_owned() }
}

/// How an error names a tab of a session.
pub open spec fn tab_name(word: Seq<char>, tab_index: u32) -> Seq<char> {
    word + " tab "@ + decimal_text(tab_index as nat)
}

/// The error for a tab that a live session does not have.
pub fn tab_not_found(word_id: &str, tab_index: u32) -> (r: KmuxError)
    ensures
        r@ == ErrorView::SessionNotFound(tab_name(word_id@, tab_index)),
{
    let digits = decimal(tab_index as u64);
    let name = word_id.to_owned().concat(" tab ").concat(digits.as_str());
    KmuxError::SessionNotFound { name }
}

/// Re-label a registry miss as a pane miss; every other error passes through.
pub open spec fn pane_error(pane_id: Seq<char>, e: ErrorView) -> ErrorView {
    match e {
        ErrorView::SessionNotFound(_) => ErrorView::PaneNotFound(pane_id),
        other => other,
    }
}

/// Re-label a PTY-registry miss as a pane miss: panes are registered under their ids, so the
/// registry's "no such session" means "no such pane" here.
pub fn as_pane_error(pane_id: &str, e: KmuxError) -> (r: KmuxError)
    ensures
        r@ == pane_error(pane_id@, e@),
{
    match e {
        KmuxError::SessionNotFound { .. } => pane_not_found(pane_id),
        other => other,
    }
}

/// What an error is told as: what was not found or exists already by its kind, a refused write as
/// a lock, and everything else as the daemon's own; each with its name in the text.
pub proof fn law_what_an_error_is_told_as(name: Seq<char>, n: i32)
    ensures
        ErrorView::SessionNotFound(name).code() == ErrorCode::SessionNotFound,
        ErrorView::SessionNotFound(name).text() == "session not found: "@ + name,
        ErrorView::SessionAlreadyExists(name).code() == ErrorCode::SessionAlreadyExists,
        ErrorView::SessionAlreadyExists(name).text() == "session already exists: "@ + name,
        ErrorView::PaneNotFound(name).code() == ErrorCode::PaneNotFound,
        ErrorView::PaneNotFound(name).text() == "pane not found: "@ + name,
        ErrorView::InputQueueFull(name).code() == ErrorCode::InternalError,
        ErrorView::InputQueueFull(name).text() == "input queue full: "@ + name,
        ErrorView::Spawn(name).code() == ErrorCode::InternalError,
        ErrorView::Spawn(name).text() == name,
        ErrorView::Pty(Errno::EPERM).code() == ErrorCode::InputLocked,
        ErrorView::Pty(Errno::EPERM).text() == "EPERM: Operation not permitted"@,
        ErrorView::Pty(Errno::EINVAL).code() == ErrorCode::InternalError,
        ErrorView::Pty(Errno::EINVAL).text() == "EINVAL: Invalid argument"@,
        ErrorView::Pty(Errno::Other(n)).code() == ErrorCode::InternalError,
        n >= 0 ==> ErrorView::Pty(Errno::Other(n)).text() == "pty error "@ + decimal_text(
            n as nat,
        ),
        n < 0 ==> ErrorView::Pty(Errno::Other(n)).text() == "pty error "@ + ("-"@ + decimal_text(
            (-n) as nat,
        )),
{
}

/// Of a pane, a session that is not found means that the pane is not; other errors stay.
pub proof fn law_errors_of_a_pane(pane_id: Seq<char>, e: ErrorView)
    ensures
        e is SessionNotFound ==> pane_error(pane_id, e) == ErrorView::PaneNotFound(pane_id),
        !(e is SessionNotFound) ==> pane_error(pane_id, e) == e,
{
}

} // verus!
