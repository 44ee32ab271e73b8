//! Session and pane events broadcast to clients, and where they come from.

use crate::protocol::{AttentionKind, PaneProgressState, TermSize};
use vstd::prelude::*;

verus! {

/// An event broadcast to every connected client.
#[derive(Clone, Debug)]
pub enum SessionEventMsg {
    PaneSpawned { pane_id: String },
    PaneExited { pane_id: String, code: Option<i32>, signal: Option<i32> },
    PaneResized { pane_id: String, size: TermSize },
    PaneClosed { pane_id: String },
    PaneBell { pane_id: String },
    PaneTitleChanged { pane_id: String, title: String },
    PaneClipboardCopy { pane_id: String, selection: String, data: String },
    PaneProgressChanged { pane_id: String, state: PaneProgressState, progress: Option<u8> },
    PaneAttention { pane_id: String, kind: AttentionKind, title: String, body: String },
    SessionCreated { word_id: String },
    SessionClosed { word_id: String },
    TabCreated { word_id: String, tab_index: u32 },
    TabClosed { word_id: String, tab_index: u32 },
    TabRenamed { word_id: String, tab_index: u32, name: String },
    TabsReordered { word_id: String, tab_indices: Vec<u32> },
}

pub enum EventView {
    PaneSpawned(Seq<char>),
    PaneExited(Seq<char>, Option<i32>, Option<i32>),
    PaneResized(Seq<char>, TermSize),
    PaneClosed(Seq<char>),
    PaneBell(Seq<char>),
    PaneTitleChanged(Seq<char>, Seq<char>),
    PaneClipboardCopy(Seq<char>, Seq<char>, Seq<char>),
    PaneProgressChanged(Seq<char>, PaneProgressState, Option<u8>),
    PaneAttention(Seq<char>, AttentionKind, Seq<char>, Seq<char>),
    SessionCreated(Seq<char>),
    SessionClosed(Seq<char>),
    TabCreated(Seq<char>, u32),
    TabClosed(Seq<char>, u32),
    TabRenamed(Seq<char>, u32, Seq<char>),
    TabsReordered(Seq<char>, Seq<u32>),
}

impl View for SessionEventMsg {
    type V = EventView;

    open spec fn view(&self) -> EventView {
        match self {
            SessionEventMsg::PaneSpawned { pane_id } => EventView::PaneSpawned(pane_id@),
            SessionEventMsg::PaneExited { pane_id, code, signal } => EventView::PaneExited(
                pane_id@,
                *code,
                *signal,
            ),
            SessionEventMsg::PaneResized { pane_id, size } => EventView::PaneResized(
                pane_id@,
                *size,
            ),
            SessionEventMsg::PaneClosed { pane_id } => EventView::PaneClosed(pane_id@),
            SessionEventMsg::PaneBell { pane_id } => EventView::PaneBell(pane_id@),
            SessionEventMsg::PaneTitleChanged { pane_id, title } => EventView::PaneTitleChanged(
                pane_id@,
                title@,
            ),
            SessionEventMsg::PaneClipboardCopy { pane_id, selection, data } =>
                EventView::PaneClipboardCopy(pane_id@, selection@, data@),
            SessionEventMsg::PaneProgressChanged { pane_id, state, progress } =>
                EventView::PaneProgressChanged(pane_id@, *state, *progress),
            SessionEventMsg::PaneAttention { pane_id, kind, title, body } =>
                EventView::PaneAttention(pane_id@, *kind, title@, body@),
            SessionEventMsg::SessionCreated { word_id } => EventView::SessionCreated(word_id@),
            SessionEventMsg::SessionClosed { word_id } => EventView::SessionClosed(word_id@),
            SessionEventMsg::TabCreated { word_id, tab_index } => EventView::TabCreated(
                word_id@,
                *tab_index,
            ),
            SessionEventMsg::TabClosed { word_id, tab_index } => EventView::TabClosed(
                word_id@,
                *tab_index,
            ),
            SessionEventMsg::TabRenamed { word_id, tab_index, name } => EventView::TabRenamed(
                word_id@,
                *tab_index,
                name@,
            ),
            SessionEventMsg::TabsReordered { word_id, tab_indices } => EventView::TabsReordered(
                word_id@,
                tab_indices@,
            ),
        }
    }
}

/// How a child process ended.
#[derive(Clone, Copy, Debug, PartialEq, Eq, Structural)]
pub enum ExitStatus {
    /// With an exit code.
    Code(i32),
    /// Killed by a signal.
    Signal(i32),
    /// In a way the system did not report.
    Unknown,
}

/// Lifecycle event of the PTY registered under `name`, which is the pane id.
#[derive(Clone, Debug)]
pub enum PtyEvent {
    Spawned { name: String },
    Exited { name: String, status: ExitStatus },
    Resized { name: String, rows: u16, cols: u16 },
    Closed { name: String },
    Timeout { name: String },
}

/// What clients are told of a PTY lifecycle event.
pub open spec fn event_of_pty(e: PtyEvent) -> EventView {
    match e {
        PtyEvent::Spawned { name } => EventView::PaneSpawned(name@),
        PtyEvent::Exited { name, status } => EventView::PaneExited(
            name@,
            match status {
                ExitStatus::Code(c) => Some(c),
                _ => None,
            },
            match status {
                ExitStatus::Signal(s) => Some(s),
                _ => None,
            },
        ),
        PtyEvent::Resized { name, rows, cols } => EventView::PaneResized(
            name@,
            TermSize { rows, cols, pixel_width: 0, pixel_height: 0 },
        ),
        PtyEvent::Closed { name } => EventView::PaneClosed(name@),
        PtyEvent::Timeout { name } => EventView::PaneClosed(name@),
    }
}

/// Translate a PTY lifecycle event into the event broadcast to clients. A timed-out pane is
/// reported as closed.
pub fn pty_event_to_msg(event: PtyEvent) -> (r: SessionEventMsg)
    ensures
        r@ == event_of_pty(event),
{
    match event {
        PtyEvent::Spawned { name } => SessionEventMsg::PaneSpawned { pane_id: name },
        PtyEvent::Exited { name, status } => SessionEventMsg::PaneExited {
            pane_id: name,
            code: match status {
                ExitStatus::Code(c) => Some(c),
                _ => None,
            },
            signal: match status {
                ExitStatus::Signal(s) => Some(s),
                _ => None,
            },
        },
        PtyEvent::Resized { name, rows, cols } => SessionEventMsg::PaneResized {
            pane_id: name,
            size: TermSize { rows, cols, pixel_width: 0, pixel_height: 0 },
        },
        PtyEvent::Closed { name } => SessionEventMsg::PaneClosed { pane_id: name },
        PtyEvent::Timeout { name } => SessionEventMsg::PaneClosed { pane_id: name },
    }
}

/// What everyone hears of a program: that it runs, its new size, how it ended, and that its pane is
/// closed, also where it ran out of time. A program that ended of itself has a code, one that was
/// ended a signal.
pub proof fn law_what_is_heard_of_a_program(
    name: String,
    code: i32,
    signal: i32,
    rows: u16,
    cols: u16,
)
    ensures
        event_of_pty(PtyEvent::Spawned { name }) == EventView::PaneSpawned(name@),
        event_of_pty((PtyEvent::Exited { name, status: ExitStatus::Code(code) }))
            == EventView::PaneExited(name@, Some(code), None),
        event_of_pty((PtyEvent::Exited { name, status: ExitStatus::Signal(signal) }))
            == EventView::PaneExited(name@, None, Some(signal)),
        event_of_pty((PtyEvent::Closed { name })) == EventView::PaneClosed(name@),
        event_of_pty((PtyEvent::Timeout { name })) == EventView::PaneClosed(name@),
        ({
            let e = event_of_pty((PtyEvent::Resized { name, rows, cols }));
            &&& e is PaneResized
            &&& e->PaneResized_0 == name@
            &&& e->PaneResized_1.rows == rows && e->PaneResized_1.cols == cols
            &&& e->PaneResized_1.pixel_width == 0 && e->PaneResized_1.pixel_height == 0
        }),
{
}

} // verus!
