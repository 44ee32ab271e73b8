//! The interface between the daemon and a terminal emulator.

use crate::events::{EventView, SessionEventMsg};
use crate::list::lemma_views_push;
use crate::protocol::{PaneProgressState, TermSize};
use crate::terminal::{CellState, CursorState, TermModes};
use crate::text::{same_text, str_option, views};
use vstd::prelude::*;

pub mod mock;
pub mod screen_laws;
pub mod wezterm;

verus! {

/// Default maximum scrollback lines retained by the terminal emulator.
pub const DEFAULT_SCROLLBACK: usize = 50_000;

/// Physical size of the terminal including optional pixel dimensions (`0` = unknown).
#[derive(Debug, Clone, Copy, PartialEq, Eq, Structural)]
pub struct BackendSize {
    pub rows: u16,
    pub cols: u16,
    pub pixel_width: u16,
    pub pixel_height: u16,
}

impl BackendSize {
    pub open spec fn of(t: TermSize) -> BackendSize {
        BackendSize {
            rows: t.rows,
            cols: t.cols,
            pixel_width: t.pixel_width,
            pixel_height: t.pixel_height,
        }
    }

    pub open spec fn term(self) -> TermSize {
        TermSize {
            rows: self.rows,
            cols: self.cols,
            pixel_width: self.pixel_width,
            pixel_height: self.pixel_height,
        }
    }
}

impl From<TermSize> for BackendSize {
    fn from(t: TermSize) -> (r: Self) {
        BackendSize {
            rows: t.rows,
            cols: t.cols,
            pixel_width: t.pixel_width,
            pixel_height: t.pixel_height,
        }
    }
}

impl vstd::std_specs::convert::FromSpecImpl<TermSize> for BackendSize {
    open spec fn obeys_from_spec() -> bool {
        true
    }

    open spec fn from_spec(t: TermSize) -> BackendSize {
        BackendSize::of(t)
    }
}

impl From<BackendSize> for TermSize {
    fn from(b: BackendSize) -> (r: Self) {
        TermSize {
            rows: b.rows,
            cols: b.cols,
            pixel_width: b.pixel_width,
            pixel_height: b.pixel_height,
        }
    }
}

impl vstd::std_specs::convert::FromSpecImpl<BackendSize> for TermSize {
    open spec fn obeys_from_spec() -> bool {
        true
    }

    open spec fn from_spec(b: BackendSize) -> TermSize {
        b.term()
    }
}

/// Converting a size to the backend's form and back changes nothing, in either direction.
pub proof fn law_size_round_trip(t: TermSize, b: BackendSize)
    ensures
        BackendSize::of(t).term() == t,
        BackendSize::of(b.term()) == b,
{
}

/// The rows and columns handed to the PTY.
#[derive(Debug, Clone, Copy, PartialEq, Eq, Structural)]
pub struct WindowSize {
    pub rows: u16,
    pub cols: u16,
}

/// Convert a terminal size to a PTY window size.
pub fn term_size_to_window(t: TermSize) -> (r: WindowSize)
    ensures
        r == (WindowSize { rows: t.rows, cols: t.cols }),
{
    WindowSize { rows: t.rows, cols: t.cols }
}

/// Feature toggles of a pane's emulator, recomputed whenever its clients change.
#[derive(Debug, Clone, Copy, PartialEq, Eq, Structural)]
pub struct CapabilityHandles {
    pub kitty_graphics: bool,
    pub kitty_keyboard: bool,
}

/// Events a terminal emulator reports to its host. Every method may be left at its default,
/// which ignores the event.
pub trait BackendEventSink {
    fn on_title(&mut self, _title: &str) {
    }

    fn on_bell(&mut self) {
    }

    fn on_osc52_copy(&mut self, _selection: &str, _base64_data: &str) {
    }

    fn on_hyperlink(&mut self, _id: Option<&str>, _uri: &str) {
    }

    fn on_progress(&mut self, _state: PaneProgressState, _progress: Option<u8>) {
    }
}

/// An event sink that ignores everything.
pub struct NullEventSink;

impl BackendEventSink for NullEventSink {

}

/// Configuration for a terminal emulator.
pub struct BackendConfig<S: BackendEventSink> {
    pub size: BackendSize,
    pub capabilities: CapabilityHandles,
    /// Receiver of title, bell and OSC events.
    pub events: S,
    /// Maximum number of lines to keep in the scrollback buffer.
    pub scrollback: usize,
}

/// A named way to make terminal emulators.
pub trait BackendFactory {
    fn name(&self) -> &'static str;
}

/// A terminal emulator: it takes the bytes a pane's program writes and keeps the grid they
/// paint.
pub trait TerminalBackend: Sized {
    /// What holds of an emulator between any two calls.
    spec fn wf(&self) -> bool;

    /// Whether the emulator may be `after` once it has been fed `data`.
    spec fn hears(&self, data: Seq<u8>, after: &Self) -> bool;

    /// The dimensions of the grid.
    spec fn size_now(&self) -> BackendSize;

    /// Whether the grid turns `before`, what a list of cells holds, into `after`.
    spec fn paints(&self, before: Seq<CellState>, after: Seq<CellState>) -> bool;

    /// The cursor as it is shown.
    spec fn cursor_shown(&self) -> CursorState;

    /// The modes that are set.
    spec fn modes_set(&self) -> TermModes;

    /// Human-readable name of this backend.
    fn name() -> &'static str;

    /// Feed raw PTY output through the emulator.
    fn feed(&mut self, data: &[u8])
        requires
            old(self).wf(),
        ensures
            final(self).wf(),
            old(self).hears(data@, &*final(self)),
            final(self).size_now() == old(self).size_now(),
    ;

    /// Current grid dimensions.
    fn size(&self) -> (r: BackendSize)
        ensures
            r == self.size_now(),
    ;

    /// Put the current grid into `out`, row by row.
    fn fill_cells(&self, out: &mut Vec<CellState>)
        ensures
            self.paints(old(out)@, final(out)@),
    ;

    /// Current cursor position and shape.
    fn cursor(&self) -> (r: CursorState)
        ensures
            r == self.cursor_shown(),
    ;

    /// Current terminal modes.
    fn modes(&self) -> (r: TermModes)
        ensures
            r == self.modes_set(),
    ;

    /// Resize the emulator. Pixel dimensions are not kept.
    fn resize(&mut self, size: BackendSize)
        requires
            old(self).wf(),
        ensures
            final(self).wf(),
            final(self).size_now() == (BackendSize { pixel_width: 0, pixel_height: 0, ..size }),
    ;

    /// Put the grid into `out` and return cursor and modes with it.
    fn fill_cells_and_cursor(&self, out: &mut Vec<CellState>) -> (r: (CursorState, TermModes))
        ensures
            self.paints(old(out)@, final(out)@),
            r == (self.cursor_shown(), self.modes_set()),
    {
        self.fill_cells(out);
        (self.cursor(), self.modes())
    }

    /// Whether the alternate screen is shown.
    fn is_alt_screen(&self) -> (r: bool)
        default_ensures
            !r,
    {
        false
    }

    /// Number of lines in the scrollback.
    fn history_size(&self) -> (r: usize)
        default_ensures
            r == 0,
    {
        0
    }

    /// Read up to `count` lines of the scrollback, each `cols` cells wide, from line `start` on.
    /// Line 0 is the oldest.
    fn read_history_lines(&self, start: usize, count: usize, cols: usize) -> (r: Vec<
        Vec<CellState>,
    >)
        default_ensures
            r@.len() == 0,
    {
        Vec::new()
    }
}

/// Latest OSC 9;4 progress of a pane: the state plus the optional percentage.
#[derive(Debug, Clone, Copy, PartialEq, Eq, Structural)]
pub struct PaneProgress {
    pub state: PaneProgressState,
    pub progress: Option<u8>,
}

impl Default for PaneProgress {
    fn default() -> (r: Self)
        ensures
            r == (PaneProgress { state: PaneProgressState::Inactive, progress: None }),
    {
        PaneProgress { state: PaneProgressState::Inactive, progress: None }
    }
}

/// Backend event sink for a single pane: it owns the pane's title and progress, and collects the
/// events to broadcast to all clients.
#[derive(Debug)]
pub struct PaneEventSink {
    pub pane_id: String,
    pub title: String,
    pub progress: PaneProgress,
    /// Events not yet broadcast, oldest first.
    pub outbox: Vec<SessionEventMsg>,
}

pub struct SinkView {
    pub pane_id: Seq<char>,
    pub title: Seq<char>,
    pub progress: PaneProgress,
    pub outbox: Seq<EventView>,
}

impl View for PaneEventSink {
    type V = SinkView;

    open spec fn view(&self) -> SinkView {
        SinkView {
            pane_id: self.pane_id@,
            title: self.title@,
            progress: self.progress,
            outbox: views(self.outbox@),
        }
    }
}

impl SinkView {
    /// A reported title is announced only when it differs from the last one.
    pub open spec fn titled(self, title: Seq<char>) -> SinkView {
        if self.title == title {
            self
        } else {
            SinkView {
                title,
                outbox: self.outbox.push(EventView::PaneTitleChanged(self.pane_id, title)),
                ..self
            }
        }
    }

    /// Every clipboard copy is announced.
    pub open spec fn copied(self, selection: Seq<char>, data: Seq<char>) -> SinkView {
        SinkView {
            outbox: self.outbox.push(EventView::PaneClipboardCopy(self.pane_id, selection, data)),
            ..self
        }
    }

    /// Reported progress is announced only when it differs from the last.
    pub open spec fn progressed(self, state: PaneProgressState, progress: Option<u8>) -> SinkView {
        if self.progress == (PaneProgress { state, progress }) {
            self
        } else {
            SinkView {
                progress: PaneProgress { state, progress },
                outbox: self.outbox.push(
                    EventView::PaneProgressChanged(self.pane_id, state, progress),
                ),
                ..self
            }
        }
    }
}

impl PaneEventSink {
    pub fn new(pane_id: String) -> (r: Self)
        ensures
            r@ == (SinkView {
                pane_id: pane_id@,
                title: Seq::empty(),
                progress: PaneProgress { state: PaneProgressState::Inactive, progress: None },
                outbox: Seq::empty(),
            }),
    {
        let r = PaneEventSink {
            pane_id,
            title: String::new(),
            progress: PaneProgress::default(),
            outbox: Vec::new(),
        };
        assert(views(r.outbox@) =~= Seq::empty());
        r
    }

    /// Takes the events that are still to be broadcast.
    pub fn take_events(&mut self) -> (r: Vec<SessionEventMsg>)
        ensures
            views(r@) == old(self)@.outbox,
            final(self)@ == (SinkView { outbox: Seq::empty(), ..old(self)@ }),
    {
        let mut events: Vec<SessionEventMsg> = Vec::new();
        std::mem::swap(&mut events, &mut self.outbox);
        assert(views(self.outbox@) =~= Seq::empty());
        events
    }
}

impl BackendEventSink for PaneEventSink {
    fn on_title(&mut self, title: &str)
        ensures
            final(self)@ == old(self)@.titled(title@),
    {
        broadcast use lemma_views_push;

        if same_text(self.title.as_str(), title) {
            return ;
        }
        self.title = title.to_owned();
        self.outbox.push(
            SessionEventMsg::PaneTitleChanged {
                pane_id: self.pane_id.clone(),
                title: title.to_owned(),
            },
        );
    }

    fn on_osc52_copy(&mut self, selection: &str, base64_data: &str)
        ensures
            final(self)@ == old(self)@.copied(selection@, base64_data@),
    {
        broadcast use lemma_views_push;

        self.outbox.push(
            SessionEventMsg::PaneClipboardCopy {
                pane_id: self.pane_id.clone(),
                selection: selection.to_owned(),
                data: base64_data.to_owned(),
            },
        );
    }

    fn on_progress(&mut self, state: PaneProgressState, progress: Option<u8>)
        ensures
            final(self)@ == old(self)@.progressed(state, progress),
    {
        broadcast use lemma_views_push;

        let same = self.progress.state == state && match (self.progress.progress, progress) {
            (Some(a), Some(b)) => a == b,
            (None, None) => true,
            _ => false,
        };
        if same {
            return ;
        }
        self.progress = PaneProgress { state, progress };
        self.outbox.push(
            SessionEventMsg::PaneProgressChanged {
                pane_id: self.pane_id.clone(),
                state,
                progress,
            },
        );
    }
}

/// Reporting the same title or progress again announces nothing.
pub proof fn law_repeated_report_is_silent(
    s: SinkView,
    title: Seq<char>,
    state: PaneProgressState,
    progress: Option<u8>,
)
    ensures
        s.titled(title).titled(title) == s.titled(title),
        s.progressed(state, progress).progressed(state, progress) == s.progressed(state, progress),
{
}

/// Selection target of an OSC 52 copy: the letters `c`, `p`, `s` and the digits `0` to `7` stand
/// for themselves; anything else means the clipboard.
pub open spec fn selection_text(selection: u8) -> Seq<char> {
    if selection == 'p' as u8 || selection == 's' as u8 || '0' as u8 <= selection <= '7' as u8 {
        seq![selection as char]
    } else {
        seq!['c']
    }
}

/// The selection name to report for an OSC 52 target byte.
pub fn osc52_selection(selection: u8) -> (r: &'static str)
    ensures
        r@ == selection_text(selection),
{
    proof {
        reveal_strlit("c");
        reveal_strlit("p");
        reveal_strlit("s");
        reveal_strlit("0");
        reveal_strlit("1");
        reveal_strlit("2");
        reveal_strlit("3");
        reveal_strlit("4");
        reveal_strlit("5");
        reveal_strlit("6");
        reveal_strlit("7");
    }
    let r = match selection {
        112 => "p",
        115 => "s",
        48 => "0",
        49 => "1",
        50 => "2",
        51 => "3",
        52 => "4",
        53 => "5",
        54 => "6",
        55 => "7",
        _ => "c",
    };
    assert(r@ =~= selection_text(selection));
    r
}

impl PaneEventSink {
    /// The emulator reports an OSC 52 copy. `payload` is what is to be copied, still encoded; none
    /// where it is no text, and nothing is copied then.
    pub fn on_osc52(&mut self, selection: u8, payload: Option<&str>)
        ensures
            final(self)@ == match payload {
                Some(data) => old(self)@.copied(selection_text(selection), data@),
                None => old(self)@,
            },
    {
        if let Some(data) = payload {
            self.on_osc52_copy(osc52_selection(selection), data);
        }
    }
}

/// Follows the title an emulator reports after every feed, so that only changes are passed on.
#[derive(Debug)]
pub struct TitleFollower {
    pub last_title: String,
}

impl TitleFollower {
    /// Whether a reported title is news.
    pub open spec fn is_news(self, title: Option<Seq<char>>) -> bool {
        title is Some && title->0 != self.last_title@
    }

    /// Before any title.
    pub fn new() -> (r: Self)
        ensures
            r.last_title@.len() == 0,
    {
        TitleFollower { last_title: String::new() }
    }

    /// Note a reported title. A changed one is returned, to be passed on.
    pub fn observe(&mut self, title: Option<&str>) -> (r: Option<String>)
        ensures
            r is Some == old(self).is_news(str_option(title)),
            r is Some ==> r->0@ == title->0@ && final(self).last_title@ == title->0@,
            r is None ==> *final(self) == *old(self),
    {
        match title {
            Some(t) => {
                if same_text(t, self.last_title.as_str()) {
                    None
                } else {
                    self.last_title = t.to_owned();
                    Some(t.to_owned())
                }
            },
            None => None,
        }
    }
}

/// A new title is kept and told, with the pane that it is of; so is a change of progress. What is
/// copied is told every time. What was told before stays, in order, and nothing else changes.
pub proof fn law_reports_are_told(
    s: SinkView,
    title: Seq<char>,
    state: PaneProgressState,
    progress: Option<u8>,
    selection: Seq<char>,
    data: Seq<char>,
)
    ensures
        title != s.title ==> {
            let r = s.titled(title);
            &&& r.title == title
            &&& r.outbox == s.outbox.push(EventView::PaneTitleChanged(s.pane_id, title))
            &&& r == (SinkView { title: r.title, outbox: r.outbox, ..s })
        },
        title == s.title ==> s.titled(title) == s,
        state != s.progress.state || progress != s.progress.progress ==> {
            let r = s.progressed(state, progress);
            &&& r.progress.state == state && r.progress.progress == progress
            &&& r.outbox == s.outbox.push(
                EventView::PaneProgressChanged(s.pane_id, state, progress),
            )
            &&& r == (SinkView { progress: r.progress, outbox: r.outbox, ..s })
        },
        state == s.progress.state && progress == s.progress.progress ==> s.progressed(
            state,
            progress,
        ) == s,
        ({
            let r = s.copied(selection, data);
            &&& r.outbox == s.outbox.push(
                EventView::PaneClipboardCopy(s.pane_id, selection, data),
            )
            &&& r == (SinkView { outbox: r.outbox, ..s })
        }),
{
}

/// Which clipboard is meant: the one named, where it is `p`, `s` or a digit up to seven, and
/// otherwise the usual one, `c`.
pub proof fn law_which_clipboard_is_meant(b: u8)
    ensures
        selection_text(b).len() == 1,
        b == 112 || b == 115 || 48 <= b <= 55 ==> selection_text(b)[0] as u32 == b,
        !(b == 112 || b == 115 || 48 <= b <= 55) ==> selection_text(b)[0] == 'c',
{
}

} // verus!
