//! A pane: the clients attached to it, the size they agree on, who may write, and what a client
//! that attaches is shown first.

use crate::backend::{PaneEventSink, PaneProgress, SinkView};
use crate::capability::{all_graphics, all_keyboard, intersect_for_atomics};
use crate::list::{first_where, lemma_first_where_is, lemma_first_where_none};
use crate::protocol::{
    ClientCapabilities, ClientId, Errno, ErrorView, InputMode, KeyEvent, KeyView, KmuxError,
    PaneInfo, PaneInfoView, SequenceNo, SessionStatus, TermSize,
};
use crate::text::{format_pane_id, pane_id_text, views};
use vstd::prelude::*;

verus! {

/// Maximum number of buffered diffs to replay on attach before a snapshot is sent instead.
pub const MAX_RESUME_DELTA_DIFFS: usize = 256;

/// Maximum estimated byte size of buffered diffs to replay on attach before a snapshot is sent
/// instead.
pub const MAX_RESUME_DELTA_BYTES: usize = 262_144;

/// One client attached to a pane.
#[derive(Clone, Copy, Debug, PartialEq, Eq, Structural)]
pub struct ClientSender {
    pub client_id: ClientId,
    /// Send full snapshots instead of incremental diffs.
    pub force_full_snapshot: bool,
    /// Send no terminal output at all; the client still counts toward the pane's size.
    pub paused: bool,
    /// The pause was automatic (the client is in the background), not asked for by the user.
    pub pause_auto: bool,
    /// This pane keeps streaming through an automatic pause.
    pub no_auto_pause: bool,
    pub capabilities: ClientCapabilities,
    /// Terminal size the client reported last.
    pub size: TermSize,
}

impl ClientSender {
    /// Whether output is withheld: paused, unless the pause is automatic and the pane exempt.
    pub open spec fn withheld(self) -> bool {
        self.paused && !(self.pause_auto && self.no_auto_pause)
    }

    /// Whether terminal output is withheld from this client.
    pub fn output_paused(&self) -> (r: bool)
        ensures
            r == self.withheld(),
    {
        self.paused && !(self.pause_auto && self.no_auto_pause)
    }
}

/// A diff kept for replay: its position in the stream and its estimated size.
#[derive(Clone, Copy, Debug, PartialEq, Eq, Structural)]
pub struct BufferedDiff {
    pub seqno: u64,
    pub bytes: usize,
}

/// Input waiting to be written to a pane's child process.
#[derive(Debug)]
pub enum PaneInput {
    Bytes(Vec<u8>),
    /// Key events, encoded in order against the modes in force when they are written.
    Keys(Vec<KeyEvent>),
    /// Pasted text.
    Paste(Vec<u8>),
}

pub enum InputView {
    Bytes(Seq<u8>),
    Keys(Seq<KeyView>),
    Paste(Seq<u8>),
}

impl View for PaneInput {
    type V = InputView;

    open spec fn view(&self) -> InputView {
        match self {
            PaneInput::Bytes(b) => InputView::Bytes(b@),
            PaneInput::Keys(k) => InputView::Keys(views(k@)),
            PaneInput::Paste(b) => InputView::Paste(b@),
        }
    }
}

impl InputView {
    /// An empty batch of keys writes nothing.
    pub open spec fn is_nothing(self) -> bool {
        self matches InputView::Keys(k) && k.len() == 0
    }
}

impl PaneInput {
    /// Whether this is an empty batch of keys.
    pub fn is_nothing(&self) -> (r: bool)
        ensures
            r == self@.is_nothing(),
    {
        match self {
            PaneInput::Keys(k) => k.len() == 0,
            _ => false,
        }
    }
}

/// What is written for pasted text: the text, between markers where the program asked for them.
pub open spec fn pasted(data: Seq<u8>, bracketed: bool) -> Seq<u8> {
    if bracketed {
        seq![27u8, 91u8, 50u8, 48u8, 48u8, 126u8] + data + seq![27u8, 91u8, 50u8, 48u8, 49u8, 126u8]
    } else {
        data
    }
}

/// The bytes to write for pasted text. With bracketed paste on, the text stands between
/// `ESC [ 200 ~` and `ESC [ 201 ~`.
pub fn paste_bytes(data: &Vec<u8>, bracketed: bool) -> (r: Vec<u8>)
    ensures
        r@ == pasted(data@, bracketed),
{
    if bracketed {
        let mut out: Vec<u8> = vec![27u8, 91u8, 50u8, 48u8, 48u8, 126u8];
        out.extend_from_slice(data.as_slice());
        let tail: Vec<u8> = vec![27u8, 91u8, 50u8, 48u8, 49u8, 126u8];
        out.extend_from_slice(tail.as_slice());
        assert(out@ =~= pasted(data@, bracketed));
        out
    } else {
        let mut out: Vec<u8> = Vec::new();
        out.extend_from_slice(data.as_slice());
        assert(out@ =~= data@);
        out
    }
}

/// State of one pane.
#[derive(Debug)]
pub struct PaneRelay {
    pub pane_index: u32,
    /// Attached clients, in the order they first attached.
    pub clients: Vec<ClientSender>,
    /// Program the pane runs, and its arguments.
    pub program: String,
    pub args: Vec<String>,
    /// Current terminal size.
    pub size: TermSize,
    /// Recent diffs, oldest first.
    pub scrollback: Vec<BufferedDiff>,
    /// Sequence number of the next diff.
    pub next_seqno: u64,
    pub input_mode: InputMode,
    pub status: SessionStatus,
    pub kitty_graphics_enabled: bool,
    pub kitty_keyboard_enabled: bool,
    /// Title, progress and the events to broadcast.
    pub sink: PaneEventSink,
    /// Input not yet written, oldest first.
    pub input: Vec<PaneInput>,
    /// The terminal emulator runs in a process of its own.
    pub isolated: bool,
}

pub struct PaneView {
    pub pane_index: u32,
    pub clients: Seq<ClientSender>,
    pub program: Seq<char>,
    pub args: Seq<Seq<char>>,
    pub size: TermSize,
    pub scrollback: Seq<BufferedDiff>,
    pub next_seqno: u64,
    pub input_mode: InputMode,
    pub status: SessionStatus,
    pub kitty_graphics_enabled: bool,
    pub kitty_keyboard_enabled: bool,
    pub sink: SinkView,
    pub input: Seq<InputView>,
    pub isolated: bool,
}

impl View for PaneRelay {
    type V = PaneView;

    open spec fn view(&self) -> PaneView {
        PaneView {
            pane_index: self.pane_index,
            clients: self.clients@,
            program: self.program@,
            args: views(self.args@),
            size: self.size,
            scrollback: self.scrollback@,
            next_seqno: self.next_seqno,
            input_mode: self.input_mode,
            status: self.status,
            kitty_graphics_enabled: self.kitty_graphics_enabled,
            kitty_keyboard_enabled: self.kitty_keyboard_enabled,
            sink: self.sink@,
            input: views(self.input@),
            isolated: self.isolated,
        }
    }
}

/// Recognizes the entry of one client.
pub open spec fn is_client(id: ClientId) -> spec_fn(ClientSender) -> bool {
    |c: ClientSender| c.client_id == id
}

/// Where the entry of a client stands in a list of clients.
pub open spec fn client_at(clients: Seq<ClientSender>, id: ClientId) -> Option<int> {
    first_where(clients, is_client(id))
}

/// No client is listed twice.
pub open spec fn distinct_clients(clients: Seq<ClientSender>) -> bool {
    forall|i: int, j: int|
        0 <= i < j < clients.len() ==> (#[trigger] clients[i]).client_id != (
        #[trigger] clients[j]).client_id
}

pub open spec fn smaller(a: u16, b: u16) -> u16 {
    if a <= b {
        a
    } else {
        b
    }
}

/// The smallest positive number of rows any client reported.
pub open spec fn min_rows(clients: Seq<ClientSender>) -> Option<u16>
    decreases clients.len(),
{
    if clients.len() == 0 {
        None
    } else {
        let rest = min_rows(clients.drop_last());
        let r = clients.last().size.rows;
        if r == 0 {
            rest
        } else {
            match rest {
                Some(m) => Some(smaller(m, r)),
                None => Some(r),
            }
        }
    }
}

/// The smallest positive number of columns any client reported.
pub open spec fn min_cols(clients: Seq<ClientSender>) -> Option<u16>
    decreases clients.len(),
{
    if clients.len() == 0 {
        None
    } else {
        let rest = min_cols(clients.drop_last());
        let c = clients.last().size.cols;
        if c == 0 {
            rest
        } else {
            match rest {
                Some(m) => Some(smaller(m, c)),
                None => Some(c),
            }
        }
    }
}

/// Recognizes a client whose own size is exactly `rows` by `cols`.
pub open spec fn has_cells(rows: u16, cols: u16) -> spec_fn(ClientSender) -> bool {
    |c: ClientSender| c.size.rows == rows && c.size.cols == cols
}

/// The size a pane takes: the smallest rows and the smallest columns of its clients, with the
/// pixel dimensions of the first client of exactly that size, if there is one.
pub open spec fn agreed_size(clients: Seq<ClientSender>) -> Option<TermSize> {
    match (min_rows(clients), min_cols(clients)) {
        (Some(rows), Some(cols)) => Some(
            match first_where(clients, has_cells(rows, cols)) {
                Some(i) => TermSize {
                    rows,
                    cols,
                    pixel_width: clients[i].size.pixel_width,
                    pixel_height: clients[i].size.pixel_height,
                },
                None => TermSize { rows, cols, pixel_width: 0, pixel_height: 0 },
            },
        ),
        _ => None,
    }
}

/// The capabilities of each client.
pub open spec fn capability_list(clients: Seq<ClientSender>) -> Seq<ClientCapabilities> {
    Seq::new(clients.len(), |i: int| clients[i].capabilities)
}

/// The clients that output is not withheld from, in order.
pub open spec fn streaming(clients: Seq<ClientSender>) -> Seq<ClientId>
    decreases clients.len(),
{
    if clients.len() == 0 {
        Seq::empty()
    } else if clients.last().withheld() {
        streaming(clients.drop_last())
    } else {
        streaming(clients.drop_last()).push(clients.last().client_id)
    }
}

/// Who is told of a pane's new size, and with which snapshot position.
#[derive(Debug)]
pub struct ResizeNotice {
    pub pane_id: String,
    pub size: TermSize,
    pub seqno: SequenceNo,
    pub clients: Vec<ClientId>,
}

pub struct ResizeView {
    pub pane_id: Seq<char>,
    pub size: TermSize,
    pub seqno: SequenceNo,
    pub clients: Seq<ClientId>,
}

impl View for ResizeNotice {
    type V = ResizeView;

    open spec fn view(&self) -> ResizeView {
        ResizeView {
            pane_id: self.pane_id@,
            size: self.size,
            seqno: self.seqno,
            clients: self.clients@,
        }
    }
}

/// The model of an optional resize notice.
pub open spec fn notice_view(n: Option<ResizeNotice>) -> Option<ResizeView> {
    match n {
        Some(r) => Some(r@),
        None => None,
    }
}

/// What a client is shown when it attaches.
#[derive(Debug)]
pub enum AttachResult {
    /// A full snapshot, at the given position in the stream.
    FullSnapshot(SequenceNo),
    /// The buffered diffs with these sequence numbers, and nothing else.
    Delta(Vec<SequenceNo>),
    /// A full snapshot that replaces all the client has.
    SyncReset(SequenceNo),
}

pub enum ReplayView {
    FullSnapshot(SequenceNo),
    Delta(Seq<SequenceNo>),
    SyncReset(SequenceNo),
}

impl View for AttachResult {
    type V = ReplayView;

    open spec fn view(&self) -> ReplayView {
        match self {
            AttachResult::FullSnapshot(s) => ReplayView::FullSnapshot(*s),
            AttachResult::Delta(d) => ReplayView::Delta(d@),
            AttachResult::SyncReset(s) => ReplayView::SyncReset(*s),
        }
    }
}

/// Outcome of an input lock request.
#[derive(Clone, Copy, Debug, PartialEq, Eq, Structural)]
pub enum InputLockOutcome {
    Granted,
    Denied(ClientId),
}

/// The buffered diffs behind position `seq`.
pub open spec fn pending(buf: Seq<BufferedDiff>, seq: u64) -> Seq<SequenceNo>
    decreases buf.len(),
{
    if buf.len() == 0 {
        Seq::empty()
    } else if buf.last().seqno > seq {
        pending(buf.drop_last(), seq).push(SequenceNo(buf.last().seqno))
    } else {
        pending(buf.drop_last(), seq)
    }
}

/// Estimated size of the buffered diffs behind position `seq`.
pub open spec fn pending_bytes(buf: Seq<BufferedDiff>, seq: u64) -> nat
    decreases buf.len(),
{
    if buf.len() == 0 {
        0
    } else if buf.last().seqno > seq {
        pending_bytes(buf.drop_last(), seq) + buf.last().bytes as nat
    } else {
        pending_bytes(buf.drop_last(), seq)
    }
}

impl PaneView {
    /// Position of the last diff produced.
    pub open spec fn current_seqno(self) -> SequenceNo {
        SequenceNo(
            if self.next_seqno == 0 {
                0
            } else {
                (self.next_seqno - 1) as u64
            },
        )
    }

    /// What a client that last saw `last_seqno` is shown: everything when it saw nothing; the
    /// diffs it missed when they are all buffered and not too many; else a fresh start.
    pub open spec fn replay(self, last_seqno: Option<SequenceNo>) -> ReplayView {
        match last_seqno {
            None => ReplayView::FullSnapshot(self.current_seqno()),
            Some(seq) => if self.scrollback.len() > 0 && seq.0 >= self.scrollback[0].seqno
                && pending(self.scrollback, seq.0).len() <= MAX_RESUME_DELTA_DIFFS
                && pending_bytes(self.scrollback, seq.0) <= MAX_RESUME_DELTA_BYTES {
                ReplayView::Delta(pending(self.scrollback, seq.0))
            } else {
                ReplayView::SyncReset(self.current_seqno())
            },
        }
    }

    /// The feature flags recomputed from the attached clients.
    pub open spec fn recomputed(self) -> PaneView {
        PaneView {
            kitty_graphics_enabled: all_graphics(capability_list(self.clients)),
            kitty_keyboard_enabled: all_keyboard(capability_list(self.clients)),
            ..self
        }
    }

    /// The size the pane changes to, where its clients agree on other cells than it has.
    pub open spec fn new_size(self) -> Option<TermSize> {
        match agreed_size(self.clients) {
            Some(s) => if s.rows == self.size.rows && s.cols == self.size.cols {
                None
            } else {
                Some(s)
            },
            None => None,
        }
    }

    /// The pane at the size its clients agree on.
    pub open spec fn fitted(self) -> PaneView {
        match self.new_size() {
            Some(size) => PaneView { size, ..self },
            None => self,
        }
    }

    /// What is announced when the pane changes its size.
    pub open spec fn resize_notice(self, pane_id: Seq<char>) -> Option<ResizeView> {
        match self.new_size() {
            Some(size) => Some(
                ResizeView {
                    pane_id,
                    size,
                    seqno: self.current_seqno(),
                    clients: streaming(self.clients),
                },
            ),
            None => None,
        }
    }

    /// The pane with a client attached or attached again. A client that was attached keeps its
    /// place and its snapshot mode; every pause is cleared.
    pub open spec fn with_client(
        self,
        id: ClientId,
        size: TermSize,
        capabilities: ClientCapabilities,
    ) -> PaneView {
        let fresh = ClientSender {
            client_id: id,
            force_full_snapshot: false,
            paused: false,
            pause_auto: false,
            no_auto_pause: false,
            capabilities,
            size,
        };
        PaneView {
            clients: match client_at(self.clients, id) {
                Some(i) => self.clients.update(
                    i,
                    ClientSender {
                        force_full_snapshot: self.clients[i].force_full_snapshot,
                        ..fresh
                    },
                ),
                None => self.clients.push(fresh),
            },
            ..self
        }
    }

    /// The pane without a client, and without an input lock of that client's.
    pub open spec fn without_client(self, id: ClientId) -> PaneView {
        PaneView {
            clients: match client_at(self.clients, id) {
                Some(i) => self.clients.remove(i),
                None => self.clients,
            },
            input_mode: if self.input_mode == InputMode::Locked(id) {
                InputMode::Open
            } else {
                self.input_mode
            },
            ..self
        }
    }

    /// The pane with a client's entry changed, if the client is attached.
    pub open spec fn with_flags(
        self,
        id: ClientId,
        f: spec_fn(ClientSender) -> ClientSender,
    ) -> PaneView {
        match client_at(self.clients, id) {
            Some(i) => PaneView { clients: self.clients.update(i, f(self.clients[i])), ..self },
            None => self,
        }
    }

    /// Whether a client may write: the pane is open, or the client holds its lock.
    pub open spec fn writable_by(self, id: ClientId) -> bool {
        match self.input_mode {
            InputMode::Open => true,
            InputMode::Locked(holder) => holder == id,
            InputMode::Disabled => false,
        }
    }

    /// The pane after a client asked for the input lock, and the answer.
    pub open spec fn lock_requested(self, id: ClientId) -> (PaneView, InputLockOutcome) {
        match self.input_mode {
            InputMode::Open => (
                PaneView { input_mode: InputMode::Locked(id), ..self },
                InputLockOutcome::Granted,
            ),
            InputMode::Locked(holder) => if holder == id {
                (self, InputLockOutcome::Granted)
            } else {
                (self, InputLockOutcome::Denied(holder))
            },
            InputMode::Disabled => (self, InputLockOutcome::Denied(ClientId(0))),
        }
    }

    /// The pane after a client gave up its input lock, and whether it had one.
    pub open spec fn lock_released(self, id: ClientId) -> (PaneView, bool) {
        if self.input_mode == InputMode::Locked(id) {
            (PaneView { input_mode: InputMode::Open, ..self }, true)
        } else {
            (self, false)
        }
    }

    /// How the pane is reported to clients.
    pub open spec fn info(self, word: Seq<char>) -> PaneInfoView {
        PaneInfoView {
            pane_id: pane_id_text(word, self.pane_index),
            pane_index: self.pane_index,
            program: self.program,
            size: self.size,
            attached_clients: client_ids(self.clients),
            status: self.status,
            title: self.sink.title,
            progress_state: self.sink.progress.state,
            progress: self.sink.progress.progress,
        }
    }
}

pub open spec fn client_ids(clients: Seq<ClientSender>) -> Seq<ClientId> {
    Seq::new(clients.len(), |i: int| clients[i].client_id)
}

/// A pane that was just spawned.
pub open spec fn fresh_pane(
    word: Seq<char>,
    pane_index: u32,
    program: Seq<char>,
    args: Seq<Seq<char>>,
    size: TermSize,
    seed: ClientCapabilities,
) -> PaneView {
    PaneView {
        pane_index,
        clients: Seq::empty(),
        program,
        args,
        size,
        scrollback: Seq::empty(),
        next_seqno: 1,
        input_mode: InputMode::Open,
        status: SessionStatus::Running,
        kitty_graphics_enabled: seed.kitty_graphics,
        kitty_keyboard_enabled: seed.kitty_keyboard,
        sink: SinkView {
            pane_id: pane_id_text(word, pane_index),
            title: Seq::empty(),
            progress: PaneProgress {
                state: crate::protocol::PaneProgressState::Inactive,
                progress: None,
            },
            outbox: Seq::empty(),
        },
        input: Seq::empty(),
        isolated: false,
    }
}

impl PaneRelay {
    /// The state of a pane that was just spawned; the client that asked for it seeds the feature
    /// flags.
    pub fn new(
        word_id: &str,
        pane_index: u32,
        program: String,
        args: Vec<String>,
        size: TermSize,
        seed_caps: &ClientCapabilities,
    ) -> (r: PaneRelay)
        ensures
            r@ == fresh_pane(word_id@, pane_index, program@, views(args@), size, *seed_caps),
    {
        let seed = vec![*seed_caps];
        let flags = intersect_for_atomics(seed.as_slice());
        proof {
            assert(seed@[0] == *seed_caps);
        }
        let r = PaneRelay {
            pane_index,
            clients: Vec::new(),
            program,
            args,
            size,
            scrollback: Vec::new(),
            next_seqno: 1,
            input_mode: InputMode::Open,
            status: SessionStatus::Running,
            kitty_graphics_enabled: flags.0,
            kitty_keyboard_enabled: flags.1,
            sink: PaneEventSink::new(format_pane_id(word_id, pane_index)),
            input: Vec::new(),
            isolated: false,
        };
        assert(views(r.input@) =~= Seq::<InputView>::empty());
        r
    }

    /// Where a client's entry stands.
    pub fn find_client(&self, id: ClientId) -> (r: Option<usize>)
        ensures
            match r {
                Some(i) => client_at(self@.clients, id) == Some(i as int) && i < self.clients@.len(),
                None => client_at(self@.clients, id) is None,
            },
    {
        let mut i: usize = 0;
        while i < self.clients.len()
            invariant
                0 <= i <= self.clients@.len(),
                forall|j: int|
                    0 <= j < i ==> !is_client(id)(#[trigger] self.clients@[j]),
            decreases self.clients@.len() - i,
        {
            if self.clients[i].client_id == id {
                proof {
                    lemma_first_where_is(self.clients@, is_client(id), i as int);
                }
                return Some(i);
            }
            i = i + 1;
        }
        proof {
            lemma_first_where_none(self.clients@, is_client(id));
        }
        None
    }

    /// Recompute the live kitty feature flags as the intersection of all attached clients'
    /// declared capabilities. To be called after every change of `clients`.
    pub fn recompute_live_capabilities(&mut self)
        ensures
            final(self)@ == old(self)@.recomputed(),
    {
        let mut caps: Vec<ClientCapabilities> = Vec::new();
        let mut i: usize = 0;
        while i < self.clients.len()
            invariant
                0 <= i <= self.clients@.len(),
                caps@.len() == i,
                forall|j: int| 0 <= j < i ==> caps@[j] == self.clients@[j].capabilities,
            decreases self.clients@.len() - i,
        {
            caps.push(self.clients[i].capabilities);
            i = i + 1;
        }
        assert(caps@ =~= capability_list(self.clients@));
        let flags = intersect_for_atomics(caps.as_slice());
        self.kitty_graphics_enabled = flags.0;
        self.kitty_keyboard_enabled = flags.1;
    }

    /// Compute the effective pane size: smallest rows and cols across all attached clients with
    /// non-zero dimensions. `None` when there are none, and the caller keeps the size.
    pub fn effective_size(&self) -> (r: Option<TermSize>)
        ensures
            r == agreed_size(self@.clients),
    {
        let ghost cs = self.clients@;
        let mut rows: Option<u16> = None;
        let mut cols: Option<u16> = None;
        let mut i: usize = 0;
        assert(cs.take(0).len() == 0);
        while i < self.clients.len()
            invariant
                0 <= i <= self.clients@.len(),
                cs == self.clients@,
                rows == min_rows(cs.take(i as int)),
                cols == min_cols(cs.take(i as int)),
            decreases self.clients@.len() - i,
        {
            let size = self.clients[i].size;
            proof {
                assert(cs.take(i as int + 1).drop_last() =~= cs.take(i as int));
                assert(cs.take(i as int + 1).last() == cs[i as int]);
            }
            rows = least(rows, size.rows);
            cols = least(cols, size.cols);
            i = i + 1;
        }
        assert(cs.take(cs.len() as int) =~= cs);
        match (rows, cols) {
            (Some(rows), Some(cols)) => {
                let mut k: usize = 0;
                while k < self.clients.len()
                    invariant
                        0 <= k <= self.clients@.len(),
                        cs == self.clients@,
                        Some(rows) == min_rows(cs),
                        Some(cols) == min_cols(cs),
                        forall|j: int| 0 <= j < k ==> !has_cells(rows, cols)(#[trigger] cs[j]),
                    decreases self.clients@.len() - k,
                {
                    let size = self.clients[k].size;
                    if size.rows == rows && size.cols == cols {
                        proof {
                            lemma_first_where_is(cs, has_cells(rows, cols), k as int);
                        }
                        return Some(
                            TermSize {
                                rows,
                                cols,
                                pixel_width: size.pixel_width,
                                pixel_height: size.pixel_height,
                            },
                        );
                    }
                    k = k + 1;
                }
                proof {
                    lemma_first_where_none(cs, has_cells(rows, cols));
                }
                Some(TermSize { rows, cols, pixel_width: 0, pixel_height: 0 })
            },
            _ => None,
        }
    }

    /// Take the effective size if its cells differ from the current ones; returns the new size
    /// if so. The emulator and the PTY are the caller's to resize.
    pub fn apply_effective_size(&mut self) -> (r: Option<TermSize>)
        ensures
            r == old(self)@.new_size(),
            final(self)@ == old(self)@.fitted(),
    {
        match self.effective_size() {
            Some(new_size) => {
                if new_size.rows == self.size.rows && new_size.cols == self.size.cols {
                    None
                } else {
                    self.size = new_size;
                    Some(new_size)
                }
            },
            None => None,
        }
    }

    /// The position of the last diff produced.
    pub fn current_seqno(&self) -> (r: SequenceNo)
        ensures
            r == self@.current_seqno(),
    {
        SequenceNo(
            if self.next_seqno == 0 {
                0
            } else {
                self.next_seqno - 1
            },
        )
    }

    /// The clients to which a forced snapshot goes: those whose output is not withheld.
    pub fn streaming_clients(&self) -> (r: Vec<ClientId>)
        ensures
            r@ == streaming(self@.clients),
    {
        let ghost cs = self.clients@;
        let mut out: Vec<ClientId> = Vec::new();
        let mut i: usize = 0;
        assert(cs.take(0).len() == 0);
        while i < self.clients.len()
            invariant
                0 <= i <= self.clients@.len(),
                cs == self.clients@,
                out@ == streaming(cs.take(i as int)),
            decreases self.clients@.len() - i,
        {
            proof {
                assert(cs.take(i as int + 1).drop_last() =~= cs.take(i as int));
                assert(cs.take(i as int + 1).last() == cs[i as int]);
            }
            if !self.clients[i].output_paused() {
                out.push(self.clients[i].client_id);
            }
            i = i + 1;
        }
        assert(cs.take(cs.len() as int) =~= cs);
        out
    }

    /// The notice of a size change: a resize event and a forced snapshot for every client whose
    /// output is not withheld.
    pub fn broadcast_resize(
        &self,
        pane_id: &str,
        new_size: TermSize,
        seqno: SequenceNo,
    ) -> (r: ResizeNotice)
        ensures
            r@ == (ResizeView {
                pane_id: pane_id@,
                size: new_size,
                seqno,
                clients: streaming(self@.clients),
            }),
    {
        ResizeNotice {
            pane_id: pane_id.to_owned(),
            size: new_size,
            seqno,
            clients: self.streaming_clients(),
        }
    }

    /// Reconcile the pane's size with its clients and say whom to tell.
    pub fn reconcile_size(&mut self, pane_id: &str) -> (r: Option<ResizeNotice>)
        ensures
            final(self)@ == old(self)@.fitted(),
            notice_view(r) == old(self)@.resize_notice(pane_id@),
    {
        let seqno = self.current_seqno();
        match self.apply_effective_size() {
            Some(new_size) => Some(self.broadcast_resize(pane_id, new_size, seqno)),
            None => None,
        }
    }

    /// Attach a client, or attach it again.
    pub fn attach_client(
        &mut self,
        pane_id: &str,
        client_id: ClientId,
        size: TermSize,
        capabilities: ClientCapabilities,
    ) -> (r: Option<ResizeNotice>)
        ensures
            final(self)@ == old(self)@.with_client(
                client_id,
                size,
                capabilities,
            ).recomputed().fitted(),
            notice_view(r) == old(self)@.with_client(
                client_id,
                size,
                capabilities,
            ).recomputed().resize_notice(pane_id@),
    {
        let mut entry = ClientSender {
            client_id,
            force_full_snapshot: false,
            paused: false,
            pause_auto: false,
            no_auto_pause: false,
            capabilities,
            size,
        };
        match self.find_client(client_id) {
            Some(i) => {
                entry.force_full_snapshot = self.clients[i].force_full_snapshot;
                self.clients.set(i, entry);
            },
            None => {
                self.clients.push(entry);
            },
        }
        self.recompute_live_capabilities();
        self.reconcile_size(pane_id)
    }

    /// Detach a client, releasing any input lock it holds.
    pub fn detach_client(&mut self, pane_id: &str, client_id: ClientId) -> (r: Option<ResizeNotice>)
        ensures
            final(self)@ == old(self)@.without_client(client_id).recomputed().fitted(),
            notice_view(r) == old(self)@.without_client(client_id).recomputed().resize_notice(
                pane_id@,
            ),
    {
        match self.find_client(client_id) {
            Some(i) => {
                let _gone = self.clients.remove(i);
            },
            None => {},
        }
        if let InputMode::Locked(holder) = self.input_mode {
            if holder == client_id {
                self.input_mode = InputMode::Open;
            }
        }
        self.recompute_live_capabilities();
        self.reconcile_size(pane_id)
    }

    /// Record a client's new terminal size and reconcile the pane's.
    pub fn resize_client(
        &mut self,
        pane_id: &str,
        client_id: ClientId,
        size: TermSize,
    ) -> (r: Option<ResizeNotice>)
        ensures
            final(self)@ == old(self)@.with_flags(client_id, sized(size)).fitted(),
            notice_view(r) == old(self)@.with_flags(client_id, sized(size)).resize_notice(pane_id@),
    {
        if let Some(i) = self.find_client(client_id) {
            let mut entry = self.clients[i];
            entry.size = size;
            self.clients.set(i, entry);
        }
        self.reconcile_size(pane_id)
    }

    /// Set the full-snapshot mode of a client, if it is attached.
    pub fn set_snapshot_mode(&mut self, client_id: ClientId, enabled: bool)
        ensures
            final(self)@ == old(self)@.with_flags(client_id, snapshotting(enabled)),
    {
        if let Some(i) = self.find_client(client_id) {
            let mut entry = self.clients[i];
            entry.force_full_snapshot = enabled;
            self.clients.set(i, entry);
        }
    }

    /// Pause or resume output for a client, if it is attached.
    pub fn set_paused(&mut self, client_id: ClientId, paused: bool, auto: bool)
        ensures
            final(self)@ == old(self)@.with_flags(client_id, pausing(paused, auto)),
    {
        if let Some(i) = self.find_client(client_id) {
            let mut entry = self.clients[i];
            entry.paused = paused;
            entry.pause_auto = auto;
            self.clients.set(i, entry);
        }
    }

    /// Exempt a client's view of this pane from automatic pauses, if it is attached.
    pub fn set_no_auto_pause(&mut self, client_id: ClientId, exempt: bool)
        ensures
            final(self)@ == old(self)@.with_flags(client_id, exempting(exempt)),
    {
        if let Some(i) = self.find_client(client_id) {
            let mut entry = self.clients[i];
            entry.no_auto_pause = exempt;
            self.clients.set(i, entry);
        }
    }

    /// Detach every client at once, as when the pane is about to be closed.
    pub fn drop_clients(&mut self)
        ensures
            final(self)@ == (PaneView { clients: Seq::empty(), ..old(self)@ }),
    {
        self.clients = Vec::new();
    }

    /// Whether a client may write to the pane.
    pub fn check_writable(&self, client_id: ClientId) -> (r: Result<(), KmuxError>)
        ensures
            match r {
                Ok(_) => self@.writable_by(client_id),
                Err(e) => !self@.writable_by(client_id) && e@ == ErrorView::Pty(Errno::EPERM),
            },
    {
        match self.input_mode {
            InputMode::Open => Ok(()),
            InputMode::Locked(holder) => if holder == client_id {
                Ok(())
            } else {
                Err(KmuxError::Pty(Errno::EPERM))
            },
            InputMode::Disabled => Err(KmuxError::Pty(Errno::EPERM)),
        }
    }

    /// Queue input for the child process; a full queue refuses it.
    pub fn enqueue_input(&mut self, pane_id: &str, input: PaneInput, capacity: usize) -> (r: Result<
        (),
        KmuxError,
    >)
        ensures
            if old(self)@.input.len() < capacity {
                &&& r is Ok
                &&& final(self)@ == (PaneView {
                    input: old(self)@.input.push(input@),
                    ..old(self)@
                })
            } else {
                &&& final(self)@ == old(self)@
                &&& r matches Err(e) && e@ == ErrorView::InputQueueFull(pane_id@)
            },
    {
        broadcast use crate::list::group_views;

        if self.input.len() < capacity {
            self.input.push(input);
            Ok(())
        } else {
            Err(KmuxError::InputQueueFull { pane_id: pane_id.to_owned() })
        }
    }

    /// Take the oldest queued input.
    pub fn next_input(&mut self) -> (r: Option<PaneInput>)
        ensures
            match r {
                Some(i) => old(self)@.input.len() > 0 && i@ == old(self)@.input[0] && final(self)@
                    == (PaneView { input: old(self)@.input.remove(0), ..old(self)@ }),
                None => old(self)@.input.len() == 0 && final(self)@ == old(self)@,
            },
    {
        broadcast use crate::list::group_views;

        if self.input.len() == 0 {
            None
        } else {
            Some(self.input.remove(0))
        }
    }

    /// Request the exclusive input lock for a client.
    pub fn request_input_lock(&mut self, client_id: ClientId) -> (r: InputLockOutcome)
        ensures
            (final(self)@, r) == old(self)@.lock_requested(client_id),
    {
        match self.input_mode {
            InputMode::Open => {
                self.input_mode = InputMode::Locked(client_id);
                InputLockOutcome::Granted
            },
            InputMode::Locked(holder) => if holder == client_id {
                InputLockOutcome::Granted
            } else {
                InputLockOutcome::Denied(holder)
            },
            InputMode::Disabled => InputLockOutcome::Denied(ClientId(0)),
        }
    }

    /// Release the input lock, if this client holds it.
    pub fn release_input_lock(&mut self, client_id: ClientId) -> (r: bool)
        ensures
            (final(self)@, r) == old(self)@.lock_released(client_id),
    {
        if let InputMode::Locked(holder) = self.input_mode {
            if holder == client_id {
                self.input_mode = InputMode::Open;
                return true;
            }
        }
        false
    }

    /// Report the pane to clients.
    pub fn to_pane_info(&self, word_id: &str) -> (r: PaneInfo)
        ensures
            r@ == self@.info(word_id@),
    {
        let mut ids: Vec<ClientId> = Vec::new();
        let mut i: usize = 0;
        while i < self.clients.len()
            invariant
                0 <= i <= self.clients@.len(),
                ids@.len() == i,
                forall|j: int| 0 <= j < i ==> ids@[j] == self.clients@[j].client_id,
            decreases self.clients@.len() - i,
        {
            ids.push(self.clients[i].client_id);
            i = i + 1;
        }
        assert(ids@ =~= client_ids(self.clients@));
        PaneInfo {
            pane_id: format_pane_id(word_id, self.pane_index),
            pane_index: self.pane_index,
            program: self.program.clone(),
            size: self.size,
            attached_clients: ids,
            status: self.status,
            title: self.sink.title.clone(),
            progress_state: self.sink.progress.state,
            progress: self.sink.progress.progress,
        }
    }
}

pub open spec fn sized(size: TermSize) -> spec_fn(ClientSender) -> ClientSender {
    |c: ClientSender| ClientSender { size, ..c }
}

pub open spec fn snapshotting(enabled: bool) -> spec_fn(ClientSender) -> ClientSender {
    |c: ClientSender| ClientSender { force_full_snapshot: enabled, ..c }
}

pub open spec fn pausing(paused: bool, auto: bool) -> spec_fn(ClientSender) -> ClientSender {
    |c: ClientSender| ClientSender { paused, pause_auto: auto, ..c }
}

pub open spec fn exempting(exempt: bool) -> spec_fn(ClientSender) -> ClientSender {
    |c: ClientSender| ClientSender { no_auto_pause: exempt, ..c }
}

fn least(m: Option<u16>, x: u16) -> (r: Option<u16>)
    ensures
        r == if x == 0 {
            m
        } else {
            match m {
                Some(y) => Some(smaller(y, x)),
                None => Some(x),
            }
        },
{
    if x == 0 {
        m
    } else {
        match m {
            Some(y) => if y <= x {
                Some(y)
            } else {
                Some(x)
            },
            None => Some(x),
        }
    }
}

/// Compute what a client that attaches is shown.
pub fn compute_replay(relay: &PaneRelay, last_seqno: Option<SequenceNo>) -> (r: AttachResult)
    ensures
        r@ == relay@.replay(last_seqno),
{
    let seq: u64 = match last_seqno {
        None => {
            return AttachResult::FullSnapshot(relay.current_seqno());
        },
        Some(s) => s.0,
    };
    let ghost buf = relay.scrollback@;
    if relay.scrollback.len() == 0 || seq < relay.scrollback[0].seqno {
        return AttachResult::SyncReset(relay.current_seqno());
    }
    let mut missed: Vec<SequenceNo> = Vec::new();
    let mut bytes: usize = 0;
    let mut i: usize = 0;
    assert(buf.take(0).len() == 0);
    while i < relay.scrollback.len()
        invariant
            0 <= i <= buf.len(),
            buf == relay.scrollback@,
            buf.len() > 0,
            seq >= buf[0].seqno,
            last_seqno == Some(SequenceNo(seq)),
            missed@ == pending(buf.take(i as int), seq),
            bytes == pending_bytes(buf.take(i as int), seq),
            missed@.len() <= MAX_RESUME_DELTA_DIFFS,
            bytes <= MAX_RESUME_DELTA_BYTES,
        decreases buf.len() - i,
    {
        let d = relay.scrollback[i];
        proof {
            assert(buf.take(i as int + 1).drop_last() =~= buf.take(i as int));
            assert(buf.take(i as int + 1).last() == d);
        }
        if d.seqno > seq {
            if missed.len() == MAX_RESUME_DELTA_DIFFS || d.bytes > MAX_RESUME_DELTA_BYTES - bytes {
                proof {
                    lemma_pending_grows(buf, i as int + 1, seq);
                }
                return AttachResult::SyncReset(relay.current_seqno());
            }
            missed.push(SequenceNo(d.seqno));
            bytes = bytes + d.bytes;
        }
        i = i + 1;
    }
    assert(buf.take(buf.len() as int) =~= buf);
    AttachResult::Delta(missed)
}

proof fn lemma_pending_grows(buf: Seq<BufferedDiff>, k: int, seq: u64)
    requires
        0 <= k <= buf.len(),
    ensures
        pending(buf.take(k), seq).len() <= pending(buf, seq).len(),
        pending_bytes(buf.take(k), seq) <= pending_bytes(buf, seq),
    decreases buf.len() - k,
{
    if k < buf.len() {
        assert(buf.take(k + 1).drop_last() =~= buf.take(k));
        lemma_pending_grows(buf, k + 1, seq);
    } else {
        assert(buf.take(k) =~= buf);
    }
}

} // verus!
