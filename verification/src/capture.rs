//! The capture file: outgoing frames as they are before compression, for offline study.
//!
//! A record is one byte of category, the length of the payload as a big-endian 32-bit number,
//! and the payload. A reader finds the next record only by trusting this one's length, so the
//! file must never hold a record that promises more bytes than follow.

use crate::text::{decimal, decimal_text};
use vstd::prelude::*;
use vstd::string::StringExecFns;

verus! {

/// Bytes in front of a payload.
pub const HEADER_LEN: usize = 5;

/// Why a capture stopped.
#[derive(Debug)]
pub enum CaptureStop {
    /// A payload does not fit the length field.
    TooLarge { len: usize },
    /// A write failed; the file ends at its last whole record.
    Write(String),
    /// A write failed, and so did cutting the partial record off.
    Torn { write: String, truncate: String },
}

pub enum StopView {
    TooLarge(usize),
    Write(Seq<char>),
    Torn(Seq<char>, Seq<char>),
}

impl View for CaptureStop {
    type V = StopView;

    open spec fn view(&self) -> StopView {
        match self {
            CaptureStop::TooLarge { len } => StopView::TooLarge(*len),
            CaptureStop::Write(e) => StopView::Write(e@),
            CaptureStop::Torn { write, truncate } => StopView::Torn(write@, truncate@),
        }
    }
}

impl StopView {
    pub open spec fn text(self) -> Seq<char> {
        match self {
            StopView::TooLarge(len) => "a "@ + decimal_text(len as nat)
                + "-byte frame does not fit the capture format's u32 length"@,
            StopView::Write(e) => "capture write failed: "@ + e,
            StopView::Torn(write, truncate) => "capture write failed ("@ + write
                + ") and cutting back the partial record failed ("@ + truncate
                + "); the file may end in a torn record"@,
        }
    }
}

impl CaptureStop {
    /// The reason, for the log.
    pub fn message(&self) -> (r: String)
        ensures
            r@ == self@.text(),
    {
        match self {
            CaptureStop::TooLarge { len } => {
                let mut out = "a ".to_owned();
                let d = decimal(*len as u64);
                out.append(d.as_str());
                out.append("-byte frame does not fit the capture format's u32 length");
                out
            },
            CaptureStop::Write(e) => {
                let mut out = "capture write failed: ".to_owned();
                out.append(e.as_str());
                out
            },
            CaptureStop::Torn { write, truncate } => {
                let mut out = "capture write failed (".to_owned();
                out.append(write.as_str());
                out.append(") and cutting back the partial record failed (");
                out.append(truncate.as_str());
                out.append("); the file may end in a torn record");
                out
            },
        }
    }
}

/// A 32-bit number, most significant byte first.
pub open spec fn be_bytes(n: u32) -> Seq<u8> {
    seq![
        (n / 0x100_0000) as u8,
        (n / 0x1_0000 % 0x100) as u8,
        (n / 0x100 % 0x100) as u8,
        (n % 0x100) as u8,
    ]
}

/// The number that four bytes stand for, most significant byte first.
pub open spec fn be_value(b: Seq<u8>) -> int {
    b[0] * 0x100_0000 + b[1] * 0x1_0000 + b[2] * 0x100 + b[3]
}

/// The record of a payload.
pub open spec fn record_bytes(category: u8, payload: Seq<u8>) -> Seq<u8> {
    seq![category] + be_bytes(payload.len() as u32) + payload
}

/// The payloads of a file, read from its start by their lengths alone; none if the file does not
/// end where a record does.
pub open spec fn walk(file: Seq<u8>) -> Option<Seq<Seq<u8>>>
    decreases file.len(),
{
    if file.len() == 0 {
        Some(Seq::empty())
    } else if file.len() < HEADER_LEN {
        None
    } else {
        let end = HEADER_LEN + be_value(file.subrange(1, 5));
        if end > file.len() || end < HEADER_LEN {
            None
        } else {
            match walk(file.skip(end)) {
                Some(rest) => Some(seq![file.subrange(5, end)] + rest),
                None => None,
            }
        }
    }
}

/// The length field gives back the length.
proof fn lemma_be_round_trip(n: u32)
    ensures
        be_bytes(n).len() == 4,
        be_value(be_bytes(n)) == n,
{
    assert(n / 0x100_0000 < 0x100) by (nonlinear_arith)
        requires
            n <= 0xffff_ffff,
    ;
    assert((n / 0x100_0000) * 0x100_0000 + (n / 0x1_0000 % 0x100) * 0x1_0000 + (n / 0x100 % 0x100)
        * 0x100 + n % 0x100 == n) by (bit_vector);
}

/// Appending a record to a file of whole records adds exactly its payload to what a reader finds.
pub proof fn law_append_keeps_walkable(file: Seq<u8>, category: u8, payload: Seq<u8>)
    requires
        walk(file) is Some,
        payload.len() <= u32::MAX,
    ensures
        walk(file + record_bytes(category, payload)) == Some(walk(file)->0.push(payload)),
    decreases file.len(),
{
    let rec = record_bytes(category, payload);
    let all = file + rec;
    lemma_be_round_trip(payload.len() as u32);
    if file.len() == 0 {
        assert(all =~= rec);
        assert(rec.subrange(1, 5) =~= be_bytes(payload.len() as u32));
        let end = HEADER_LEN + payload.len();
        assert(rec.subrange(5, end) =~= payload);
        assert(rec.skip(end as int) =~= Seq::<u8>::empty());
        assert(walk(rec.skip(end as int)) == Some(Seq::<Seq<u8>>::empty()));
        assert(seq![payload] + Seq::<Seq<u8>>::empty() =~= Seq::<Seq<u8>>::empty().push(payload));
    } else {
        let end = HEADER_LEN + be_value(file.subrange(1, 5));
        assert(all.subrange(1, 5) =~= file.subrange(1, 5));
        assert(all.subrange(5, end) =~= file.subrange(5, end));
        assert(all.skip(end) =~= file.skip(end) + rec);
        law_append_keeps_walkable(file.skip(end), category, payload);
        let rest = walk(file.skip(end))->0;
        assert(seq![file.subrange(5, end)] + rest.push(payload) =~= (seq![file.subrange(5, end)]
            + rest).push(payload));
    }
}

/// Cutting a file back to the length it had after its last whole record undoes a torn write,
/// however much of the record reached the file.
pub proof fn law_cut_back_undoes_torn_write(file: Seq<u8>, landed: Seq<u8>)
    ensures
        (file + landed).take(file.len() as int) == file,
{
    assert((file + landed).take(file.len() as int) =~= file);
}

/// One attempt to append a payload.
pub struct AppendView {
    pub category: u8,
    pub payload: Seq<u8>,
    /// What reached the file before the write failed and was cut back; none where the whole
    /// record was written.
    pub landed: Option<Seq<u8>>,
}

impl AppendView {
    /// Whether the payload fits the length field.
    pub open spec fn fits(self) -> bool {
        self.payload.len() <= u32::MAX
    }

    /// Whether the append succeeds.
    pub open spec fn succeeds(self) -> bool {
        self.fits() && self.landed is None
    }
}

/// A capture file, and the length at which its last whole record ends.
pub struct CaptureFile {
    pub bytes: Seq<u8>,
    pub whole_len: int,
}

impl CaptureFile {
    /// A capture into a file that holds some bytes.
    pub open spec fn opened(bytes: Seq<u8>) -> CaptureFile {
        CaptureFile { bytes, whole_len: bytes.len() as int }
    }

    /// The file after one attempt. A payload that does not fit is refused before anything is
    /// written; a write that fails is cut back.
    pub open spec fn after(self, a: AppendView) -> CaptureFile {
        if !a.fits() {
            self
        } else {
            match a.landed {
                None => CaptureFile {
                    bytes: self.bytes + record_bytes(a.category, a.payload),
                    whole_len: self.whole_len + record_bytes(a.category, a.payload).len(),
                },
                Some(landed) => CaptureFile {
                    bytes: (self.bytes + landed).take(self.whole_len),
                    ..self
                },
            }
        }
    }

    /// The file after a number of attempts.
    pub open spec fn after_all(self, appends: Seq<AppendView>) -> CaptureFile
        decreases appends.len(),
    {
        if appends.len() == 0 {
            self
        } else {
            self.after_all(appends.drop_last()).after(appends.last())
        }
    }
}

/// The records of the appends that succeed, in their order.
pub open spec fn records_of(appends: Seq<AppendView>) -> Seq<u8>
    decreases appends.len(),
{
    if appends.len() == 0 {
        Seq::empty()
    } else if appends.last().succeeds() {
        records_of(appends.drop_last()) + record_bytes(
            appends.last().category,
            appends.last().payload,
        )
    } else {
        records_of(appends.drop_last())
    }
}

/// The payloads of the appends that succeed, in their order.
pub open spec fn payloads_of(appends: Seq<AppendView>) -> Seq<Seq<u8>>
    decreases appends.len(),
{
    if appends.len() == 0 {
        Seq::empty()
    } else if appends.last().succeeds() {
        payloads_of(appends.drop_last()).push(appends.last().payload)
    } else {
        payloads_of(appends.drop_last())
    }
}

/// After any number of appends, of which none left a torn record, a file holds what it held
/// before and behind it the records of those that succeeded, in their order and nothing else;
/// its last whole record ends where the file ends. So a file that could be read to its end by
/// the lengths alone can still be, and gives the payloads of those appends behind the earlier
/// ones.
pub proof fn law_capture_holds_what_was_appended(before: Seq<u8>, appends: Seq<AppendView>)
    ensures
        CaptureFile::opened(before).after_all(appends).bytes == before + records_of(appends),
        CaptureFile::opened(before).after_all(appends).whole_len == before.len() + records_of(
            appends,
        ).len(),
        walk(before) is Some ==> walk(CaptureFile::opened(before).after_all(appends).bytes)
            == Some(walk(before)->0 + payloads_of(appends)),
    decreases appends.len(),
{
    let opened = CaptureFile::opened(before);
    if appends.len() == 0 {
        assert(before + Seq::<u8>::empty() =~= before);
        if walk(before) is Some {
            assert(walk(before)->0 + Seq::<Seq<u8>>::empty() =~= walk(before)->0);
        }
    } else {
        let rest = appends.drop_last();
        let a = appends.last();
        let so_far = opened.after_all(rest);
        law_capture_holds_what_was_appended(before, rest);
        if a.succeeds() {
            let record = record_bytes(a.category, a.payload);
            assert(before + records_of(rest) + record =~= before + (records_of(rest) + record));
            if walk(before) is Some {
                law_append_keeps_walkable(so_far.bytes, a.category, a.payload);
                assert((walk(before)->0 + payloads_of(rest)).push(a.payload) =~= walk(before)->0
                    + payloads_of(rest).push(a.payload));
            }
        } else if a.fits() {
            law_cut_back_undoes_torn_write(so_far.bytes, a.landed->0);
        }
    }
}

/// The header of a record; none for a length that does not fit its field.
pub fn header(category: u8, len: usize) -> (r: Option<[u8; 5]>)
    ensures
        match r {
            Some(h) => len <= u32::MAX && h@ == seq![category] + be_bytes(len as u32),
            None => len > u32::MAX,
        },
{
    if len as u64 > u32::MAX as u64 {
        return None;
    }
    let n = len as u32;
    let h = [
        category,
        (n / 0x100_0000) as u8,
        (n / 0x1_0000 % 0x100) as u8,
        (n / 0x100 % 0x100) as u8,
        (n % 0x100) as u8,
    ];
    assert(h@ =~= seq![category] + be_bytes(len as u32));
    Some(h)
}

/// A whole record: its header and its payload, with nothing between.
pub fn encode(category: u8, payload: &[u8]) -> (r: Option<Vec<u8>>)
    ensures
        match r {
            Some(b) => payload@.len() <= u32::MAX && b@ == record_bytes(category, payload@),
            None => payload@.len() > u32::MAX,
        },
{
    match header(category, payload.len()) {
        None => None,
        Some(h) => {
            let mut record: Vec<u8> = Vec::new();
            record.extend_from_slice(h.as_slice());
            record.extend_from_slice(payload);
            assert(record@ =~= record_bytes(category, payload@));
            Some(record)
        },
    }
}

/// An open capture: the length at which the file's last whole record ends.
#[derive(Clone, Copy, Debug, PartialEq, Eq, Structural)]
pub struct Capture {
    pub whole_len: u64,
}

impl Capture {
    /// Capture into a file of some length.
    pub fn new(file_len: u64) -> (r: Self)
        ensures
            r.whole_len == file_len,
    {
        Capture { whole_len: file_len }
    }

    /// Begin to append: the bytes to write at once, unless the payload is too large.
    pub fn append(&self, category: u8, payload: &[u8]) -> (r: Result<Vec<u8>, CaptureStop>)
        ensures
            match r {
                Ok(b) => payload@.len() <= u32::MAX && b@ == record_bytes(category, payload@),
                Err(e) => payload@.len() > u32::MAX && e@ == StopView::TooLarge(
                    payload@.len() as usize,
                ),
            },
    {
        match encode(category, payload) {
            Some(record) => Ok(record),
            None => Err(CaptureStop::TooLarge { len: payload.len() }),
        }
    }

    /// The record was written.
    pub fn written(&mut self, record: &Vec<u8>)
        requires
            old(self).whole_len + record@.len() <= u64::MAX,
        ensures
            final(self).whole_len == old(self).whole_len + record@.len(),
    {
        self.whole_len = self.whole_len + record.len() as u64;
    }

    /// Writing the record failed: the length to cut the file back to.
    pub fn cut_back_to(&self) -> (r: u64)
        ensures
            r == self.whole_len,
    {
        self.whole_len
    }
}

/// Why a capture stops after a failed write; `cut` says whether the partial record could be cut
/// off.
pub fn stop_after(write: String, cut: Result<(), String>) -> (r: CaptureStop)
    ensures
        r@ == match cut {
            Ok(()) => StopView::Write(write@),
            Err(truncate) => StopView::Torn(write@, truncate@),
        },
{
    match cut {
        Ok(()) => CaptureStop::Write(write),
        Err(truncate) => CaptureStop::Torn { write, truncate },
    }
}

/// A record is its category, the length of its payload in four bytes with the highest first, and
/// the payload as it is.
pub proof fn law_what_a_record_holds(category: u8, payload: Seq<u8>)
    requires
        payload.len() <= u32::MAX,
    ensures
        ({
            let r = record_bytes(category, payload);
            &&& r.len() == 5 + payload.len()
            &&& r[0] == category
            &&& r[1] * 0x100_0000 + r[2] * 0x1_0000 + r[3] * 0x100 + r[4] == payload.len()
            &&& r.skip(5) == payload
        }),
{
    lemma_be_round_trip(payload.len() as u32);
    assert(record_bytes(category, payload).skip(5) =~= payload);
}

} // verus!
