use kmuxd::capture::{encode, header, stop_after, Capture, CaptureStop};

const CONTROL: u8 = 1;

#[test]
fn a_record_is_its_header_followed_by_exactly_its_payload() {
    let payload = b"hello";
    let record = encode(CONTROL, payload).expect("encodes");
    assert_eq!(record[0], CONTROL);
    assert_eq!(&record[1..5], &5_u32.to_be_bytes());
    assert_eq!(&record[5..], payload);
    assert_eq!(record.len(), 5 + payload.len(), "no padding, no gap");
}

#[test]
fn an_empty_payload_still_produces_a_well_formed_header() {
    let record = encode(CONTROL, b"").expect("encodes");
    assert_eq!(record.len(), 5);
    assert_eq!(&record[1..5], &0_u32.to_be_bytes());
}

#[test]
fn a_payload_too_long_for_the_length_field_is_refused() {
    let max = u32::MAX as usize;
    assert_eq!(header(CONTROL, max), Some([CONTROL, 0xff, 0xff, 0xff, 0xff]));
    assert_eq!(header(CONTROL, max + 1), None);
}

#[test]
fn the_length_is_written_with_its_highest_byte_first() {
    assert_eq!(header(7, 0x0102_0304), Some([7, 1, 2, 3, 4]));
}

/// A file that accepts `room` more bytes and then fails like a full disk.
struct FullDisk {
    bytes: Vec<u8>,
    room: usize,
    truncate_fails: bool,
}

impl FullDisk {
    fn write_all(&mut self, buf: &[u8]) -> Result<(), String> {
        let n = buf.len().min(self.room);
        self.bytes.extend_from_slice(&buf[..n]);
        self.room -= n;
        if n < buf.len() {
            Err("no space left on device".to_string())
        } else {
            Ok(())
        }
    }

    fn truncate_to(&mut self, len: u64) -> Result<(), String> {
        if self.truncate_fails {
            return Err("truncate refused".to_string());
        }
        self.bytes.truncate(len as usize);
        Ok(())
    }
}

fn append(capture: &mut Capture, file: &mut FullDisk, payload: &[u8]) -> Result<(), CaptureStop> {
    let record = capture.append(CONTROL, payload)?;
    match file.write_all(&record) {
        Ok(()) => {
            capture.written(&record);
            Ok(())
        }
        Err(write) => Err(stop_after(write, file.truncate_to(capture.cut_back_to()))),
    }
}

#[test]
fn a_failed_append_leaves_the_file_ending_at_the_last_whole_record() {
    let existing = encode(CONTROL, b"old").expect("encodes");
    let mut file = FullDisk { bytes: existing.clone(), room: 5 + 2 + 3, truncate_fails: false };
    let mut capture = Capture::new(file.bytes.len() as u64);

    append(&mut capture, &mut file, b"ok").expect("room for it");
    let stop = append(&mut capture, &mut file, b"torn").expect_err("the disk fills mid-record");

    assert!(matches!(stop, CaptureStop::Write(_)), "{stop:?}");
    let mut want = existing;
    want.extend(encode(CONTROL, b"ok").expect("encodes"));
    assert_eq!(file.bytes, want, "the partial record is gone");
}

#[test]
fn a_failed_cut_back_is_reported_as_a_torn_file() {
    let mut file = FullDisk { bytes: Vec::new(), room: 3, truncate_fails: true };
    let mut capture = Capture::new(0);
    let stop = append(&mut capture, &mut file, b"payload").expect_err("the disk fills mid-record");
    assert!(matches!(stop, CaptureStop::Torn { .. }), "{stop:?}");
}

#[test]
fn concatenated_records_can_be_walked_by_length_alone() {
    let payloads: [&[u8]; 3] = [b"a", b"", b"three"];
    let mut file = Vec::new();
    for p in payloads {
        file.extend(encode(CONTROL, p).expect("encodes"));
    }

    let mut read = Vec::new();
    let mut at = 0;
    while at < file.len() {
        let len = u32::from_be_bytes(file[at + 1..at + 5].try_into().expect("4 bytes")) as usize;
        read.push(file[at + 5..at + 5 + len].to_vec());
        at += 5 + len;
    }
    assert_eq!(at, file.len(), "the walk lands exactly on the end");
    assert_eq!(read, payloads.map(<[u8]>::to_vec));
}

#[test]
fn a_file_holds_the_records_of_the_appends_that_succeeded() {
    let mut file = FullDisk { bytes: b"old".to_vec(), room: 64, truncate_fails: false };
    let mut capture = Capture::new(3);
    append(&mut capture, &mut file, b"one").expect("room for it");
    file.room = 7;
    let stop = append(&mut capture, &mut file, b"lost").expect_err("the disk fills mid-record");
    assert_eq!(stop.message(), "capture write failed: no space left on device");
    file.room = 64;
    append(&mut capture, &mut file, b"").expect("room for it");
    append(&mut capture, &mut file, b"two").expect("room for it");
    assert_eq!(file.bytes, b"old\x01\0\0\0\x03one\x01\0\0\0\0\x01\0\0\0\x03two");
    assert_eq!(capture.whole_len, file.bytes.len() as u64);
}
