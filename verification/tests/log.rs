use falcon::error::MessagingError;
use falcon::log::{
    acknowledged, fits, image_has_room, replay, whole_len, writer_gone, MessageLog,
};

#[test]
fn a_frame_is_length_offset_time_and_payload() {
    let mut log = MessageLog::open(&[], 4).unwrap();
    let req = log.append(0x0102, b"hi");
    assert_eq!(req.file_id, 4);
    assert_eq!(req.offset, 1);
    let mut want = vec![0, 0, 0, 26, 0, 0, 0, 0, 0, 0, 0, 1];
    want.extend_from_slice(&[0, 0, 0, 0, 0, 0, 0, 0, 0, 0, 0, 0, 0, 0, 1, 2]);
    want.extend_from_slice(b"hi");
    assert_eq!(req.framed, want);
    assert_eq!(log.next_offset(), 2);
}

fn file_of(payloads: &[&[u8]]) -> Vec<u8> {
    let mut log = MessageLog::open(&[], 0).unwrap();
    let mut file = Vec::new();
    for p in payloads {
        file.extend_from_slice(&log.append(5, p).framed);
    }
    file
}

#[test]
fn what_was_appended_is_replayed() {
    let file = file_of(&[b"a", b"", b"ccc"]);
    let all = replay(&file);
    let got: Vec<(u64, u128, Vec<u8>)> =
        all.into_iter().map(|m| (m.offset, m.timestamp, m.payload)).collect();
    assert_eq!(
        got,
        vec![(1, 5, b"a".to_vec()), (2, 5, b"".to_vec()), (3, 5, b"ccc".to_vec())]
    );
}

#[test]
fn a_torn_append_is_dropped_at_every_byte() {
    let file = file_of(&[b"first", b"second"]);
    let whole = file_of(&[b"first"]).len();
    for cut in whole..file.len() {
        let offsets: Vec<u64> = replay(&file[..cut]).iter().map(|m| m.offset).collect();
        assert_eq!(offsets, vec![1], "cut at {cut}");
    }
}

#[test]
fn a_header_that_is_too_short_ends_the_log() {
    let mut file = file_of(&[b"x"]);
    file.extend_from_slice(&[0, 0, 0, 3, 1, 2, 3]);
    file.extend_from_slice(&file_of(&[b"y"]));
    assert_eq!(replay(&file).len(), 1);
}

#[test]
fn a_log_reads_from_an_offset() {
    let file = file_of(&[b"a", b"b", b"c"]);
    let offsets = |from: u64| -> Vec<u64> {
        MessageLog::read_from(&file, from).iter().map(|m| m.offset).collect()
    };
    assert_eq!(offsets(0), vec![1, 2, 3]);
    assert_eq!(offsets(2), vec![2, 3]);
    assert_eq!(offsets(4), Vec::<u64>::new());
}

#[test]
fn a_reopened_log_goes_on() {
    let file = file_of(&[b"a", b"b"]);
    let mut log = MessageLog::open(&file, 0).unwrap();
    assert_eq!(log.next_offset(), 3);
    assert_eq!(log.append(0, b"c").offset, 3);
}

#[test]
fn a_log_at_the_last_offset_cannot_be_opened() {
    let mut file = vec![0, 0, 0, 24];
    file.extend_from_slice(&[255; 8]);
    file.extend_from_slice(&[0; 16]);
    assert!(MessageLog::open(&file, 0).is_none());
    assert!(!image_has_room(&file));
    assert!(image_has_room(&file_of(&[b"a"])));
}

#[test]
fn answers_of_the_writer() {
    assert_eq!(acknowledged(7, Some(Ok(()))).unwrap(), 7);
    let text = |e: MessagingError| match e {
        MessagingError::Io(m) => m,
        other => panic!("{other:?}"),
    };
    assert_eq!(text(acknowledged(7, Some(Err("full".to_string()))).unwrap_err()), "full");
    let gone = "message-log writer thread is no longer running";
    assert_eq!(text(acknowledged(7, None).unwrap_err()), gone);
    assert_eq!(text(writer_gone()), gone);
}

#[test]
fn what_is_appended_after_a_torn_tail_reads_back() {
    let mut log = MessageLog::open(&[], 0).unwrap();
    let mut file = log.append(1, b"one").framed;
    file.extend_from_slice(&log.append(2, b"two").framed);
    let whole = file.len();
    file.extend_from_slice(&log.append(3, b"lost").framed);
    for cut in whole..file.len() {
        let mut torn = file[..cut].to_vec();
        assert_eq!(whole_len(&torn), whole);
        torn.truncate(whole_len(&torn));
        let mut again = MessageLog::open(&torn, 0).unwrap();
        let req = again.append(4, b"three");
        assert_eq!(req.offset, 3);
        torn.extend_from_slice(&req.framed);
        let payloads: Vec<(u64, Vec<u8>)> =
            MessageLog::read_from(&torn, 1).into_iter().map(|m| (m.offset, m.payload)).collect();
        assert_eq!(
            payloads,
            vec![(1, b"one".to_vec()), (2, b"two".to_vec()), (3, b"three".to_vec())]
        );
    }
    assert_eq!(whole_len(&file), file.len());
    assert_eq!(whole_len(&[7]), 0);
    assert!(fits(b"small"));
}
