use serial_flasher::checksum::calculate_crc;
use serial_flasher::error::ErrorKind;
use serial_flasher::frame::{
    check_read_back, choose_port, ExactReader, FrameReader, BAUD_RATE, MAX_WINDOWS,
    READ_TIMEOUT_MS, WINDOW,
};

fn window(text: &[u8]) -> Vec<u8> {
    let mut bytes = text.to_vec();
    bytes.resize(WINDOW, 0);
    bytes
}

#[test]
fn reply_ends_at_the_sentinel() {
    let mut reader = FrameReader::new();
    assert!(reader.is_waiting());
    reader.accept(Some(&window(b"Target XYZ\n***\n")));
    assert!(!reader.is_waiting());
    assert!(reader.complete);
    assert_eq!(reader.attempts, 1);
    assert_eq!(reader.into_body(), b"Target XYZ\n".to_vec());
}

#[test]
fn reply_ends_at_the_first_sentinel() {
    let mut reader = FrameReader::new();
    reader.accept(Some(b"a***b***c"));
    assert_eq!(reader.into_body(), b"a".to_vec());
    let mut four = FrameReader::new();
    four.accept(Some(b"ab****"));
    assert_eq!(four.into_body(), b"ab".to_vec());
    let mut empty = FrameReader::new();
    empty.accept(Some(b"***"));
    assert!(empty.complete);
    assert_eq!(empty.into_body(), Vec::<u8>::new());
}

#[test]
fn windows_without_sentinel_are_kept_whole() {
    let mut reader = FrameReader::new();
    reader.accept(Some(&window(b"Target XYZ\n")));
    assert!(reader.is_waiting());
    reader.accept(None);
    assert!(reader.is_waiting());
    reader.accept(Some(&window(b"PageSize 1024\n***")));
    assert!(!reader.is_waiting());
    assert_eq!(reader.attempts, 3);
    let mut expected = window(b"Target XYZ\n");
    expected.extend_from_slice(b"PageSize 1024\n");
    assert_eq!(reader.into_body(), expected);
}

#[test]
fn sentinel_across_two_windows_is_not_seen() {
    let mut reader = FrameReader::new();
    reader.accept(Some(b"ok**"));
    reader.accept(Some(b"*"));
    assert!(reader.is_waiting());
    assert_eq!(reader.body, b"ok***".to_vec());
}

#[test]
fn waiting_is_bounded() {
    assert_eq!(MAX_WINDOWS, 200);
    assert_eq!(WINDOW, 256);
    let mut reader = FrameReader::new();
    let mut tried = 0;
    while reader.is_waiting() {
        if tried % 2 == 0 {
            reader.accept(None);
        } else {
            reader.accept(Some(b"x"));
        }
        tried += 1;
    }
    assert_eq!(tried, 200);
    assert!(!reader.complete);
    assert_eq!(reader.into_body(), vec![b'x'; 100]);
}

#[test]
fn exact_read_collects_the_bytes_asked_for() {
    let mut reader = ExactReader::new(3);
    assert!(reader.is_waiting());
    reader.accept(1);
    reader.accept(2);
    assert!(reader.is_waiting());
    reader.accept(3);
    assert!(!reader.is_waiting());
    assert_eq!(reader.finish(), Ok(vec![1, 2, 3]));
    assert_eq!(ExactReader::new(0).finish(), Ok(Vec::new()));
}

#[test]
fn exact_read_that_ends_early_carries_what_came() {
    let mut reader = ExactReader::new(4);
    reader.accept(9);
    reader.accept(8);
    let failure = reader.finish().unwrap_err();
    assert_eq!(failure.kind, ErrorKind::Transport);
    assert_eq!(failure.detail, vec![9, 8]);
}

#[test]
fn read_back_needs_done_and_the_checksum() {
    let body = [1u8, 2, 3, 4, 5, 6, 7, 8];
    let sum = calculate_crc(&body).to_le_bytes();
    assert_eq!(check_read_back(&body, &sum, b"Done"), Ok(()));
    assert_eq!(check_read_back(&body, &sum, b"done"), Err(ErrorKind::Protocol));
    assert_eq!(check_read_back(&body, &sum, b"Don"), Err(ErrorKind::Protocol));
    let swapped = calculate_crc(&body).to_be_bytes();
    assert_eq!(check_read_back(&body, &swapped, b"Done"), Err(ErrorKind::Integrity));
    assert_eq!(check_read_back(&body, &sum[..3], b"Done"), Err(ErrorKind::Integrity));
    assert_eq!(check_read_back(&body[..7], &sum, b"Done"), Err(ErrorKind::Integrity));
    assert_eq!(check_read_back(&body[..7], &swapped, b"Fail"), Err(ErrorKind::Protocol));
    assert_eq!(check_read_back(&[], &[0, 0, 0, 0], b"Done"), Ok(()));
}

#[test]
fn port_is_the_one_asked_for_or_the_first_found() {
    assert_eq!(BAUD_RATE, 9600);
    assert_eq!(READ_TIMEOUT_MS, 500);
    let found = vec!["/dev/ttyACM0".to_string(), "/dev/ttyUSB1".to_string()];
    let asked = "/dev/ttyS3".to_string();
    assert_eq!(choose_port(Some(&asked), &found), Some(&asked));
    assert_eq!(choose_port(None, &found), Some(&found[0]));
    assert_eq!(choose_port(Some(&asked), &Vec::new()), Some(&asked));
    assert_eq!(choose_port(None, &Vec::new()), None);
}
