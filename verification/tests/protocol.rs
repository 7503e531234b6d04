use serial_flasher::checksum::calculate_crc;
use serial_flasher::error::ErrorKind;
use serial_flasher::protocol::{
    bufsize_request, cmd, cmd_bytes, cmd_numbers, communicate, connect, connect_request,
    crc_request, crc_value, erase_request, get_buf_size, get_loader_info, is_load_ready,
    is_write_ok, loadbuffer_request, loader_request, rd_request, spierase_request, spird_request,
    spiwritebuffer_request, writebuffer_request,
};
use serial_flasher::text::LF;

#[test]
fn requests_are_lines_between_line_feeds() {
    assert_eq!(LF, b'\n');
    assert_eq!(cmd("connect"), b"\nconnect\n".to_vec());
    assert_eq!(cmd("reset -h"), b"\nreset -h\n".to_vec());
    assert_eq!(cmd(""), b"\n\n".to_vec());
    assert_eq!(cmd_bytes(b"halt"), b"\nhalt\n".to_vec());
    assert_eq!(cmd_numbers("erase", 7, None), b"\nerase 7\n".to_vec());
    assert_eq!(cmd_numbers("erase", 7, Some(0)), b"\nerase 7 0\n".to_vec());
}

#[test]
fn requests_carry_decimal_arguments() {
    assert_eq!(connect_request(), b"\nconnect\n".to_vec());
    assert_eq!(loader_request(), b"\nloader\n".to_vec());
    assert_eq!(bufsize_request(), b"\nbufsize\n".to_vec());
    assert_eq!(erase_request(0x0800_0000, 1), b"\nerase 134217728 1\n".to_vec());
    assert_eq!(spierase_request(65536, 256), b"\nspierase 65536 256\n".to_vec());
    assert_eq!(rd_request(0x0800_0000, 256), b"\nrd 134217728 256\n".to_vec());
    assert_eq!(spird_request(768, 1), b"\nspird 768 1\n".to_vec());
    assert_eq!(crc_request(0x0800_0000, 2), b"\ncrc 134217728 2\n".to_vec());
    assert_eq!(loadbuffer_request(64), b"\nloadbuffer 64\n".to_vec());
    assert_eq!(writebuffer_request(0x0800_0100, 64), b"\nwritebuffer 134217984 64\n".to_vec());
    assert_eq!(spiwritebuffer_request(1280, 2), b"\nspiwritebuffer 1280 2\n".to_vec());
}

#[test]
fn replies_that_report_an_error_are_refused() {
    assert_eq!(communicate(b"Erased\r\n"), Ok(()));
    assert_eq!(communicate(b""), Ok(()));
    assert_eq!(communicate(b"Error: busy"), Err(ErrorKind::Protocol));
    assert_eq!(communicate(b"flash error"), Err(ErrorKind::Protocol));
    assert_eq!(communicate(b"Invalid address"), Err(ErrorKind::Protocol));
    assert_eq!(communicate(b"invalid"), Err(ErrorKind::Protocol));
    assert_eq!(communicate(b"Wrong mode"), Err(ErrorKind::Protocol));
    assert_eq!(communicate(b"all wrong"), Err(ErrorKind::Protocol));
    assert_eq!(communicate(b"RROR NVALID RONG"), Ok(()));
    assert_eq!(communicate(b"ror nvali ron"), Ok(()));
}

#[test]
fn connect_needs_a_target() {
    let info = connect(b"Target XYZ\nFlashSize 65536\nPageSize 1024\n").unwrap();
    assert_eq!(info.get(b"Target"), Some(&b"XYZ".to_vec()));
    assert_eq!(info.number(b"FlashSize"), Some(65536));
    assert_eq!(info.number(b"PageSize"), Some(1024));
    assert_eq!(connect(b"FlashSize 65536\n").unwrap_err(), ErrorKind::Connection);
    assert_eq!(connect(b"").unwrap_err(), ErrorKind::Connection);
    assert_eq!(connect(b"Target\n").unwrap_err(), ErrorKind::Connection);
    assert_eq!(connect(b"Target XYZ\nSWD error\n").unwrap_err(), ErrorKind::Protocol);
}

#[test]
fn loader_needs_its_status() {
    let info = get_loader_info(b"Loader ok\nSPIFlashSize 4096\n").unwrap();
    assert_eq!(info.get(b"Loader"), Some(&b"ok".to_vec()));
    assert_eq!(info.number(b"SPIFlashSize"), Some(4096));
    assert!(!info.contains_key(b"MaxBufSize"));
    assert_eq!(get_loader_info(b"Entering loader\n").unwrap_err(), ErrorKind::Loader);
    assert_eq!(get_loader_info(b"").unwrap_err(), ErrorKind::Loader);
    assert_eq!(get_loader_info(b"Loader error\n").unwrap_err(), ErrorKind::Protocol);
}

#[test]
fn buffer_size_is_four_digits_of_words() {
    assert_eq!(get_buf_size(b"MaxBuf = 0064"), Ok(256));
    assert_eq!(get_buf_size(b"MaxBuf = 0064\r\n"), Ok(256));
    assert_eq!(get_buf_size(b"MaxBuf = 9999 words"), Ok(39996));
    assert_eq!(get_buf_size(b"MaxBuf = 00645"), Ok(256));
    assert_eq!(get_buf_size(b"MaxBuf = 0000"), Ok(0));
    assert_eq!(get_buf_size(b"MaxBuf = 64"), Err(ErrorKind::Protocol));
    assert_eq!(get_buf_size(b"MaxBuf = 64\r\n"), Err(ErrorKind::Protocol));
    assert_eq!(get_buf_size(b"MaxBuf = 0x40"), Err(ErrorKind::Protocol));
    assert_eq!(get_buf_size(b"MaxBuf=0064"), Err(ErrorKind::Protocol));
    assert_eq!(get_buf_size(b" MaxBuf = 0064"), Err(ErrorKind::Protocol));
    assert_eq!(get_buf_size(b""), Err(ErrorKind::Protocol));
}

#[test]
fn checksum_reply_is_eight_hex_digits() {
    assert_eq!(crc_value(b"Crc32 = 0xDEADBEEF"), Ok(0xDEAD_BEEF));
    assert_eq!(crc_value(b"Crc32 = 0xdeadbeef\r\n"), Ok(0xDEAD_BEEF));
    assert_eq!(crc_value(b"Crc32 = 0x  00000001 \n"), Ok(1));
    assert_eq!(crc_value(b"Crc32 = 0xDEADBE"), Err(ErrorKind::Protocol));
    assert_eq!(crc_value(b"Crc32 = 0xDEADBEEF00"), Err(ErrorKind::Protocol));
    assert_eq!(crc_value(b"Crc32 = 0xDEADBEEG"), Err(ErrorKind::Protocol));
    assert_eq!(crc_value(b"Crc32 = DEADBEEF"), Err(ErrorKind::Protocol));
    assert_eq!(crc_value(b"Crc32 = 0x"), Err(ErrorKind::Protocol));
    assert_eq!(crc_value(b"Crc32 = 0xDEADBEEF wrong"), Err(ErrorKind::Protocol));
    assert_eq!(crc_value(b""), Err(ErrorKind::Protocol));
}

#[test]
fn chunk_replies() {
    assert!(is_load_ready(b"Load ready"));
    assert!(is_load_ready(b"Load ready\r\n"));
    assert!(!is_load_ready(b"load ready"));
    assert!(!is_load_ready(b"Load ready, invalid"));
    assert!(is_write_ok(b"Write OK\r\n"));
    assert!(!is_write_ok(b"Write OK"));
    assert!(!is_write_ok(b"Write OK\r\n "));
}

#[test]
fn checksum_is_crc32_iso_hdlc() {
    assert_eq!(calculate_crc(b"123456789"), 0xCBF4_3926);
    assert_eq!(calculate_crc(b""), 0);
    assert_eq!(calculate_crc(&[0]), 0xD202_EF8D);
    assert_ne!(calculate_crc(&[0xAA; 512]), calculate_crc(&[0xAA; 511]));
}
