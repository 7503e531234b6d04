use serial_flasher::engine::{Action, Command, Engine, Event, Outcome};
use serial_flasher::error::{ErrorKind, Failure};
use serial_flasher::script::{OpKind, Step};

const BASE: u32 = 0x0800_0000;

fn crc32(bytes: &[u8]) -> u32 {
    crc::Crc::<u32>::new(&crc::CRC_32_ISO_HDLC).checksum(bytes)
}

/// An adapter that keeps its flash in memory and answers as the wire
/// protocol asks.
struct Adapter {
    flash: Vec<u8>,
    page_size: u32,
    eflash: Vec<u8>,
    max_buf: Option<u32>,
    legacy_words: u32,
    reports_spi: bool,
    buffer: Vec<u8>,
    pending: Vec<Vec<u8>>,
    log: Vec<String>,
    corrupt_read: bool,
    crc_reply: Option<String>,
    fail_on: Option<(String, String)>,
}

impl Adapter {
    fn new(flash_size: usize, page_size: u32, max_buf: Option<u32>) -> Adapter {
        let mut flash = Vec::new();
        for i in 0..flash_size {
            flash.push((i % 251) as u8);
        }
        let mut eflash = Vec::new();
        for i in 0..(256 * 600) {
            eflash.push((i % 241) as u8);
        }
        Adapter {
            flash,
            page_size,
            eflash,
            max_buf,
            legacy_words: 64,
            reports_spi: true,
            buffer: Vec::new(),
            pending: Vec::new(),
            log: Vec::new(),
            corrupt_read: false,
            crc_reply: None,
            fail_on: None,
        }
    }

    fn read_back(&mut self, body: Vec<u8>) -> Event {
        let mut sum = crc32(&body);
        if self.corrupt_read {
            sum ^= 1;
        }
        self.pending.push(b"Done".to_vec());
        self.pending.push(sum.to_le_bytes().to_vec());
        Event::Reply(body)
    }

    fn text(&mut self, line: &str) -> Vec<u8> {
        let words: Vec<&str> = line.split(' ').collect();
        let number = |i: usize| -> usize { words[i].parse::<u32>().unwrap() as usize };
        if let Some((verb, reply)) = &self.fail_on {
            if verb == words[0] {
                return reply.as_bytes().to_vec();
            }
        }
        match words[0] {
            "connect" => format!(
                "Target XYZ\nFlashSize {}\nPageSize {}\n",
                self.flash.len(),
                self.page_size
            )
            .into_bytes(),
            "loader" => {
                let mut reply = String::from("Loader ok\n");
                if self.reports_spi {
                    reply.push_str(&format!("SPIFlashSize {}\n", self.eflash.len()));
                }
                if let Some(size) = self.max_buf {
                    reply.push_str(&format!("MaxBufSize {}\n", size));
                }
                reply.into_bytes()
            }
            "bufsize" => format!("MaxBuf = {:04}", self.legacy_words).into_bytes(),
            "erase" => {
                let from = number(1) - BASE as usize;
                let len = number(2) * self.page_size as usize;
                for byte in &mut self.flash[from..from + len] {
                    *byte = 0xFF;
                }
                b"Erased\r\n".to_vec()
            }
            "spierase" => {
                let from = number(1);
                let len = number(2) * 256;
                for byte in &mut self.eflash[from..from + len] {
                    *byte = 0xFF;
                }
                b"Erased\r\n".to_vec()
            }
            "loadbuffer" => b"Load ready\r\n".to_vec(),
            "writebuffer" => {
                let from = number(1) - BASE as usize;
                let len = number(2) * 4;
                self.flash[from..from + len].copy_from_slice(&self.buffer[..len]);
                b"Write OK\r\n".to_vec()
            }
            "spiwritebuffer" => {
                let from = number(1);
                let len = number(2) * 256;
                self.eflash[from..from + len].copy_from_slice(&self.buffer[..len]);
                b"Write OK\r\n".to_vec()
            }
            "crc" => {
                if let Some(reply) = &self.crc_reply {
                    return reply.as_bytes().to_vec();
                }
                let from = number(1) - BASE as usize;
                let len = number(2) * 4;
                format!("Crc32 = 0x{:08X}\r\n", crc32(&self.flash[from..from + len])).into_bytes()
            }
            _ => format!("{} done\r\n", line).into_bytes(),
        }
    }

    fn perform(&mut self, step: &Step) -> Event {
        match step.kind {
            OpKind::Exchange => {
                assert_eq!(step.send.first(), Some(&b'\n'));
                assert_eq!(step.send.last(), Some(&b'\n'));
                let line = String::from_utf8(step.send[1..step.send.len() - 1].to_vec()).unwrap();
                self.log.push(line.clone());
                Event::Reply(self.text(&line))
            }
            OpKind::Stream => {
                self.log.push(format!("<{} bytes>", step.send.len()));
                self.buffer = step.send.clone();
                Event::Reply(Vec::new())
            }
            OpKind::Fetch => {
                let line = String::from_utf8(step.send[1..step.send.len() - 1].to_vec()).unwrap();
                self.log.push(line.clone());
                let words: Vec<&str> = line.split(' ').collect();
                let addr = words[1].parse::<u32>().unwrap() as usize;
                let count = words[2].parse::<u32>().unwrap() as usize;
                let body = if words[0] == "rd" {
                    let from = addr - BASE as usize;
                    self.flash[from..from + count * 4].to_vec()
                } else {
                    assert_eq!(words[0], "spird");
                    self.eflash[addr..addr + count * 256].to_vec()
                };
                assert_eq!(body.len(), step.len as usize);
                self.read_back(body)
            }
            OpKind::Read => {
                let part = self.pending.pop().unwrap();
                assert_eq!(part.len(), step.len as usize);
                Event::Reply(part)
            }
        }
    }
}

fn run(adapter: &mut Adapter, command: Command, data: Vec<u8>) -> Result<Outcome, Failure> {
    let (mut engine, mut action) = Engine::new(command, data);
    loop {
        match action {
            Action::Perform(step) => {
                let event = adapter.perform(&step);
                action = engine.step(event);
            }
            Action::Finish(outcome) => {
                assert!(engine.is_finished());
                return Ok(outcome);
            }
            Action::Abort(failure) => {
                assert!(engine.is_finished());
                return Err(failure);
            }
        }
    }
}

fn lines(log: &[&str]) -> Vec<String> {
    log.iter().map(|line| line.to_string()).collect()
}

#[test]
fn connect_reports_the_targets_block() {
    let mut adapter = Adapter::new(65536, 1024, Some(256));
    let outcome = run(&mut adapter, Command::Connect, Vec::new()).unwrap();
    match outcome {
        Outcome::Info(info) => {
            assert_eq!(info.get(b"Target"), Some(&b"XYZ".to_vec()));
            assert_eq!(info.get(b"FlashSize"), Some(&b"65536".to_vec()));
            assert_eq!(info.get(b"PageSize"), Some(&b"1024".to_vec()));
            assert_eq!(info.len(), 3);
        }
        other => panic!("unexpected outcome {:?}", other),
    }
    assert_eq!(adapter.log, lines(&["connect"]));
}

#[test]
fn connect_without_target_is_a_connection_failure() {
    let mut adapter = Adapter::new(65536, 1024, Some(256));
    adapter.fail_on = Some(("connect".to_string(), "No target found\n".to_string()));
    let failure = run(&mut adapter, Command::Connect, Vec::new()).unwrap_err();
    assert_eq!(failure.kind, ErrorKind::Connection);
    assert_eq!(failure.detail, b"No target found\n".to_vec());
}

#[test]
fn write_of_whole_pages_sends_erase_chunks_and_checksum() {
    let mut adapter = Adapter::new(65536, 512, Some(256));
    let outcome = run(&mut adapter, Command::Write { addr: BASE, len: None }, vec![0xAA; 512]);
    assert!(matches!(outcome, Ok(Outcome::Done)));
    assert_eq!(
        adapter.log,
        lines(&[
            "connect",
            "loader",
            "loader",
            "erase 134217728 1",
            "loadbuffer 64",
            "<256 bytes>",
            "writebuffer 134217728 64",
            "loadbuffer 64",
            "<256 bytes>",
            "writebuffer 134217984 64",
            "crc 134217728 128",
            "connect",
            "reset",
        ])
    );
    assert_eq!(adapter.flash[..512], vec![0xAA; 512][..]);
    assert_eq!(adapter.flash[512], (512 % 251) as u8);
}

#[test]
fn write_of_half_a_page_keeps_the_other_half() {
    // 512 bytes into a page of 1024: the second half of the page is read
    // back before the erase and written again.
    let mut adapter = Adapter::new(65536, 1024, Some(256));
    let before = adapter.flash.clone();
    let outcome = run(&mut adapter, Command::Write { addr: BASE, len: None }, vec![0xAA; 512]);
    assert!(matches!(outcome, Ok(Outcome::Done)));
    assert_eq!(
        adapter.log,
        lines(&[
            "connect",
            "loader",
            "loader",
            "rd 134217728 256",
            "loader",
            "erase 134217728 1",
            "loadbuffer 64",
            "<256 bytes>",
            "writebuffer 134217728 64",
            "loadbuffer 64",
            "<256 bytes>",
            "writebuffer 134217984 64",
            "loadbuffer 64",
            "<256 bytes>",
            "writebuffer 134218240 64",
            "loadbuffer 64",
            "<256 bytes>",
            "writebuffer 134218496 64",
            "crc 134217728 256",
            "connect",
            "reset",
        ])
    );
    assert_eq!(adapter.flash[..512], vec![0xAA; 512][..]);
    assert_eq!(adapter.flash[512..], before[512..]);
}

#[test]
fn misaligned_write_splices_the_page_around_the_data() {
    let mut adapter = Adapter::new(65536, 1024, Some(1024));
    let before = adapter.flash.clone();
    let data: Vec<u8> = vec![1, 2, 3, 4, 5, 6, 7, 8];
    let outcome = run(&mut adapter, Command::Write { addr: 0x0800_0004, len: None }, data.clone());
    assert!(matches!(outcome, Ok(Outcome::Done)));
    assert_eq!(
        adapter.log,
        lines(&[
            "connect",
            "loader",
            "loader",
            "rd 134217728 256",
            "loader",
            "rd 134217728 256",
            "loader",
            "erase 134217728 1",
            "loadbuffer 256",
            "<1024 bytes>",
            "writebuffer 134217728 256",
            "crc 134217728 256",
            "connect",
            "reset",
        ])
    );
    let mut payload = before[..4].to_vec();
    payload.extend_from_slice(&data);
    payload.extend_from_slice(&before[12..1024]);
    assert_eq!(adapter.buffer, payload);
    assert_eq!(adapter.flash[..4], before[..4]);
    assert_eq!(adapter.flash[4..12], data[..]);
    assert_eq!(adapter.flash[12..], before[12..]);
}

#[test]
fn crc_command_asks_for_the_overlapping_words() {
    let mut adapter = Adapter::new(65536, 1024, Some(256));
    adapter.crc_reply = Some("Crc32 = 0xDEADBEEF".to_string());
    let outcome = run(&mut adapter, Command::Crc { addr: 0x0800_0002, len: Some(5) }, Vec::new());
    match outcome {
        Ok(Outcome::Crc { plan, value }) => {
            assert_eq!(plan.aligned_addr, 0x0800_0000);
            assert_eq!(plan.word_count, 2);
            assert_eq!(value, 0xDEAD_BEEF);
        }
        other => panic!("unexpected outcome {:?}", other),
    }
    assert_eq!(adapter.log, lines(&["connect", "crc 134217728 2"]));
}

#[test]
fn crc_command_without_length_covers_the_rest() {
    let mut adapter = Adapter::new(4096, 1024, Some(256));
    let outcome = run(&mut adapter, Command::Crc { addr: BASE + 1024, len: None }, Vec::new());
    match outcome {
        Ok(Outcome::Crc { plan, value }) => {
            assert_eq!(plan.word_count, 768);
            assert_eq!(value, crc32(&adapter.flash[1024..]));
        }
        other => panic!("unexpected outcome {:?}", other),
    }
    assert_eq!(adapter.log, lines(&["connect", "crc 134218752 768"]));
}

#[test]
fn crc_reply_without_prefix_is_a_protocol_failure() {
    let mut adapter = Adapter::new(65536, 1024, Some(256));
    adapter.crc_reply = Some("Checksum DEADBEEF".to_string());
    let failure = run(&mut adapter, Command::Crc { addr: BASE, len: Some(4) }, Vec::new())
        .unwrap_err();
    assert_eq!(failure.kind, ErrorKind::Protocol);
}

#[test]
fn corrupted_read_is_an_integrity_failure() {
    let mut adapter = Adapter::new(65536, 1024, Some(256));
    adapter.corrupt_read = true;
    let failure = run(&mut adapter, Command::Read { addr: BASE, len: Some(16) }, Vec::new())
        .unwrap_err();
    assert_eq!(failure.kind, ErrorKind::Integrity);
    assert_eq!(adapter.log, lines(&["connect", "rd 134217728 4"]));
}

#[test]
fn legacy_loader_is_asked_for_its_buffer_size() {
    let mut adapter = Adapter::new(65536, 512, None);
    adapter.legacy_words = 64;
    let outcome = run(&mut adapter, Command::Write { addr: BASE, len: None }, vec![0x55; 512]);
    assert!(matches!(outcome, Ok(Outcome::Done)));
    assert_eq!(
        adapter.log,
        lines(&[
            "connect",
            "loader",
            "loader",
            "bufsize",
            "erase 134217728 1",
            "loadbuffer 64",
            "<256 bytes>",
            "writebuffer 134217728 64",
            "loadbuffer 64",
            "<256 bytes>",
            "writebuffer 134217984 64",
            "crc 134217728 128",
            "connect",
            "reset",
        ])
    );
}

#[test]
fn read_returns_the_users_slice() {
    let mut adapter = Adapter::new(65536, 1024, Some(256));
    let outcome = run(&mut adapter, Command::Read { addr: BASE + 6, len: Some(5) }, Vec::new());
    match outcome {
        Ok(Outcome::Data(data)) => assert_eq!(data, adapter.flash[6..11].to_vec()),
        other => panic!("unexpected outcome {:?}", other),
    }
    assert_eq!(adapter.log, lines(&["connect", "rd 134217732 2"]));
}

#[test]
fn read_without_length_covers_the_rest() {
    let mut adapter = Adapter::new(2048, 1024, Some(256));
    let outcome = run(&mut adapter, Command::Read { addr: BASE + 2040, len: None }, Vec::new());
    match outcome {
        Ok(Outcome::Data(data)) => assert_eq!(data, adapter.flash[2040..].to_vec()),
        other => panic!("unexpected outcome {:?}", other),
    }
}

#[test]
fn write_then_read_gives_the_data_back() {
    let mut adapter = Adapter::new(8192, 1024, Some(256));
    let before = adapter.flash.clone();
    let data: Vec<u8> = (0..3000u32).map(|i| (i * 7 % 256) as u8).collect();
    let addr = BASE + 1000;
    let written = run(&mut adapter, Command::Write { addr, len: None }, data.clone());
    assert!(matches!(written, Ok(Outcome::Done)));
    assert_eq!(adapter.flash[..1000], before[..1000]);
    assert_eq!(adapter.flash[4000..], before[4000..]);
    let read = run(&mut adapter, Command::Read { addr, len: Some(3000) }, Vec::new());
    match read {
        Ok(Outcome::Data(bytes)) => assert_eq!(bytes, data),
        other => panic!("unexpected outcome {:?}", other),
    }
}

#[test]
fn write_pads_short_data_with_zeros() {
    let mut adapter = Adapter::new(4096, 256, Some(256));
    let outcome = run(&mut adapter, Command::Write { addr: BASE, len: Some(256) }, vec![7; 10]);
    assert!(matches!(outcome, Ok(Outcome::Done)));
    assert_eq!(adapter.flash[..10], vec![7; 10][..]);
    assert_eq!(adapter.flash[10..256], vec![0; 246][..]);
}

#[test]
fn write_cuts_long_data_to_the_length() {
    let mut adapter = Adapter::new(4096, 256, Some(256));
    let before = adapter.flash.clone();
    let outcome = run(&mut adapter, Command::Write { addr: BASE, len: Some(4) }, vec![7; 10]);
    assert!(matches!(outcome, Ok(Outcome::Done)));
    assert_eq!(adapter.flash[..4], vec![7; 4][..]);
    assert_eq!(adapter.flash[4..], before[4..]);
}

#[test]
fn write_beyond_the_flash_sends_nothing_that_mutates() {
    let mut adapter = Adapter::new(4096, 1024, Some(256));
    let before = adapter.flash.clone();
    let failure = run(&mut adapter, Command::Write { addr: BASE + 4000, len: None }, vec![1; 200])
        .unwrap_err();
    assert_eq!(failure.kind, ErrorKind::Bounds);
    assert_eq!(adapter.log, lines(&["connect", "loader", "loader"]));
    assert_eq!(adapter.flash, before);
}

#[test]
fn commands_below_the_base_address_are_out_of_bounds() {
    for command in [
        Command::Write { addr: BASE - 4, len: None },
        Command::Erase { addr: BASE - 4, pages: None },
    ] {
        let mut adapter = Adapter::new(4096, 1024, Some(256));
        let failure = run(&mut adapter, command, vec![1; 4]).unwrap_err();
        assert_eq!(failure.kind, ErrorKind::Bounds);
        assert_eq!(adapter.log, lines(&["connect", "loader", "loader"]));
    }
    for command in [
        Command::Read { addr: BASE + 4096, len: None },
        Command::Crc { addr: BASE - 1, len: Some(1) },
        Command::Read { addr: BASE, len: Some(4097) },
        Command::Crc { addr: BASE + 4, len: Some(4096) },
    ] {
        let mut adapter = Adapter::new(4096, 1024, Some(256));
        let failure = run(&mut adapter, command, Vec::new()).unwrap_err();
        assert_eq!(failure.kind, ErrorKind::Bounds);
        assert_eq!(adapter.log, lines(&["connect"]));
    }
}

#[test]
fn erase_defaults_to_the_rest_of_the_flash() {
    let mut adapter = Adapter::new(8192, 1024, Some(256));
    let before = adapter.flash.clone();
    let outcome = run(&mut adapter, Command::Erase { addr: BASE + 2500, pages: None }, Vec::new());
    match outcome {
        Ok(Outcome::Echo(text)) => assert_eq!(text, b"Erased\r\n".to_vec()),
        other => panic!("unexpected outcome {:?}", other),
    }
    assert_eq!(adapter.log, lines(&["connect", "loader", "loader", "erase 134219776 6"]));
    assert_eq!(adapter.flash[..2048], before[..2048]);
    assert_eq!(adapter.flash[2048..], vec![0xFF; 6144][..]);
}

#[test]
fn erase_of_too_many_pages_is_out_of_bounds() {
    let mut adapter = Adapter::new(8192, 1024, Some(256));
    let failure = run(&mut adapter, Command::Erase { addr: BASE + 1024, pages: Some(8) }, vec![])
        .unwrap_err();
    assert_eq!(failure.kind, ErrorKind::Bounds);
    assert_eq!(adapter.log, lines(&["connect", "loader", "loader"]));
}

#[test]
fn erasing_twice_reads_the_same() {
    let mut adapter = Adapter::new(8192, 1024, Some(256));
    let command = Command::Erase { addr: BASE + 1024, pages: Some(2) };
    assert!(run(&mut adapter, command, Vec::new()).is_ok());
    let once = adapter.flash.clone();
    assert!(run(&mut adapter, command, Vec::new()).is_ok());
    assert_eq!(adapter.flash, once);
    let read = run(&mut adapter, Command::Read { addr: BASE + 1024, len: Some(2048) }, Vec::new());
    match read {
        Ok(Outcome::Data(bytes)) => assert_eq!(bytes, vec![0xFF; 2048]),
        other => panic!("unexpected outcome {:?}", other),
    }
}

#[test]
fn reply_that_reports_an_error_ends_the_command() {
    for reply in ["Flash error 3\n", "invalid address\n", "wrong state\n"] {
        let mut adapter = Adapter::new(8192, 1024, Some(256));
        adapter.fail_on = Some(("erase".to_string(), reply.to_string()));
        let failure = run(&mut adapter, Command::Write { addr: BASE, len: None }, vec![1; 1024])
            .unwrap_err();
        assert_eq!(failure.kind, ErrorKind::Protocol);
        assert_eq!(failure.detail, reply.as_bytes().to_vec());
        assert_eq!(adapter.log, lines(&["connect", "loader", "loader", "erase 134217728 1"]));
    }
}

#[test]
fn loadbuffer_must_answer_load_ready() {
    let mut adapter = Adapter::new(8192, 1024, Some(256));
    adapter.fail_on = Some(("loadbuffer".to_string(), "Busy\n".to_string()));
    let failure = run(&mut adapter, Command::Write { addr: BASE, len: None }, vec![1; 1024])
        .unwrap_err();
    assert_eq!(failure.kind, ErrorKind::Protocol);
    assert_eq!(adapter.log.last().unwrap(), "loadbuffer 64");
}

#[test]
fn writebuffer_must_answer_write_ok_exactly() {
    let mut adapter = Adapter::new(8192, 1024, Some(256));
    adapter.fail_on = Some(("writebuffer".to_string(), "Write OK\n".to_string()));
    let failure = run(&mut adapter, Command::Write { addr: BASE, len: None }, vec![1; 1024])
        .unwrap_err();
    assert_eq!(failure.kind, ErrorKind::Protocol);
    assert_eq!(adapter.log.last().unwrap(), "writebuffer 134217728 64");
}

#[test]
fn verification_compares_the_checksum_of_the_payload() {
    let mut adapter = Adapter::new(8192, 1024, Some(256));
    adapter.crc_reply = Some("Crc32 = 0x00000000".to_string());
    let failure = run(&mut adapter, Command::Write { addr: BASE, len: None }, vec![1; 1024])
        .unwrap_err();
    assert_eq!(failure.kind, ErrorKind::Integrity);
    assert_eq!(adapter.log.last().unwrap(), "crc 134217728 256");
}

#[test]
fn loader_without_status_is_a_loader_failure() {
    let mut adapter = Adapter::new(8192, 1024, Some(256));
    adapter.fail_on = Some(("loader".to_string(), "Loader error\n".to_string()));
    let failure = run(&mut adapter, Command::Erase { addr: BASE, pages: None }, Vec::new())
        .unwrap_err();
    assert_eq!(failure.kind, ErrorKind::Protocol);
    let mut missing = Adapter::new(8192, 1024, Some(256));
    missing.fail_on = Some(("loader".to_string(), "Ready\n".to_string()));
    let failure = run(&mut missing, Command::Erase { addr: BASE, pages: None }, Vec::new())
        .unwrap_err();
    assert_eq!(failure.kind, ErrorKind::Loader);
    assert_eq!(missing.log, lines(&["connect", "loader", "loader"]));
}

#[test]
fn external_flash_needs_a_loader_that_reports_it() {
    let mut adapter = Adapter::new(8192, 1024, Some(256));
    adapter.reports_spi = false;
    let failure = run(&mut adapter, Command::ReadEflash { addr: 0, len: Some(8) }, Vec::new())
        .unwrap_err();
    assert_eq!(failure.kind, ErrorKind::Loader);
    assert_eq!(adapter.log, lines(&["connect", "loader", "loader"]));
}

#[test]
fn simple_commands_connect_again_and_echo() {
    let cases = [
        (Command::Halt, "halt"),
        (Command::Id, "id"),
        (Command::Run, "run"),
        (Command::Reset { hard: false }, "reset"),
        (Command::Reset { hard: true }, "reset -h"),
    ];
    for (command, verb) in cases {
        let mut adapter = Adapter::new(8192, 1024, Some(256));
        let outcome = run(&mut adapter, command, Vec::new());
        match outcome {
            Ok(Outcome::Echo(text)) => {
                assert_eq!(text, format!("{} done\r\n", verb).into_bytes())
            }
            other => panic!("unexpected outcome {:?}", other),
        }
        assert_eq!(adapter.log, lines(&["connect", "connect", verb]));
    }
}

#[test]
fn external_read_uses_pages() {
    let mut adapter = Adapter::new(8192, 1024, Some(256));
    let outcome = run(&mut adapter, Command::ReadEflash { addr: 300, len: Some(300) }, Vec::new());
    match outcome {
        Ok(Outcome::Data(data)) => assert_eq!(data, adapter.eflash[300..600].to_vec()),
        other => panic!("unexpected outcome {:?}", other),
    }
    assert_eq!(adapter.log, lines(&["connect", "loader", "loader", "spird 256 2"]));
}

#[test]
fn external_erase_goes_in_blocks_of_256_pages() {
    let mut adapter = Adapter::new(8192, 1024, Some(256));
    let before = adapter.eflash.clone();
    let outcome = run(
        &mut adapter,
        Command::EraseEflash { addr: 256 * 10 + 5, pages: Some(300) },
        Vec::new(),
    );
    assert!(matches!(outcome, Ok(Outcome::Done)));
    assert_eq!(
        adapter.log,
        lines(&["connect", "loader", "loader", "spierase 2560 256", "spierase 68096 44"])
    );
    assert_eq!(adapter.eflash[..2560], before[..2560]);
    assert_eq!(adapter.eflash[2560..2560 + 300 * 256], vec![0xFF; 300 * 256][..]);
    assert_eq!(adapter.eflash[2560 + 300 * 256..], before[2560 + 300 * 256..]);
}

#[test]
fn external_erase_defaults_to_the_rest() {
    let mut adapter = Adapter::new(8192, 1024, Some(256));
    let outcome = run(&mut adapter, Command::EraseEflash { addr: 256 * 599, pages: None }, vec![]);
    assert!(matches!(outcome, Ok(Outcome::Done)));
    assert_eq!(adapter.log, lines(&["connect", "loader", "loader", "spierase 153344 1"]));
}

#[test]
fn external_write_splices_and_skips_verification() {
    let mut adapter = Adapter::new(8192, 1024, Some(512));
    let before = adapter.eflash.clone();
    let data: Vec<u8> = (0..600u32).map(|i| (i % 200) as u8).collect();
    let outcome = run(&mut adapter, Command::WriteEflash { addr: 1000, len: None }, data.clone());
    assert!(matches!(outcome, Ok(Outcome::Done)));
    assert_eq!(
        adapter.log,
        lines(&[
            "connect",
            "loader",
            "loader",
            "spird 768 1",
            "loader",
            "spird 1536 1",
            "loader",
            "spierase 768 4",
            "loadbuffer 128",
            "<512 bytes>",
            "spiwritebuffer 768 2",
            "loadbuffer 128",
            "<512 bytes>",
            "spiwritebuffer 1280 2",
        ])
    );
    assert_eq!(adapter.eflash[..1000], before[..1000]);
    assert_eq!(adapter.eflash[1000..1600], data[..]);
    assert_eq!(adapter.eflash[1600..], before[1600..]);
}

#[test]
fn external_commands_on_a_legacy_adapter_ask_for_the_buffer_size() {
    let mut adapter = Adapter::new(8192, 1024, None);
    let before = adapter.eflash.clone();
    let outcome = run(&mut adapter, Command::WriteEflash { addr: 0, len: None }, vec![1; 256]);
    assert!(matches!(outcome, Ok(Outcome::Done)));
    assert_eq!(
        adapter.log,
        lines(&[
            "connect",
            "loader",
            "loader",
            "bufsize",
            "spierase 0 1",
            "loadbuffer 64",
            "<256 bytes>",
            "spiwritebuffer 0 1",
        ])
    );
    assert_eq!(adapter.eflash[..256], vec![1; 256][..]);
    assert_eq!(adapter.eflash[256..], before[256..]);
    let mut reader = Adapter::new(8192, 1024, None);
    let read = run(&mut reader, Command::ReadEflash { addr: 0, len: Some(4) }, Vec::new());
    assert!(matches!(read, Ok(Outcome::Data(_))));
    assert_eq!(reader.log, lines(&["connect", "loader", "loader", "bufsize", "spird 0 1"]));
}

#[test]
fn legacy_adapter_without_a_buffer_size_is_a_protocol_failure() {
    let mut adapter = Adapter::new(8192, 1024, None);
    adapter.fail_on = Some(("bufsize".to_string(), "unknown command\n".to_string()));
    let failure = run(&mut adapter, Command::WriteEflash { addr: 0, len: None }, vec![1; 256])
        .unwrap_err();
    assert_eq!(failure.kind, ErrorKind::Protocol);
    assert_eq!(adapter.log, lines(&["connect", "loader", "loader", "bufsize"]));
}

#[test]
fn range_out_of_bounds_comes_before_a_useless_buffer_size() {
    for command in [
        Command::Write { addr: 0, len: None },
        Command::Write { addr: BASE + 4000, len: Some(200) },
        Command::WriteEflash { addr: 256 * 600, len: None },
        Command::WriteEflash { addr: 256 * 599, len: Some(257) },
    ] {
        let mut adapter = Adapter::new(4096, 1024, Some(0));
        let flash = adapter.flash.clone();
        let eflash = adapter.eflash.clone();
        let failure = run(&mut adapter, command, vec![1; 16]).unwrap_err();
        assert_eq!(failure.kind, ErrorKind::Bounds);
        assert_eq!(adapter.log, lines(&["connect", "loader", "loader"]));
        assert_eq!(adapter.flash, flash);
        assert_eq!(adapter.eflash, eflash);
    }
    for command in [
        Command::Write { addr: BASE, len: None },
        Command::WriteEflash { addr: 0, len: None },
    ] {
        let mut adapter = Adapter::new(4096, 1024, Some(0));
        let failure = run(&mut adapter, command, vec![1; 16]).unwrap_err();
        assert_eq!(failure.kind, ErrorKind::Protocol);
        assert_eq!(adapter.log, lines(&["connect", "loader", "loader"]));
    }
}

#[test]
fn page_that_is_no_whole_number_of_words_is_refused_before_any_read() {
    let mut adapter = Adapter::new(4096, 6, Some(256));
    let before = adapter.flash.clone();
    let failure = run(&mut adapter, Command::Write { addr: BASE + 5, len: None }, vec![1; 2])
        .unwrap_err();
    assert_eq!(failure.kind, ErrorKind::Protocol);
    assert_eq!(adapter.log, lines(&["connect", "loader", "loader"]));
    assert_eq!(adapter.flash, before);
    let mut outside = Adapter::new(4096, 6, Some(256));
    let failure = run(&mut outside, Command::Write { addr: BASE + 4096, len: None }, vec![1; 2])
        .unwrap_err();
    assert_eq!(failure.kind, ErrorKind::Bounds);
}

#[test]
fn early_end_of_stream_is_a_transport_failure() {
    let (mut engine, action) = Engine::new(Command::Read { addr: BASE, len: Some(8) }, Vec::new());
    assert!(matches!(action, Action::Perform(_)));
    let reply = b"Target XYZ\nFlashSize 4096\nPageSize 1024\n".to_vec();
    let action = engine.step(Event::Reply(reply));
    match action {
        Action::Perform(step) => {
            assert_eq!(step.kind, OpKind::Fetch);
            assert_eq!(step.send, b"\nrd 134217728 2\n".to_vec());
            assert_eq!(step.len, 8);
        }
        other => panic!("unexpected action {:?}", other),
    }
    let action = engine.step(Event::Eof(vec![1, 2, 3]));
    match action {
        Action::Abort(failure) => {
            assert_eq!(failure, Failure { kind: ErrorKind::Transport, detail: vec![1, 2, 3] });
        }
        other => panic!("unexpected action {:?}", other),
    }
    assert!(engine.is_finished());
    let again = engine.step(Event::Reply(Vec::new()));
    assert!(matches!(again, Action::Abort(Failure { kind: ErrorKind::Protocol, .. })));
}

#[test]
fn short_body_is_a_transport_failure() {
    let (mut engine, _) = Engine::new(Command::Read { addr: BASE, len: Some(8) }, Vec::new());
    engine.step(Event::Reply(b"Target XYZ\nFlashSize 4096\n".to_vec()));
    let action = engine.step(Event::Reply(vec![0; 7]));
    assert!(matches!(action, Action::Abort(Failure { kind: ErrorKind::Transport, .. })));
}

#[test]
fn read_back_must_end_with_done() {
    let (mut engine, _) = Engine::new(Command::Read { addr: BASE, len: Some(4) }, Vec::new());
    engine.step(Event::Reply(b"Target XYZ\nFlashSize 4096\n".to_vec()));
    let body = vec![9u8, 8, 7, 6];
    assert!(matches!(engine.step(Event::Reply(body.clone())), Action::Perform(_)));
    let sum = crc32(&body).to_le_bytes().to_vec();
    assert!(matches!(engine.step(Event::Reply(sum)), Action::Perform(_)));
    let action = engine.step(Event::Reply(b"Fail".to_vec()));
    assert!(matches!(action, Action::Abort(Failure { kind: ErrorKind::Protocol, .. })));
}

#[test]
fn missing_geometry_is_a_protocol_failure() {
    let (mut engine, _) = Engine::new(Command::Read { addr: BASE, len: Some(4) }, Vec::new());
    let action = engine.step(Event::Reply(b"Target XYZ\nPageSize 1024\n".to_vec()));
    assert!(matches!(action, Action::Abort(Failure { kind: ErrorKind::Protocol, .. })));
}
