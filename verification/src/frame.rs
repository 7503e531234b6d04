//! Framing of what the adapter sends: textual replies that end with the
//! sentinel, binary bodies of a known length, and the footer behind a body.

use vstd::prelude::*;
use crate::checksum::{calculate_crc, crc32_iso_hdlc};
use crate::error::{ErrorKind, Failure};
use crate::number::{le_u32, u32_from_le};
use crate::text::{append, ascii, contains, copy_range, literal, occurs_at, same_bytes};

verus! {

/// The speed of the line to the adapter, in baud.
pub const BAUD_RATE: u32 = 9600;

/// How long the driver waits for one read, in milliseconds.
pub const READ_TIMEOUT_MS: u64 = 500;

/// Which port to open: the one that was asked for, else the first of those
/// that were found, if any was.
pub fn choose_port<'a>(requested: Option<&'a String>, found: &'a Vec<String>) -> (choice: Option<
    &'a String,
>)
    ensures
        choice == match requested {
            Some(name) => Some(name),
            None => if found@.len() > 0 {
                Some(&found@[0])
            } else {
                None
            },
        },
{
    match requested {
        Some(name) => Some(name),
        None => if found.len() > 0 {
            Some(&found[0])
        } else {
            None
        },
    }
}

/// How many bytes the driver reads at a time while it waits for the sentinel.
pub const WINDOW: usize = 256;

/// How many windows the driver may try before it gives up waiting.
pub const MAX_WINDOWS: u32 = 200;

/// The three bytes that end every textual reply.
pub open spec fn sentinel() -> Seq<u8> {
    ascii("***"@)
}

/// `needle` stands in `hay` at `at` and nowhere before.
pub open spec fn first_occurrence(hay: Seq<u8>, needle: Seq<u8>, at: int) -> bool {
    &&& occurs_at(hay, needle, at)
    &&& forall|k: int| 0 <= k < at ==> !occurs_at(hay, needle, k)
}

/// Trusted: `memmem::TwoWaySearcher::new(needle).search_in(hay)`. It returns
/// the index at which `needle` first stands in `hay`, or `None` where `hay`
/// does not hold it.
#[verifier::external_body]
fn search_in(needle: &[u8], hay: &[u8]) -> (at: Option<usize>)
    ensures
        at matches Some(i) ==> first_occurrence(hay@, needle@, i as int),
        at is None ==> !contains(hay@, needle@),
{
    memmem::Searcher::search_in(&memmem::TwoWaySearcher::new(needle), hay)
}

/// What a window adds to the body of a reply: all of it, or what stands
/// before the sentinel.
pub open spec fn window_part(window: Seq<u8>) -> Seq<u8> {
    if contains(window, sentinel()) {
        window.subrange(0, choose|at: int| first_occurrence(window, sentinel(), at))
    } else {
        window
    }
}

/// Collects a textual reply window by window until the sentinel shows.
#[derive(Debug)]
pub struct FrameReader {
    /// What has been read, without the sentinel.
    pub body: Vec<u8>,
    /// How many windows were tried.
    pub attempts: u32,
    /// Whether the sentinel was seen.
    pub complete: bool,
}

impl FrameReader {
    /// The reader still waits for a window.
    pub open spec fn wants_more(&self) -> bool {
        !self.complete && self.attempts < MAX_WINDOWS
    }

    /// A reader that has seen nothing.
    pub fn new() -> (reader: FrameReader)
        ensures
            reader.body@ == Seq::<u8>::empty(),
            reader.attempts == 0,
            !reader.complete,
    {
        FrameReader { body: Vec::new(), attempts: 0, complete: false }
    }

    /// Whether the driver is to read another window.
    pub fn is_waiting(&self) -> (waiting: bool)
        ensures
            waiting == self.wants_more(),
    {
        !self.complete && self.attempts < MAX_WINDOWS
    }

    /// Takes the outcome of one read: the whole window as the driver handed
    /// it to the port, or `None` where the read failed or timed out. A failed
    /// read costs an attempt and adds nothing. A reader that waits no more
    /// takes nothing.
    pub fn accept(&mut self, window: Option<&[u8]>)
        ensures
            !old(self).wants_more() ==> *final(self) == *old(self),
            old(self).wants_more() ==> final(self).attempts == old(self).attempts + 1,
            old(self).attempts <= MAX_WINDOWS ==> final(self).attempts <= MAX_WINDOWS,
            old(self).wants_more() ==> match window {
                None => final(self).body@ == old(self).body@ && !final(self).complete,
                Some(w) => {
                    &&& final(self).body@ == old(self).body@ + window_part(w@)
                    &&& final(self).complete == contains(w@, sentinel())
                },
            },
    {
        if !self.is_waiting() {
            return ;
        }
        self.attempts = self.attempts + 1;
        match window {
            None => {},
            Some(w) => {
                proof {
                    reveal_strlit("***");
                }
                match search_in(literal("***"), w) {
                    Some(at) => {
                        proof {
                            let chosen = choose|k: int| first_occurrence(w@, sentinel(), k);
                            assert(chosen == at);
                        }
                        let part = copy_range(w, 0, at);
                        append(&mut self.body, part.as_slice());
                        self.complete = true;
                    },
                    None => {
                        append(&mut self.body, w);
                    },
                }
            },
        }
    }

    /// The body of the reply. Where the sentinel never came, this is all that
    /// was read.
    pub fn into_body(self) -> (body: Vec<u8>)
        ensures
            body@ == self.body@,
    {
        self.body
    }
}

/// Collects a binary body byte by byte.
#[derive(Debug)]
pub struct ExactReader {
    /// What has been read.
    pub body: Vec<u8>,
    /// How many bytes are wanted in all.
    pub wanted: u32,
}

impl ExactReader {
    /// The reader still waits for a byte.
    pub open spec fn wants_more(&self) -> bool {
        self.body@.len() < self.wanted
    }

    /// A reader for `len` bytes.
    pub fn new(len: u32) -> (reader: ExactReader)
        ensures
            reader.body@ == Seq::<u8>::empty(),
            reader.wanted == len,
    {
        ExactReader { body: Vec::new(), wanted: len }
    }

    /// Whether the driver is to read another byte.
    pub fn is_waiting(&self) -> (waiting: bool)
        ensures
            waiting == self.wants_more(),
    {
        self.body.len() < self.wanted as usize
    }

    /// Takes one byte. A reader that has all its bytes takes no more.
    pub fn accept(&mut self, byte: u8)
        ensures
            final(self).wanted == old(self).wanted,
            final(self).body@ == if old(self).wants_more() {
                old(self).body@.push(byte)
            } else {
                old(self).body@
            },
    {
        if self.is_waiting() {
            self.body.push(byte);
        }
    }

    /// Ends the read: the body where it is whole, else a transport failure
    /// that carries what had come.
    pub fn finish(self) -> (body: Result<Vec<u8>, Failure>)
        ensures
            match body {
                Ok(bytes) => !self.wants_more() && bytes@ == self.body@,
                Err(failure) => self.wants_more() && failure.kind == ErrorKind::Transport
                    && failure.detail@ == self.body@,
            },
    {
        if self.body.len() < self.wanted as usize {
            Err(Failure { kind: ErrorKind::Transport, detail: self.body })
        } else {
            Ok(self.body)
        }
    }
}

/// The verdict on a body that was read back, given the four bytes of its
/// checksum and the four bytes behind them: those must spell `Done`, and the
/// checksum, least significant byte first, must be that of the body.
pub open spec fn read_back_verdict(body: Seq<u8>, crc: Seq<u8>, done: Seq<u8>) -> Result<
    (),
    ErrorKind,
> {
    if done != ascii("Done"@) {
        Err(ErrorKind::Protocol)
    } else if crc.len() != 4 || le_u32(crc) != crc32_iso_hdlc(body) {
        Err(ErrorKind::Integrity)
    } else {
        Ok(())
    }
}

/// Judges a body that was read back.
pub fn check_read_back(body: &[u8], crc: &[u8], done: &[u8]) -> (verdict: Result<(), ErrorKind>)
    ensures
        verdict == read_back_verdict(body@, crc@, done@),
{
    proof {
        reveal_strlit("Done");
    }
    if !same_bytes(done, literal("Done")) {
        return Err(ErrorKind::Protocol);
    }
    if crc.len() != 4 || u32_from_le(crc) != calculate_crc(body) {
        return Err(ErrorKind::Integrity);
    }
    Ok(())
}

} // verus!
