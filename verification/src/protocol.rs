//! Request encoding and response parsing of the adapter's ASCII protocol.

use vstd::prelude::*;
use vstd::string::StringSliceAdditionalSpecFns;
use crate::error::ErrorKind;
use crate::info::{chop, chopped, InfoMap};
use crate::number::{
    be_u32, decimal, decode_hex, hex_bytes, is_hex_text, parse_u32, parse_u32_radix, push_decimal,
    u32_from_be,
};
use crate::text::{
    append, ascii, contains, contains_subslice, has_prefix, literal, same_bytes, starts_with, trim,
    trim_bounds, LF,
};

verus! {

/// A request line as it goes over the wire: `"\n<name>\n"`.
pub open spec fn framed(name: Seq<u8>) -> Seq<u8> {
    seq![LF] + name + seq![LF]
}

/// A request line with one more argument: a space and a decimal number.
pub open spec fn with_number(line: Seq<u8>, n: u32) -> Seq<u8> {
    line + seq![0x20u8] + decimal(n as nat)
}

/// The request of a verb without arguments.
pub open spec fn request0(verb: Seq<char>) -> Seq<u8> {
    framed(ascii(verb))
}

/// The request of a verb with one argument.
pub open spec fn request1(verb: Seq<char>, first: u32) -> Seq<u8> {
    framed(with_number(ascii(verb), first))
}

/// The request of a verb with two arguments.
pub open spec fn request2(verb: Seq<char>, first: u32, second: u32) -> Seq<u8> {
    framed(with_number(with_number(ascii(verb), first), second))
}

/// Frames the request `name` (verb and arguments) as `"\n<name>\n"`.
pub fn cmd(name: &str) -> (request: Vec<u8>)
    ensures
        request@ == framed(name.spec_bytes()),
{
    cmd_bytes(name.as_bytes())
}

/// Frames a request given as bytes.
pub fn cmd_bytes(name: &[u8]) -> (request: Vec<u8>)
    ensures
        request@ == framed(name@),
{
    let mut request: Vec<u8> = Vec::new();
    request.push(LF);
    append(&mut request, name);
    request.push(LF);
    request
}

/// Frames a verb with up to two decimal arguments.
pub fn cmd_numbers(verb: &str, first: u32, second: Option<u32>) -> (request: Vec<u8>)
    requires
        vstd::string::is_ascii(verb),
    ensures
        request@ == match second {
            Some(s) => request2(verb@, first, s),
            None => request1(verb@, first),
        },
{
    let mut request: Vec<u8> = Vec::new();
    request.push(LF);
    append(&mut request, literal(verb));
    request.push(0x20);
    push_decimal(&mut request, first);
    match second {
        Some(s) => {
            request.push(0x20);
            push_decimal(&mut request, s);
        },
        None => {},
    }
    request.push(LF);
    assert(request@ =~= match second {
        Some(s) => request2(verb@, first, s),
        None => request1(verb@, first),
    });
    request
}

/// `connect`: attach to the target and report its flash geometry.
pub fn connect_request() -> (request: Vec<u8>)
    ensures
        request@ == request0("connect"@),
{
    proof {
        reveal_strlit("connect");
    }
    cmd_bytes(literal("connect"))
}

/// `loader`: enter loader mode and report the loader's geometry.
pub fn loader_request() -> (request: Vec<u8>)
    ensures
        request@ == request0("loader"@),
{
    proof {
        reveal_strlit("loader");
    }
    cmd_bytes(literal("loader"))
}

/// `bufsize`: ask a legacy adapter for its buffer size.
pub fn bufsize_request() -> (request: Vec<u8>)
    ensures
        request@ == request0("bufsize"@),
{
    proof {
        reveal_strlit("bufsize");
    }
    cmd_bytes(literal("bufsize"))
}

/// `erase <addr> <pages>`.
pub fn erase_request(addr: u32, pages: u32) -> (request: Vec<u8>)
    ensures
        request@ == request2("erase"@, addr, pages),
{
    proof {
        reveal_strlit("erase");
    }
    cmd_numbers("erase", addr, Some(pages))
}

/// `spierase <addr> <pages>`.
pub fn spierase_request(addr: u32, pages: u32) -> (request: Vec<u8>)
    ensures
        request@ == request2("spierase"@, addr, pages),
{
    proof {
        reveal_strlit("spierase");
    }
    cmd_numbers("spierase", addr, Some(pages))
}

/// `rd <addr> <words>`.
pub fn rd_request(addr: u32, words: u32) -> (request: Vec<u8>)
    ensures
        request@ == request2("rd"@, addr, words),
{
    proof {
        reveal_strlit("rd");
    }
    cmd_numbers("rd", addr, Some(words))
}

/// `spird <addr> <pages>`.
pub fn spird_request(addr: u32, pages: u32) -> (request: Vec<u8>)
    ensures
        request@ == request2("spird"@, addr, pages),
{
    proof {
        reveal_strlit("spird");
    }
    cmd_numbers("spird", addr, Some(pages))
}

/// `crc <addr> <words>`.
pub fn crc_request(addr: u32, words: u32) -> (request: Vec<u8>)
    ensures
        request@ == request2("crc"@, addr, words),
{
    proof {
        reveal_strlit("crc");
    }
    cmd_numbers("crc", addr, Some(words))
}

/// `loadbuffer <words>`.
pub fn loadbuffer_request(words: u32) -> (request: Vec<u8>)
    ensures
        request@ == request1("loadbuffer"@, words),
{
    proof {
        reveal_strlit("loadbuffer");
    }
    cmd_numbers("loadbuffer", words, None)
}

/// `writebuffer <addr> <words>`.
pub fn writebuffer_request(addr: u32, words: u32) -> (request: Vec<u8>)
    ensures
        request@ == request2("writebuffer"@, addr, words),
{
    proof {
        reveal_strlit("writebuffer");
    }
    cmd_numbers("writebuffer", addr, Some(words))
}

/// `spiwritebuffer <addr> <pages>`.
pub fn spiwritebuffer_request(addr: u32, pages: u32) -> (request: Vec<u8>)
    ensures
        request@ == request2("spiwritebuffer"@, addr, pages),
{
    proof {
        reveal_strlit("spiwritebuffer");
    }
    cmd_numbers("spiwritebuffer", addr, Some(pages))
}

/// A reply reports an error: it holds `rror`, `nvalid` or `rong`.
pub open spec fn reports_error(reply: Seq<u8>) -> bool {
    ||| contains(reply, ascii("rror"@))
    ||| contains(reply, ascii("nvalid"@))
    ||| contains(reply, ascii("rong"@))
}

/// Judges the reply of an exchange: a reply that reports an error ends the
/// exchange.
pub fn communicate(reply: &[u8]) -> (verdict: Result<(), ErrorKind>)
    ensures
        verdict == if reports_error(reply@) {
            Err::<(), ErrorKind>(ErrorKind::Protocol)
        } else {
            Ok(())
        },
{
    proof {
        reveal_strlit("rror");
        reveal_strlit("nvalid");
        reveal_strlit("rong");
    }
    if contains_subslice(reply, literal("rror")) || contains_subslice(reply, literal("nvalid"))
        || contains_subslice(reply, literal("rong")) {
        Err(ErrorKind::Protocol)
    } else {
        Ok(())
    }
}

/// What the reply to `connect` gives: the target's block, if it reports no
/// error and names a target.
pub open spec fn connect_info(reply: Seq<u8>) -> Result<Map<Seq<u8>, Seq<u8>>, ErrorKind> {
    if reports_error(reply) {
        Err(ErrorKind::Protocol)
    } else if !chopped(reply).contains_key(ascii("Target"@)) {
        Err(ErrorKind::Connection)
    } else {
        Ok(chopped(reply))
    }
}

/// Reads the reply to `connect`.
pub fn connect(reply: &[u8]) -> (info: Result<InfoMap, ErrorKind>)
    ensures
        match info {
            Ok(map) => connect_info(reply@) == Ok::<Map<Seq<u8>, Seq<u8>>, ErrorKind>(map@),
            Err(kind) => connect_info(reply@) == Err::<Map<Seq<u8>, Seq<u8>>, ErrorKind>(kind),
        },
{
    if communicate(reply).is_err() {
        return Err(ErrorKind::Protocol);
    }
    let map = chop(reply);
    proof {
        reveal_strlit("Target");
    }
    if !map.contains_key(literal("Target")) {
        return Err(ErrorKind::Connection);
    }
    Ok(map)
}

/// What the second reply to `loader` gives: the loader's block, if it reports
/// no error and has a `Loader` status other than `error`.
pub open spec fn loader_info(reply: Seq<u8>) -> Result<Map<Seq<u8>, Seq<u8>>, ErrorKind> {
    let map = chopped(reply);
    if reports_error(reply) {
        Err(ErrorKind::Protocol)
    } else if !map.contains_key(ascii("Loader"@)) || map[ascii("Loader"@)] == ascii("error"@) {
        Err(ErrorKind::Loader)
    } else {
        Ok(map)
    }
}

/// Reads the second reply to `loader`.
pub fn get_loader_info(reply: &[u8]) -> (info: Result<InfoMap, ErrorKind>)
    ensures
        match info {
            Ok(map) => loader_info(reply@) == Ok::<Map<Seq<u8>, Seq<u8>>, ErrorKind>(map@),
            Err(kind) => loader_info(reply@) == Err::<Map<Seq<u8>, Seq<u8>>, ErrorKind>(kind),
        },
{
    if communicate(reply).is_err() {
        return Err(ErrorKind::Protocol);
    }
    let map = chop(reply);
    proof {
        reveal_strlit("Loader");
        reveal_strlit("error");
    }
    let failed = match map.get(literal("Loader")) {
        None => true,
        Some(status) => same_bytes(status.as_slice(), literal("error")),
    };
    if failed {
        return Err(ErrorKind::Loader);
    }
    Ok(map)
}

/// The buffer size in bytes that a reply to `bufsize` reports: behind
/// `MaxBuf = `, four characters that spell a count of words.
pub open spec fn buf_size_of(reply: Seq<u8>) -> Result<u32, ErrorKind> {
    let prefix = ascii("MaxBuf = "@);
    if !reports_error(reply) && starts_with(reply, prefix) && reply.len() >= prefix.len() + 4 {
        match parse_u32(reply.subrange(prefix.len() as int, prefix.len() as int + 4), 10) {
            Some(words) => Ok((words * 4) as u32),
            None => Err(ErrorKind::Protocol),
        }
    } else {
        Err(ErrorKind::Protocol)
    }
}

/// Reads the reply to `bufsize`.
pub fn get_buf_size(reply: &[u8]) -> (size: Result<u32, ErrorKind>)
    ensures
        size == buf_size_of(reply@),
{
    proof {
        reveal_strlit("MaxBuf = ");
    }
    let prefix = literal("MaxBuf = ");
    assert(prefix@.len() == 9);
    if communicate(reply).is_err() || !has_prefix(reply, prefix) || reply.len() < 13 {
        return Err(ErrorKind::Protocol);
    }
    let digits = vstd::slice::slice_subrange(reply, 9, 13);
    match parse_u32_radix(digits, 10) {
        Some(words) => {
            proof {
                lemma_four_digits(digits@);
            }
            Ok(words * 4)
        },
        None => Err(ErrorKind::Protocol),
    }
}

/// Four characters spell a number below ten thousand.
proof fn lemma_four_digits(text: Seq<u8>)
    requires
        text.len() == 4,
        parse_u32(text, 10) is Some,
    ensures
        parse_u32(text, 10).unwrap() <= 9999,
{
    let digits = if text[0] == 0x2b {
        text.drop_first()
    } else {
        text
    };
    reveal_with_fuel(crate::number::digits_value, 5);
    let d3 = digits.drop_last();
    let d2 = d3.drop_last();
    let d1 = d2.drop_last();
    assert(forall|i: int|
        0 <= i < digits.len() ==> (#[trigger] crate::number::digit_value(digits[i], 10)) is Some);
    assert(crate::number::digit_value(digits.last(), 10) is Some);
    assert(d3.last() == digits[digits.len() - 2]);
    assert(d2.last() == digits[digits.len() - 3]);
    if digits.len() == 4 {
        assert(d1.last() == digits[0]);
    }
}

/// The checksum that a reply to `crc` reports: behind `Crc32 = 0x`, eight
/// hexadecimal digits, the most significant first.
pub open spec fn crc_of_reply(reply: Seq<u8>) -> Result<u32, ErrorKind> {
    let prefix = ascii("Crc32 = 0x"@);
    let digits = trim(reply.skip(prefix.len() as int));
    if !reports_error(reply) && starts_with(reply, prefix) && is_hex_text(digits) && digits.len()
        == 8 {
        Ok(be_u32(hex_bytes(digits)))
    } else {
        Err(ErrorKind::Protocol)
    }
}

/// Reads the reply to `crc`.
pub fn crc_value(reply: &[u8]) -> (value: Result<u32, ErrorKind>)
    ensures
        value == crc_of_reply(reply@),
{
    proof {
        reveal_strlit("Crc32 = 0x");
    }
    let prefix = literal("Crc32 = 0x");
    assert(prefix@.len() == 10);
    if communicate(reply).is_err() || !has_prefix(reply, prefix) {
        return Err(ErrorKind::Protocol);
    }
    let (from, to) = trim_bounds(reply, 10, reply.len(), false);
    assert(reply@.skip(10) == reply@.subrange(10, reply@.len() as int));
    let digits = vstd::slice::slice_subrange(reply, from, to);
    match decode_hex(digits) {
        Some(bytes) => {
            if bytes.len() != 4 {
                return Err(ErrorKind::Protocol);
            }
            Ok(u32_from_be(bytes.as_slice()))
        },
        None => Err(ErrorKind::Protocol),
    }
}

/// What must follow `loadbuffer`: a reply that begins with `Load ready`.
pub open spec fn load_ready(reply: Seq<u8>) -> bool {
    !reports_error(reply) && starts_with(reply, ascii("Load ready"@))
}

/// What must follow `writebuffer` and `spiwritebuffer`: exactly `Write OK\r\n`.
pub open spec fn write_ok(reply: Seq<u8>) -> bool {
    !reports_error(reply) && reply == ascii("Write OK\r\n"@)
}

/// Whether the adapter is ready to take a chunk.
pub fn is_load_ready(reply: &[u8]) -> (ready: bool)
    ensures
        ready == load_ready(reply@),
{
    proof {
        reveal_strlit("Load ready");
    }
    communicate(reply).is_ok() && has_prefix(reply, literal("Load ready"))
}

/// Whether the adapter has written the chunk.
pub fn is_write_ok(reply: &[u8]) -> (written: bool)
    ensures
        written == write_ok(reply@),
{
    proof {
        reveal_strlit("Write OK\r\n");
    }
    communicate(reply).is_ok() && same_bytes(reply, literal("Write OK\r\n"))
}

} // verus!
