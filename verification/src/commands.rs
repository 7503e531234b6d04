//! The user's commands, planned against what the adapter reported.
//!
//! Every function here decides before anything is sent: a command whose
//! range does not fit the flash is refused with no request made.

use vstd::prelude::*;
use crate::error::ErrorKind;
use crate::info::InfoMap;
use crate::number::parse_u32;
use crate::plan::{
    crc_plan, erase_plan, lemma_write_plan_covers, plan_crc, plan_erase, plan_read, plan_write, read_plan, write_plan,
    CrcPlan, ErasePlan, ReadPlan, WritePlan, FLASH_USERDATA_ADDRESS, SPIPAGESIZE, WORD,
};
use crate::text::{ascii, literal};

verus! {

/// The decimal number that a block gives under `key`.
pub open spec fn number_of(info: Map<Seq<u8>, Seq<u8>>, key: Seq<char>) -> Option<u32> {
    if info.contains_key(ascii(key)) {
        parse_u32(info[ascii(key)], 10)
    } else {
        None
    }
}

/// A planned write: the pages, the size of the chunks in which the payload
/// goes to the adapter, and which flash it is for.
#[derive(Clone, Copy, Debug, PartialEq, Eq, Structural)]
pub struct WriteJob {
    pub plan: WritePlan,
    pub chunk_size: u32,
    pub external: bool,
}

impl WriteJob {
    /// A page can be read back whole: the internal flash is read in words,
    /// so its page is a whole number of them; the external flash is read in
    /// its own pages.
    pub open spec fn page_is_readable(&self) -> bool {
        if self.external {
            self.plan.page_size == SPIPAGESIZE
        } else {
            self.plan.page_size % WORD == 0
        }
    }

    /// The job's pages start at a page boundary, hold its slack, lie within
    /// the address space and can be read back whole, and its chunks are not
    /// empty.
    pub open spec fn sound(&self) -> bool {
        &&& self.chunk_size > 0
        &&& self.plan.page_size > 0
        &&& self.plan.aligned_addr % self.plan.page_size == 0
        &&& self.plan.head_slack < self.plan.page_size
        &&& self.plan.tail_slack < self.plan.page_size
        &&& self.plan.head_slack + self.plan.tail_slack <= self.plan.span()
        &&& self.plan.aligned_addr + self.plan.span() <= 0x1_0000_0000
        &&& self.page_is_readable()
    }
}

/// The checksum command on the internal flash.
pub open spec fn read_crc_spec(info: Map<Seq<u8>, Seq<u8>>, addr: u32, len: Option<u32>) -> Result<
    CrcPlan,
    ErrorKind,
> {
    match number_of(info, "FlashSize"@) {
        Some(size) => crc_plan(FLASH_USERDATA_ADDRESS, size, addr, len),
        None => Err(ErrorKind::Protocol),
    }
}

/// A read of the internal flash, in words.
pub open spec fn read_c_spec(info: Map<Seq<u8>, Seq<u8>>, addr: u32, len: Option<u32>) -> Result<
    ReadPlan,
    ErrorKind,
> {
    match number_of(info, "FlashSize"@) {
        Some(size) => read_plan(FLASH_USERDATA_ADDRESS, WORD, size, addr, len),
        None => Err(ErrorKind::Protocol),
    }
}

/// A read of the external flash, in pages.
pub open spec fn read_eflash_spec(
    loader_info: Map<Seq<u8>, Seq<u8>>,
    addr: u32,
    len: Option<u32>,
) -> Result<ReadPlan, ErrorKind> {
    match number_of(loader_info, "SPIFlashSize"@) {
        Some(size) => read_plan(0, SPIPAGESIZE, size, addr, len),
        None => Err(ErrorKind::Protocol),
    }
}

/// An erase of the internal flash.
pub open spec fn erase_spec(info: Map<Seq<u8>, Seq<u8>>, addr: u32, pages: Option<u32>) -> Result<
    ErasePlan,
    ErrorKind,
> {
    match (number_of(info, "FlashSize"@), number_of(info, "PageSize"@)) {
        (Some(size), Some(page)) => if page == 0 {
            Err(ErrorKind::Protocol)
        } else {
            erase_plan(FLASH_USERDATA_ADDRESS, page, size, addr, pages)
        },
        _ => Err(ErrorKind::Protocol),
    }
}

/// An erase of the external flash.
pub open spec fn erase_eflash_spec(
    loader_info: Map<Seq<u8>, Seq<u8>>,
    addr: u32,
    pages: Option<u32>,
) -> Result<ErasePlan, ErrorKind> {
    match number_of(loader_info, "SPIFlashSize"@) {
        Some(size) => erase_plan(0, SPIPAGESIZE, size, addr, pages),
        None => Err(ErrorKind::Protocol),
    }
}

/// How many bytes a write covers: the length asked for, else all the data.
pub open spec fn write_length(data_len: nat, len: Option<u32>) -> nat {
    match len {
        Some(l) => l as nat,
        None => data_len,
    }
}

/// The chunk size that the loader's block gives: `MaxBufSize`, which must
/// be a number and not zero.
pub open spec fn chunk_size_of(loader_info: Map<Seq<u8>, Seq<u8>>) -> Result<u32, ErrorKind> {
    match number_of(loader_info, "MaxBufSize"@) {
        Some(chunk) => if chunk == 0 {
            Err(ErrorKind::Protocol)
        } else {
            Ok(chunk)
        },
        None => Err(ErrorKind::Protocol),
    }
}

/// A write to the internal flash. The range is planned first: a range that
/// does not fit is a bounds failure, whatever else the blocks hold or lack.
/// Only a plan that fits goes on to ask that a page be a whole number of
/// words, so that a page can be read back whole, and that the loader's
/// block give a chunk size.
pub open spec fn write_c_spec(
    info: Map<Seq<u8>, Seq<u8>>,
    loader_info: Map<Seq<u8>, Seq<u8>>,
    data_len: nat,
    addr: u32,
    len: Option<u32>,
) -> Result<WriteJob, ErrorKind> {
    match (number_of(info, "FlashSize"@), number_of(info, "PageSize"@)) {
        (Some(size), Some(page)) => if page == 0 {
            Err(ErrorKind::Protocol)
        } else {
            match write_plan(
                FLASH_USERDATA_ADDRESS,
                page,
                size,
                addr,
                write_length(data_len, len),
            ) {
                Err(kind) => Err(kind),
                Ok(plan) => if page % WORD != 0 {
                    Err(ErrorKind::Protocol)
                } else {
                    match chunk_size_of(loader_info) {
                        Err(kind) => Err(kind),
                        Ok(chunk) => Ok(WriteJob { plan, chunk_size: chunk, external: false }),
                    }
                },
            }
        },
        _ => Err(ErrorKind::Protocol),
    }
}

/// A write to the external flash. The range is planned first: a range that
/// does not fit is a bounds failure, whatever else the block holds or
/// lacks. Only a plan that fits goes on to ask for a chunk size.
pub open spec fn write_eflash_spec(
    loader_info: Map<Seq<u8>, Seq<u8>>,
    data_len: nat,
    addr: u32,
    len: Option<u32>,
) -> Result<WriteJob, ErrorKind> {
    match number_of(loader_info, "SPIFlashSize"@) {
        Some(size) => match write_plan(0, SPIPAGESIZE, size, addr, write_length(data_len, len)) {
            Err(kind) => Err(kind),
            Ok(plan) => match chunk_size_of(loader_info) {
                Err(kind) => Err(kind),
                Ok(chunk) => Ok(WriteJob { plan, chunk_size: chunk, external: true }),
            },
        },
        None => Err(ErrorKind::Protocol),
    }
}

fn flash_size(info: &InfoMap) -> (size: Option<u32>)
    ensures
        size == number_of(info@, "FlashSize"@),
{
    proof {
        reveal_strlit("FlashSize");
    }
    info.number(literal("FlashSize"))
}

fn page_size(info: &InfoMap) -> (size: Option<u32>)
    ensures
        size == number_of(info@, "PageSize"@),
{
    proof {
        reveal_strlit("PageSize");
    }
    info.number(literal("PageSize"))
}

fn spi_flash_size(loader_info: &InfoMap) -> (size: Option<u32>)
    ensures
        size == number_of(loader_info@, "SPIFlashSize"@),
{
    proof {
        reveal_strlit("SPIFlashSize");
    }
    loader_info.number(literal("SPIFlashSize"))
}

fn max_buf_size(loader_info: &InfoMap) -> (size: Option<u32>)
    ensures
        size == number_of(loader_info@, "MaxBufSize"@),
{
    proof {
        reveal_strlit("MaxBufSize");
    }
    loader_info.number(literal("MaxBufSize"))
}

/// Plans the checksum command: which words to ask the checksum of.
pub fn read_crc(info: &InfoMap, addr: u32, len: Option<u32>) -> (plan: Result<CrcPlan, ErrorKind>)
    ensures
        plan == read_crc_spec(info@, addr, len),
{
    match flash_size(info) {
        Some(size) => plan_crc(FLASH_USERDATA_ADDRESS, size, addr, len),
        None => Err(ErrorKind::Protocol),
    }
}

/// Plans a read of the internal flash.
pub fn read_c(info: &InfoMap, addr: u32, len: Option<u32>) -> (plan: Result<ReadPlan, ErrorKind>)
    ensures
        plan == read_c_spec(info@, addr, len),
{
    match flash_size(info) {
        Some(size) => plan_read(FLASH_USERDATA_ADDRESS, WORD, size, addr, len),
        None => Err(ErrorKind::Protocol),
    }
}

/// Plans a read of the external flash.
pub fn read_eflash(loader_info: &InfoMap, addr: u32, len: Option<u32>) -> (plan: Result<
    ReadPlan,
    ErrorKind,
>)
    ensures
        plan == read_eflash_spec(loader_info@, addr, len),
{
    match spi_flash_size(loader_info) {
        Some(size) => plan_read(0, SPIPAGESIZE, size, addr, len),
        None => Err(ErrorKind::Protocol),
    }
}

/// Plans an erase of the internal flash.
pub fn erase(info: &InfoMap, addr: u32, pages: Option<u32>) -> (plan: Result<ErasePlan, ErrorKind>)
    ensures
        plan == erase_spec(info@, addr, pages),
{
    match (flash_size(info), page_size(info)) {
        (Some(size), Some(page)) => {
            if page == 0 {
                Err(ErrorKind::Protocol)
            } else {
                plan_erase(FLASH_USERDATA_ADDRESS, page, size, addr, pages)
            }
        },
        _ => Err(ErrorKind::Protocol),
    }
}

/// Plans an erase of the external flash.
pub fn erase_eflash(loader_info: &InfoMap, addr: u32, pages: Option<u32>) -> (plan: Result<
    ErasePlan,
    ErrorKind,
>)
    ensures
        plan == erase_eflash_spec(loader_info@, addr, pages),
{
    match spi_flash_size(loader_info) {
        Some(size) => plan_erase(0, SPIPAGESIZE, size, addr, pages),
        None => Err(ErrorKind::Protocol),
    }
}

fn chunk_size(loader_info: &InfoMap) -> (size: Result<u32, ErrorKind>)
    ensures
        size == chunk_size_of(loader_info@),
{
    match max_buf_size(loader_info) {
        Some(chunk) => if chunk == 0 {
            Err(ErrorKind::Protocol)
        } else {
            Ok(chunk)
        },
        None => Err(ErrorKind::Protocol),
    }
}

/// Plans a write of `data_len` bytes of data to the internal flash.
pub fn write_c(
    info: &InfoMap,
    loader_info: &InfoMap,
    data_len: usize,
    addr: u32,
    len: Option<u32>,
) -> (job: Result<WriteJob, ErrorKind>)
    ensures
        job == write_c_spec(info@, loader_info@, data_len as nat, addr, len),
        job matches Ok(j) ==> j.sound() && j.plan.span() == j.plan.head_slack + write_length(
            data_len as nat,
            len,
        ) + j.plan.tail_slack,
{
    let length: usize = effective_length(data_len, len);
    match (flash_size(info), page_size(info)) {
        (Some(size), Some(page)) => {
            if page == 0 {
                return Err(ErrorKind::Protocol);
            }
            let plan = match plan_write(FLASH_USERDATA_ADDRESS, page, size, addr, length) {
                Ok(plan) => plan,
                Err(kind) => {
                    return Err(kind);
                },
            };
            if page % WORD != 0 {
                return Err(ErrorKind::Protocol);
            }
            proof {
                lemma_write_plan_covers(FLASH_USERDATA_ADDRESS, page, size, addr, length as nat);
            }
            match chunk_size(loader_info) {
                Ok(chunk) => Ok(WriteJob { plan, chunk_size: chunk, external: false }),
                Err(kind) => Err(kind),
            }
        },
        _ => Err(ErrorKind::Protocol),
    }
}

/// Plans a write of `data_len` bytes of data to the external flash.
pub fn write_eflash(loader_info: &InfoMap, data_len: usize, addr: u32, len: Option<u32>) -> (job:
    Result<WriteJob, ErrorKind>)
    ensures
        job == write_eflash_spec(loader_info@, data_len as nat, addr, len),
        job matches Ok(j) ==> j.sound() && j.plan.span() == j.plan.head_slack + write_length(
            data_len as nat,
            len,
        ) + j.plan.tail_slack,
{
    let length: usize = effective_length(data_len, len);
    match spi_flash_size(loader_info) {
        Some(size) => {
            let plan = match plan_write(0, SPIPAGESIZE, size, addr, length) {
                Ok(plan) => plan,
                Err(kind) => {
                    return Err(kind);
                },
            };
            proof {
                lemma_write_plan_covers(0, SPIPAGESIZE, size, addr, length as nat);
            }
            match chunk_size(loader_info) {
                Ok(chunk) => Ok(WriteJob { plan, chunk_size: chunk, external: true }),
                Err(kind) => Err(kind),
            }
        },
        None => Err(ErrorKind::Protocol),
    }
}

/// The length of a write as a machine word.
fn effective_length(data_len: usize, len: Option<u32>) -> (length: usize)
    ensures
        length == write_length(data_len as nat, len),
{
    match len {
        Some(l) => l as usize,
        None => data_len,
    }
}

/// A planned write to the internal flash is sound, and its pages hold the
/// slack and the bytes exactly.
pub proof fn lemma_write_c_sound(
    info: Map<Seq<u8>, Seq<u8>>,
    loader_info: Map<Seq<u8>, Seq<u8>>,
    data_len: nat,
    addr: u32,
    len: Option<u32>,
)
    requires
        write_c_spec(info, loader_info, data_len, addr, len) is Ok,
    ensures
        write_c_spec(info, loader_info, data_len, addr, len).unwrap().sound(),
        !write_c_spec(info, loader_info, data_len, addr, len).unwrap().external,
        write_c_spec(info, loader_info, data_len, addr, len).unwrap().plan.covers(
            FLASH_USERDATA_ADDRESS,
            number_of(info, "FlashSize"@).unwrap(),
            write_length(data_len, len),
        ),
        write_c_spec(info, loader_info, data_len, addr, len).unwrap().plan.aligned_addr
            + write_c_spec(info, loader_info, data_len, addr, len).unwrap().plan.head_slack
            == addr,
{
    let size = number_of(info, "FlashSize"@).unwrap();
    let page = number_of(info, "PageSize"@).unwrap();
    lemma_write_plan_covers(FLASH_USERDATA_ADDRESS, page, size, addr, write_length(data_len, len));
}

/// A planned write to the external flash is sound, and its pages hold the
/// slack and the bytes exactly.
pub proof fn lemma_write_eflash_sound(
    loader_info: Map<Seq<u8>, Seq<u8>>,
    data_len: nat,
    addr: u32,
    len: Option<u32>,
)
    requires
        write_eflash_spec(loader_info, data_len, addr, len) is Ok,
    ensures
        write_eflash_spec(loader_info, data_len, addr, len).unwrap().sound(),
        write_eflash_spec(loader_info, data_len, addr, len).unwrap().external,
        write_eflash_spec(loader_info, data_len, addr, len).unwrap().plan.covers(
            0,
            number_of(loader_info, "SPIFlashSize"@).unwrap(),
            write_length(data_len, len),
        ),
        write_eflash_spec(loader_info, data_len, addr, len).unwrap().plan.aligned_addr
            + write_eflash_spec(loader_info, data_len, addr, len).unwrap().plan.head_slack
            == addr,
{
    let size = number_of(loader_info, "SPIFlashSize"@).unwrap();
    lemma_write_plan_covers(0, SPIPAGESIZE, size, addr, write_length(data_len, len));
}

} // verus!
