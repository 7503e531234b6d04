use serial_flasher::commands::{
    erase, erase_eflash, read_c, read_crc, read_eflash, write_c, write_eflash, WriteJob,
};
use serial_flasher::error::ErrorKind;
use serial_flasher::info::{chop, InfoMap};
use serial_flasher::plan::{
    in_memory, plan_crc, plan_erase, plan_read, plan_write, CrcPlan, ErasePlan, ReadPlan,
    WritePlan, FLASH_USERDATA_ADDRESS, SPIERASELIMIT, SPIPAGESIZE, WORD,
};

const BASE: u32 = 0x0800_0000;

fn target(flash: u32, page: u32) -> InfoMap {
    chop(format!("Target XYZ\nFlashSize {}\nPageSize {}\n", flash, page).as_bytes())
}

fn loader(spi: u32, buf: u32) -> InfoMap {
    chop(format!("Loader ok\nSPIFlashSize {}\nMaxBufSize {}\n", spi, buf).as_bytes())
}

#[test]
fn constants_of_the_geometry() {
    assert_eq!(FLASH_USERDATA_ADDRESS, 0x0800_0000);
    assert_eq!(SPIPAGESIZE, 256);
    assert_eq!(SPIERASELIMIT, 256);
    assert_eq!(WORD, 4);
}

#[test]
fn memory_ends_within_the_address_space() {
    assert!(in_memory(BASE, 65536, BASE));
    assert!(in_memory(BASE, 65536, BASE + 65535));
    assert!(!in_memory(BASE, 65536, BASE + 65536));
    assert!(!in_memory(BASE, 65536, BASE - 1));
    assert!(in_memory(BASE, 0xF800_0000, BASE));
    assert!(!in_memory(BASE, 0xF800_0001, BASE));
}

#[test]
fn crc_plan_covers_overlapping_words() {
    let plan = plan_crc(BASE, 65536, 0x0800_0002, Some(5));
    assert_eq!(plan, Ok(CrcPlan { aligned_addr: 0x0800_0000, word_count: 2 }));
}

#[test]
fn crc_plan_defaults_to_whole_words_to_the_end() {
    assert_eq!(
        plan_crc(BASE, 4096, BASE + 1024, None),
        Ok(CrcPlan { aligned_addr: BASE + 1024, word_count: 768 })
    );
    assert_eq!(plan_crc(BASE, 10, BASE + 5, None), Ok(CrcPlan { aligned_addr: BASE + 4, word_count: 1 }));
}

#[test]
fn crc_plan_rejects_what_lies_outside() {
    assert_eq!(plan_crc(BASE, 65536, 0x0700_0000, Some(4)), Err(ErrorKind::Bounds));
    assert_eq!(plan_crc(BASE, 65536, BASE + 65536, Some(4)), Err(ErrorKind::Bounds));
    assert_eq!(plan_crc(BASE, 65536, BASE + 65532, Some(5)), Err(ErrorKind::Bounds));
    assert_eq!(plan_crc(BASE, 65536, BASE, Some(u32::MAX)), Err(ErrorKind::Bounds));
    assert_eq!(
        plan_crc(BASE, 65536, BASE + 65532, Some(4)),
        Ok(CrcPlan { aligned_addr: BASE + 65532, word_count: 1 })
    );
}

#[test]
fn read_plan_in_words() {
    assert_eq!(
        plan_read(BASE, 4, 65536, BASE + 6, Some(5)),
        Ok(ReadPlan { aligned_addr: BASE + 4, count: 2, offset: 2, len: 5 })
    );
    assert_eq!(
        plan_read(BASE, 4, 2048, BASE + 2040, None),
        Ok(ReadPlan { aligned_addr: BASE + 2040, count: 2, offset: 0, len: 8 })
    );
    assert_eq!(
        plan_read(BASE, 4, 2048, BASE + 3, Some(0)),
        Ok(ReadPlan { aligned_addr: BASE, count: 1, offset: 3, len: 0 })
    );
    assert_eq!(
        plan_read(BASE, 4, 2048, BASE + 4, Some(0)),
        Ok(ReadPlan { aligned_addr: BASE + 4, count: 0, offset: 0, len: 0 })
    );
}

#[test]
fn read_plan_in_pages() {
    assert_eq!(
        plan_read(0, 256, 153600, 300, Some(300)),
        Ok(ReadPlan { aligned_addr: 256, count: 2, offset: 44, len: 300 })
    );
    assert_eq!(
        plan_read(0, 256, 1024, 0, None),
        Ok(ReadPlan { aligned_addr: 0, count: 4, offset: 0, len: 1024 })
    );
}

#[test]
fn read_plan_rejects_what_lies_outside() {
    assert_eq!(plan_read(BASE, 4, 2048, BASE - 1, Some(1)), Err(ErrorKind::Bounds));
    assert_eq!(plan_read(BASE, 4, 2048, BASE + 2048, Some(1)), Err(ErrorKind::Bounds));
    assert_eq!(plan_read(BASE, 4, 2048, BASE + 2044, Some(5)), Err(ErrorKind::Bounds));
    assert_eq!(plan_read(BASE, 4, 2048, BASE, Some(u32::MAX)), Err(ErrorKind::Bounds));
    assert_eq!(plan_read(BASE, 4, 10, BASE, None), Err(ErrorKind::Bounds));
    assert_eq!(plan_read(0, 256, 1000, 0, None), Err(ErrorKind::Bounds));
    assert_eq!(plan_read(BASE, 4, 0xF800_0004, BASE, Some(4)), Err(ErrorKind::Bounds));
}

#[test]
fn erase_plan_floors_the_address_and_defaults_to_the_rest() {
    assert_eq!(
        plan_erase(BASE, 1024, 8192, BASE + 2500, None),
        Ok(ErasePlan { aligned_addr: BASE + 2048, page_count: 6 })
    );
    assert_eq!(
        plan_erase(BASE, 1024, 8192, BASE + 2500, Some(6)),
        Ok(ErasePlan { aligned_addr: BASE + 2048, page_count: 6 })
    );
    assert_eq!(
        plan_erase(BASE, 1024, 8192, BASE, Some(0)),
        Ok(ErasePlan { aligned_addr: BASE, page_count: 0 })
    );
    assert_eq!(
        plan_erase(0, 256, 153600, 2565, Some(300)),
        Ok(ErasePlan { aligned_addr: 2560, page_count: 300 })
    );
}

#[test]
fn erase_plan_rejects_what_lies_outside() {
    assert_eq!(plan_erase(BASE, 1024, 8192, BASE + 2500, Some(7)), Err(ErrorKind::Bounds));
    assert_eq!(plan_erase(BASE, 1024, 8192, BASE + 8192, None), Err(ErrorKind::Bounds));
    assert_eq!(plan_erase(BASE, 1024, 8192, BASE - 1, None), Err(ErrorKind::Bounds));
    // A page size that does not divide the base would floor below the flash.
    assert_eq!(plan_erase(BASE, 3000, 8192, BASE, Some(1)), Err(ErrorKind::Bounds));
}

#[test]
fn write_plan_of_whole_and_partial_pages() {
    assert_eq!(
        plan_write(BASE, 1024, 65536, BASE, 512),
        Ok(WritePlan {
            aligned_addr: BASE,
            page_size: 1024,
            page_count: 1,
            head_slack: 0,
            tail_slack: 512
        })
    );
    assert_eq!(
        plan_write(BASE, 1024, 65536, BASE + 4, 8),
        Ok(WritePlan {
            aligned_addr: BASE,
            page_size: 1024,
            page_count: 1,
            head_slack: 4,
            tail_slack: 1012
        })
    );
    assert_eq!(
        plan_write(BASE, 1024, 8192, BASE + 1000, 3000),
        Ok(WritePlan {
            aligned_addr: BASE,
            page_size: 1024,
            page_count: 4,
            head_slack: 1000,
            tail_slack: 96
        })
    );
    assert_eq!(
        plan_write(BASE, 1024, 8192, BASE + 1024, 0),
        Ok(WritePlan {
            aligned_addr: BASE + 1024,
            page_size: 1024,
            page_count: 0,
            head_slack: 0,
            tail_slack: 0
        })
    );
    assert_eq!(
        plan_write(BASE, 1024, 8192, BASE, 8192),
        Ok(WritePlan {
            aligned_addr: BASE,
            page_size: 1024,
            page_count: 8,
            head_slack: 0,
            tail_slack: 0
        })
    );
}

#[test]
fn write_plan_rejects_what_does_not_fit() {
    assert_eq!(plan_write(BASE, 1024, 4096, BASE + 4000, 200), Err(ErrorKind::Bounds));
    assert_eq!(plan_write(BASE, 1024, 8192, BASE, 8193), Err(ErrorKind::Bounds));
    assert_eq!(plan_write(BASE, 1024, 8192, BASE - 4, 4), Err(ErrorKind::Bounds));
    assert_eq!(plan_write(BASE, 1024, 8192, BASE + 8192, 0), Err(ErrorKind::Bounds));
    assert_eq!(plan_write(BASE, 1024, 8192, BASE, usize::MAX), Err(ErrorKind::Bounds));
    // A partial page at the end of a flash that is no whole number of pages.
    assert_eq!(plan_write(BASE, 1024, 1500, BASE + 1024, 100), Err(ErrorKind::Bounds));
}

#[test]
fn commands_take_the_geometry_from_the_blocks() {
    let info = target(65536, 1024);
    let spi = loader(153600, 256);
    assert_eq!(
        read_crc(&info, BASE + 2, Some(5)),
        Ok(CrcPlan { aligned_addr: BASE, word_count: 2 })
    );
    assert_eq!(
        read_c(&info, BASE + 6, Some(5)),
        Ok(ReadPlan { aligned_addr: BASE + 4, count: 2, offset: 2, len: 5 })
    );
    assert_eq!(
        read_eflash(&spi, 300, Some(300)),
        Ok(ReadPlan { aligned_addr: 256, count: 2, offset: 44, len: 300 })
    );
    assert_eq!(
        erase(&info, BASE + 2500, None),
        Ok(ErasePlan { aligned_addr: BASE + 2048, page_count: 62 })
    );
    assert_eq!(
        erase_eflash(&spi, 2565, None),
        Ok(ErasePlan { aligned_addr: 2560, page_count: 590 })
    );
    assert_eq!(
        write_c(&info, &spi, 8, BASE + 4, None),
        Ok(WriteJob {
            plan: WritePlan {
                aligned_addr: BASE,
                page_size: 1024,
                page_count: 1,
                head_slack: 4,
                tail_slack: 1012
            },
            chunk_size: 256,
            external: false
        })
    );
    assert_eq!(
        write_c(&info, &spi, 8, BASE, Some(2048)),
        Ok(WriteJob {
            plan: WritePlan {
                aligned_addr: BASE,
                page_size: 1024,
                page_count: 2,
                head_slack: 0,
                tail_slack: 0
            },
            chunk_size: 256,
            external: false
        })
    );
    assert_eq!(
        write_eflash(&spi, 600, 1000, None),
        Ok(WriteJob {
            plan: WritePlan {
                aligned_addr: 768,
                page_size: 256,
                page_count: 4,
                head_slack: 232,
                tail_slack: 192
            },
            chunk_size: 256,
            external: true
        })
    );
}

#[test]
fn commands_without_geometry_are_protocol_failures() {
    let bare = chop(b"Target XYZ\n");
    let spi = loader(153600, 256);
    assert_eq!(read_crc(&bare, BASE, None), Err(ErrorKind::Protocol));
    assert_eq!(read_c(&bare, BASE, None), Err(ErrorKind::Protocol));
    assert_eq!(read_eflash(&bare, 0, None), Err(ErrorKind::Protocol));
    assert_eq!(erase(&bare, BASE, None), Err(ErrorKind::Protocol));
    assert_eq!(erase_eflash(&bare, 0, None), Err(ErrorKind::Protocol));
    assert_eq!(write_c(&bare, &spi, 4, BASE, None), Err(ErrorKind::Protocol));
    assert_eq!(write_eflash(&bare, 4, 0, None), Err(ErrorKind::Protocol));
    assert_eq!(erase(&chop(b"FlashSize 4096\nPageSize 0\n"), BASE, None), Err(ErrorKind::Protocol));
    assert_eq!(erase(&chop(b"FlashSize 4096\nPageSize 1k\n"), BASE, None), Err(ErrorKind::Protocol));
    assert_eq!(
        write_c(&target(4096, 1024), &chop(b"Loader ok\nMaxBufSize 0\n"), 4, BASE, None),
        Err(ErrorKind::Protocol)
    );
    assert_eq!(
        write_c(&target(4096, 1024), &chop(b"Loader ok\n"), 4, BASE, None),
        Err(ErrorKind::Protocol)
    );
}

#[test]
fn commands_out_of_range_are_bounds_failures() {
    let info = target(4096, 1024);
    let spi = loader(4096, 256);
    assert_eq!(read_crc(&info, BASE + 4096, None), Err(ErrorKind::Bounds));
    assert_eq!(read_c(&info, BASE, Some(4097)), Err(ErrorKind::Bounds));
    assert_eq!(read_eflash(&spi, 4096, None), Err(ErrorKind::Bounds));
    assert_eq!(erase(&info, BASE, Some(5)), Err(ErrorKind::Bounds));
    assert_eq!(erase_eflash(&spi, 0, Some(17)), Err(ErrorKind::Bounds));
    assert_eq!(write_c(&info, &spi, 200, BASE + 4000, None), Err(ErrorKind::Bounds));
    assert_eq!(write_eflash(&spi, 4097, 0, None), Err(ErrorKind::Bounds));
}

#[test]
fn write_judges_the_range_before_the_chunk_size() {
    let info = target(4096, 1024);
    for useless in [&b"Loader ok\n"[..], b"Loader ok\nMaxBufSize 0\n", b"Loader ok\nMaxBufSize big\n"] {
        let block = chop(useless);
        assert_eq!(write_c(&info, &block, 200, BASE + 4000, None), Err(ErrorKind::Bounds));
        assert_eq!(write_c(&info, &block, 4, 0, None), Err(ErrorKind::Bounds));
        assert_eq!(write_c(&info, &block, 4, BASE + 4096, None), Err(ErrorKind::Bounds));
        assert_eq!(write_c(&info, &block, 4, BASE, Some(4097)), Err(ErrorKind::Bounds));
        assert_eq!(write_c(&info, &block, 4, BASE, None), Err(ErrorKind::Protocol));
    }
    for useless in [
        &b"SPIFlashSize 4096\n"[..],
        b"SPIFlashSize 4096\nMaxBufSize 0\n",
        b"SPIFlashSize 4096\nMaxBufSize big\n",
    ] {
        let block = chop(useless);
        assert_eq!(write_eflash(&block, 4, 4096, None), Err(ErrorKind::Bounds));
        assert_eq!(write_eflash(&block, 4097, 0, None), Err(ErrorKind::Bounds));
        assert_eq!(write_eflash(&block, 4, 4000, Some(200)), Err(ErrorKind::Bounds));
        assert_eq!(write_eflash(&block, 4, 0, None), Err(ErrorKind::Protocol));
    }
}

#[test]
fn write_needs_a_page_of_whole_words() {
    let spi = loader(4096, 256);
    assert_eq!(write_c(&target(4096, 6), &spi, 2, BASE + 5, None), Err(ErrorKind::Protocol));
    assert_eq!(write_c(&target(4096, 6), &spi, 2, BASE + 2, None), Err(ErrorKind::Bounds));
    assert_eq!(write_c(&target(4096, 6), &spi, 2, BASE + 4096, None), Err(ErrorKind::Bounds));
    assert_eq!(write_c(&target(4096, 0), &spi, 2, BASE + 4096, None), Err(ErrorKind::Protocol));
    assert_eq!(
        write_c(&target(4096, 8), &spi, 2, BASE + 10, None),
        Ok(WriteJob {
            plan: WritePlan {
                aligned_addr: BASE + 8,
                page_size: 8,
                page_count: 1,
                head_slack: 2,
                tail_slack: 4
            },
            chunk_size: 256,
            external: false
        })
    );
}
