use gpt_fixup::cursor::{eq_ignore_ascii_case, parse_u32, GptPartitionCursor, IoSpan, PartitionEntry, SeekTarget};
use gpt_fixup::error::GptError;
use gpt_fixup::sector::sector_size_from_query;

fn entry(index: u32, name: &str, byte_offset: u64, byte_len: u64) -> PartitionEntry {
    PartitionEntry { index, name: name.to_string(), byte_offset, byte_len }
}

fn sample() -> Vec<PartitionEntry> {
    vec![
        entry(1, "boot", 1 << 20, 4096),
        entry(2, "rootfs", 2 << 20, 1000),
        entry(7, "3", 8 << 20, 512),
    ]
}

#[test]
fn opens_by_name_ignoring_case() {
    let c = GptPartitionCursor::new(&sample(), "RootFS").unwrap();
    assert_eq!(c.part_num(), 2);
    assert_eq!(c.partition_offset(), 2 << 20);
    assert_eq!(c.size(), 1000);
    assert_eq!(c.position(), 0);
}

#[test]
fn opens_by_index() {
    let c = GptPartitionCursor::new(&sample(), "1").unwrap();
    assert_eq!(c.part_num(), 1);
    assert_eq!(c.size(), 4096);
    let c = GptPartitionCursor::new(&sample(), "+2").unwrap();
    assert_eq!(c.part_num(), 2);
}

#[test]
fn name_wins_over_index() {
    let c = GptPartitionCursor::new(&sample(), "3").unwrap();
    assert_eq!(c.part_num(), 7);
    let c = GptPartitionCursor::new(&sample(), "7").unwrap();
    assert_eq!(c.part_num(), 7);
}

#[test]
fn unknown_partition_is_not_found() {
    assert_eq!(GptPartitionCursor::new(&sample(), "data").err(), Some(GptError::PartitionNotFound));
    assert_eq!(GptPartitionCursor::new(&sample(), "4").err(), Some(GptError::PartitionNotFound));
    assert_eq!(GptPartitionCursor::new(&Vec::new(), "1").err(), Some(GptError::PartitionNotFound));
}

#[test]
fn window_past_the_last_offset_is_refused() {
    let parts = vec![entry(1, "big", u64::MAX - 10, 11)];
    assert_eq!(GptPartitionCursor::new(&parts, "big").err(), Some(GptError::NotGptFormatted));
    let parts = vec![entry(1, "big", u64::MAX - 10, 10)];
    assert!(GptPartitionCursor::new(&parts, "big").is_ok());
}

#[test]
fn read_at_end_moves_nothing() {
    let mut c = GptPartitionCursor::new(&sample(), "rootfs").unwrap();
    assert_eq!(c.seek(SeekTarget::Start(1000)), Ok(1000));
    assert_eq!(c.transfer_span(64), None);
}

#[test]
fn seek_to_size_succeeds_and_past_fails() {
    let mut c = GptPartitionCursor::new(&sample(), "rootfs").unwrap();
    assert_eq!(c.seek(SeekTarget::Start(1000)), Ok(1000));
    assert_eq!(c.seek(SeekTarget::Start(1001)), Err(GptError::OutOfRangeSeek));
    assert_eq!(c.position(), 1000);
}

#[test]
fn write_one_before_end_moves_one_byte() {
    let mut c = GptPartitionCursor::new(&sample(), "rootfs").unwrap();
    assert_eq!(c.seek(SeekTarget::Start(999)), Ok(999));
    let span = c.transfer_span(300).unwrap();
    assert_eq!(span, IoSpan { device_offset: (2 << 20) + 999, len: 1 });
    c.advance(span.len);
    assert_eq!(c.position(), 1000);
    assert_eq!(c.transfer_span(300), None);
}

#[test]
fn transfers_are_clamped_to_the_window() {
    let mut c = GptPartitionCursor::new(&sample(), "boot").unwrap();
    assert_eq!(c.transfer_span(100), Some(IoSpan { device_offset: 1 << 20, len: 100 }));
    assert_eq!(c.transfer_span(0), None);
    assert_eq!(c.transfer_span(10_000), Some(IoSpan { device_offset: 1 << 20, len: 4096 }));
    c.advance(4000);
    assert_eq!(c.transfer_span(10_000), Some(IoSpan { device_offset: (1 << 20) + 4000, len: 96 }));
}

#[test]
fn seek_from_end_and_current() {
    let mut c = GptPartitionCursor::new(&sample(), "boot").unwrap();
    assert_eq!(c.seek(SeekTarget::End(-96)), Ok(4000));
    assert_eq!(c.seek(SeekTarget::Current(-1000)), Ok(3000));
    assert_eq!(c.seek(SeekTarget::Current(1096)), Ok(4096));
    assert_eq!(c.seek(SeekTarget::Current(1)), Err(GptError::OutOfRangeSeek));
    assert_eq!(c.seek(SeekTarget::End(1)), Err(GptError::OutOfRangeSeek));
    assert_eq!(c.seek(SeekTarget::End(-4097)), Err(GptError::OutOfRangeSeek));
    assert_eq!(c.seek(SeekTarget::Current(-5000)), Err(GptError::OutOfRangeSeek));
    assert_eq!(c.seek(SeekTarget::Current(i64::MIN)), Err(GptError::OutOfRangeSeek));
    assert_eq!(c.position(), 4096);
    assert_eq!(c.seek(SeekTarget::End(-4096)), Ok(0));
}

#[test]
fn decimal_parsing() {
    assert_eq!(parse_u32("42"), Some(42));
    assert_eq!(parse_u32("+7"), Some(7));
    assert_eq!(parse_u32("007"), Some(7));
    assert_eq!(parse_u32("4294967295"), Some(u32::MAX));
    assert_eq!(parse_u32("4294967296"), None);
    assert_eq!(parse_u32("99999999999999999999x"), None);
    assert_eq!(parse_u32(""), None);
    assert_eq!(parse_u32("+"), None);
    assert_eq!(parse_u32("-1"), None);
    assert_eq!(parse_u32("12a"), None);
    assert_eq!(parse_u32(" 1"), None);
}

#[test]
fn ascii_case_insensitive_names() {
    assert!(eq_ignore_ascii_case("EFI System", "efi SYSTEM"));
    assert!(eq_ignore_ascii_case("", ""));
    assert!(!eq_ignore_ascii_case("boot", "boot2"));
    assert!(!eq_ignore_ascii_case("Ä", "ä"));
    assert!(eq_ignore_ascii_case("Ä", "Ä"));
    assert!(!eq_ignore_ascii_case("[", "{"));
}

#[test]
fn sector_size_choice() {
    assert_eq!(sector_size_from_query(Some(512)), 512);
    assert_eq!(sector_size_from_query(Some(4096)), 4096);
    assert_eq!(sector_size_from_query(Some(1024)), 512);
    assert_eq!(sector_size_from_query(Some(0)), 512);
    assert_eq!(sector_size_from_query(None), 512);
}
