//! Rebuilding the GPT metadata of a device from its primary header and table.
//!
//! The caller reads the primary header (at byte `PRIMARY_HEADER_OFFSET`), the
//! partition table that `table_span` locates, and the device's byte length;
//! `plan_fixup` then computes every byte that has to be written back.
use vstd::prelude::*;
use crate::error::GptError;
use crate::field::{
    get_u32, get_u64, put_u32, put_u64, read_u32_le, read_u64_le, write_u32_le,
    write_u64_le,
};

verus! {

/// Byte offset of the primary header (just past the 512-byte MBR sector).
pub const PRIMARY_HEADER_OFFSET: u64 = 512;

/// Length of a GPT header.
pub const HEADER_LEN: usize = 92;

/// Length of the protective MBR sector.
pub const MBR_LEN: usize = 512;

pub const OFF_HEADER_CRC: usize = 0x10;
pub const OFF_CURRENT_LBA: usize = 0x18;
pub const OFF_BACKUP_LBA: usize = 0x20;
pub const OFF_FIRST_USABLE: usize = 0x28;
pub const OFF_LAST_USABLE: usize = 0x30;
pub const OFF_ENTRIES_LBA: usize = 0x48;
pub const OFF_NUM_ENTRIES: usize = 0x50;
pub const OFF_ENTRY_SIZE: usize = 0x54;
pub const OFF_ENTRIES_CRC: usize = 0x58;

/// Offset in the MBR of the single partition record.
pub const OFF_MBR_RECORD: usize = 0x1be;

/// Offset in the MBR of that record's 32-bit sector-count field.
pub const OFF_MBR_SIZE: usize = 0x1ca;

/// The CRC-32 (IEEE) of a byte sequence.
pub uninterp spec fn crc32_of(data: Seq<u8>) -> u32;

/// Relies on crc32fast::hash: the CRC-32 of the bytes, which depends on them alone.
#[verifier::external_body]
fn crc32(data: &[u8]) -> (r: u32)
    ensures
        r == crc32_of(data@),
{
    crc32fast::hash(data)
}

/// "EFI PART"
pub open spec fn gpt_signature() -> Seq<u8> {
    seq![0x45u8, 0x46u8, 0x49u8, 0x20u8, 0x50u8, 0x41u8, 0x52u8, 0x54u8]
}

/// A header buffer is accepted when it is exactly 92 bytes long and carries the signature.
pub open spec fn header_ok(h: Seq<u8>) -> bool {
    h.len() == HEADER_LEN && h.subrange(0, 8) == gpt_signature()
}

/// Byte length of the partition-entry array.
pub open spec fn table_len(h: Seq<u8>) -> int {
    get_u32(h, OFF_NUM_ENTRIES as int) as int * get_u32(h, OFF_ENTRY_SIZE as int) as int
}

/// Byte offset of the partition-entry array.
pub open spec fn table_start(h: Seq<u8>, s: u64) -> int {
    get_u64(h, OFF_ENTRIES_LBA as int) as int * s as int
}

/// Byte offset just past the partition-entry array.
pub open spec fn table_end(h: Seq<u8>, s: u64) -> int {
    table_start(h, s) + table_len(h)
}

/// `x / y` rounded up.
pub open spec fn ceil_div(x: int, y: int) -> int {
    (x + y - 1) / y
}

/// The leading reserve in sectors: the sector count that holds everything up to the
/// end of the partition-entry array.
pub open spec fn first_usable(h: Seq<u8>, s: u64) -> int {
    ceil_div(table_end(h, s), s as int)
}

/// Number of whole sectors on the device.
pub open spec fn device_sectors(s: u64, dev_len: u64) -> int {
    dev_len as int / s as int
}

/// LBA of the device's last whole sector.
pub open spec fn final_lba(s: u64, dev_len: u64) -> int {
    device_sectors(s, dev_len) - 1
}

/// The leading reserve mirrored before the end of the device.
pub open spec fn last_usable(h: Seq<u8>, s: u64, dev_len: u64) -> int {
    final_lba(s, dev_len) - first_usable(h, s) + 1
}

/// LBA of the backup partition-entry array: the sector after the usable area.
pub open spec fn backup_table_lba(h: Seq<u8>, s: u64, dev_len: u64) -> int {
    last_usable(h, s, dev_len) + 1
}

/// Why the layout of `h` cannot be located, if it cannot.
pub open spec fn span_error(h: Seq<u8>, s: u64) -> Option<GptError> {
    if !header_ok(h) || table_end(h, s) > u64::MAX {
        Some(GptError::NotGptFormatted)
    } else {
        None
    }
}

/// Why the fixup of a device cannot be planned, if it cannot.
pub open spec fn fixup_error(h: Seq<u8>, s: u64, table: Seq<u8>, dev_len: u64) -> Option<GptError> {
    if span_error(h, s) is Some {
        span_error(h, s)
    } else if table.len() != table_len(h) {
        Some(GptError::NotGptFormatted)
    } else if device_sectors(s, dev_len) < 1 || device_sectors(s, dev_len) < first_usable(h, s)
        || backup_table_lba(h, s, dev_len) * s > u64::MAX {
        Some(GptError::IoFailure)
    } else {
        None
    }
}

/// `z` with its header CRC field set to the CRC of `z` itself.
pub open spec fn seal(z: Seq<u8>) -> Seq<u8> {
    put_u32(z, OFF_HEADER_CRC as int, crc32_of(z))
}

/// The stored header CRC matches the CRC of the header with that field zeroed.
pub open spec fn header_crc_ok(img: Seq<u8>) -> bool {
    get_u32(img, OFF_HEADER_CRC as int) == crc32_of(put_u32(img, OFF_HEADER_CRC as int, 0))
}

/// The primary header before sealing: table CRC, backup LBA, usable range and own LBA
/// patched, header CRC zeroed.
pub open spec fn primary_unsealed(h: Seq<u8>, s: u64, table: Seq<u8>, dev_len: u64) -> Seq<u8> {
    put_u32(
        put_u64(
            put_u64(
                put_u64(
                    put_u64(
                        put_u32(h, OFF_ENTRIES_CRC as int, crc32_of(table)),
                        OFF_BACKUP_LBA as int,
                        final_lba(s, dev_len) as u64,
                    ),
                    OFF_FIRST_USABLE as int,
                    first_usable(h, s) as u64,
                ),
                OFF_LAST_USABLE as int,
                last_usable(h, s, dev_len) as u64,
            ),
            OFF_CURRENT_LBA as int,
            1,
        ),
        OFF_HEADER_CRC as int,
        0,
    )
}

/// The primary header as written back.
pub open spec fn primary_image(h: Seq<u8>, s: u64, table: Seq<u8>, dev_len: u64) -> Seq<u8> {
    seal(primary_unsealed(h, s, table, dev_len))
}

/// The backup header before sealing: the primary with its own and the other copy's LBA
/// swapped, pointing at the backup table, header CRC zeroed.
pub open spec fn backup_unsealed(h: Seq<u8>, s: u64, table: Seq<u8>, dev_len: u64) -> Seq<u8> {
    put_u32(
        put_u64(
            put_u64(
                put_u64(
                    primary_image(h, s, table, dev_len),
                    OFF_CURRENT_LBA as int,
                    final_lba(s, dev_len) as u64,
                ),
                OFF_BACKUP_LBA as int,
                1,
            ),
            OFF_ENTRIES_LBA as int,
            backup_table_lba(h, s, dev_len) as u64,
        ),
        OFF_HEADER_CRC as int,
        0,
    )
}

/// The backup header as written back.
pub open spec fn backup_image(h: Seq<u8>, s: u64, table: Seq<u8>, dev_len: u64) -> Seq<u8> {
    seal(backup_unsealed(h, s, table, dev_len))
}

/// The fixed bytes of the protective partition record before its size field:
/// boot indicator, CHS start, type 0xEE, CHS end, first LBA 1.
pub open spec fn mbr_record_head() -> Seq<u8> {
    seq![0x00u8, 0x00u8, 0x02u8, 0x00u8, 0xeeu8, 0xffu8, 0xffu8, 0xffu8, 0x01u8, 0x00u8, 0x00u8, 0x00u8]
}

/// The protective MBR with a sector count of 0xFFFFFFFF.
pub open spec fn mbr_template() -> Seq<u8> {
    Seq::new(
        MBR_LEN as nat,
        |i: int|
            if OFF_MBR_RECORD <= i < OFF_MBR_SIZE {
                mbr_record_head()[i - OFF_MBR_RECORD]
            } else if OFF_MBR_SIZE <= i < OFF_MBR_SIZE + 4 {
                0xffu8
            } else if i == 510 {
                0x55u8
            } else if i == 511 {
                0xaau8
            } else {
                0u8
            },
    )
}

/// The sector count recorded in the protective MBR: the final LBA, capped at 32 bits.
pub open spec fn mbr_sector_count(final_lba: int) -> u32 {
    if final_lba < 0xFFFF_FFFF {
        final_lba as u32
    } else {
        0xFFFF_FFFFu32
    }
}

/// The protective MBR for a device whose last LBA is `final_lba`.
pub open spec fn protective_mbr_image(final_lba: int) -> Seq<u8> {
    put_u32(mbr_template(), OFF_MBR_SIZE as int, mbr_sector_count(final_lba))
}

/// Where the partition-entry array lies on the device, in bytes.
pub struct TableSpan {
    pub start: u64,
    pub len: u64,
}

/// Everything the fixup writes, with where it goes. The primary header goes to
/// `PRIMARY_HEADER_OFFSET` and the protective MBR to offset 0.
pub struct FixupPlan {
    pub primary_header: Vec<u8>,
    pub backup_header: Vec<u8>,
    pub backup_header_offset: u64,
    pub backup_table: Vec<u8>,
    pub backup_table_offset: u64,
    pub protective_mbr: Vec<u8>,
}

/// `x / y` rounded up, without overflow.
pub fn div_ceil(x: u64, y: u64) -> (r: u64)
    requires
        y > 0,
    ensures
        r == ceil_div(x as int, y as int),
{
    let q = x / y;
    let rem = x % y;
    proof {
        let (xi, yi, qi, ri) = (x as int, y as int, q as int, rem as int);
        assert(xi == yi * qi + ri && 0 <= ri < yi) by (nonlinear_arith)
            requires qi == xi / yi, ri == xi % yi, yi > 0;
        if ri == 0 {
            assert((xi + yi - 1) / yi == qi) by (nonlinear_arith)
                requires xi == yi * qi, yi > 0;
        } else {
            assert((xi + yi - 1) / yi == qi + 1) by (nonlinear_arith)
                requires xi == yi * qi + ri, 0 < ri < yi;
            assert(qi < u64::MAX) by (nonlinear_arith)
                requires xi == yi * qi + ri, 0 < ri < yi, xi <= u64::MAX, qi >= 0;
        }
    }
    if rem != 0 {
        q + 1
    } else {
        q
    }
}

/// Checks the header and locates its partition-entry array.
pub fn table_span(header: &Vec<u8>, sector_size: u64) -> (r: Result<TableSpan, GptError>)
    ensures
        match r {
            Ok(sp) => span_error(header@, sector_size) is None && sp.start == table_start(
                header@,
                sector_size,
            ) && sp.len == table_len(header@),
            Err(e) => span_error(header@, sector_size) == Some(e),
        },
{
    if header.len() != HEADER_LEN {
        return Err(GptError::NotGptFormatted);
    }
    let sig: Vec<u8> = vec![0x45u8, 0x46u8, 0x49u8, 0x20u8, 0x50u8, 0x41u8, 0x52u8, 0x54u8];
    let mut i: usize = 0;
    while i < 8
        invariant
            i <= 8,
            header@.len() == HEADER_LEN,
            sig@ == gpt_signature(),
            forall|j: int| 0 <= j < i ==> header@[j] == sig@[j],
        decreases 8 - i,
    {
        if header[i] != sig[i] {
            assert(header@.subrange(0, 8)[i as int] != gpt_signature()[i as int]);
            return Err(GptError::NotGptFormatted);
        }
        i = i + 1;
    }
    assert(header@.subrange(0, 8) =~= gpt_signature());
    let count = read_u32_le(header, OFF_NUM_ENTRIES);
    let size = read_u32_le(header, OFF_ENTRY_SIZE);
    assert(count as int * size as int <= u64::MAX) by (nonlinear_arith)
        requires count <= u32::MAX, size <= u32::MAX;
    let len = count as u64 * size as u64;
    let lba = read_u64_le(header, OFF_ENTRIES_LBA);
    let start = match lba.checked_mul(sector_size) {
        Some(v) => v,
        None => return Err(GptError::NotGptFormatted),
    };
    match start.checked_add(len) {
        Some(_) => Ok(TableSpan { start, len }),
        None => Err(GptError::NotGptFormatted),
    }
}

/// Sets the header CRC field of `buf` (whose field is zero) to the CRC of `buf`.
fn seal_header(buf: &mut Vec<u8>)
    requires
        old(buf)@.len() == HEADER_LEN,
    ensures
        final(buf)@ == seal(old(buf)@),
{
    let crc = crc32(buf.as_slice());
    write_u32_le(buf, OFF_HEADER_CRC, crc);
}

/// The protective MBR for a device whose last LBA is `final_lba`.
pub fn protective_mbr(final_lba: u64) -> (r: Vec<u8>)
    ensures
        r@ == protective_mbr_image(final_lba as int),
{
    let head: Vec<u8> = vec![
        0x00u8, 0x00u8, 0x02u8, 0x00u8, 0xeeu8, 0xffu8, 0xffu8, 0xffu8, 0x01u8, 0x00u8, 0x00u8,
        0x00u8,
    ];
    let mut mbr: Vec<u8> = Vec::new();
    let mut i: usize = 0;
    while i < MBR_LEN
        invariant
            i <= MBR_LEN,
            head@ == mbr_record_head(),
            mbr@ == mbr_template().subrange(0, i as int),
        decreases MBR_LEN - i,
    {
        let b: u8 = if OFF_MBR_RECORD <= i && i < OFF_MBR_SIZE {
            head[i - OFF_MBR_RECORD]
        } else if OFF_MBR_SIZE <= i && i < OFF_MBR_SIZE + 4 {
            0xff
        } else if i == 510 {
            0x55
        } else if i == 511 {
            0xaa
        } else {
            0
        };
        mbr.push(b);
        i = i + 1;
        assert(mbr@ =~= mbr_template().subrange(0, i as int));
    }
    assert(mbr@ =~= mbr_template());
    let count: u32 = if final_lba < 0xFFFF_FFFF {
        final_lba as u32
    } else {
        0xFFFF_FFFF
    };
    write_u32_le(&mut mbr, OFF_MBR_SIZE, count);
    mbr
}

/// Computes every write that makes the GPT describe a device of `dev_len` bytes.
///
/// `header` is what was read at `PRIMARY_HEADER_OFFSET`, `table` what was read
/// where `table_span` points. The backup header goes to the device's last sector,
/// the backup table right after the new last usable LBA, and the protective MBR to
/// LBA 0. A malformed header or a short table gives `NotGptFormatted`; a device too
/// small for the mirrored layout gives `IoFailure`.
pub fn plan_fixup(header: &Vec<u8>, sector_size: u64, table: &Vec<u8>, dev_len: u64) -> (r: Result<
    FixupPlan,
    GptError,
>)
    requires
        sector_size > 0,
    ensures
        match r {
            Ok(p) => {
                &&& fixup_error(header@, sector_size, table@, dev_len) is None
                &&& p.primary_header@ == primary_image(header@, sector_size, table@, dev_len)
                &&& p.backup_header@ == backup_image(header@, sector_size, table@, dev_len)
                &&& p.backup_header_offset == dev_len - sector_size
                &&& p.backup_table@ == table@
                &&& p.backup_table_offset == backup_table_lba(header@, sector_size, dev_len)
                    * sector_size
                &&& p.protective_mbr@ == protective_mbr_image(final_lba(sector_size, dev_len))
            },
            Err(e) => fixup_error(header@, sector_size, table@, dev_len) == Some(e),
        },
{
    let span = match table_span(header, sector_size) {
        Ok(sp) => sp,
        Err(e) => return Err(e),
    };
    if table.len() as u64 != span.len {
        return Err(GptError::NotGptFormatted);
    }
    let first = div_ceil(span.start + span.len, sector_size);
    let sectors = dev_len / sector_size;
    if sectors < 1 || sectors < first {
        return Err(GptError::IoFailure);
    }
    let final_lba = sectors - 1;
    let last = sectors - first;
    let table_lba = match last.checked_add(1) {
        Some(v) => v,
        None => {
            assert((last as int + 1) * sector_size as int > u64::MAX) by (nonlinear_arith)
                requires last as int + 1 > u64::MAX, sector_size >= 1;
            return Err(GptError::IoFailure);
        },
    };
    let table_offset = match table_lba.checked_mul(sector_size) {
        Some(v) => v,
        None => return Err(GptError::IoFailure),
    };
    proof {
        assert(sectors as int * sector_size as int <= dev_len) by (nonlinear_arith)
            requires sectors == dev_len as int / sector_size as int, sector_size > 0;
        assert(sector_size as int <= sectors as int * sector_size as int) by (nonlinear_arith)
            requires sectors >= 1, sector_size > 0;
    }

    let mut primary = header.clone();
    assert(primary@ =~= header@);
    write_u32_le(&mut primary, OFF_ENTRIES_CRC, crc32(table.as_slice()));
    write_u64_le(&mut primary, OFF_BACKUP_LBA, final_lba);
    write_u64_le(&mut primary, OFF_FIRST_USABLE, first);
    write_u64_le(&mut primary, OFF_LAST_USABLE, last);
    write_u64_le(&mut primary, OFF_CURRENT_LBA, 1);
    write_u32_le(&mut primary, OFF_HEADER_CRC, 0);
    seal_header(&mut primary);

    let mut backup = primary.clone();
    assert(backup@ =~= primary@);
    write_u64_le(&mut backup, OFF_CURRENT_LBA, final_lba);
    write_u64_le(&mut backup, OFF_BACKUP_LBA, 1);
    write_u64_le(&mut backup, OFF_ENTRIES_LBA, table_lba);
    write_u32_le(&mut backup, OFF_HEADER_CRC, 0);
    seal_header(&mut backup);

    let backup_table = table.clone();
    assert(backup_table@ =~= table@);
    Ok(FixupPlan {
        primary_header: primary,
        backup_header: backup,
        backup_header_offset: dev_len - sector_size,
        backup_table,
        backup_table_offset: table_offset,
        protective_mbr: protective_mbr(final_lba),
    })
}

/// Sealing a header whose CRC field is zero leaves a header that checks out:
/// its stored CRC is the CRC of the header with that field zeroed again.
proof fn lemma_seal_checks(w: Seq<u8>)
    requires
        w.len() == HEADER_LEN,
    ensures
        header_crc_ok(seal(put_u32(w, OFF_HEADER_CRC as int, 0))),
{
    let z = put_u32(w, OFF_HEADER_CRC as int, 0);
    crate::field::lemma_get_put_u32(z, OFF_HEADER_CRC as int, crc32_of(z));
    assert(put_u32(seal(z), OFF_HEADER_CRC as int, 0) =~= z);
}

/// The fields that locate the partition-entry array, and the signature, are the
/// same in the rebuilt primary header as in the header it was built from.
proof fn lemma_primary_keeps_layout(h: Seq<u8>, s: u64, table: Seq<u8>, dev_len: u64)
    requires
        header_ok(h),
    ensures
        ({
            let p = primary_image(h, s, table, dev_len);
            &&& p.len() == h.len()
            &&& p.subrange(0, 8) == h.subrange(0, 8)
            &&& get_u32(p, OFF_NUM_ENTRIES as int) == get_u32(h, OFF_NUM_ENTRIES as int)
            &&& get_u32(p, OFF_ENTRY_SIZE as int) == get_u32(h, OFF_ENTRY_SIZE as int)
            &&& get_u64(p, OFF_ENTRIES_LBA as int) == get_u64(h, OFF_ENTRIES_LBA as int)
        }),
{
    let p = primary_image(h, s, table, dev_len);
    assert(p.subrange(0, 8) =~= h.subrange(0, 8));
}

/// Both rebuilt headers check out: for each, zeroing the stored header CRC and taking
/// the CRC of the 92 bytes gives the stored value back.
pub proof fn lemma_fixup_headers_check(h: Seq<u8>, s: u64, table: Seq<u8>, dev_len: u64)
    requires
        s > 0,
        fixup_error(h, s, table, dev_len) is None,
    ensures
        header_crc_ok(primary_image(h, s, table, dev_len)),
        header_crc_ok(backup_image(h, s, table, dev_len)),
{
    let p = primary_image(h, s, table, dev_len);
    let wp = put_u64(
        put_u64(
            put_u64(
                put_u64(
                    put_u32(h, OFF_ENTRIES_CRC as int, crc32_of(table)),
                    OFF_BACKUP_LBA as int,
                    final_lba(s, dev_len) as u64,
                ),
                OFF_FIRST_USABLE as int,
                first_usable(h, s) as u64,
            ),
            OFF_LAST_USABLE as int,
            last_usable(h, s, dev_len) as u64,
        ),
        OFF_CURRENT_LBA as int,
        1,
    );
    let wb = put_u64(
        put_u64(put_u64(p, OFF_CURRENT_LBA as int, final_lba(s, dev_len) as u64), OFF_BACKUP_LBA as int, 1),
        OFF_ENTRIES_LBA as int,
        backup_table_lba(h, s, dev_len) as u64,
    );
    lemma_seal_checks(wp);
    lemma_seal_checks(wb);
}

/// The backup header mirrors the primary: its own LBA and the other copy's LBA are
/// swapped, the primary sits at LBA 1 and the backup at the final LBA, and the backup
/// points at the backup partition-entry array.
pub proof fn lemma_fixup_backup_mirrors_primary(h: Seq<u8>, s: u64, table: Seq<u8>, dev_len: u64)
    requires
        s > 0,
        fixup_error(h, s, table, dev_len) is None,
    ensures
        ({
            let p = primary_image(h, s, table, dev_len);
            let b = backup_image(h, s, table, dev_len);
            &&& get_u64(p, OFF_CURRENT_LBA as int) == 1
            &&& get_u64(p, OFF_BACKUP_LBA as int) == final_lba(s, dev_len)
            &&& get_u64(b, OFF_CURRENT_LBA as int) == get_u64(p, OFF_BACKUP_LBA as int)
            &&& get_u64(b, OFF_BACKUP_LBA as int) == get_u64(p, OFF_CURRENT_LBA as int)
            &&& get_u64(b, OFF_ENTRIES_LBA as int) == backup_table_lba(h, s, dev_len)
            &&& get_u64(p, OFF_FIRST_USABLE as int) == first_usable(h, s)
            &&& get_u64(p, OFF_LAST_USABLE as int) == last_usable(h, s, dev_len)
        }),
{
    let p = primary_image(h, s, table, dev_len);
    let b = backup_image(h, s, table, dev_len);
    let f = final_lba(s, dev_len) as u64;
    let t = backup_table_lba(h, s, dev_len);
    assert(t <= u64::MAX) by (nonlinear_arith)
        requires t * s <= u64::MAX, s >= 1, t >= 0;
    assert(device_sectors(s, dev_len) <= u64::MAX) by (nonlinear_arith)
        requires device_sectors(s, dev_len) == dev_len as int / s as int, s >= 1, dev_len <= u64::MAX;
    crate::field::lemma_get_put_u64(h, OFF_CURRENT_LBA as int, 1);
    crate::field::lemma_get_put_u64(h, OFF_BACKUP_LBA as int, f);
    crate::field::lemma_get_put_u64(h, OFF_FIRST_USABLE as int, first_usable(h, s) as u64);
    crate::field::lemma_get_put_u64(h, OFF_LAST_USABLE as int, last_usable(h, s, dev_len) as u64);
    crate::field::lemma_get_put_u64(h, OFF_ENTRIES_LBA as int, backup_table_lba(h, s, dev_len) as u64);
    assert(get_u64(p, OFF_CURRENT_LBA as int) == get_u64(put_u64(h, OFF_CURRENT_LBA as int, 1), OFF_CURRENT_LBA as int));
    assert(get_u64(p, OFF_BACKUP_LBA as int) == get_u64(put_u64(h, OFF_BACKUP_LBA as int, f), OFF_BACKUP_LBA as int));
    assert(get_u64(p, OFF_FIRST_USABLE as int) == get_u64(put_u64(h, OFF_FIRST_USABLE as int, first_usable(h, s) as u64), OFF_FIRST_USABLE as int));
    assert(get_u64(p, OFF_LAST_USABLE as int) == get_u64(put_u64(h, OFF_LAST_USABLE as int, last_usable(h, s, dev_len) as u64), OFF_LAST_USABLE as int));
    assert(get_u64(b, OFF_CURRENT_LBA as int) == get_u64(put_u64(h, OFF_BACKUP_LBA as int, f), OFF_BACKUP_LBA as int));
    assert(get_u64(b, OFF_BACKUP_LBA as int) == get_u64(put_u64(h, OFF_CURRENT_LBA as int, 1), OFF_CURRENT_LBA as int));
    assert(get_u64(b, OFF_ENTRIES_LBA as int) == get_u64(put_u64(h, OFF_ENTRIES_LBA as int, backup_table_lba(h, s, dev_len) as u64), OFF_ENTRIES_LBA as int));
}

/// The protective MBR holds the fixed record with the capped sector count, and the
/// boot signature 55 AA at bytes 510 and 511.
pub proof fn lemma_protective_mbr_layout(final_lba: int)
    ensures
        ({
            let m = protective_mbr_image(final_lba);
            &&& m.len() == MBR_LEN
            &&& m.subrange(OFF_MBR_RECORD as int, OFF_MBR_SIZE as int) == mbr_record_head()
            &&& get_u32(m, OFF_MBR_SIZE as int) == mbr_sector_count(final_lba)
            &&& m[510] == 0x55
            &&& m[511] == 0xaa
        }),
{
    let m = protective_mbr_image(final_lba);
    assert(m.subrange(OFF_MBR_RECORD as int, OFF_MBR_SIZE as int) =~= mbr_record_head());
    crate::field::lemma_get_put_u32(mbr_template(), OFF_MBR_SIZE as int, mbr_sector_count(final_lba));
}

/// Running the fixup a second time, on the device as the first run left it, plans
/// exactly the same writes.
pub proof fn lemma_fixup_idempotent(h: Seq<u8>, s: u64, table: Seq<u8>, dev_len: u64)
    requires
        s > 0,
        fixup_error(h, s, table, dev_len) is None,
    ensures
        ({
            let p = primary_image(h, s, table, dev_len);
            &&& fixup_error(p, s, table, dev_len) is None
            &&& primary_image(p, s, table, dev_len) == p
            &&& backup_image(p, s, table, dev_len) == backup_image(h, s, table, dev_len)
            &&& backup_table_lba(p, s, dev_len) == backup_table_lba(h, s, dev_len)
        }),
{
    let p = primary_image(h, s, table, dev_len);
    lemma_primary_keeps_layout(h, s, table, dev_len);
    assert(table_len(p) == table_len(h));
    assert(table_start(p, s) == table_start(h, s));
    assert(primary_unsealed(p, s, table, dev_len) =~= primary_unsealed(h, s, table, dev_len));
    assert(primary_image(p, s, table, dev_len) == p);
    assert(backup_unsealed(p, s, table, dev_len) =~= backup_unsealed(h, s, table, dev_len));
}

} // verus!
