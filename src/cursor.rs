//! A bounded read/write/seek window over one partition of a device.
//!
//! The cursor keeps the partition's window and the logical position; the caller
//! performs each transfer at the device offset the cursor hands out and reports back
//! how many bytes moved.
use vstd::prelude::*;
use crate::error::GptError;

verus! {

/// One partition as reported by a GPT reader: its index, name, and byte range.
#[derive(Debug, Clone)]
pub struct PartitionEntry {
    pub index: u32,
    pub name: String,
    pub byte_offset: u64,
    pub byte_len: u64,
}

/// Where a seek moves to.
#[derive(Debug, Clone, Copy, PartialEq, Eq, Structural)]
pub enum SeekTarget {
    /// An absolute position.
    Start(u64),
    /// An offset from the end of the partition.
    End(i64),
    /// An offset from the current position.
    Current(i64),
}

/// A transfer to perform: `len` bytes at byte `device_offset` of the device.
#[derive(Debug, Clone, Copy, PartialEq, Eq, Structural)]
pub struct IoSpan {
    pub device_offset: u64,
    pub len: usize,
}

/// What a cursor holds.
pub struct CursorState {
    pub offset: u64,
    pub size: u64,
    pub pos: u64,
    pub part_num: u32,
}

/// A window of `size` bytes at byte `partition_offset` of a device, with a position in
/// `[0, size]`.
#[derive(Debug)]
pub struct GptPartitionCursor {
    partition_offset: u64,
    size: u64,
    pos: u64,
    part_num: u32,
}

impl View for GptPartitionCursor {
    type V = CursorState;

    closed spec fn view(&self) -> CursorState {
        CursorState {
            offset: self.partition_offset,
            size: self.size,
            pos: self.pos,
            part_num: self.part_num,
        }
    }
}

/// ASCII letters folded to lower case; any other character kept.
pub open spec fn ascii_lower(c: char) -> u32 {
    if 'A' <= c && c <= 'Z' {
        (c as u32 + 32) as u32
    } else {
        c as u32
    }
}

/// Two names are equal up to the case of ASCII letters.
pub open spec fn names_match(a: Seq<char>, b: Seq<char>) -> bool {
    a.len() == b.len() && forall|i: int| 0 <= i < a.len() ==> ascii_lower(a[i]) == ascii_lower(b[i])
}

pub open spec fn is_digit(c: char) -> bool {
    '0' <= c && c <= '9'
}

/// The number that a sequence of decimal digits spells.
pub open spec fn digits_value(d: Seq<char>) -> int
    decreases d.len(),
{
    if d.len() == 0 {
        0
    } else {
        digits_value(d.drop_last()) * 10 + (d.last() as int - '0' as int)
    }
}

/// The digits of a decimal number, after an optional leading '+'.
pub open spec fn unsigned_digits(s: Seq<char>) -> Seq<char> {
    if s.len() > 0 && s[0] == '+' {
        s.skip(1)
    } else {
        s
    }
}

/// The value of `s` read as a decimal `u32` (an optional '+', then at least one
/// digit), or `None` when it is not one or does not fit.
pub open spec fn decimal_u32(s: Seq<char>) -> Option<u32> {
    let d = unsigned_digits(s);
    if d.len() > 0 && (forall|i: int| 0 <= i < d.len() ==> is_digit(d[i])) && digits_value(d)
        <= u32::MAX {
        Some(digits_value(d) as u32)
    } else {
        None
    }
}

/// The position of the first partition whose name matches `name`, ignoring ASCII
/// case; failing that, of the first whose index is `name` read as a number.
pub open spec fn lookup_partition(parts: Seq<PartitionEntry>, name: Seq<char>) -> Option<int> {
    if exists|i: int| 0 <= i < parts.len() && names_match(parts[i].name@, name) {
        Some(
            choose|i: int|
                0 <= i < parts.len() && names_match(parts[i].name@, name) && forall|j: int|
                    0 <= j < i ==> !names_match(parts[j].name@, name),
        )
    } else {
        match decimal_u32(name) {
            Some(n) => if exists|i: int| 0 <= i < parts.len() && parts[i].index == n {
                Some(
                    choose|i: int|
                        0 <= i < parts.len() && parts[i].index == n && forall|j: int|
                            0 <= j < i ==> parts[j].index != n,
                )
            } else {
                None
            },
            None => None,
        }
    }
}

/// The number of bytes a transfer of `requested` bytes moves at `pos`.
pub open spec fn span_len(size: u64, pos: u64, requested: int) -> int {
    if requested < size - pos {
        requested
    } else {
        size - pos
    }
}

/// The position a seek asks for, before it is checked against the window.
pub open spec fn seek_goal(size: u64, pos: u64, target: SeekTarget) -> int {
    match target {
        SeekTarget::Start(n) => n as int,
        SeekTarget::End(o) => size + o,
        SeekTarget::Current(o) => pos + o,
    }
}

/// The position a seek ends at, or `None` when the goal lies outside `[0, size]`.
pub open spec fn seek_outcome(size: u64, pos: u64, target: SeekTarget) -> Option<u64> {
    let g = seek_goal(size, pos, target);
    if 0 <= g <= size {
        Some(g as u64)
    } else {
        None
    }
}

fn lower_code(c: char) -> (r: u32)
    ensures
        r == ascii_lower(c),
{
    if 'A' <= c && c <= 'Z' {
        c as u32 + 32
    } else {
        c as u32
    }
}

/// Whether two names are equal up to the case of ASCII letters.
pub fn eq_ignore_ascii_case(a: &str, b: &str) -> (r: bool)
    ensures
        r == names_match(a@, b@),
{
    let n = a.unicode_len();
    if n != b.unicode_len() {
        return false;
    }
    let mut i: usize = 0;
    while i < n
        invariant
            i <= n == a@.len() == b@.len(),
            forall|j: int| 0 <= j < i ==> ascii_lower(a@[j]) == ascii_lower(b@[j]),
        decreases n - i,
    {
        if lower_code(a.get_char(i)) != lower_code(b.get_char(i)) {
            return false;
        }
        i = i + 1;
    }
    true
}

proof fn lemma_digits_value_push(d: Seq<char>, c: char)
    ensures
        digits_value(d.push(c)) == digits_value(d) * 10 + (c as int - '0' as int),
{
    assert(d.push(c).drop_last() =~= d);
}

/// Reads `s` as a decimal `u32`: an optional '+', then at least one digit.
pub fn parse_u32(s: &str) -> (r: Option<u32>)
    ensures
        r == decimal_u32(s@),
{
    let n = s.unicode_len();
    let start: usize = if n > 0 && s.get_char(0) == '+' {
        1
    } else {
        0
    };
    let ghost d = unsigned_digits(s@);
    assert(d =~= s@.subrange(start as int, n as int));
    if start == n {
        return None;
    }
    let mut acc: u64 = 0;
    let mut i: usize = start;
    while i < n
        invariant
            start <= i <= n == s@.len(),
            d == s@.subrange(start as int, n as int),
            d == unsigned_digits(s@),
            forall|j: int| 0 <= j < i - start ==> is_digit(d[j]),
            acc == digits_value(d.subrange(0, i - start)),
            acc <= u32::MAX,
        decreases n - i,
    {
        let c = s.get_char(i);
        if !('0' <= c && c <= '9') {
            assert(!is_digit(d[i - start]));
            assert(!(forall|j: int| 0 <= j < d.len() ==> is_digit(d[j])));
            return None;
        }
        proof {
            assert(d.subrange(0, i - start + 1) =~= d.subrange(0, i - start).push(c));
            lemma_digits_value_push(d.subrange(0, i - start), c);
        }
        acc = acc * 10 + (c as u32 - '0' as u32) as u64;
        i = i + 1;
        if acc > u32::MAX as u64 {
            proof {
                if forall|j: int| 0 <= j < d.len() ==> is_digit(d[j]) {
                    lemma_digits_prefix_bound(d, i - start);
                }
            }
            return None;
        }
    }
    assert(d.subrange(0, n - start) =~= d);
    Some(acc as u32)
}

/// A digit string is worth at least as much as any of its prefixes.
proof fn lemma_digits_prefix_bound(d: Seq<char>, k: int)
    requires
        0 <= k <= d.len(),
        forall|j: int| 0 <= j < d.len() ==> is_digit(d[j]),
    ensures
        digits_value(d) >= digits_value(d.subrange(0, k)),
    decreases d.len() - k,
{
    if k < d.len() {
        lemma_digits_prefix_bound(d, k + 1);
        assert(d.subrange(0, k + 1) =~= d.subrange(0, k).push(d[k]));
        lemma_digits_value_push(d.subrange(0, k), d[k]);
        assert forall|j: int| 0 <= j < k implies is_digit(d.subrange(0, k)[j]) by {
            assert(d.subrange(0, k)[j] == d[j]);
        }
        lemma_digits_nonneg(d.subrange(0, k));
    } else {
        assert(d.subrange(0, k) =~= d);
    }
}

proof fn lemma_digits_nonneg(d: Seq<char>)
    requires
        forall|j: int| 0 <= j < d.len() ==> is_digit(d[j]),
    ensures
        digits_value(d) >= 0,
    decreases d.len(),
{
    if d.len() > 0 {
        assert forall|j: int| 0 <= j < d.len() - 1 implies is_digit(d.drop_last()[j]) by {
            assert(d.drop_last()[j] == d[j]);
        }
        lemma_digits_nonneg(d.drop_last());
        assert(is_digit(d[d.len() - 1]));
    }
}

/// Finds the partition that `partition_name` designates, as `lookup_partition` says.
pub fn find_partition(partitions: &Vec<PartitionEntry>, partition_name: &str) -> (r: Option<usize>)
    ensures
        match r {
            Some(i) => i < partitions@.len() && lookup_partition(partitions@, partition_name@)
                == Some(i as int),
            None => lookup_partition(partitions@, partition_name@) is None,
        },
{
    let mut i: usize = 0;
    while i < partitions.len()
        invariant
            i <= partitions@.len(),
            forall|j: int| 0 <= j < i ==> !names_match(partitions@[j].name@, partition_name@),
        decreases partitions@.len() - i,
    {
        if eq_ignore_ascii_case(partitions[i].name.as_str(), partition_name) {
            assert(names_match(partitions@[i as int].name@, partition_name@));
            return Some(i);
        }
        i = i + 1;
    }
    let n = match parse_u32(partition_name) {
        Some(n) => n,
        None => return None,
    };
    let mut k: usize = 0;
    while k < partitions.len()
        invariant
            k <= partitions@.len(),
            forall|j: int| 0 <= j < partitions@.len() ==> !names_match(partitions@[j].name@, partition_name@),
            forall|j: int| 0 <= j < k ==> partitions@[j].index != n,
            decimal_u32(partition_name@) == Some(n),
        decreases partitions@.len() - k,
    {
        if partitions[k].index == n {
            assert(partitions@[k as int].index == n);
            assert(!exists|j: int|
                0 <= j < partitions@.len() && names_match(partitions@[j].name@, partition_name@));
            let ghost c = choose|j: int|
                0 <= j < partitions@.len() && partitions@[j].index == n && forall|m: int|
                    0 <= m < j ==> partitions@[m].index != n;
            assert(0 <= c < partitions@.len() && partitions@[c].index == n && forall|m: int|
                0 <= m < c ==> partitions@[m].index != n);
            assert(c == k as int);
            return Some(k);
        }
        k = k + 1;
    }
    None
}

impl GptPartitionCursor {
    /// The window lies inside the device's byte range and the position inside the window.
    pub open spec fn wf(&self) -> bool {
        self@.pos <= self@.size && self@.offset + self@.size <= u64::MAX
    }

    /// Opens a cursor on the partition that `partition_name` designates among
    /// `partitions`: the first whose name matches ignoring ASCII case, or else the one
    /// whose index is the name read as a number. `PartitionNotFound` when none does;
    /// `NotGptFormatted` when its byte range runs past the largest offset.
    pub fn new(partitions: &Vec<PartitionEntry>, partition_name: &str) -> (r: Result<Self, GptError>)
        ensures
            match lookup_partition(partitions@, partition_name@) {
                Some(i) => {
                    let e = partitions@[i];
                    if e.byte_offset + e.byte_len <= u64::MAX {
                        &&& r is Ok
                        &&& r->Ok_0.wf()
                        &&& r->Ok_0@ == (CursorState {
                            offset: e.byte_offset,
                            size: e.byte_len,
                            pos: 0,
                            part_num: e.index,
                        })
                    } else {
                        r == Err::<Self, GptError>(GptError::NotGptFormatted)
                    }
                },
                None => r == Err::<Self, GptError>(GptError::PartitionNotFound),
            },
    {
        let i = match find_partition(partitions, partition_name) {
            Some(i) => i,
            None => return Err(GptError::PartitionNotFound),
        };
        let e = &partitions[i];
        if e.byte_len > u64::MAX - e.byte_offset {
            return Err(GptError::NotGptFormatted);
        }
        Ok(GptPartitionCursor {
            partition_offset: e.byte_offset,
            size: e.byte_len,
            pos: 0,
            part_num: e.index,
        })
    }

    /// The index of the partition the cursor is on.
    pub fn part_num(&self) -> (r: u32)
        ensures
            r == self@.part_num,
    {
        self.part_num
    }

    /// The partition's length in bytes.
    pub fn size(&self) -> (r: u64)
        ensures
            r == self@.size,
    {
        self.size
    }

    /// The current position, relative to the partition's start.
    pub fn position(&self) -> (r: u64)
        ensures
            r == self@.pos,
    {
        self.pos
    }

    /// The partition's first byte on the device.
    pub fn partition_offset(&self) -> (r: u64)
        ensures
            r == self@.offset,
    {
        self.partition_offset
    }

    /// Where on the device a read or write of `requested` bytes goes: the request is
    /// clamped to what is left of the window. `None` when nothing is to be moved (the
    /// position is at the end, or nothing was requested): the transfer then reports 0
    /// bytes without touching the device.
    pub fn transfer_span(&self, requested: usize) -> (r: Option<IoSpan>)
        requires
            self.wf(),
        ensures
            span_len(self@.size, self@.pos, requested as int) == 0 ==> r is None,
            span_len(self@.size, self@.pos, requested as int) > 0 ==> r == Some(
                IoSpan {
                    device_offset: (self@.offset + self@.pos) as u64,
                    len: span_len(self@.size, self@.pos, requested as int) as usize,
                },
            ),
    {
        let left = self.size - self.pos;
        let len: usize = if (requested as u64) < left {
            requested
        } else {
            left as usize
        };
        if len == 0 {
            None
        } else {
            Some(IoSpan { device_offset: self.partition_offset + self.pos, len })
        }
    }

    /// Moves the position past `done` bytes that a transfer moved.
    pub fn advance(&mut self, done: usize)
        requires
            old(self).wf(),
            done <= old(self)@.size - old(self)@.pos,
        ensures
            final(self).wf(),
            final(self)@.pos == old(self)@.pos + done,
            final(self)@.offset == old(self)@.offset,
            final(self)@.size == old(self)@.size,
            final(self)@.part_num == old(self)@.part_num,
    {
        self.pos = self.pos + done as u64;
    }

    /// Moves the position to `target`, returning it; `OutOfRangeSeek`, with the
    /// position kept, when that lies outside `[0, size]`.
    pub fn seek(&mut self, target: SeekTarget) -> (r: Result<u64, GptError>)
        requires
            old(self).wf(),
        ensures
            final(self).wf(),
            final(self)@.offset == old(self)@.offset,
            final(self)@.size == old(self)@.size,
            final(self)@.part_num == old(self)@.part_num,
            match seek_outcome(old(self)@.size, old(self)@.pos, target) {
                Some(p) => r == Ok::<u64, GptError>(p) && final(self)@.pos == p,
                None => r == Err::<u64, GptError>(GptError::OutOfRangeSeek) && final(self)@.pos
                    == old(self)@.pos,
            },
    {
        let goal: i128 = match target {
            SeekTarget::Start(n) => n as i128,
            SeekTarget::End(o) => self.size as i128 + o as i128,
            SeekTarget::Current(o) => self.pos as i128 + o as i128,
        };
        if goal < 0 || goal > self.size as i128 {
            return Err(GptError::OutOfRangeSeek);
        }
        self.pos = goal as u64;
        Ok(self.pos)
    }
}

/// The window's bounds: at the end, a transfer moves nothing; seeking to the end
/// succeeds and one past it fails; a transfer of any nonzero length one byte before the
/// end moves exactly one byte and leaves the position at the end.
pub proof fn lemma_cursor_bounds(size: u64, pos: u64, w: int)
    requires
        w >= 0,
    ensures
        span_len(size, size, w) == 0,
        seek_outcome(size, pos, SeekTarget::Start(size)) == Some(size),
        size < u64::MAX ==> seek_outcome(size, pos, SeekTarget::Start((size + 1) as u64)) is None,
        size >= 1 && w >= 1 ==> span_len(size, (size - 1) as u64, w) == 1 && (size - 1) + span_len(
            size,
            (size - 1) as u64,
            w,
        ) == size,
{
}

} // verus!
