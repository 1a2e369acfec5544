//! Read-only view of a dataset as records: a byte source and the start
//! offset of every record in it.

use vstd::prelude::*;
use vstd::slice::slice_subrange;
use vstd::string::StringSliceAdditionalSpecFns;
use vstd::utf8::{
    decode_utf8, decode_utf8_split, encode_utf8, encode_utf8_decode_utf8, encode_utf8_valid_utf8,
    is_char_boundary_iff_not_is_continuation_byte, pop_first_scalar, valid_utf8, valid_utf8_split,
};
use crate::bounds::smaller;
use crate::format::InputFormat;
use crate::text::{stands_alone, str_from_utf8};

verus! {

// ─── Records of a byte sequence ─────────────────────────────────────────────

/// Record start offsets found by looking at the newlines before position `n`:
/// offset 0, and `p + 1` for every newline at `p < n` that is not the last byte.
pub open spec fn starts_upto(bytes: Seq<u8>, n: nat) -> Seq<int>
    decreases n,
{
    if n == 0 {
        seq![0int]
    } else {
        let earlier = starts_upto(bytes, (n - 1) as nat);
        if bytes[n - 1] == 0x0a && n < bytes.len() {
            earlier.push(n as int)
        } else {
            earlier
        }
    }
}

/// Start offset of every record of `bytes`, in increasing order.
pub open spec fn line_starts(bytes: Seq<u8>) -> Seq<int> {
    starts_upto(bytes, bytes.len())
}

/// Number of records of `bytes`: one more than the newlines that have a byte
/// after them.
pub open spec fn record_count(bytes: Seq<u8>) -> nat {
    line_starts(bytes).len()
}

/// Offset just past record `i`: the newline that ends it, or the end of the
/// bytes for the last record.
pub open spec fn record_end(bytes: Seq<u8>, i: int) -> int {
    if i + 1 < record_count(bytes) {
        line_starts(bytes)[i + 1] - 1
    } else {
        bytes.len() as int
    }
}

/// The bytes of record `i`, without the newline that separates it from the next.
pub open spec fn record(bytes: Seq<u8>, i: int) -> Seq<u8> {
    bytes.subrange(line_starts(bytes)[i], record_end(bytes, i))
}

/// Length of the line that record `i` reads as: the length of its bytes when
/// they are valid UTF-8, zero when the record is absent.
pub open spec fn line_len(bytes: Seq<u8>, i: int) -> nat {
    if valid_utf8(record(bytes, i)) {
        record(bytes, i).len()
    } else {
        0
    }
}

/// Sum of the record lengths of the first `n` records.
pub open spec fn records_len(bytes: Seq<u8>, n: nat) -> nat
    decreases n,
{
    if n == 0 {
        0
    } else {
        records_len(bytes, (n - 1) as nat) + record(bytes, n - 1).len()
    }
}

/// Sum of the line lengths of the first `n` records.
pub open spec fn lines_len(bytes: Seq<u8>, n: nat) -> nat
    decreases n,
{
    if n == 0 {
        0
    } else {
        lines_len(bytes, (n - 1) as nat) + line_len(bytes, n - 1)
    }
}

/// Shape of the start offsets found before position `n`.
pub proof fn lemma_starts_upto(bytes: Seq<u8>, n: nat)
    requires
        n <= bytes.len(),
    ensures
        starts_upto(bytes, n).len() >= 1,
        starts_upto(bytes, n)[0] == 0,
        forall|i: int|
            0 <= i < starts_upto(bytes, n).len() ==> 0 <= #[trigger] starts_upto(bytes, n)[i] <= n,
        forall|i: int|
            1 <= i < starts_upto(bytes, n).len() ==> (#[trigger] starts_upto(bytes, n)[i])
                < bytes.len() && bytes[starts_upto(bytes, n)[i] - 1] == 0x0a,
        forall|i: int, j: int|
            0 <= i < j < starts_upto(bytes, n).len() ==> (#[trigger] starts_upto(bytes, n)[i])
                < #[trigger] starts_upto(bytes, n)[j],
    decreases n,
{
    if n > 0 {
        lemma_starts_upto(bytes, (n - 1) as nat);
    }
}

/// The data-model invariant of the offsets: the first is zero, they increase
/// strictly, and the last does not pass the end of the bytes.
pub proof fn lemma_line_starts_invariant(bytes: Seq<u8>)
    ensures
        record_count(bytes) >= 1,
        line_starts(bytes)[0] == 0,
        forall|i: int, j: int|
            0 <= i < j < record_count(bytes) ==> (#[trigger] line_starts(bytes)[i])
                < #[trigger] line_starts(bytes)[j],
        forall|i: int|
            0 <= i < record_count(bytes) ==> 0 <= #[trigger] line_starts(bytes)[i] <= bytes.len(),
        forall|i: int|
            0 <= i < record_count(bytes) ==> line_starts(bytes)[i] <= #[trigger] record_end(
                bytes,
                i,
            ) <= bytes.len(),
{
    lemma_starts_upto(bytes, bytes.len());
    assert forall|i: int| 0 <= i < record_count(bytes) implies line_starts(bytes)[i]
        <= #[trigger] record_end(bytes, i) <= bytes.len() by {
        if i + 1 < record_count(bytes) {
            assert(line_starts(bytes)[i] < line_starts(bytes)[i + 1]);
        }
    }
}

/// The records and the newlines between them make up all of the bytes.
pub proof fn lemma_records_cover(bytes: Seq<u8>)
    ensures
        records_len(bytes, record_count(bytes)) + record_count(bytes) - 1 == bytes.len(),
{
    lemma_line_starts_invariant(bytes);
    lemma_records_prefix(bytes, (record_count(bytes) - 1) as nat);
}

proof fn lemma_records_prefix(bytes: Seq<u8>, n: nat)
    requires
        n < record_count(bytes),
    ensures
        records_len(bytes, n) + n == line_starts(bytes)[n as int],
    decreases n,
{
    lemma_line_starts_invariant(bytes);
    if n > 0 {
        lemma_records_prefix(bytes, (n - 1) as nat);
        assert(record_end(bytes, n - 1) == line_starts(bytes)[n as int] - 1);
    }
}

proof fn lemma_lines_len_bound(bytes: Seq<u8>, n: nat)
    ensures
        lines_len(bytes, n) <= records_len(bytes, n),
        lines_len(bytes, n) == records_len(bytes, n) <==> forall|i: int|
            0 <= i < n ==> valid_utf8(#[trigger] record(bytes, i)),
    decreases n,
{
    if n > 0 {
        lemma_lines_len_bound(bytes, (n - 1) as nat);
        let last = record(bytes, n - 1);
        if !valid_utf8(last) {
            assert(last.len() > 0);
        }
    }
}

/// The lengths of the lines that can be read, plus one newline between each
/// two records, never exceed the length of the bytes, and reach it exactly
/// when every record is valid UTF-8.
pub proof fn lemma_lines_within_bytes(bytes: Seq<u8>)
    ensures
        lines_len(bytes, record_count(bytes)) + record_count(bytes) - 1 <= bytes.len(),
        lines_len(bytes, record_count(bytes)) + record_count(bytes) - 1 == bytes.len()
            <==> forall|i: int|
            0 <= i < record_count(bytes) ==> valid_utf8(#[trigger] record(bytes, i)),
{
    lemma_records_cover(bytes);
    lemma_lines_len_bound(bytes, record_count(bytes));
}

/// The part of a valid text between two places that are each the start
/// of the text, its end, or next to a newline is valid text.
proof fn lemma_valid_between_newlines(bytes: Seq<u8>, a: int, b: int)
    requires
        valid_utf8(bytes),
        0 <= a <= b <= bytes.len(),
        a == 0 || bytes[a - 1] == 0x0a,
        b == bytes.len() || bytes[b] == 0x0a,
    ensures
        valid_utf8(bytes.subrange(a, b)),
{
    let tail = bytes.subrange(a, bytes.len() as int);
    if a == 0 {
        assert(tail =~= bytes);
    } else {
        is_char_boundary_iff_not_is_continuation_byte(bytes, a - 1);
        valid_utf8_split(bytes, a - 1);
        let from_newline = bytes.subrange(a - 1, bytes.len() as int);
        assert(from_newline[0] == 0x0a);
        assert(pop_first_scalar(from_newline) =~= tail);
    }
    if b == bytes.len() {
        assert(tail.subrange(0, b - a) =~= tail);
    } else {
        assert(tail[b - a] == 0x0a);
        is_char_boundary_iff_not_is_continuation_byte(tail, b - a);
        valid_utf8_split(tail, b - a);
    }
    assert(tail.subrange(0, b - a) =~= bytes.subrange(a, b));
}

/// Every record of a valid text is valid text: a newline never lies inside
/// the encoding of a character.
pub proof fn lemma_records_valid(bytes: Seq<u8>)
    requires
        valid_utf8(bytes),
    ensures
        forall|i: int| 0 <= i < record_count(bytes) ==> valid_utf8(#[trigger] record(bytes, i)),
{
    lemma_line_starts_invariant(bytes);
    lemma_starts_upto(bytes, bytes.len());
    assert forall|i: int| 0 <= i < record_count(bytes) implies valid_utf8(
        #[trigger] record(bytes, i),
    ) by {
        if i + 1 < record_count(bytes) {
            assert(bytes[line_starts(bytes)[i + 1] - 1] == 0x0a);
        }
        lemma_valid_between_newlines(bytes, line_starts(bytes)[i], record_end(bytes, i));
    }
}

/// Over a valid text every line can be read, and the lengths of the lines
/// plus one newline between each two records are the length of the text.
pub proof fn lemma_lines_cover_valid_text(bytes: Seq<u8>)
    requires
        valid_utf8(bytes),
    ensures
        lines_len(bytes, record_count(bytes)) + record_count(bytes) - 1 == bytes.len(),
{
    lemma_records_valid(bytes);
    lemma_lines_within_bytes(bytes);
}

/// Scan `data` once and return the start offset of every record.
pub fn build_line_offsets(data: &[u8]) -> (offsets: Vec<usize>)
    ensures
        offsets@.len() == record_count(data@),
        forall|i: int| 0 <= i < offsets@.len() ==> offsets@[i] == line_starts(data@)[i],
{
    let mut offsets: Vec<usize> = Vec::new();
    offsets.push(0);
    let len: usize = data.len();
    let mut i: usize = 0;
    while i < len
        invariant
            i <= len,
            len == data@.len(),
            offsets@.len() == starts_upto(data@, i as nat).len(),
            forall|k: int|
                0 <= k < offsets@.len() ==> offsets@[k] == starts_upto(data@, i as nat)[k],
        decreases len - i,
    {
        if data[i] == 0x0a && i + 1 < len {
            offsets.push(i + 1);
        }
        i = i + 1;
    }
    offsets
}

// ─── Byte sources ───────────────────────────────────────────────────────────

#[verifier::external_type_specification]
#[verifier::external_body]
pub struct ExMmap(memmap2::Mmap);

/// The bytes that a read-only file mapping holds.
pub uninterp spec fn mapped_bytes(map: memmap2::Mmap) -> Seq<u8>;

/// `Deref` of `memmap2::Mmap`: the mapped region as a byte slice. Whoever
/// created the mapping vouches that the file stays as it is while mapped, so
/// the slice is the same at every call.
#[verifier::external_body]
fn mmap_as_bytes(map: &memmap2::Mmap) -> (bytes: &[u8])
    ensures
        bytes@ == mapped_bytes(*map),
{
    &map[..]
}

/// Where the bytes of a dataset live.
enum DataStorage {
    /// Read-only mapping of a file.
    Mmap(memmap2::Mmap),
    /// Buffer owned by the dataset.
    InMemory(Vec<u8>),
}

impl DataStorage {
    spec fn bytes(&self) -> Seq<u8> {
        match self {
            DataStorage::Mmap(map) => mapped_bytes(*map),
            DataStorage::InMemory(buffer) => buffer@,
        }
    }

    fn as_bytes(&self) -> (bytes: &[u8])
        ensures
            bytes@ == self.bytes(),
    {
        match self {
            DataStorage::Mmap(map) => mmap_as_bytes(map),
            DataStorage::InMemory(buffer) => buffer.as_slice(),
        }
    }
}

/// A byte source together with the start offset of each of its records.
pub struct Storage {
    source: DataStorage,
    line_offsets: Vec<usize>,
}

impl Storage {
    #[verifier::type_invariant]
    spec fn inv(self) -> bool {
        &&& self.line_offsets@.len() == record_count(self.source.bytes())
        &&& forall|i: int|
            0 <= i < self.line_offsets@.len() ==> self.line_offsets@[i] == line_starts(
                self.source.bytes(),
            )[i]
    }

    /// The bytes of the source.
    pub closed spec fn bytes(&self) -> Seq<u8> {
        self.source.bytes()
    }

    fn index(source: DataStorage) -> (storage: Self)
        ensures
            storage.bytes() == source.bytes(),
    {
        let line_offsets = build_line_offsets(source.as_bytes());
        Storage { source, line_offsets }
    }

    /// Index an owned buffer.
    pub fn from_buffer(buffer: Vec<u8>) -> (storage: Self)
        ensures
            storage.bytes() == buffer@,
    {
        Storage::index(DataStorage::InMemory(buffer))
    }

    /// Index a read-only file mapping.
    pub fn from_mmap(map: memmap2::Mmap) -> (storage: Self)
        ensures
            storage.bytes() == mapped_bytes(map),
    {
        Storage::index(DataStorage::Mmap(map))
    }

    /// The whole source as one slice.
    pub fn as_bytes(&self) -> (bytes: &[u8])
        ensures
            bytes@ == self.bytes(),
    {
        self.source.as_bytes()
    }

    /// Number of bytes of the source.
    pub fn len(&self) -> (len: usize)
        ensures
            len == self.bytes().len(),
    {
        self.source.as_bytes().len()
    }

    /// Number of records.
    pub fn line_count(&self) -> (count: usize)
        ensures
            count == record_count(self.bytes()),
            count >= 1,
    {
        proof {
            use_type_invariant(self);
            lemma_line_starts_invariant(self.bytes());
        }
        self.line_offsets.len()
    }

    /// The bytes of record `index`, if there is such a record.
    pub fn record_bytes(&self, index: usize) -> (bytes: Option<&[u8]>)
        ensures
            bytes is Some <==> index < record_count(self.bytes()),
            bytes is Some ==> bytes->Some_0@ == record(self.bytes(), index as int),
    {
        proof {
            use_type_invariant(self);
            lemma_line_starts_invariant(self.bytes());
        }
        if index >= self.line_offsets.len() {
            return None;
        }
        let data = self.source.as_bytes();
        let start: usize = self.line_offsets[index];
        let end: usize = if index + 1 < self.line_offsets.len() {
            self.line_offsets[index + 1] - 1
        } else {
            data.len()
        };
        proof {
            assert(end == record_end(self.bytes(), index as int));
        }
        Some(slice_subrange(data, start, end))
    }

    /// Record `index` as text: absent when there is no such record or when
    /// its bytes are not valid UTF-8.
    pub fn get_line(&self, index: usize) -> (line: Option<&str>)
        ensures
            line is Some <==> index < record_count(self.bytes()) && valid_utf8(
                record(self.bytes(), index as int),
            ),
            line is Some ==> line->Some_0.spec_bytes() == record(self.bytes(), index as int),
    {
        match self.record_bytes(index) {
            Some(bytes) => str_from_utf8(bytes),
            None => None,
        }
    }
}

// ─── Dataset ────────────────────────────────────────────────────────────────

/// The lines among records `from .. to` that can be read, as bytes, in order.
pub open spec fn present_lines(bytes: Seq<u8>, from: int, to: int) -> Seq<Seq<u8>>
    decreases to - from,
{
    if from >= to {
        Seq::empty()
    } else {
        let earlier = present_lines(bytes, from, to - 1);
        if valid_utf8(record(bytes, to - 1)) {
            earlier.push(record(bytes, to - 1))
        } else {
            earlier
        }
    }
}

/// Dataset: indexed storage with a display path, a size in bytes and the
/// format it was read from.
pub struct Dataset {
    /// The bytes and their record offsets.
    pub storage: Storage,
    /// Path for display.
    pub path: String,
    /// Size in bytes.
    pub size: u64,
    /// Format of the source.
    pub format: InputFormat,
}

/// The bytes of the first `n` lines, a newline between each two.
pub open spec fn joined_lines(lines: Seq<String>, n: nat) -> Seq<u8>
    decreases n,
{
    if n == 0 {
        Seq::empty()
    } else if n == 1 {
        encode_utf8(lines[0]@)
    } else {
        joined_lines(lines, (n - 1) as nat).push(0x0a) + encode_utf8(lines[n - 1]@)
    }
}

/// Whether a line can stand as one record: its bytes hold no newline.
pub open spec fn single_line(line: Seq<char>) -> bool {
    forall|k: int| 0 <= k < encode_utf8(line).len() ==> encode_utf8(line)[k] != 0x0a
}

/// Whether the first `n` lines can stand as `n` records: there is a line,
/// none holds a newline, and the last one is not empty unless it is the
/// only one.
pub open spec fn lines_stand_as_records(lines: Seq<String>, n: nat) -> bool {
    &&& 1 <= n <= lines.len()
    &&& forall|i: int| 0 <= i < n ==> single_line(#[trigger] lines[i]@)
    &&& n > 1 ==> encode_utf8(lines[n - 1]@).len() > 0
}

/// No record starts where there is no newline.
proof fn lemma_starts_stable(bytes: Seq<u8>, from: nat, to: nat)
    requires
        from <= to <= bytes.len(),
        forall|k: int| from <= k < to ==> bytes[k] != 0x0a,
    ensures
        starts_upto(bytes, to) == starts_upto(bytes, from),
    decreases to,
{
    if from < to {
        lemma_starts_stable(bytes, from, (to - 1) as nat);
    }
}

/// The first `k` lines joined are the start of the first `n` lines joined.
proof fn lemma_joined_prefix(lines: Seq<String>, k: nat, n: nat)
    requires
        1 <= k <= n,
    ensures
        joined_lines(lines, k).len() <= joined_lines(lines, n).len(),
        k < n ==> joined_lines(lines, k).len() < joined_lines(lines, n).len(),
        forall|j: int|
            0 <= j < joined_lines(lines, k).len() ==> joined_lines(lines, n)[j] == joined_lines(
                lines,
                k,
            )[j],
    decreases n,
{
    if k < n {
        lemma_joined_prefix(lines, k, (n - 1) as nat);
    }
}

/// What the first `k + 1` lines joined hold after the first `k`: a
/// newline, then the bytes of line `k`.
proof fn lemma_joined_step(lines: Seq<String>, k: nat)
    requires
        1 <= k,
    ensures
        joined_lines(lines, k + 1).len() == joined_lines(lines, k).len() + 1 + encode_utf8(
            lines[k as int]@,
        ).len(),
        joined_lines(lines, k + 1)[joined_lines(lines, k).len() as int] == 0x0a,
        forall|j: int|
            0 <= j < encode_utf8(lines[k as int]@).len() ==> joined_lines(lines, k + 1)[joined_lines(
                lines,
                k,
            ).len() + 1 + j] == encode_utf8(lines[k as int]@)[j],
{
}

/// The record starts found in the first `n` lines joined, up to the end
/// of line `k - 1`: the start of each of the first `k` lines.
proof fn lemma_joined_starts(lines: Seq<String>, k: nat, n: nat)
    requires
        lines_stand_as_records(lines, n),
        1 <= k <= n,
    ensures
        joined_lines(lines, k).len() <= joined_lines(lines, n).len(),
        starts_upto(joined_lines(lines, n), joined_lines(lines, k).len()).len() == k,
        starts_upto(joined_lines(lines, n), joined_lines(lines, k).len())[0] == 0,
        forall|j: int|
            1 <= j < k ==> #[trigger] starts_upto(
                joined_lines(lines, n),
                joined_lines(lines, k).len(),
            )[j] == joined_lines(lines, j as nat).len() + 1,
    decreases k,
{
    let all = joined_lines(lines, n);
    let end = joined_lines(lines, k).len();
    lemma_joined_prefix(lines, k, n);
    if k == 1 {
        assert(single_line(lines[0]@));
        lemma_starts_stable(all, 0, end);
    } else {
        let before = joined_lines(lines, (k - 1) as nat).len();
        lemma_joined_starts(lines, (k - 1) as nat, n);
        lemma_joined_step(lines, (k - 1) as nat);
        assert(single_line(lines[k - 1]@));
        assert(all[before as int] == 0x0a);
        assert(before + 1 < all.len()) by {
            if k < n {
                lemma_joined_prefix(lines, k + 1, n);
                lemma_joined_step(lines, k);
            }
        }
        assert(starts_upto(all, before + 1) == starts_upto(all, before).push(before + 1 as int));
        assert forall|j: int| before + 1 <= j < end implies all[j] != 0x0a by {
            assert(all[j] == encode_utf8(lines[k - 1]@)[j - before - 1]);
        }
        lemma_starts_stable(all, before + 1, end);
    }
}

/// Lines that can stand as records are the records of the lines joined:
/// there are as many records as lines, and each record holds the bytes of
/// its line, so every line can be read back.
pub proof fn lemma_lines_are_records(lines: Seq<String>, n: nat)
    requires
        lines_stand_as_records(lines, n),
    ensures
        record_count(joined_lines(lines, n)) == n,
        forall|i: int|
            0 <= i < n ==> #[trigger] record(joined_lines(lines, n), i) == encode_utf8(lines[i]@),
        forall|i: int| 0 <= i < n ==> valid_utf8(#[trigger] record(joined_lines(lines, n), i)),
{
    let all = joined_lines(lines, n);
    lemma_joined_starts(lines, n, n);
    assert forall|i: int| 0 <= i < n implies #[trigger] record(all, i) == encode_utf8(
        lines[i]@,
    ) by {
        let line = encode_utf8(lines[i]@);
        let start = line_starts(all)[i];
        let end = record_end(all, i);
        lemma_joined_prefix(lines, (i + 1) as nat, n);
        if i > 0 {
            lemma_joined_step(lines, i as nat);
        }
        assert(end == joined_lines(lines, (i + 1) as nat).len());
        assert(end - start == line.len());
        assert forall|j: int| 0 <= j < line.len() implies all[start + j] == line[j] by {
            assert(all[start + j] == joined_lines(lines, (i + 1) as nat)[start + j]);
        }
        assert(all.subrange(start, end) =~= line);
    }
    assert forall|i: int| 0 <= i < n implies valid_utf8(#[trigger] record(all, i)) by {
        encode_utf8_valid_utf8(lines[i]@);
    }
}

/// The bytes of a line without a newline character hold no newline byte.
proof fn lemma_no_newline_byte(line: Seq<char>)
    requires
        forall|k: int| 0 <= k < line.len() ==> line[k] != '\n',
    ensures
        single_line(line),
{
    let bytes = encode_utf8(line);
    encode_utf8_valid_utf8(line);
    encode_utf8_decode_utf8(line);
    assert forall|k: int| 0 <= k < bytes.len() implies bytes[k] != 0x0a by {
        if bytes[k] == 0x0a {
            is_char_boundary_iff_not_is_continuation_byte(bytes, k);
            valid_utf8_split(bytes, k);
            decode_utf8_split(bytes, k);
            let head = bytes.subrange(0, k);
            let tail = bytes.subrange(k, bytes.len() as int);
            assert(tail[0] == 0x0a);
            assert(0x0au8 & 0x7f == 0x0a) by (bit_vector);
            assert(decode_utf8(tail)[0] == '\n');
            assert(line[decode_utf8(head).len() as int] == '\n');
        }
    }
}

/// Lines that stand alone are the records of the lines joined: there are
/// as many records as lines, and each record reads back as its line.
pub proof fn lemma_standing_lines_are_records(lines: Seq<String>)
    requires
        lines.len() >= 1,
        forall|i: int| 0 <= i < lines.len() ==> stands_alone(#[trigger] lines[i]@),
    ensures
        record_count(joined_lines(lines, lines.len())) == lines.len(),
        forall|i: int|
            0 <= i < lines.len() ==> #[trigger] record(joined_lines(lines, lines.len()), i)
                == encode_utf8(lines[i]@),
        forall|i: int|
            0 <= i < lines.len() ==> valid_utf8(
                #[trigger] record(joined_lines(lines, lines.len()), i),
            ),
{
    assert forall|i: int| 0 <= i < lines.len() implies single_line(#[trigger] lines[i]@) by {
        assert(stands_alone(lines[i]@));
        lemma_no_newline_byte(lines[i]@);
    }
    let last = lines[lines.len() - 1]@;
    assert(stands_alone(last));
    assert(last.len() > 0);
    assert(encode_utf8(last).len() > 0);
    lemma_lines_are_records(lines, lines.len());
}

impl Dataset {
    /// The bytes of the dataset.
    pub open spec fn bytes(&self) -> Seq<u8> {
        self.storage.bytes()
    }

    /// A dataset over an owned buffer of line-delimited records.
    pub fn from_bytes(buffer: Vec<u8>, path: String, format: InputFormat) -> (dataset: Self)
        ensures
            dataset.bytes() == buffer@,
            dataset.path == path,
            dataset.size == buffer@.len(),
            dataset.format == format,
    {
        let size: u64 = buffer.len() as u64;
        Dataset { storage: Storage::from_buffer(buffer), path, size, format }
    }

    /// A dataset over lines of text: its bytes are the lines with a newline
    /// between each two.
    pub fn from_lines(lines: &Vec<String>, path: String, format: InputFormat) -> (dataset: Self)
        ensures
            dataset.bytes() == joined_lines(lines@, lines@.len()),
            dataset.path == path,
            dataset.size == dataset.bytes().len(),
            dataset.format == format,
    {
        let mut buffer: Vec<u8> = Vec::new();
        let mut i: usize = 0;
        while i < lines.len()
            invariant
                i <= lines@.len(),
                buffer@ == joined_lines(lines@, i as nat),
            decreases lines@.len() - i,
        {
            if i > 0 {
                buffer.push(0x0au8);
            }
            let ghost before = buffer@;
            buffer.extend_from_slice(lines[i].as_str().as_bytes());
            proof {
                if i == 0 {
                    assert(Seq::<u8>::empty() + encode_utf8(lines@[0]@) =~= encode_utf8(
                        lines@[0]@,
                    ));
                }
            }
            i = i + 1;
        }
        Dataset::from_bytes(buffer, path, format)
    }

    /// A dataset over a read-only mapping of a line-delimited file of `size` bytes.
    pub fn from_mmap(map: memmap2::Mmap, path: String, size: u64) -> (dataset: Self)
        ensures
            dataset.bytes() == mapped_bytes(map),
            dataset.path == path,
            dataset.size == size,
            dataset.format == InputFormat::Jsonl,
    {
        Dataset { storage: Storage::from_mmap(map), path, size, format: InputFormat::Jsonl }
    }

    /// Total number of records.
    pub fn line_count(&self) -> (count: usize)
        ensures
            count == record_count(self.bytes()),
            count >= 1,
    {
        self.storage.line_count()
    }

    /// Record `index` as text, in constant time and without copying: absent
    /// when the index is out of bounds or the bytes are not valid UTF-8.
    pub fn get_line(&self, index: usize) -> (line: Option<&str>)
        ensures
            line is Some <==> index < record_count(self.bytes()) && valid_utf8(
                record(self.bytes(), index as int),
            ),
            line is Some ==> line->Some_0.spec_bytes() == record(self.bytes(), index as int),
    {
        self.storage.get_line(index)
    }

    /// The records `start .. start + count` that exist and can be read, in order.
    pub fn get_lines(&self, start: usize, count: usize) -> (lines: Vec<&str>)
        ensures
            lines@.len() == present_lines(
                self.bytes(),
                start as int,
                smaller(start + count, record_count(self.bytes()) as int),
            ).len(),
            forall|k: int|
                0 <= k < lines@.len() ==> (#[trigger] lines@[k]).spec_bytes() == present_lines(
                    self.bytes(),
                    start as int,
                    smaller(start + count, record_count(self.bytes()) as int),
                )[k],
    {
        let total: usize = self.line_count();
        let end: usize = if count <= total && start <= total - count {
            start + count
        } else {
            total
        };
        let mut lines: Vec<&str> = Vec::new();
        let mut i: usize = start;
        while i < end
            invariant
                end <= total,
                total == record_count(self.bytes()),
                start <= i <= end || end <= start == i,
                lines@.len() == present_lines(self.bytes(), start as int, i as int).len(),
                forall|k: int|
                    0 <= k < lines@.len() ==> (#[trigger] lines@[k]).spec_bytes() == present_lines(
                        self.bytes(),
                        start as int,
                        i as int,
                    )[k],
            decreases end - i,
        {
            match self.get_line(i) {
                Some(line) => {
                    lines.push(line);
                },
                None => {},
            }
            i = i + 1;
        }
        lines
    }

    /// Name of the format, for display.
    pub fn format_name(&self) -> (name: &'static str)
        ensures
            name@ == match self.format {
                InputFormat::Jsonl => "JSONL"@,
                InputFormat::Parquet => "Parquet"@,
                InputFormat::Csv => "CSV"@,
            },
    {
        match self.format {
            InputFormat::Jsonl => "JSONL",
            InputFormat::Parquet => "Parquet",
            InputFormat::Csv => "CSV",
        }
    }
}

} // verus!
