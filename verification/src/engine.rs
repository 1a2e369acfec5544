//! Duplicate detection: a compact bit mask, 64-bit fingerprints, the
//! similarity hasher, the content extractor, and the two-phase scan that
//! builds the canonical map of a dataset.

use vstd::prelude::*;
use vstd::slice::slice_subrange;
use vstd::utf8::valid_utf8;
use std::collections::HashMap;
use rayon::iter::{IntoParallelIterator, ParallelIterator};
use crate::bits::{
    bit_is_set, lemma_and_reads_one_bit, lemma_masked_popcount, lemma_ones_below_bound,
    lemma_or_sets_one_bit, lemma_popcount_xor_self, lemma_zero_has_no_bits, low_mask, ones_below,
    popcount,
};
use crate::canonical::{canonical, indexed, is_match, lemma_canonical_map, lemma_first_match_skip};
use crate::data::{Dataset, record, record_count};
use crate::text::{decimal, push_decimal, push_str, str_from_utf8};

verus! {

// ─── BitMask ────────────────────────────────────────────────────────────────

/// Compact bit vector, 64 positions per word, all clear when created.
pub struct BitMask {
    words: Vec<u64>,
    len: usize,
}

/// Number of `true` entries of a sequence of flags.
pub open spec fn count_true(flags: Seq<bool>) -> nat
    decreases flags.len(),
{
    if flags.len() == 0 {
        0
    } else {
        count_true(flags.drop_last()) + if flags.last() {
            1nat
        } else {
            0nat
        }
    }
}

/// Bit `i` of a sequence of words, 64 positions per word.
pub open spec fn word_bit(words: Seq<u64>, i: nat) -> bool {
    bit_is_set(words[(i / 64) as int], i % 64)
}

/// Number of set positions below `n` in a sequence of words.
pub open spec fn set_below(words: Seq<u64>, n: nat) -> nat
    decreases n,
{
    if n == 0 {
        0
    } else {
        set_below(words, (n - 1) as nat) + if word_bit(words, (n - 1) as nat) {
            1nat
        } else {
            0nat
        }
    }
}

proof fn lemma_set_below_bound(words: Seq<u64>, n: nat)
    ensures
        set_below(words, n) <= n,
    decreases n,
{
    if n > 0 {
        lemma_set_below_bound(words, (n - 1) as nat);
    }
}

proof fn lemma_set_below_monotone(words: Seq<u64>, m: nat, n: nat)
    requires
        m <= n,
    ensures
        set_below(words, m) <= set_below(words, n),
    decreases n,
{
    if m < n {
        lemma_set_below_monotone(words, m, (n - 1) as nat);
    }
}

/// One whole word adds its population count.
proof fn lemma_set_below_word(words: Seq<u64>, k: nat, j: nat)
    requires
        j <= 64,
    ensures
        set_below(words, 64 * k + j) == set_below(words, 64 * k) + ones_below(words[k as int], j),
    decreases j,
{
    if j > 0 {
        lemma_set_below_word(words, k, (j - 1) as nat);
        let i = (64 * k + j - 1) as nat;
        assert(i / 64 == k);
        assert(i % 64 == j - 1);
    }
}

/// Counting the flags of the first `n` positions is counting set positions.
proof fn lemma_count_true_is_set_below(words: Seq<u64>, flags: Seq<bool>, n: nat)
    requires
        n <= flags.len(),
        forall|i: int| 0 <= i < flags.len() ==> flags[i] == word_bit(words, i as nat),
    ensures
        count_true(flags.take(n as int)) == set_below(words, n),
    decreases n,
{
    if n > 0 {
        lemma_count_true_is_set_below(words, flags, (n - 1) as nat);
        assert(flags.take(n as int).drop_last() =~= flags.take(n - 1));
    }
}

/// A count of flags never exceeds their number.
pub proof fn lemma_count_true_bound(flags: Seq<bool>)
    ensures
        count_true(flags) <= flags.len(),
    decreases flags.len(),
{
    if flags.len() > 0 {
        lemma_count_true_bound(flags.drop_last());
    }
}

impl View for BitMask {
    type V = Seq<bool>;

    /// The tracked positions, in order: `true` where the bit is set.
    closed spec fn view(&self) -> Seq<bool> {
        Seq::new(self.len as nat, |i: int| word_bit(self.words@, i as nat))
    }
}

impl BitMask {
    #[verifier::type_invariant]
    spec fn inv(self) -> bool {
        self.len <= self.words@.len() * 64 < self.len + 64
    }

    /// Create a mask of `len` positions with all bits cleared.
    pub fn new(len: usize) -> (mask: Self)
        ensures
            mask@.len() == len,
            forall|i: int| 0 <= i < len ==> !mask@[i],
    {
        let word_count: usize = len / 64 + if len % 64 == 0 {
            0
        } else {
            1
        };
        let mut words: Vec<u64> = Vec::new();
        let mut k: usize = 0;
        while k < word_count
            invariant
                k <= word_count,
                words@.len() == k,
                forall|j: int| 0 <= j < k ==> words@[j] == 0,
            decreases word_count - k,
        {
            words.push(0u64);
            k = k + 1;
        }
        let mask = BitMask { words, len };
        proof {
            assert forall|i: int| 0 <= i < len implies !mask@[i] by {
                lemma_zero_has_no_bits((i % 64) as nat);
            }
        }
        mask
    }

    /// Set the bit at `index`.
    pub fn set(&mut self, index: usize)
        requires
            index < old(self)@.len(),
        ensures
            final(self)@ == old(self)@.update(index as int, true),
    {
        proof {
            use_type_invariant(&*self);
        }
        let w: usize = index / 64;
        let b: usize = index % 64;
        let word: u64 = self.words[w];
        let updated: u64 = word | (1u64 << (b as u64));
        proof {
            let before = self.words@;
            let after = before.update(w as int, updated);
            assert forall|i: nat| i < before.len() * 64 implies word_bit(after, i) == (i
                == index || word_bit(before, i)) by {
                if i / 64 == w {
                    lemma_or_sets_one_bit(word, b as nat, i % 64);
                }
            }
            assert(Seq::new(self.len as nat, |i: int| word_bit(after, i as nat))
                =~= self@.update(index as int, true));
        }
        self.words[w] = updated;
    }

    /// Test whether the bit at `index` is set; `false` outside the mask.
    pub fn get(&self, index: usize) -> (bit: bool)
        ensures
            bit == (index < self@.len() && self@[index as int]),
    {
        proof {
            use_type_invariant(self);
        }
        if index >= self.len {
            return false;
        }
        let w: usize = index / 64;
        let b: usize = index % 64;
        proof {
            lemma_and_reads_one_bit(self.words@[w as int], b as nat);
        }
        self.words[w] & (1u64 << (b as u64)) != 0
    }

    /// Count the set bits, one population count per word. The last word is
    /// masked to the tracked positions before it is counted.
    pub fn count_ones(&self) -> (count: usize)
        ensures
            count == count_true(self@),
    {
        proof {
            use_type_invariant(self);
        }
        let full: usize = self.len / 64;
        let rest: usize = self.len % 64;
        let mut total: usize = 0;
        let mut k: usize = 0;
        proof {
            lemma_set_below_bound(self.words@, self.len as nat);
            lemma_set_below_monotone(self.words@, (64 * full) as nat, self.len as nat);
        }
        while k < full
            invariant
                k <= full,
                full <= self.words@.len(),
                total == set_below(self.words@, (64 * k) as nat),
                set_below(self.words@, (64 * full) as nat) <= usize::MAX,
            decreases full - k,
        {
            let ones: u32 = self.words[k].count_ones();
            proof {
                lemma_set_below_word(self.words@, k as nat, 64);
                lemma_set_below_monotone(self.words@, (64 * (k + 1)) as nat, (64 * full) as nat);
            }
            total = total + ones as usize;
            k = k + 1;
        }
        if rest != 0 {
            let word: u64 = self.words[full];
            let ones: u32 = (word & low_mask(rest as u64)).count_ones();
            proof {
                lemma_masked_popcount(word, rest as nat);
                lemma_set_below_word(self.words@, full as nat, rest as nat);
            }
            total = total + ones as usize;
        }
        proof {
            lemma_count_true_is_set_below(self.words@, self@, self.len as nat);
            assert(self@.take(self.len as int) =~= self@);
        }
        total
    }

    /// Total number of tracked positions.
    pub fn len(&self) -> (len: usize)
        ensures
            len == self@.len(),
    {
        self.len
    }

    /// Whether the mask tracks no position at all.
    pub fn is_empty(&self) -> (empty: bool)
        ensures
            empty == (self@.len() == 0),
    {
        self.len == 0
    }
}

// ─── Fingerprint ────────────────────────────────────────────────────────────

/// 64-bit fingerprint of a record. Two fingerprints are compared by equality
/// or by the number of bit positions in which they differ.
#[derive(Debug, Clone, Copy, PartialEq, Eq, Hash, Structural)]
pub struct Fingerprint(pub u64);

/// Number of bit positions in which two 64-bit values differ.
pub open spec fn hamming(a: u64, b: u64) -> nat {
    popcount(a ^ b)
}

impl Fingerprint {
    /// Hamming distance: the population count of the exclusive-or.
    pub fn hamming_distance(self, other: Self) -> (distance: u32)
        ensures
            distance == hamming(self.0, other.0),
    {
        (self.0 ^ other.0).count_ones()
    }

    /// Whether the distance to `other` is within `threshold`.
    pub fn is_near_duplicate(self, other: Self, threshold: u32) -> (near: bool)
        ensures
            near == (hamming(self.0, other.0) <= threshold),
    {
        self.hamming_distance(other) <= threshold
    }
}

/// A fingerprint is at distance zero from itself.
pub proof fn lemma_hamming_identical(a: u64)
    ensures
        hamming(a, a) == 0,
{
    lemma_popcount_xor_self(a);
}

/// The distance does not depend on the order of its arguments, and is at most 64.
pub proof fn lemma_hamming_symmetric(a: u64, b: u64)
    ensures
        hamming(a, b) == hamming(b, a),
        hamming(a, b) <= 64,
{
    assert(a ^ b == b ^ a) by (bit_vector);
    lemma_ones_below_bound(a ^ b, 64);
}

// ─── SimHasher ──────────────────────────────────────────────────────────────

/// One round of FNV-1a: fold a byte into the running hash.
pub open spec fn fnv_step(h: u64, b: u8) -> u64 {
    (h ^ (b as u64)).wrapping_mul(0x100000001b3)
}

/// FNV-1a 64-bit hash of a byte sequence.
pub open spec fn fnv1a(data: Seq<u8>) -> u64
    decreases data.len(),
{
    if data.len() == 0 {
        0xcbf29ce484222325
    } else {
        fnv_step(fnv1a(data.drop_last()), data.last())
    }
}

/// Hash of the `k`-th window of `w` bytes.
pub open spec fn shingle_hash(data: Seq<u8>, w: nat, k: nat) -> u64 {
    fnv1a(data.subrange(k as int, (k + w) as int))
}

/// Number of overlapping windows of `w` bytes in `data`.
pub open spec fn shingle_count(data: Seq<u8>, w: nat) -> nat {
    if data.len() < w {
        0
    } else {
        (data.len() - w + 1) as nat
    }
}

/// Accumulator of bit position `i` after the first `n` windows: plus one for
/// each window hash with the bit set, minus one for each without.
pub open spec fn accumulator(data: Seq<u8>, w: nat, i: nat, n: nat) -> int
    decreases n,
{
    if n == 0 {
        0
    } else {
        accumulator(data, w, i, (n - 1) as nat) + if bit_is_set(
            shingle_hash(data, w, (n - 1) as nat),
            i,
        ) {
            1int
        } else {
            -1int
        }
    }
}

/// The word whose bit `i`, for `i < n`, is one exactly when the final
/// accumulator of position `i` is positive; bits from `n` up are zero.
pub open spec fn collapse(data: Seq<u8>, w: nat, n: nat) -> u64
    decreases n,
{
    if n == 0 {
        0
    } else {
        let lower = collapse(data, w, (n - 1) as nat);
        if accumulator(data, w, (n - 1) as nat, shingle_count(data, w)) > 0 {
            lower | (1u64 << ((n - 1) as u64))
        } else {
            lower
        }
    }
}

/// Similarity fingerprint of `data` with windows of `w` bytes: the plain
/// FNV-1a hash when the input is shorter than one window.
pub open spec fn simhash(data: Seq<u8>, w: nat) -> u64 {
    if data.len() < w {
        fnv1a(data)
    } else {
        collapse(data, w, 64)
    }
}

/// Bit `j` of a collapsed word is set exactly when `j` is below the bound and
/// its accumulator is positive.
pub proof fn lemma_collapse_bits(data: Seq<u8>, w: nat, n: nat, j: nat)
    requires
        n <= 64,
        j < 64,
    ensures
        bit_is_set(collapse(data, w, n), j) == (j < n && accumulator(
            data,
            w,
            j,
            shingle_count(data, w),
        ) > 0),
    decreases n,
{
    if n == 0 {
        lemma_zero_has_no_bits(j);
    } else {
        lemma_collapse_bits(data, w, (n - 1) as nat, j);
        lemma_or_sets_one_bit(collapse(data, w, (n - 1) as nat), (n - 1) as nat, j);
    }
}

/// Each bit of the similarity fingerprint of an input of at least one window
/// is one exactly when the accumulator of its position ends positive.
pub proof fn lemma_simhash_bits(data: Seq<u8>, w: nat, j: nat)
    requires
        w <= data.len(),
        j < 64,
    ensures
        bit_is_set(simhash(data, w), j) == (accumulator(data, w, j, shingle_count(data, w)) > 0),
{
    lemma_collapse_bits(data, w, 64, j);
}

/// Similarity hasher over byte-level windows.
pub struct SimHasher {
    shingle_size: usize,
}

impl Default for SimHasher {
    /// A hasher with windows of four bytes.
    fn default() -> (hasher: Self)
        ensures
            hasher.window() == 4,
    {
        SimHasher { shingle_size: 4 }
    }
}

impl SimHasher {
    #[verifier::type_invariant]
    spec fn inv(self) -> bool {
        self.shingle_size >= 2
    }

    /// The window size in bytes.
    pub closed spec fn window(&self) -> nat {
        self.shingle_size as nat
    }

    /// A hasher with windows of `shingle_size` bytes, and of two bytes at least.
    pub fn new(shingle_size: usize) -> (hasher: Self)
        ensures
            hasher.window() == if shingle_size < 2 {
                2
            } else {
                shingle_size
            },
    {
        SimHasher {
            shingle_size: if shingle_size < 2 {
                2
            } else {
                shingle_size
            },
        }
    }

    /// Compute the 64-bit similarity fingerprint of `data`.
    pub fn fingerprint(&self, data: &[u8]) -> (fp: Fingerprint)
        ensures
            fp.0 == simhash(data@, self.window()),
    {
        proof {
            use_type_invariant(self);
        }
        let w: usize = self.shingle_size;
        if data.len() < w {
            return Fingerprint(self.fnv1a(data));
        }
        let len: usize = data.len();
        let count: usize = len - w + 1;
        let ghost bytes = data@;
        let ghost gw = w as nat;
        let mut ones: [usize; 64] = [0; 64];
        let mut k: usize = 0;
        while k < count
            invariant
                k <= count,
                len == data@.len(),
                count == len - w + 1,
                2 <= w <= len,
                bytes == data@,
                gw == w,
                forall|i: int| 0 <= i < 64 ==> (#[trigger] ones[i]) <= k,
                forall|i: int|
                    0 <= i < 64 ==> 2 * (#[trigger] ones[i]) - k == accumulator(
                        bytes,
                        gw,
                        i as nat,
                        k as nat,
                    ),
            decreases count - k,
        {
            let hash: u64 = self.fnv1a(slice_subrange(data, k, k + w));
            let ghost before = ones;
            let mut i: usize = 0;
            while i < 64
                invariant
                    i <= 64,
                    k < count,
                    hash == shingle_hash(bytes, gw, k as nat),
                    forall|j: int| 0 <= j < 64 ==> (#[trigger] before[j]) <= k,
                    forall|j: int|
                        0 <= j < i ==> (#[trigger] ones[j]) == before[j] + if bit_is_set(
                            hash,
                            j as nat,
                        ) {
                            1int
                        } else {
                            0int
                        },
                    forall|j: int| i <= j < 64 ==> (#[trigger] ones[j]) == before[j],
                decreases 64 - i,
            {
                let bit: u64 = (hash >> (i as u64)) & 1;
                assert(bit == 0 || bit == 1) by (bit_vector)
                    requires
                        bit == (hash >> (i as u64)) & 1,
                ;
                ones[i] = ones[i] + bit as usize;
                i = i + 1;
            }
            k = k + 1;
        }
        let mut fp: u64 = 0;
        let mut i: usize = 0;
        while i < 64
            invariant
                i <= 64,
                count == shingle_count(bytes, gw),
                fp == collapse(bytes, gw, i as nat),
                forall|j: int| 0 <= j < 64 ==> (#[trigger] ones[j]) <= count,
                forall|j: int|
                    0 <= j < 64 ==> 2 * (#[trigger] ones[j]) - count == accumulator(
                        bytes,
                        gw,
                        j as nat,
                        count as nat,
                    ),
            decreases 64 - i,
        {
            if ones[i] > count - ones[i] {
                fp = fp | (1u64 << (i as u64));
            }
            i = i + 1;
        }
        Fingerprint(fp)
    }

    /// Hash a whole byte slice with FNV-1a.
    pub fn hash_bytes(&self, data: &[u8]) -> (h: u64)
        ensures
            h == fnv1a(data@),
    {
        self.fnv1a(data)
    }

    /// FNV-1a 64-bit hash.
    fn fnv1a(&self, data: &[u8]) -> (h: u64)
        ensures
            h == fnv1a(data@),
    {
        let mut h: u64 = 0xcbf29ce484222325;
        let mut i: usize = 0;
        while i < data.len()
            invariant
                i <= data.len(),
                h == fnv1a(data@.take(i as int)),
            decreases data.len() - i,
        {
            proof {
                assert(data@.take(i + 1).drop_last() =~= data@.take(i as int));
            }
            h = (h ^ (data[i] as u64)).wrapping_mul(0x100000001b3);
            i = i + 1;
        }
        proof {
            assert(data@.take(data.len() as int) =~= data@);
        }
        h
    }
}

// ─── Content extraction ─────────────────────────────────────────────────────

/// State of the content scanner between two bytes.
pub ghost struct ScanState {
    /// Inside a quoted string.
    pub in_string: bool,
    /// The previous byte was a backslash inside a string.
    pub escaped: bool,
    /// The string that is open is a value, not a key.
    pub is_value: bool,
    /// The last structural byte outside a string was a colon.
    pub after_colon: bool,
    /// The objects and arrays that are open, the innermost last: `true`
    /// stands for an array, `false` for an object.
    pub nesting: Seq<bool>,
}

/// The state before the first byte.
pub open spec fn scan_start() -> ScanState {
    ScanState {
        in_string: false,
        escaped: false,
        is_value: false,
        after_colon: false,
        nesting: Seq::empty(),
    }
}

/// Whether the innermost open container is an array.
pub open spec fn in_array(nesting: Seq<bool>) -> bool {
    nesting.len() > 0 && nesting.last()
}

/// The open containers after one is closed.
pub open spec fn leave(nesting: Seq<bool>) -> Seq<bool> {
    if nesting.len() > 0 {
        nesting.drop_last()
    } else {
        nesting
    }
}

/// The state after reading byte `b` in state `st`. A string that opens
/// is a value when it follows a colon or is an item of an array, and a key
/// otherwise. Outside a string, every structural byte but the colon ends
/// the wait for a value; `{` and `[` open a container, `}` and `]` close
/// the innermost one.
pub open spec fn scan_next(st: ScanState, b: u8) -> ScanState {
    if st.escaped {
        ScanState { escaped: false, ..st }
    } else if st.in_string {
        if b == 0x5c {
            ScanState { escaped: true, ..st }
        } else if b == 0x22 {
            ScanState { in_string: false, is_value: false, ..st }
        } else {
            st
        }
    } else if b == 0x22 {
        ScanState { in_string: true, is_value: st.after_colon || in_array(st.nesting), ..st }
    } else if b == 0x3a {
        ScanState { after_colon: true, ..st }
    } else if b == 0x2c {
        ScanState { after_colon: false, ..st }
    } else if b == 0x7b {
        ScanState { after_colon: false, nesting: st.nesting.push(false), ..st }
    } else if b == 0x5b {
        ScanState { after_colon: false, nesting: st.nesting.push(true), ..st }
    } else if b == 0x7d || b == 0x5d {
        ScanState { after_colon: false, nesting: leave(st.nesting), ..st }
    } else {
        st
    }
}

/// The byte that reading `b` in state `st` appends to the content, if any:
/// inside a value string, an escaped byte without its backslash, one space
/// where the string closes, and every other byte as it is.
pub open spec fn scan_emit(st: ScanState, b: u8) -> Option<u8> {
    if !(st.in_string && st.is_value) {
        None
    } else if st.escaped {
        Some(b)
    } else if b == 0x5c {
        None
    } else if b == 0x22 {
        Some(0x20u8)
    } else {
        Some(b)
    }
}

/// The scanner state after all of `data`.
pub open spec fn scan_state(data: Seq<u8>) -> ScanState
    decreases data.len(),
{
    if data.len() == 0 {
        scan_start()
    } else {
        scan_next(scan_state(data.drop_last()), data.last())
    }
}

/// The content of a record: the bytes of its string values, each value
/// followed by one space, keys and structure left out.
pub open spec fn extracted_content(data: Seq<u8>) -> Seq<u8>
    decreases data.len(),
{
    if data.len() == 0 {
        Seq::empty()
    } else {
        let before = extracted_content(data.drop_last());
        match scan_emit(scan_state(data.drop_last()), data.last()) {
            Some(b) => before.push(b),
            None => before,
        }
    }
}

/// The content is never longer than the record.
pub proof fn lemma_extracted_content_len(data: Seq<u8>)
    ensures
        extracted_content(data).len() <= data.len(),
    decreases data.len(),
{
    if data.len() > 0 {
        lemma_extracted_content_len(data.drop_last());
    }
}

/// Extract the string-value content of a JSON record in one pass over its
/// bytes, without building the tree.
pub fn extract_content_bytes(data: &[u8]) -> (content: Vec<u8>)
    ensures
        content@ == extracted_content(data@),
{
    let mut result: Vec<u8> = Vec::with_capacity(data.len() / 2);
    let mut in_string = false;
    let mut escaped = false;
    let mut is_value = false;
    let mut after_colon = false;
    let mut nesting: Vec<bool> = Vec::new();
    let mut i: usize = 0;
    while i < data.len()
        invariant
            i <= data.len(),
            result@ == extracted_content(data@.take(i as int)),
            scan_state(data@.take(i as int)) == (ScanState {
                in_string,
                escaped,
                is_value,
                after_colon,
                nesting: nesting@,
            }),
        decreases data.len() - i,
    {
        proof {
            assert(data@.take(i + 1).drop_last() =~= data@.take(i as int));
        }
        let b: u8 = data[i];
        i = i + 1;
        if escaped {
            if in_string && is_value {
                result.push(b);
            }
            escaped = false;
        } else if in_string {
            if b == 0x5c {
                escaped = true;
            } else if b == 0x22 {
                if is_value {
                    result.push(0x20u8);
                }
                in_string = false;
                is_value = false;
            } else if is_value {
                result.push(b);
            }
        } else if b == 0x22 {
            in_string = true;
            is_value = after_colon || (nesting.len() > 0 && nesting[nesting.len() - 1]);
        } else if b == 0x3a {
            after_colon = true;
        } else if b == 0x2c {
            after_colon = false;
        } else if b == 0x7b {
            after_colon = false;
            nesting.push(false);
        } else if b == 0x5b {
            after_colon = false;
            nesting.push(true);
        } else if b == 0x7d || b == 0x5d {
            after_colon = false;
            if nesting.len() > 0 {
                nesting.pop();
            }
        }
    }
    proof {
        assert(data@.take(data.len() as int) =~= data@);
    }
    result
}

// ─── Strategy ───────────────────────────────────────────────────────────────

/// Deduplication strategy.
#[derive(Debug, Clone, Copy)]
pub enum DedupStrategy {
    /// Two records match when their fingerprints are equal.
    Exact,
    /// Two records match when their fingerprints differ in at most
    /// `threshold` bit positions.
    SimHash { threshold: u32 },
}

impl Default for DedupStrategy {
    /// Similarity with threshold 3.
    fn default() -> (strategy: Self)
        ensures
            strategy == (DedupStrategy::SimHash { threshold: 3 }),
    {
        DedupStrategy::SimHash { threshold: 3 }
    }
}

impl DedupStrategy {
    /// The name of the strategy as shown to the user.
    pub open spec fn name(self) -> Seq<char> {
        match self {
            DedupStrategy::Exact => "exact"@,
            DedupStrategy::SimHash { threshold } => "simhash(t="@ + decimal(threshold as nat)
                + ")"@,
        }
    }

    /// The name of the strategy as shown to the user.
    pub fn to_string(&self) -> (name: String)
        ensures
            name@ == self.name(),
    {
        match self {
            DedupStrategy::Exact => "exact".to_owned(),
            DedupStrategy::SimHash { threshold } => {
                let mut name = "simhash(t=".to_owned();
                push_decimal(&mut name, *threshold as u128);
                push_str(&mut name, ")");
                name
            },
        }
    }
}

// ─── DedupResult ────────────────────────────────────────────────────────────

/// Results of a deduplication scan.
pub struct DedupResult {
    /// Bit `i` is set if record `i` is a duplicate of an earlier record.
    pub duplicates: BitMask,
    /// Fingerprint of each record.
    pub fingerprints: Vec<Fingerprint>,
    /// Number of records.
    pub total_lines: usize,
    /// Number of records that are not duplicates.
    pub unique_count: usize,
    /// Number of records flagged as duplicates.
    pub duplicate_count: usize,
    /// Wall-clock scan time in microseconds.
    pub elapsed_us: u64,
    /// Strategy that was used.
    pub strategy: DedupStrategy,
    /// Canonical (first-seen) index of each record; its own index for a
    /// record that is not a duplicate.
    pub canonical_map: Vec<usize>,
}

/// The 64-bit values of a sequence of fingerprints.
pub open spec fn fingerprint_values(fps: Seq<Fingerprint>) -> Seq<u64> {
    fps.map_values(|f: Fingerprint| f.0)
}

impl DedupResult {
    /// The result is that of a whole scan: fingerprints, canonical map and
    /// bit mask have one entry per record, the map and the mask are those
    /// of the fingerprints under the strategy, and the counts agree.
    pub open spec fn consistent(&self) -> bool {
        &&& self.fingerprints@.len() == self.total_lines
        &&& indexed(
            fingerprint_values(self.fingerprints@),
            self.strategy,
            self.total_lines as nat,
            self.duplicates@,
            self.canonical_map@,
        )
        &&& self.duplicate_count == count_true(self.duplicates@)
        &&& self.unique_count + self.duplicate_count == self.total_lines
    }

    /// The result can be read record by record: fingerprints, canonical
    /// map and bit mask have one entry per record, and every canonical
    /// index is the index of a record.
    pub open spec fn readable(&self) -> bool {
        &&& self.fingerprints@.len() == self.total_lines
        &&& self.canonical_map@.len() == self.total_lines
        &&& self.duplicates@.len() == self.total_lines
        &&& forall|i: int|
            0 <= i < self.total_lines ==> (#[trigger] self.canonical_map@[i]) < self.total_lines
    }

    /// Whether record `line_index` is a duplicate of an earlier record.
    pub fn is_duplicate(&self, line_index: usize) -> (duplicate: bool)
        ensures
            duplicate == (line_index < self.duplicates@.len() && self.duplicates@[line_index as int]),
    {
        self.duplicates.get(line_index)
    }
}

// ─── DedupEngine ────────────────────────────────────────────────────────────

/// The content that record `i` is fingerprinted by: its bytes, or nothing
/// when there is no such record or its bytes are not valid UTF-8.
pub open spec fn line_content(bytes: Seq<u8>, i: int) -> Seq<u8> {
    if 0 <= i < record_count(bytes) && valid_utf8(record(bytes, i)) {
        record(bytes, i)
    } else {
        Seq::empty()
    }
}

/// Fingerprint of record `i`: the hash of the whole line under the exact
/// strategy, the similarity hash of its extracted content otherwise.
pub open spec fn record_fingerprint(
    strategy: DedupStrategy,
    window: nat,
    bytes: Seq<u8>,
    i: int,
) -> u64 {
    match strategy {
        DedupStrategy::Exact => fnv1a(line_content(bytes, i)),
        DedupStrategy::SimHash { .. } => simhash(extracted_content(line_content(bytes, i)), window),
    }
}

/// The fingerprints of the records of a dataset under a strategy and a
/// window size, in record order.
pub open spec fn dataset_fingerprints(strategy: DedupStrategy, window: nat, bytes: Seq<u8>) -> Seq<
    u64,
> {
    Seq::new(record_count(bytes), |i: int| record_fingerprint(strategy, window, bytes, i))
}

/// The fingerprints of a scan are a function of the bytes, the strategy
/// and the window size alone: two scans of the same input give the same
/// fingerprints, whatever else differs between them.
pub proof fn lemma_fingerprints_determined(
    first: Seq<Fingerprint>,
    second: Seq<Fingerprint>,
    strategy: DedupStrategy,
    window: nat,
    bytes: Seq<u8>,
)
    requires
        fingerprint_values(first) == dataset_fingerprints(strategy, window, bytes),
        fingerprint_values(second) == dataset_fingerprints(strategy, window, bytes),
    ensures
        first == second,
{
    assert(first.len() == fingerprint_values(first).len());
    assert(second.len() == fingerprint_values(second).len());
    assert forall|i: int| 0 <= i < first.len() implies first[i] == second[i] by {
        assert(fingerprint_values(first)[i] == first[i].0);
        assert(fingerprint_values(second)[i] == second[i].0);
    }
    assert(first =~= second);
}

#[verifier::external_type_specification]
#[verifier::external_body]
pub struct ExInstant(std::time::Instant);

/// `Instant::now` of the standard library.
#[verifier::external_body]
fn clock_start() -> std::time::Instant {
    std::time::Instant::now()
}

/// `Instant::elapsed` of the standard library, in whole microseconds.
#[verifier::external_body]
fn clock_elapsed_micros(start: &std::time::Instant) -> u64 {
    start.elapsed().as_micros() as u64
}

/// Index construction under the exact strategy: a dictionary from
/// fingerprint to the first record that has it.
fn index_exact(fingerprints: &Vec<Fingerprint>) -> (index: (BitMask, Vec<usize>))
    ensures
        indexed(
            fingerprint_values(fingerprints@),
            DedupStrategy::Exact,
            fingerprints@.len(),
            index.0@,
            index.1@,
        ),
{
    broadcast use vstd::std_specs::hash::group_hash_axioms;

    let n: usize = fingerprints.len();
    let ghost fps = fingerprint_values(fingerprints@);
    let ghost s = DedupStrategy::Exact;
    let mut duplicates = BitMask::new(n);
    let mut canonical_map: Vec<usize> = Vec::with_capacity(n);
    let mut seen: HashMap<u64, usize> = HashMap::with_capacity(n / 2);
    let mut i: usize = 0;
    while i < n
        invariant
            i <= n,
            n == fingerprints@.len(),
            fps == fingerprint_values(fingerprints@),
            s == DedupStrategy::Exact,
            indexed(fps, s, i as nat, duplicates@, canonical_map@),
            forall|key: u64| #[trigger]
                seen@.contains_key(key) ==> seen@[key] < i && fps[seen@[key] as int] == key
                    && forall|k: int| 0 <= k < seen@[key] ==> fps[k] != key,
            forall|j: int| 0 <= j < i ==> seen@.contains_key(#[trigger] fps[j]),
        decreases n - i,
    {
        let fp: u64 = fingerprints[i].0;
        let ghost gi = i as nat;
        match seen.get(&fp) {
            Some(first) => {
                let j: usize = *first;
                proof {
                    let gj = j as nat;
                    lemma_first_match_skip(fps, s, gj, 0, gj);
                    lemma_first_match_skip(fps, s, gi, 0, gj);
                    assert(is_match(fps, s, gi, gj));
                }
                duplicates.set(i);
                canonical_map.push(j);
            },
            None => {
                proof {
                    assert forall|k: nat| k < gi implies !is_match(fps, s, gi, k) by {
                        assert(seen@.contains_key(fps[k as int]));
                    }
                    lemma_first_match_skip(fps, s, gi, 0, gi);
                }
                canonical_map.push(i);
                seen.insert(fp, i);
            },
        }
        i = i + 1;
    }
    (duplicates, canonical_map)
}

/// Index construction under the similarity strategy: a list of the
/// representatives seen so far, scanned in order for the first one within
/// the threshold.
fn index_similar(fingerprints: &Vec<Fingerprint>, threshold: u32) -> (index: (BitMask, Vec<usize>))
    ensures
        indexed(
            fingerprint_values(fingerprints@),
            DedupStrategy::SimHash { threshold },
            fingerprints@.len(),
            index.0@,
            index.1@,
        ),
{
    let n: usize = fingerprints.len();
    let ghost fps = fingerprint_values(fingerprints@);
    let ghost s = DedupStrategy::SimHash { threshold };
    let mut duplicates = BitMask::new(n);
    let mut canonical_map: Vec<usize> = Vec::with_capacity(n);
    let mut unique_fps: Vec<(usize, Fingerprint)> = Vec::with_capacity(n);
    let mut i: usize = 0;
    while i < n
        invariant
            i <= n,
            n == fingerprints@.len(),
            fps == fingerprint_values(fingerprints@),
            s == (DedupStrategy::SimHash { threshold }),
            indexed(fps, s, i as nat, duplicates@, canonical_map@),
            forall|u: int|
                0 <= u < unique_fps@.len() ==> (#[trigger] unique_fps@[u]).0 < i && canonical(
                    fps,
                    s,
                    unique_fps@[u].0 as nat,
                ) == unique_fps@[u].0 && unique_fps@[u].1.0 == fps[unique_fps@[u].0 as int],
            forall|u: int, v: int|
                0 <= u < v < unique_fps@.len() ==> (#[trigger] unique_fps@[u]).0
                    < (#[trigger] unique_fps@[v]).0,
            forall|j: nat|
                j < i && #[trigger] canonical(fps, s, j) == j ==> exists|u: int|
                    0 <= u < unique_fps@.len() && (#[trigger] unique_fps@[u]).0 == j,
        decreases n - i,
    {
        let fp: Fingerprint = fingerprints[i];
        let ghost gi = i as nat;
        let mut found: Option<usize> = None;
        let mut u: usize = 0;
        while u < unique_fps.len() && found.is_none()
            invariant
                u <= unique_fps@.len(),
                i < n,
                n == fingerprints@.len(),
                fps == fingerprint_values(fingerprints@),
                fp == fingerprints@[i as int],
                s == (DedupStrategy::SimHash { threshold }),
                forall|v: int|
                    0 <= v < unique_fps@.len() ==> (#[trigger] unique_fps@[v]).0 < i
                        && unique_fps@[v].1.0 == fps[unique_fps@[v].0 as int],
                found is None ==> forall|v: int|
                    0 <= v < u ==> hamming(fp.0, (#[trigger] unique_fps@[v]).1.0) > threshold,
                found is Some ==> 0 < u && found->Some_0 == unique_fps@[u - 1].0 && hamming(
                    fp.0,
                    unique_fps@[u - 1].1.0,
                ) <= threshold && forall|v: int|
                    0 <= v < u - 1 ==> hamming(fp.0, (#[trigger] unique_fps@[v]).1.0) > threshold,
            decreases unique_fps@.len() - u + if found is None { 1int } else { 0int },
        {
            let candidate: (usize, Fingerprint) = unique_fps[u];
            if fp.is_near_duplicate(candidate.1, threshold) {
                found = Some(candidate.0);
            }
            u = u + 1;
        }
        match found {
            Some(j) => {
                proof {
                    let gj = j as nat;
                    assert forall|k: nat| k < gj implies !is_match(fps, s, gi, k) by {
                        if canonical(fps, s, k) == k {
                            let v = choose|v: int|
                                0 <= v < unique_fps@.len() && (#[trigger] unique_fps@[v]).0 == k;
                            assert(v < u - 1);
                        }
                    }
                    lemma_first_match_skip(fps, s, gi, 0, gj);
                    assert(is_match(fps, s, gi, gj));
                }
                duplicates.set(i);
                canonical_map.push(j);
            },
            None => {
                proof {
                    assert forall|k: nat| k < gi implies !is_match(fps, s, gi, k) by {
                        if canonical(fps, s, k) == k {
                            let v = choose|v: int|
                                0 <= v < unique_fps@.len() && (#[trigger] unique_fps@[v]).0 == k;
                            assert(hamming(fp.0, unique_fps@[v].1.0) > threshold);
                        }
                    }
                    lemma_first_match_skip(fps, s, gi, 0, gi);
                }
                canonical_map.push(i);
                let ghost before = unique_fps@;
                unique_fps.push((i, fp));
                proof {
                    assert forall|j: nat| j < i + 1 && #[trigger] canonical(fps, s, j) == j implies exists|
                        u: int,
                    |
                        0 <= u < unique_fps@.len() && (#[trigger] unique_fps@[u]).0 == j by {
                        if j < i {
                            let v = choose|v: int|
                                0 <= v < before.len() && (#[trigger] before[v]).0 == j;
                            assert(unique_fps@[v].0 == j);
                        } else {
                            assert(unique_fps@[before.len() as int].0 == j);
                        }
                    }
                }
            },
        }
        i = i + 1;
    }
    (duplicates, canonical_map)
}

/// The deduplication engine: a hasher and a strategy.
pub struct DedupEngine {
    hasher: SimHasher,
    strategy: DedupStrategy,
}

impl DedupEngine {
    /// The strategy of the engine.
    pub closed spec fn strategy(&self) -> DedupStrategy {
        self.strategy
    }

    /// The window size of the engine's hasher.
    pub closed spec fn window(&self) -> nat {
        self.hasher.window()
    }

    /// An engine with the given strategy and windows of four bytes.
    pub fn new(strategy: DedupStrategy) -> (engine: Self)
        ensures
            engine.strategy() == strategy,
            engine.window() == 4,
    {
        DedupEngine { hasher: SimHasher::default(), strategy }
    }

    /// The same engine with windows of `size` bytes, and of two at least.
    pub fn with_shingle_size(self, size: usize) -> (engine: Self)
        ensures
            engine.strategy() == self.strategy(),
            engine.window() == if size < 2 {
                2
            } else {
                size
            },
    {
        DedupEngine { hasher: SimHasher::new(size), strategy: self.strategy }
    }

    /// Fingerprint of one record of the dataset; a record that is out of
    /// range or not valid UTF-8 is fingerprinted as the empty line.
    pub fn fingerprint_record(&self, dataset: &Dataset, index: usize) -> (fp: Fingerprint)
        ensures
            fp.0 == record_fingerprint(
                self.strategy(),
                self.window(),
                dataset.bytes(),
                index as int,
            ),
    {
        let all: &[u8] = dataset.storage.as_bytes();
        let empty: &[u8] = slice_subrange(all, 0, 0);
        let line: &[u8] = match dataset.storage.record_bytes(index) {
            Some(bytes) => {
                if str_from_utf8(bytes).is_some() {
                    bytes
                } else {
                    empty
                }
            },
            None => empty,
        };
        proof {
            assert(empty@ =~= Seq::<u8>::empty());
        }
        match self.strategy {
            DedupStrategy::Exact => Fingerprint(self.hasher.hash_bytes(line)),
            DedupStrategy::SimHash { .. } => {
                let content = extract_content_bytes(line);
                self.hasher.fingerprint(content.as_slice())
            },
        }
    }

    /// Scan the dataset: fingerprint every record, then build the canonical
    /// map and the duplicate mask in record order.
    pub fn scan(&self, dataset: &Dataset) -> (result: DedupResult)
        ensures
            result.consistent(),
            result.readable(),
            result.total_lines == record_count(dataset.bytes()),
            result.strategy == self.strategy(),
            fingerprint_values(result.fingerprints@) == dataset_fingerprints(
                self.strategy(),
                self.window(),
                dataset.bytes(),
            ),
            forall|i: int|
                0 <= i < result.total_lines ==> (#[trigger] result.canonical_map@[i]) <= i
                    && result.canonical_map@[result.canonical_map@[i] as int]
                    == result.canonical_map@[i] && !result.duplicates@[result.canonical_map@[i] as int],
    {
        let start = clock_start();
        let line_count: usize = dataset.line_count();
        let fingerprints = par_fingerprints(self, dataset, line_count);
        let (duplicates, canonical_map) = match self.strategy {
            DedupStrategy::Exact => index_exact(&fingerprints),
            DedupStrategy::SimHash { threshold } => index_similar(&fingerprints, threshold),
        };
        let duplicate_count: usize = duplicates.count_ones();
        proof {
            assert(fingerprint_values(fingerprints@) =~= dataset_fingerprints(
                self.strategy,
                self.hasher.window(),
                dataset.bytes(),
            ));
            lemma_count_true_bound(duplicates@);
            assert forall|i: int| 0 <= i < line_count implies (#[trigger] canonical_map@[i]) <= i
                && canonical_map@[canonical_map@[i] as int] == canonical_map@[i]
                && !duplicates@[canonical_map@[i] as int] by {
                lemma_canonical_map(fingerprint_values(fingerprints@), self.strategy, i as nat);
            }
        }
        let elapsed_us: u64 = clock_elapsed_micros(&start);
        DedupResult {
            duplicates,
            fingerprints,
            total_lines: line_count,
            unique_count: line_count - duplicate_count,
            duplicate_count,
            elapsed_us,
            strategy: self.strategy,
            canonical_map,
        }
    }
}

/// Parallel map of rayon over the record indices `0 .. count`, collected in
/// index order: entry `i` of the result is what `fingerprint_record` returns
/// for record `i`, whatever the number of worker threads.
#[verifier::external_body]
fn par_fingerprints(engine: &DedupEngine, dataset: &Dataset, count: usize) -> (fingerprints: Vec<
    Fingerprint,
>)
    ensures
        fingerprints@.len() == count,
        forall|i: int|
            0 <= i < count ==> (#[trigger] fingerprints@[i]).0 == record_fingerprint(
                engine.strategy(),
                engine.window(),
                dataset.bytes(),
                i,
            ),
{
    (0..count).into_par_iter().map(|i| engine.fingerprint_record(dataset, i)).collect()
}

} // verus!
