//! Little-endian words: how numbers are read out of instruction data, and how a 32-byte user key
//! is held in four words of a tree record.

use vstd::prelude::*;

verus! {

/// The number that the eight bytes of `b` from `at` on spell, least significant byte first.
pub open spec fn le_word(b: Seq<u8>, at: int) -> u64 {
    (b[at] + 0x100 * b[at + 1] + 0x1_0000 * b[at + 2] + 0x100_0000 * b[at + 3] + 0x1_0000_0000 * b[at
        + 4] + 0x100_0000_0000 * b[at + 5] + 0x1_0000_0000_0000 * b[at + 6] + 0x100_0000_0000_0000
        * b[at + 7]) as u64
}

/// Word number `j` of a user key.
pub open spec fn key_word(key: [u8; 32], j: int) -> u64 {
    le_word(key@, 8 * j)
}

/// The user key held in four words.
pub open spec fn key_of(w0: u64, w1: u64, w2: u64, w3: u64) -> [u8; 32] {
    choose|key: [u8; 32]| is_key_of(key, w0, w1, w2, w3)
}

/// `key` is the user key held in four words.
pub open spec fn is_key_of(key: [u8; 32], w0: u64, w1: u64, w2: u64, w3: u64) -> bool {
    &&& key_word(key, 0) == w0
    &&& key_word(key, 1) == w1
    &&& key_word(key, 2) == w2
    &&& key_word(key, 3) == w3
}

/// The first of two digits in base 256 and what stands above it are determined by their number.
proof fn lemma_digit(a: int, high_a: int, b: int, high_b: int)
    requires
        0 <= a < 256,
        0 <= b < 256,
        a + 256 * high_a == b + 256 * high_b,
    ensures
        a == b,
        high_a == high_b,
{
}

/// Eight bytes are determined by the word they spell.
proof fn lemma_word_bytes(a: Seq<u8>, i: int, b: Seq<u8>, j: int)
    requires
        le_word(a, i) == le_word(b, j),
    ensures
        forall|k: int| 0 <= k < 8 ==> #[trigger] a[i + k] == b[j + k],
{
    let (a7, b7) = (a[i + 7] as int, b[j + 7] as int);
    let (a6, b6) = (a[i + 6] + 256 * a7, b[j + 6] + 256 * b7);
    let (a5, b5) = (a[i + 5] + 256 * a6, b[j + 5] + 256 * b6);
    let (a4, b4) = (a[i + 4] + 256 * a5, b[j + 4] + 256 * b5);
    let (a3, b3) = (a[i + 3] + 256 * a4, b[j + 3] + 256 * b4);
    let (a2, b2) = (a[i + 2] + 256 * a3, b[j + 2] + 256 * b3);
    let (a1, b1) = (a[i + 1] + 256 * a2, b[j + 1] + 256 * b2);
    lemma_digit(a[i] as int, a1, b[j] as int, b1);
    lemma_digit(a[i + 1] as int, a2, b[j + 1] as int, b2);
    lemma_digit(a[i + 2] as int, a3, b[j + 2] as int, b3);
    lemma_digit(a[i + 3] as int, a4, b[j + 3] as int, b4);
    lemma_digit(a[i + 4] as int, a5, b[j + 4] as int, b5);
    lemma_digit(a[i + 5] as int, a6, b[j + 5] as int, b6);
    lemma_digit(a[i + 6] as int, a7, b[j + 6] as int, b7);
    assert forall|k: int| 0 <= k < 8 implies #[trigger] a[i + k] == b[j + k] by {
        assert(k == 0 || k == 1 || k == 2 || k == 3 || k == 4 || k == 5 || k == 6 || k == 7);
    }
}

/// Four words hold exactly one user key.
proof fn lemma_key_unique(key: [u8; 32], w0: u64, w1: u64, w2: u64, w3: u64)
    requires
        is_key_of(key, w0, w1, w2, w3),
    ensures
        key_of(w0, w1, w2, w3) == key,
{
    let other = key_of(w0, w1, w2, w3);
    assert(is_key_of(other, w0, w1, w2, w3));
    assert forall|i: int| 0 <= i < 32 implies other[i] == key[i] by {
        let j = i / 8;
        assert(key_word(other, j) == key_word(key, j)) by {
            assert(j == 0 || j == 1 || j == 2 || j == 3);
        }
        lemma_word_bytes(other@, 8 * j, key@, 8 * j);
        assert(other@[8 * j + (i - 8 * j)] == key@[8 * j + (i - 8 * j)]);
    }
    assert(other =~= key);
}

/// Reads the word at byte `at`.
pub fn read_word(bytes: &[u8], at: usize) -> (w: u64)
    requires
        at + 8 <= bytes@.len(),
    ensures
        w == le_word(bytes@, at as int),
{
    bytes[at] as u64 + 0x100 * (bytes[at + 1] as u64) + 0x1_0000 * (bytes[at + 2] as u64) + 0x100_0000
        * (bytes[at + 3] as u64) + 0x1_0000_0000 * (bytes[at + 4] as u64) + 0x100_0000_0000 * (bytes[at
        + 5] as u64) + 0x1_0000_0000_0000 * (bytes[at + 6] as u64) + 0x100_0000_0000_0000 * (bytes[at
        + 7] as u64)
}

/// Whether two user keys are the same.
pub fn same_key(a: &[u8; 32], b: &[u8; 32]) -> (same: bool)
    ensures
        same == (*a == *b),
{
    let mut i: usize = 0;
    while i < 32
        invariant
            i <= 32,
            forall|j: int| 0 <= j < i ==> a[j] == b[j],
        decreases 32 - i,
    {
        if a[i] != b[i] {
            return false;
        }
        i += 1;
    }
    assert(*a =~= *b);
    true
}

/// The user key in the 32 bytes of `b` from `at` on.
pub open spec fn key_at(b: Seq<u8>, at: int) -> [u8; 32] {
    choose|key: [u8; 32]| key@ == b.subrange(at, at + 32)
}

/// There is a key of any 32 bytes, and it is the one that stands there.
pub proof fn lemma_key_at(b: Seq<u8>, at: int)
    requires
        0 <= at,
        at + 32 <= b.len(),
    ensures
        key_at(b, at)@ == b.subrange(at, at + 32),
{
    let s = b.subrange(at, at + 32);
    let key = [
        s[0],
        s[1],
        s[2],
        s[3],
        s[4],
        s[5],
        s[6],
        s[7],
        s[8],
        s[9],
        s[10],
        s[11],
        s[12],
        s[13],
        s[14],
        s[15],
        s[16],
        s[17],
        s[18],
        s[19],
        s[20],
        s[21],
        s[22],
        s[23],
        s[24],
        s[25],
        s[26],
        s[27],
        s[28],
        s[29],
        s[30],
        s[31],
    ];
    assert(key@ =~= s);
}

/// Copies a user key out of the 32 bytes from `at` on.
pub fn read_key(bytes: &[u8], at: usize) -> (key: [u8; 32])
    requires
        at + 32 <= bytes@.len(),
    ensures
        key@ == bytes@.subrange(at as int, at + 32),
        key == key_at(bytes@, at as int),
{
    let len: usize = bytes.len();
    let mut key: [u8; 32] = [0u8; 32];
    let mut i: usize = 0;
    while i < 32
        invariant
            i <= 32,
            at + 32 <= len,
            len == bytes@.len(),
            forall|j: int| 0 <= j < i ==> key[j] == bytes@[at + j],
        decreases 32 - i,
    {
        key[i] = bytes[at + i];
        i += 1;
    }
    assert(key@ =~= bytes@.subrange(at as int, at + 32));
    assert(key =~= key_at(bytes@, at as int));
    key
}

/// The four words of a user key.
pub fn key_to_words(key: &[u8; 32]) -> (w: [u64; 4])
    ensures
        key_of(w[0], w[1], w[2], w[3]) == *key,
{
    let bytes = key.as_slice();
    let w: [u64; 4] = [
        read_word(bytes, 0),
        read_word(bytes, 8),
        read_word(bytes, 16),
        read_word(bytes, 24),
    ];
    proof {
        lemma_key_unique(*key, w[0], w[1], w[2], w[3]);
    }
    w
}

/// Writes the eight bytes of `w` into `key` from `at` on.
fn put_word(key: &mut [u8; 32], at: usize, w: u64)
    requires
        at + 8 <= 32,
    ensures
        le_word(final(key)@, at as int) == w,
        forall|i: int| 0 <= i < 32 && !(at <= i < at + 8) ==> final(key)@[i] == old(key)@[i],
{
    let w1: u64 = w / 256;
    let w2: u64 = w1 / 256;
    let w3: u64 = w2 / 256;
    let w4: u64 = w3 / 256;
    let w5: u64 = w4 / 256;
    let w6: u64 = w5 / 256;
    let w7: u64 = w6 / 256;
    key[at] = (w % 256) as u8;
    key[at + 1] = (w1 % 256) as u8;
    key[at + 2] = (w2 % 256) as u8;
    key[at + 3] = (w3 % 256) as u8;
    key[at + 4] = (w4 % 256) as u8;
    key[at + 5] = (w5 % 256) as u8;
    key[at + 6] = (w6 % 256) as u8;
    key[at + 7] = w7 as u8;
}

/// The user key held in four words.
pub fn key_from_words(w0: u64, w1: u64, w2: u64, w3: u64) -> (key: [u8; 32])
    ensures
        key == key_of(w0, w1, w2, w3),
{
    let mut key: [u8; 32] = [0u8; 32];
    put_word(&mut key, 0, w0);
    put_word(&mut key, 8, w1);
    put_word(&mut key, 16, w2);
    put_word(&mut key, 24, w3);
    proof {
        lemma_key_unique(key, w0, w1, w2, w3);
    }
    key
}

} // verus!
