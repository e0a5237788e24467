//! Arithmetic of the IS-Viewer 64 ring.
//!
//! The ring is `cap` bytes of device memory, addressed by byte offsets in
//! `0..cap` and stored as `cap / 4` big-endian words. The host owns the write
//! head, the debugger owns the read head. A message is either delivered as a
//! whole or dropped; this module decides which, and says which words a
//! delivery touches and how.

use vstd::prelude::*;
use crate::lanes::{lane, packed, place, placed, WORD_SIZE};

verus! {

/// Detection word, ASCII `IS64` read as a big-endian word.
pub const MAGIC: u32 = 0x4953_3634;

/// Address of the detection word.
pub const MAGIC_ADDR: u32 = 0xB3FF_0000;

/// Address of the read head, which the debugger advances.
pub const READ_HEAD_ADDR: u32 = 0xB3FF_0004;

/// Address of the write head, which the host advances.
pub const WRITE_HEAD_ADDR: u32 = 0xB3FF_0014;

/// Address of the first word of ring storage.
pub const BUFFER_ADDR: u32 = 0xB3FF_0020;

/// Bytes of ring storage on the console.
pub const CAPACITY: usize = 0x10000 - 0x20;

/// Decides the detection probe. The probe writes [`MAGIC`] to the magic
/// word, clears both heads and reads the magic word back; the debugger is
/// present where the word read back is the word written.
pub fn answered(read_back: u32) -> (present: bool)
    ensures
        present == (read_back == MAGIC),
{
    read_back == MAGIC
}

/// The magic word spells `IS64` in its four lanes.
pub proof fn lemma_magic_spells_is64()
    ensures
        MAGIC == packed(0x49, 0x53, 0x36, 0x34),
        lane(MAGIC, 0) == 0x49,
        lane(MAGIC, 1) == 0x53,
        lane(MAGIC, 2) == 0x36,
        lane(MAGIC, 3) == 0x34,
{
    assert((0x49u8 as u32) << 24 | (0x53u8 as u32) << 16 | (0x36u8 as u32) << 8 | (0x34u8 as u32)
        == 0x4953_3634u32) by (bit_vector);
    crate::lanes::lemma_lane_of_packed(0x49, 0x53, 0x36, 0x34);
}

/// What a ring of `cap` bytes must satisfy: whole words, at least one of
/// them, and offsets that fit a 32-bit head register.
pub open spec fn valid_capacity(cap: int) -> bool {
    0 < cap <= u32::MAX && cap % 4 == 0
}

/// Bytes from offset `from` forward to offset `to`, going round the ring.
pub open spec fn distance(from: int, to: int, cap: int) -> int {
    if to >= from {
        to - from
    } else {
        to - from + cap
    }
}

/// Bytes that may be enqueued when the heads stand at `read` and `write`.
/// Equal heads mean an empty ring, so all of it is free.
pub open spec fn free_space(read: int, write: int, cap: int) -> int {
    let d = distance(write, read, cap);
    if d == 0 {
        cap
    } else {
        d
    }
}

/// The offset `len` bytes after `at`, going round the ring.
pub open spec fn advanced(at: int, len: int, cap: int) -> int {
    if at + len >= cap {
        at + len - cap
    } else {
        at + len
    }
}

/// The ring contents after `msg` has been laid down from offset `at` on,
/// wrapping at the end of the ring; every other byte is as before.
pub open spec fn spliced(ring: Seq<u8>, at: int, msg: Seq<u8>) -> Seq<u8> {
    Seq::new(
        ring.len(),
        |i: int|
            {
                let p = distance(at, i, ring.len() as int);
                if p < msg.len() {
                    msg[p]
                } else {
                    ring[i]
                }
            },
    )
}

/// `distance` is subtraction modulo the capacity.
pub proof fn lemma_distance_is_mod(from: int, to: int, cap: int)
    requires
        0 <= from < cap,
        0 <= to < cap,
    ensures
        distance(from, to, cap) == (to - from) % cap,
{
    if to >= from {
        vstd::arithmetic::div_mod::lemma_small_mod((to - from) as nat, cap as nat);
    } else {
        vstd::arithmetic::div_mod::lemma_small_mod((to - from + cap) as nat, cap as nat);
        vstd::arithmetic::div_mod::lemma_mod_add_multiples_vanish(to - from, cap);
    }
}

/// `advanced` is addition modulo the capacity.
pub proof fn lemma_advanced_is_mod(at: int, len: int, cap: int)
    requires
        0 <= at < cap,
        0 <= len < cap,
    ensures
        advanced(at, len, cap) == (at + len) % cap,
{
    if at + len >= cap {
        vstd::arithmetic::div_mod::lemma_small_mod((at + len - cap) as nat, cap as nat);
        vstd::arithmetic::div_mod::lemma_mod_sub_multiples_vanish(at + len, cap);
    } else {
        vstd::arithmetic::div_mod::lemma_small_mod((at + len) as nat, cap as nat);
    }
}

/// Free space is the heads' distance modulo the capacity, with zero read as
/// the whole ring.
pub proof fn lemma_free_space_is_mod(read: int, write: int, cap: int)
    requires
        0 <= read < cap,
        0 <= write < cap,
    ensures
        free_space(read, write, cap) == if (read - write) % cap == 0 {
            cap
        } else {
            (read - write) % cap
        },
        0 < free_space(read, write, cap) <= cap,
{
    lemma_distance_is_mod(write, read, cap);
}

/// Computes the free space of a ring whose heads stand at `read` and `write`.
pub fn free_bytes(read: usize, write: usize, cap: usize) -> (free: usize)
    requires
        read < cap,
        write < cap,
    ensures
        free == free_space(read as int, write as int, cap as int),
{
    if read > write {
        read - write
    } else {
        cap - write + read
    }
}

/// Computes where the write head stands after `len` more bytes.
pub fn advance(at: usize, len: usize, cap: usize) -> (next: usize)
    requires
        at < cap,
        len < cap,
    ensures
        next == advanced(at as int, len as int, cap as int),
        next < cap,
{
    if len >= cap - at {
        len - (cap - at)
    } else {
        at + len
    }
}

/// Number of words that a message of `len` bytes written from offset `at`
/// touches, counting a word twice when the message leaves it and comes back
/// to it round the ring.
pub open spec fn touched(at: int, len: int) -> int {
    if len == 0 {
        0
    } else {
        (at % 4 + len + 3) / 4
    }
}

/// Index into the message of the byte that lane `l` of the `i`-th touched
/// word receives, or `None` where that lane keeps what the ring holds.
pub open spec fn source(at: int, len: int, i: int, l: int) -> Option<int> {
    let p = 4 * i + l - at % 4;
    if 0 <= p < len {
        Some(p)
    } else {
        None
    }
}

/// Number of message bytes laid down once the first `i` touched words have
/// been written.
pub open spec fn delivered(at: int, len: int, i: int) -> int {
    let p = 4 * i - at % 4;
    if p <= 0 {
        0
    } else if p >= len {
        len
    } else {
        p
    }
}

/// Word offset into ring storage of the `i`-th touched word.
pub open spec fn word_offset(at: int, cap: int, i: int) -> int {
    let q = at / 4 + i;
    if q >= cap / 4 {
        q - cap / 4
    } else {
        q
    }
}

/// One store to ring storage: the word at `offset` keeps the bits under
/// `keep` and takes `bits` in the lanes that `keep` leaves out.
#[derive(Clone, Copy, Debug, PartialEq, Eq, Structural)]
pub struct WordOp {
    /// Word offset into ring storage.
    pub offset: usize,
    /// Mask of the lanes that stay as they are; zero for a whole-word store.
    pub keep: u32,
    /// The new lanes in place, zero elsewhere.
    pub bits: u32,
}

impl WordOp {
    /// The word to store, given the word that the ring holds now.
    pub open spec fn merged(self, word: u32) -> u32 {
        (word & self.keep) | self.bits
    }

    /// Whether all four lanes are replaced, so that the store needs no read.
    pub open spec fn is_whole(self) -> bool {
        self.keep == 0
    }

    /// Computes the word to store from the word read from the ring.
    pub fn merge(&self, word: u32) -> (out: u32)
        ensures
            out == self.merged(word),
    {
        (word & self.keep) | self.bits
    }

    /// Tells whether the store replaces the whole word.
    pub fn whole(&self) -> (b: bool)
        ensures
            b == self.is_whole(),
    {
        self.keep == 0
    }
}

/// The part of a store's `keep` mask that lane `l` contributes.
pub open spec fn keep_term(at: int, len: int, i: int, l: int) -> u32 {
    if source(at, len, i, l) is Some {
        0
    } else {
        placed(0xff, l)
    }
}

/// The part of a store's `bits` that lane `l` contributes.
pub open spec fn bits_term(at: int, msg: Seq<u8>, i: int, l: int) -> u32 {
    match source(at, msg.len() as int, i, l) {
        Some(p) => placed(msg[p], l),
        None => 0,
    }
}

/// The `i`-th store of the delivery of `msg` from offset `at` on.
pub open spec fn word_op(at: int, cap: int, msg: Seq<u8>, i: int) -> WordOp {
    let len = msg.len() as int;
    WordOp {
        offset: word_offset(at, cap, i) as usize,
        keep: keep_term(at, len, i, 0) | keep_term(at, len, i, 1) | keep_term(at, len, i, 2)
            | keep_term(at, len, i, 3),
        bits: bits_term(at, msg, i, 0) | bits_term(at, msg, i, 1) | bits_term(at, msg, i, 2)
            | bits_term(at, msg, i, 3),
    }
}

/// Counts the words that a delivery of `len` bytes from offset `at` touches.
pub fn words_touched(at: usize, len: usize) -> (n: usize)
    ensures
        n == touched(at as int, len as int),
{
    if len == 0 {
        0
    } else {
        len / WORD_SIZE + (at % WORD_SIZE + len % WORD_SIZE + 3) / WORD_SIZE
    }
}

/// Computes what lane `l` of the `i`-th touched word contributes to the
/// store: its share of the `keep` mask and of the new `bits`.
fn lane_terms(at: usize, msg: &[u8], i: usize, l: usize) -> (terms: (u32, u32))
    requires
        l < WORD_SIZE,
        4 * i + l <= u32::MAX,
    ensures
        terms.0 == keep_term(at as int, msg.len() as int, i as int, l as int),
        terms.1 == bits_term(at as int, msg@, i as int, l as int),
{
    let start = at % WORD_SIZE;
    let pos = WORD_SIZE * i + l;
    if pos >= start && pos - start < msg.len() {
        (0, place(msg[pos - start], l))
    } else {
        (place(0xff, l), 0)
    }
}

/// Computes the `i`-th store of the delivery of `msg` from offset `at` on.
pub fn encode_word(at: usize, cap: usize, msg: &[u8], i: usize) -> (op: WordOp)
    requires
        valid_capacity(cap as int),
        at < cap,
        msg.len() < cap,
        i < touched(at as int, msg.len() as int),
    ensures
        op == word_op(at as int, cap as int, msg@, i as int),
        op.offset < cap / 4,
{
    let q = at / WORD_SIZE + i;
    let words = cap / WORD_SIZE;
    let offset = if q >= words {
        q - words
    } else {
        q
    };
    let (k0, b0) = lane_terms(at, msg, i, 0);
    let (k1, b1) = lane_terms(at, msg, i, 1);
    let (k2, b2) = lane_terms(at, msg, i, 2);
    let (k3, b3) = lane_terms(at, msg, i, 3);
    WordOp { offset, keep: k0 | k1 | k2 | k3, bits: b0 | b1 | b2 | b3 }
}

/// The bytes that ring storage holds, in address order.
pub open spec fn flattened(words: Seq<u32>) -> Seq<u8> {
    Seq::new(4 * words.len(), |k: int| lane(words[k / 4], k % 4))
}

/// Masking and or-ing lane by lane: a lane that is replaced holds the new
/// byte, a lane that is kept holds the old one.
proof fn lemma_lanes_of_merge(
    word: u32,
    c0: bool,
    c1: bool,
    c2: bool,
    c3: bool,
    b0: u8,
    b1: u8,
    b2: u8,
    b3: u8,
)
    ensures
        ({
            let keep = (if c0 { 0u32 } else { (0xffu8 as u32) << 24 })
                | (if c1 { 0u32 } else { (0xffu8 as u32) << 16 })
                | (if c2 { 0u32 } else { (0xffu8 as u32) << 8 })
                | (if c3 { 0u32 } else { 0xffu8 as u32 });
            let bits = (if c0 { (b0 as u32) << 24 } else { 0u32 })
                | (if c1 { (b1 as u32) << 16 } else { 0u32 })
                | (if c2 { (b2 as u32) << 8 } else { 0u32 })
                | (if c3 { b3 as u32 } else { 0u32 });
            let m = (word & keep) | bits;
            &&& (m >> 24) as u8 == (if c0 { b0 } else { (word >> 24) as u8 })
            &&& ((m >> 16) & 0xff) as u8 == (if c1 { b1 } else { ((word >> 16) & 0xff) as u8 })
            &&& ((m >> 8) & 0xff) as u8 == (if c2 { b2 } else { ((word >> 8) & 0xff) as u8 })
            &&& (m & 0xff) as u8 == (if c3 { b3 } else { (word & 0xff) as u8 })
        }),
{
    assert({
        let keep = (if c0 { 0u32 } else { (0xffu8 as u32) << 24 })
            | (if c1 { 0u32 } else { (0xffu8 as u32) << 16 })
            | (if c2 { 0u32 } else { (0xffu8 as u32) << 8 })
            | (if c3 { 0u32 } else { 0xffu8 as u32 });
        let bits = (if c0 { (b0 as u32) << 24 } else { 0u32 })
            | (if c1 { (b1 as u32) << 16 } else { 0u32 })
            | (if c2 { (b2 as u32) << 8 } else { 0u32 })
            | (if c3 { b3 as u32 } else { 0u32 });
        let m = (word & keep) | bits;
        &&& (m >> 24) as u8 == (if c0 { b0 } else { (word >> 24) as u8 })
        &&& ((m >> 16) & 0xff) as u8 == (if c1 { b1 } else { ((word >> 16) & 0xff) as u8 })
        &&& ((m >> 8) & 0xff) as u8 == (if c2 { b2 } else { ((word >> 8) & 0xff) as u8 })
        &&& (m & 0xff) as u8 == (if c3 { b3 } else { (word & 0xff) as u8 })
    }) by (bit_vector);
}

/// What a store leaves in each lane: the message byte where the lane has a
/// source, the byte that was there where it has none.
pub proof fn lemma_merged_lanes(at: int, cap: int, msg: Seq<u8>, i: int, word: u32)
    ensures
        forall|l: int|
            0 <= l < 4 ==> #[trigger] lane(word_op(at, cap, msg, i).merged(word), l) == (match source(
                at,
                msg.len() as int,
                i,
                l,
            ) {
                Some(p) => msg[p],
                None => lane(word, l),
            }),
{
    let len = msg.len() as int;
    let src0 = source(at, len, i, 0);
    let src1 = source(at, len, i, 1);
    let src2 = source(at, len, i, 2);
    let src3 = source(at, len, i, 3);
    let b0 = if src0 is Some { msg[src0->0] } else { 0u8 };
    let b1 = if src1 is Some { msg[src1->0] } else { 0u8 };
    let b2 = if src2 is Some { msg[src2->0] } else { 0u8 };
    let b3 = if src3 is Some { msg[src3->0] } else { 0u8 };
    lemma_lanes_of_merge(word, src0 is Some, src1 is Some, src2 is Some, src3 is Some, b0, b1, b2, b3);
}

/// One store carries the delivery one word further: if storage holds the
/// first `delivered(i)` bytes of the message, then after the `i`-th store it
/// holds the first `delivered(i + 1)` bytes, and nothing else has changed.
pub proof fn lemma_store_delivers(
    ring: Seq<u8>,
    words: Seq<u32>,
    at: int,
    msg: Seq<u8>,
    i: int,
)
    requires
        valid_capacity(ring.len() as int),
        words.len() * 4 == ring.len(),
        0 <= at < ring.len(),
        msg.len() < ring.len(),
        0 <= i < touched(at, msg.len() as int),
        flattened(words) == spliced(ring, at, msg.take(delivered(at, msg.len() as int, i))),
    ensures
        ({
            let op = word_op(at, ring.len() as int, msg, i);
            let next = words.update(op.offset as int, op.merged(words[op.offset as int]));
            &&& 0 <= op.offset < words.len()
            &&& flattened(next) == spliced(
                ring,
                at,
                msg.take(delivered(at, msg.len() as int, i + 1)),
            )
        }),
{
    let cap = ring.len() as int;
    let len = msg.len() as int;
    let op = word_op(at, cap, msg, i);
    let off = word_offset(at, cap, i);
    let start = at % 4;
    let base = 4 * i - start;
    let before = delivered(at, len, i);
    let after = delivered(at, len, i + 1);
    assert(0 <= off < cap / 4);
    assert(op.offset == off);
    let old_word = words[off];
    let next = words.update(off, op.merged(old_word));
    lemma_merged_lanes(at, cap, msg, i, old_word);
    let target = spliced(ring, at, msg.take(after));
    assert(flattened(next).len() == target.len());
    assert forall|x: int| 0 <= x < cap implies flattened(next)[x] == target[x] by {
        let p = distance(at, x, cap);
        let l = x % 4;
        assert(flattened(words)[x] == spliced(ring, at, msg.take(before))[x]);
        if x / 4 == off {
            assert(next[x / 4] == op.merged(old_word));
            assert(flattened(next)[x] == lane(op.merged(old_word), l));
            assert(flattened(words)[x] == lane(old_word, l));
            if source(at, len, i, l) is Some {
                assert(p == base + l);
                assert(before <= p < after);
            } else {
                assert(!(before <= p < after));
            }
        } else {
            assert(next[x / 4] == words[x / 4]);
            assert(!(before <= p < after));
        }
    }
    assert(flattened(next) =~= target);
}

/// Once every touched word is stored, the whole message is laid down.
pub proof fn lemma_all_delivered(at: int, len: int)
    requires
        0 <= at,
        0 <= len,
    ensures
        delivered(at, len, touched(at, len)) == len,
        delivered(at, len, 0) == 0,
        touched(at, len) >= 0,
{
}

/// The word at word offset `index` of storage given byte by byte.
pub open spec fn word_at(bytes: Seq<u8>, index: int) -> u32 {
    packed(bytes[4 * index], bytes[4 * index + 1], bytes[4 * index + 2], bytes[4 * index + 3])
}

/// Storage, given byte by byte, after `value` is stored at word offset
/// `index`.
pub open spec fn with_word(bytes: Seq<u8>, index: int, value: u32) -> Seq<u8> {
    Seq::new(
        bytes.len(),
        |k: int|
            if k / 4 == index {
                lane(value, k % 4)
            } else {
                bytes[k]
            },
    )
}

/// One store carries the delivery one word further, told of storage byte
/// by byte: the word is read, merged and stored, and storage then holds the
/// first `delivered(i + 1)` bytes of the message. A whole word needs no
/// read: what is stored is the store's `bits`, whatever the word held.
pub proof fn lemma_store_delivers_bytes(
    ring: Seq<u8>,
    now: Seq<u8>,
    at: int,
    msg: Seq<u8>,
    i: int,
)
    requires
        valid_capacity(ring.len() as int),
        0 <= at < ring.len(),
        msg.len() < ring.len(),
        0 <= i < touched(at, msg.len() as int),
        now == spliced(ring, at, msg.take(delivered(at, msg.len() as int, i))),
    ensures
        ({
            let op = word_op(at, ring.len() as int, msg, i);
            let value = op.merged(word_at(now, op.offset as int));
            &&& 0 <= op.offset < ring.len() / 4
            &&& with_word(now, op.offset as int, value) == spliced(
                ring,
                at,
                msg.take(delivered(at, msg.len() as int, i + 1)),
            )
            &&& op.is_whole() ==> value == op.bits
        }),
{
    let cap = ring.len() as int;
    let words = Seq::new((cap / 4) as nat, |j: int| word_at(now, j));
    assert forall|k: int| 0 <= k < cap implies flattened(words)[k] == now[k] by {
        let j = k / 4;
        crate::lanes::lemma_lane_of_packed(now[4 * j], now[4 * j + 1], now[4 * j + 2], now[4 * j + 3]);
    }
    assert(flattened(words) =~= now);
    lemma_store_delivers(ring, words, at, msg, i);
    let op = word_op(at, cap, msg, i);
    let value = op.merged(word_at(now, op.offset as int));
    assert(flattened(words.update(op.offset as int, value)) =~= with_word(
        now,
        op.offset as int,
        value,
    ));
    if op.is_whole() {
        let w = word_at(now, op.offset as int);
        let bits = op.bits;
        assert((w & 0u32) | bits == bits) by (bit_vector);
    }
}

/// Ring storage after the first `n` stores of the delivery of `msg` from
/// offset `at` on, each store merging into what the stores before it left.
pub open spec fn stored(words: Seq<u32>, at: int, msg: Seq<u8>, n: int) -> Seq<u32>
    decreases n,
{
    if n <= 0 {
        words
    } else {
        let prev = stored(words, at, msg, n - 1);
        let op = word_op(at, 4 * words.len() as int, msg, n - 1);
        prev.update(op.offset as int, op.merged(prev[op.offset as int]))
    }
}

/// The stores of a delivery, done in order, lay the message down byte by
/// byte: after `n` of them storage holds the first `delivered(n)` bytes of
/// the message from offset `at` on and is otherwise untouched.
pub proof fn lemma_stores_lay_prefix(words: Seq<u32>, at: int, msg: Seq<u8>, n: int)
    requires
        valid_capacity(4 * words.len() as int),
        0 <= at < 4 * words.len(),
        msg.len() < 4 * words.len(),
        0 <= n <= touched(at, msg.len() as int),
    ensures
        stored(words, at, msg, n).len() == words.len(),
        flattened(stored(words, at, msg, n)) == spliced(
            flattened(words),
            at,
            msg.take(delivered(at, msg.len() as int, n)),
        ),
    decreases n,
{
    if n == 0 {
        assert(msg.take(0) =~= Seq::<u8>::empty());
        assert(flattened(words) =~= spliced(flattened(words), at, msg.take(0)));
    } else {
        lemma_stores_lay_prefix(words, at, msg, n - 1);
        lemma_store_delivers(flattened(words), stored(words, at, msg, n - 1), at, msg, n - 1);
    }
}

/// A delivery carried out in full lays down the whole message: storage then
/// holds `msg` from offset `at` on, wrapped round the end of the ring, and
/// every byte outside the message is as it was.
pub proof fn lemma_delivery_lays_message(words: Seq<u32>, at: int, msg: Seq<u8>)
    requires
        valid_capacity(4 * words.len() as int),
        0 <= at < 4 * words.len(),
        msg.len() < 4 * words.len(),
    ensures
        flattened(stored(words, at, msg, touched(at, msg.len() as int))) == spliced(
            flattened(words),
            at,
            msg,
        ),
{
    lemma_all_delivered(at, msg.len() as int);
    lemma_stores_lay_prefix(words, at, msg, touched(at, msg.len() as int));
    assert(msg.take(msg.len() as int) =~= msg);
}

/// A spliced message reads back in order from the offset it was written at,
/// and the bytes beyond it are those of the ring before.
pub proof fn lemma_spliced_in_order(ring: Seq<u8>, at: int, msg: Seq<u8>)
    requires
        0 <= at < ring.len(),
        msg.len() < ring.len(),
    ensures
        spliced(ring, at, msg).len() == ring.len(),
        forall|k: int|
            0 <= k < msg.len() ==> spliced(ring, at, msg)[#[trigger] advanced(
                at,
                k,
                ring.len() as int,
            )] == msg[k],
        forall|i: int|
            0 <= i < ring.len() && distance(at, i, ring.len() as int) >= msg.len() ==> #[trigger] spliced(
                ring,
                at,
                msg,
            )[i] == ring[i],
{
}

/// A word that the message enters at lane 0 is stored whole where four or
/// more bytes are left, without a look at what the ring holds. Where fewer
/// are left the store takes them into the leading lanes and keeps the rest
/// of the word: its low 24 bits for one byte, its low 16 bits for two, its
/// low 8 bits for three.
pub proof fn lemma_whole_and_tail_stores(at: int, cap: int, msg: Seq<u8>, i: int)
    requires
        0 <= at,
        0 <= 4 * i - at % 4 < msg.len(),
    ensures
        ({
            let op = word_op(at, cap, msg, i);
            let from = 4 * i - at % 4;
            let left = msg.len() - from;
            &&& left >= 4 ==> op.is_whole() && op.bits == packed(
                msg[from],
                msg[from + 1],
                msg[from + 2],
                msg[from + 3],
            )
            &&& left == 3 ==> op.keep == 0x0000_00ff && op.bits == packed(
                msg[from],
                msg[from + 1],
                msg[from + 2],
                0,
            )
            &&& left == 2 ==> op.keep == 0x0000_ffff && op.bits == packed(
                msg[from],
                msg[from + 1],
                0,
                0,
            )
            &&& left == 1 ==> op.keep == 0x00ff_ffff && op.bits == packed(msg[from], 0, 0, 0)
        }),
{
    let from = 4 * i - at % 4;
    let left = msg.len() - from;
    let len = msg.len() as int;
    assert(source(at, len, i, 0) == Some(from));
    let b0 = msg[from];
    let b1 = msg[from + 1];
    let b2 = msg[from + 2];
    let b3 = msg[from + 3];
    if left >= 4 {
        assert(0u32 | 0u32 | 0u32 | 0u32 == 0u32) by (bit_vector);
    } else if left == 3 {
        assert(0u32 | 0u32 | 0u32 | (0xffu8 as u32) == 0x0000_00ffu32) by (bit_vector);
        assert((b0 as u32) << 24 | (b1 as u32) << 16 | (b2 as u32) << 8 | 0u32 == (b0 as u32) << 24
            | (b1 as u32) << 16 | (b2 as u32) << 8 | (0u8 as u32)) by (bit_vector);
    } else if left == 2 {
        assert(0u32 | 0u32 | (0xffu8 as u32) << 8 | (0xffu8 as u32) == 0x0000_ffffu32)
            by (bit_vector);
        assert((b0 as u32) << 24 | (b1 as u32) << 16 | 0u32 | 0u32 == (b0 as u32) << 24 | (
        b1 as u32) << 16 | (0u8 as u32) << 8 | (0u8 as u32)) by (bit_vector);
    } else {
        assert(0u32 | (0xffu8 as u32) << 16 | (0xffu8 as u32) << 8 | (0xffu8 as u32)
            == 0x00ff_ffffu32) by (bit_vector);
        assert((b0 as u32) << 24 | 0u32 | 0u32 | 0u32 == (b0 as u32) << 24 | (0u8 as u32) << 16 | (
        0u8 as u32) << 8 | (0u8 as u32)) by (bit_vector);
    }
}

/// The mask of the low `n` bytes of a word.
pub open spec fn low_bytes(n: int) -> u32 {
    if n <= 0 {
        0
    } else if n == 1 {
        0xff
    } else if n == 2 {
        0xffff
    } else if n == 3 {
        0xff_ffff
    } else {
        0xffff_ffff
    }
}

/// The first `n` bytes of `msg`, at most four, read as one big-endian number.
pub open spec fn joined(msg: Seq<u8>, n: int) -> u32 {
    if n <= 0 {
        0
    } else if n == 1 {
        msg[0] as u32
    } else if n == 2 {
        (msg[0] as u32) << 8 | (msg[1] as u32)
    } else if n == 3 {
        (msg[0] as u32) << 16 | (msg[1] as u32) << 8 | (msg[2] as u32)
    } else {
        (msg[0] as u32) << 24 | (msg[1] as u32) << 16 | (msg[2] as u32) << 8 | (msg[3] as u32)
    }
}

/// The store into the word in which a write head that is not word-aligned
/// stands. With `align` lanes left in that word and `n` of the message's
/// bytes going there, the bytes are placed by a shift of `(align - n) * 8`
/// bits, and the store keeps every lane that the shifted bytes do not cover.
pub proof fn lemma_head_store(at: int, cap: int, msg: Seq<u8>)
    requires
        0 <= at,
        at % 4 != 0,
        msg.len() > 0,
    ensures
        ({
            let op = word_op(at, cap, msg, 0);
            let align = 4 - at % 4;
            let n = if msg.len() < align {
                msg.len() as int
            } else {
                align
            };
            let shift = ((align - n) * 8) as u32;
            &&& op.keep == 0xffff_ffffu32 ^ (low_bytes(n) << shift)
            &&& op.bits == joined(msg, n) << shift
            &&& !op.is_whole()
        }),
{
    let len = msg.len() as int;
    let start = at % 4;
    let align = 4 - start;
    let b0 = msg[0];
    let b1 = msg[1];
    let b2 = msg[2];
    assert(source(at, len, 0, start) == Some(0int));
    if start == 1 {
        if len >= 3 {
            assert((0xffu8 as u32) << 24 | 0u32 | 0u32 | 0u32 == 0xffff_ffffu32 ^ (0xff_ffffu32
                << 0u32)) by (bit_vector);
            assert(0u32 | (b0 as u32) << 16 | (b1 as u32) << 8 | (b2 as u32) == ((b0 as u32) << 16
                | (b1 as u32) << 8 | (b2 as u32)) << 0u32) by (bit_vector);
            assert(0xffff_ffffu32 ^ (0xff_ffffu32 << 0u32) != 0) by (bit_vector);
        } else if len == 2 {
            assert((0xffu8 as u32) << 24 | 0u32 | 0u32 | (0xffu8 as u32) == 0xffff_ffffu32 ^ (
            0xffffu32 << 8u32)) by (bit_vector);
            assert(0u32 | (b0 as u32) << 16 | (b1 as u32) << 8 | 0u32 == ((b0 as u32) << 8 | (
            b1 as u32)) << 8u32) by (bit_vector);
            assert(0xffff_ffffu32 ^ (0xffffu32 << 8u32) != 0) by (bit_vector);
        } else {
            assert((0xffu8 as u32) << 24 | 0u32 | (0xffu8 as u32) << 8 | (0xffu8 as u32)
                == 0xffff_ffffu32 ^ (0xffu32 << 16u32)) by (bit_vector);
            assert(0u32 | (b0 as u32) << 16 | 0u32 | 0u32 == (b0 as u32) << 16u32) by (bit_vector);
            assert(0xffff_ffffu32 ^ (0xffu32 << 16u32) != 0) by (bit_vector);
        }
    } else if start == 2 {
        if len >= 2 {
            assert((0xffu8 as u32) << 24 | (0xffu8 as u32) << 16 | 0u32 | 0u32 == 0xffff_ffffu32 ^ (
            0xffffu32 << 0u32)) by (bit_vector);
            assert(0u32 | 0u32 | (b0 as u32) << 8 | (b1 as u32) == ((b0 as u32) << 8 | (b1 as u32))
                << 0u32) by (bit_vector);
            assert(0xffff_ffffu32 ^ (0xffffu32 << 0u32) != 0) by (bit_vector);
        } else {
            assert((0xffu8 as u32) << 24 | (0xffu8 as u32) << 16 | 0u32 | (0xffu8 as u32)
                == 0xffff_ffffu32 ^ (0xffu32 << 8u32)) by (bit_vector);
            assert(0u32 | 0u32 | (b0 as u32) << 8 | 0u32 == (b0 as u32) << 8u32) by (bit_vector);
            assert(0xffff_ffffu32 ^ (0xffu32 << 8u32) != 0) by (bit_vector);
        }
    } else {
        assert((0xffu8 as u32) << 24 | (0xffu8 as u32) << 16 | (0xffu8 as u32) << 8 | 0u32
            == 0xffff_ffffu32 ^ (0xffu32 << 0u32)) by (bit_vector);
        assert(0u32 | 0u32 | 0u32 | (b0 as u32) == (b0 as u32) << 0u32) by (bit_vector);
        assert(0xffff_ffffu32 ^ (0xffu32 << 0u32) != 0) by (bit_vector);
    }
}

} // verus!
