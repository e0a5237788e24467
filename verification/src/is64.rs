//! The IS-Viewer 64 window held in ordinary memory.
//!
//! [`Ring`] keeps the three registers and the ring storage of the debugger's
//! window as plain values, so that the print protocol can run, and be
//! checked, without the device. On the console the same stores go to the
//! fixed addresses of the window instead.

use vstd::prelude::*;
use crate::access::{probe_access, Access, Register};
use crate::lanes::{lane_of, lemma_packed_lanes, WORD_SIZE};
use crate::ring::{
    advanced, answered, delivered, distance, flattened, free_space, lemma_advanced_is_mod,
    lemma_all_delivered, lemma_spliced_in_order, lemma_store_delivers_bytes, spliced,
    valid_capacity, with_word, word_at, word_op, MAGIC,
};
use crate::transfer::{Stage, Transfer, TransferView};

verus! {

/// The window as a mathematical value: the registers, and ring storage byte
/// by byte in address order.
pub struct RingView {
    /// The detection word.
    pub magic: u32,
    /// Offset up to which the debugger has consumed.
    pub read_head: int,
    /// Offset at which the host writes next.
    pub write_head: int,
    /// Ring storage.
    pub bytes: Seq<u8>,
}

impl RingView {
    /// Bytes of ring storage.
    pub open spec fn capacity(self) -> int {
        self.bytes.len() as int
    }

    /// Whole words of storage, and both heads inside it.
    pub open spec fn wf(self) -> bool {
        &&& valid_capacity(self.capacity())
        &&& 0 <= self.read_head < self.capacity()
        &&& 0 <= self.write_head < self.capacity()
    }

    /// Whether a message of `len` bytes is enqueued rather than dropped.
    pub open spec fn fits(self, len: int) -> bool {
        len <= free_space(self.read_head, self.write_head, self.capacity())
    }

    /// The window after the host has printed `msg`: the message laid down
    /// from the write head on and the write head moved past it, or, where
    /// the message does not fit, the window as it was.
    pub open spec fn printed(self, msg: Seq<u8>) -> RingView {
        if self.fits(msg.len() as int) {
            RingView {
                write_head: advanced(self.write_head, msg.len() as int, self.capacity()),
                bytes: spliced(self.bytes, self.write_head, msg),
                ..self
            }
        } else {
            self
        }
    }

    /// The word at word offset `index` of ring storage.
    pub open spec fn word(self, index: int) -> u32 {
        word_at(self.bytes, index)
    }

    /// Whether `register` is a register of this window.
    pub open spec fn holds(self, register: Register) -> bool {
        register matches Register::Buffer(offset) ==> 4 * offset < self.capacity()
    }

    /// The word that a load of `register` reads.
    pub open spec fn loaded(self, register: Register) -> u32 {
        match register {
            Register::Magic => self.magic,
            Register::ReadHead => self.read_head as u32,
            Register::WriteHead => self.write_head as u32,
            Register::Buffer(offset) => self.word(offset as int),
        }
    }

    /// The window after a store of `value` to `register`.
    pub open spec fn stored(self, register: Register, value: u32) -> RingView {
        match register {
            Register::Magic => RingView { magic: value, ..self },
            Register::ReadHead => RingView { read_head: value as int, ..self },
            Register::WriteHead => RingView { write_head: value as int, ..self },
            Register::Buffer(offset) => RingView {
                bytes: with_word(self.bytes, offset as int, value),
                ..self
            },
        }
    }

    /// The window after the detection probe: the magic word written and both
    /// heads cleared.
    pub open spec fn probed(self) -> RingView {
        RingView { magic: MAGIC, read_head: 0, write_head: 0, bytes: self.bytes }
    }
}

/// The window in memory.
pub struct Ring {
    magic: u32,
    read_head: u32,
    write_head: u32,
    words: Vec<u32>,
}

impl View for Ring {
    type V = RingView;

    closed spec fn view(&self) -> RingView {
        RingView {
            magic: self.magic,
            read_head: self.read_head as int,
            write_head: self.write_head as int,
            bytes: flattened(self.words@),
        }
    }
}

impl Ring {
    /// Builds a window from register values and ring storage. Storage must
    /// hold at least one word and no more bytes than a head register can
    /// address, and both heads must point into it.
    pub fn from_parts(magic: u32, read_head: u32, write_head: u32, words: Vec<u32>) -> (ring: Option<
        Ring,
    >)
        ensures
            ring is Some <==> (0 < words.len() && words.len() * 4 <= u32::MAX && read_head
                < words.len() * 4 && write_head < words.len() * 4),
            ring matches Some(r) ==> r@ == (RingView {
                magic,
                read_head: read_head as int,
                write_head: write_head as int,
                bytes: flattened(words@),
            }) && r@.wf(),
    {
        let n = words.len();
        if n == 0 || n > (u32::MAX / 4) as usize {
            return None;
        }
        if read_head as usize >= n * WORD_SIZE || write_head as usize >= n * WORD_SIZE {
            return None;
        }
        Some(Ring { magic, read_head, write_head, words })
    }

    /// Bytes of ring storage.
    pub fn capacity(&self) -> (cap: usize)
        requires
            self@.wf(),
        ensures
            cap == self@.capacity(),
    {
        self.words.len() * WORD_SIZE
    }

    /// The detection word.
    pub fn magic(&self) -> (magic: u32)
        ensures
            magic == self@.magic,
    {
        self.magic
    }

    /// The read head.
    pub fn read_head(&self) -> (head: u32)
        ensures
            head == self@.read_head,
    {
        self.read_head
    }

    /// The write head.
    pub fn write_head(&self) -> (head: u32)
        ensures
            head == self@.write_head,
    {
        self.write_head
    }

    /// The word at word offset `index` of ring storage.
    pub fn word(&self, index: usize) -> (word: u32)
        requires
            index * 4 < self@.capacity(),
        ensures
            word == self@.word(index as int),
    {
        proof {
            lemma_packed_lanes(self.words@[index as int]);
        }
        self.words[index]
    }

    /// The byte at byte offset `index` of ring storage.
    pub fn byte(&self, index: usize) -> (byte: u8)
        requires
            index < self@.capacity(),
        ensures
            byte == self@.bytes[index as int],
    {
        lane_of(self.words[index / WORD_SIZE], index % WORD_SIZE)
    }

    /// The whole of ring storage, byte by byte in address order.
    pub fn bytes(&self) -> (out: Vec<u8>)
        ensures
            out@ == self@.bytes,
    {
        let mut out: Vec<u8> = Vec::new();
        let mut k: usize = 0;
        while k < self.words.len()
            invariant
                k <= self.words.len(),
                out@.len() == 4 * k,
                forall|j: int| 0 <= j < 4 * k ==> out@[j] == flattened(self.words@)[j],
            decreases self.words.len() - k,
        {
            let word = self.words[k];
            out.push(lane_of(word, 0));
            out.push(lane_of(word, 1));
            out.push(lane_of(word, 2));
            out.push(lane_of(word, 3));
            k += 1;
        }
        assert(out@ =~= flattened(self.words@));
        out
    }

    /// Reads a register.
    pub fn load(&self, register: Register) -> (word: u32)
        requires
            self@.wf(),
            self@.holds(register),
        ensures
            word == self@.loaded(register),
    {
        match register {
            Register::Magic => self.magic,
            Register::ReadHead => self.read_head,
            Register::WriteHead => self.write_head,
            Register::Buffer(offset) => {
                proof {
                    lemma_packed_lanes(self.words@[offset as int]);
                }
                self.words[offset]
            },
        }
    }

    /// Writes a register. A head must stay inside ring storage.
    pub fn store(&mut self, register: Register, value: u32)
        requires
            old(self)@.wf(),
            old(self)@.holds(register),
            (register == Register::ReadHead || register == Register::WriteHead) ==> value
                < old(self)@.capacity(),
        ensures
            final(self)@ == old(self)@.stored(register, value),
            final(self)@.wf(),
    {
        match register {
            Register::Magic => {
                self.magic = value;
            },
            Register::ReadHead => {
                self.read_head = value;
            },
            Register::WriteHead => {
                self.write_head = value;
            },
            Register::Buffer(offset) => {
                self.words.set(offset, value);
                assert(flattened(self.words@) =~= with_word(
                    flattened(old(self).words@),
                    offset as int,
                    value,
                ));
            },
        }
    }

    /// Probes for the debugger: writes the magic word, clears both heads and
    /// reads the magic word back. Memory answers with what was written, so
    /// the probe of a window in memory always succeeds.
    pub fn probe(&mut self) -> (present: bool)
        requires
            old(self)@.wf(),
        ensures
            present,
            final(self)@ == old(self)@.probed(),
            final(self)@.wf(),
    {
        let mut loaded: u32 = 0;
        let mut step: usize = 0;
        loop
            invariant_except_break
                step <= 4,
                self@.wf(),
                self@.bytes == old(self)@.bytes,
                step == 0 ==> self@ == old(self)@,
                step >= 1 ==> self@.magic == MAGIC,
                step == 1 ==> self@.read_head == old(self)@.read_head,
                step <= 2 ==> self@.write_head == old(self)@.write_head,
                step >= 2 ==> self@.read_head == 0,
                step >= 3 ==> self@.write_head == 0,
                step == 4 ==> loaded == MAGIC,
            ensures
                self@ == old(self)@.probed(),
                self@.wf(),
                loaded == MAGIC,
            decreases 5 - step,
        {
            match probe_access(step) {
                None => {
                    break ;
                },
                Some(Access::Load(register)) => {
                    loaded = self.load(register);
                },
                Some(Access::Store(register, value)) => {
                    self.store(register, value);
                },
            }
            step += 1;
        }
        answered(loaded)
    }

    /// Prints `msg` to the ring. The message is laid down from the write
    /// head on, wrapping at the end of storage, and the write head is moved
    /// past it once every word is stored. A message longer than the free
    /// space is dropped: nothing is stored and the write head stays.
    pub fn print(&mut self, msg: &[u8])
        requires
            old(self)@.wf(),
            msg@.len() < old(self)@.capacity(),
        ensures
            final(self)@ == old(self)@.printed(msg@),
            final(self)@.wf(),
    {
        let cap = self.words.len() * WORD_SIZE;
        let mut transfer = Transfer::new(cap, msg);
        let mut loaded: u32 = 0;
        loop
            invariant_except_break
                transfer@.wf(),
                self@.wf(),
                on_track(transfer@, old(self)@, self@, loaded),
            invariant
                transfer@.msg == msg@,
                old(self)@.wf(),
            ensures
                self@ == old(self)@.printed(msg@),
                self@.wf(),
            decreases transfer@.remaining(),
        {
            proof {
                lemma_step_keeps_track(transfer@, old(self)@, self@, loaded);
            }
            match transfer.step(loaded) {
                None => {
                    break ;
                },
                Some(Access::Load(register)) => {
                    loaded = self.load(register);
                },
                Some(Access::Store(register, value)) => {
                    self.store(register, value);
                },
            }
        }
    }
}

/// How a window stands to a transfer that is under way on it. Until the
/// message is found to fit nothing has changed, and the heads that the
/// transfer has sampled are the window's. From then on the window holds as
/// much of the message as the words stored so far carry, with its heads
/// where they were. At the end it is the window after the print.
pub open spec fn on_track(
    transfer: TransferView,
    before: RingView,
    now: RingView,
    loaded: u32,
) -> bool {
    let len = transfer.msg.len() as int;
    &&& transfer.cap == before.capacity()
    &&& match transfer.stage {
        Stage::Begin => now == before,
        Stage::AwaitRead => now == before && loaded == before.read_head,
        Stage::AwaitWrite => now == before && transfer.read == before.read_head && loaded
            == before.write_head,
        Stage::Words | Stage::AwaitWord => {
            &&& transfer.read == before.read_head
            &&& transfer.write == before.write_head
            &&& now == (RingView {
                bytes: spliced(
                    before.bytes,
                    transfer.write,
                    transfer.msg.take(delivered(transfer.write, len, transfer.index)),
                ),
                ..before
            })
            &&& transfer.stage == Stage::AwaitWord ==> loaded == now.word(
                word_op(transfer.write, transfer.cap, transfer.msg, transfer.index).offset as int,
            )
        },
        Stage::Done => now == before.printed(transfer.msg),
    }
}

/// The step between two words keeps the window on track.
proof fn lemma_emitted_keeps_track(transfer: TransferView, before: RingView, now: RingView)
    requires
        before.wf(),
        transfer.wf(),
        transfer.stage == Stage::Words,
        on_track(transfer, before, now, 0),
    ensures
        ({
            let (next, access) = transfer.emitted();
            match access {
                None => false,
                Some(Access::Load(register)) => now.holds(register) && on_track(
                    next,
                    before,
                    now,
                    now.loaded(register),
                ),
                Some(Access::Store(register, value)) => {
                    &&& now.holds(register)
                    &&& register != Register::ReadHead
                    &&& register == Register::WriteHead ==> value < now.capacity()
                    &&& forall|any: u32| on_track(next, before, now.stored(register, value), any)
                },
            }
        }),
{
    let len = transfer.msg.len() as int;
    lemma_all_delivered(transfer.write, len);
    if transfer.index >= transfer.count() {
        assert(transfer.msg.take(len) =~= transfer.msg);
    } else {
        lemma_store_delivers_bytes(before.bytes, now.bytes, transfer.write, transfer.msg, transfer.index);
    }
}

/// Every step of a transfer keeps the window on track, whoever makes the
/// accesses, as long as loads read what the window holds and stores change
/// it and nothing else does. A transfer that is over leaves the window as
/// [`RingView::printed`] says. So the stores of a delivery come in the
/// order of the message, the write head moves last, and a drop stores
/// nothing.
pub proof fn lemma_step_keeps_track(
    transfer: TransferView,
    before: RingView,
    now: RingView,
    loaded: u32,
)
    requires
        before.wf(),
        transfer.wf(),
        on_track(transfer, before, now, loaded),
    ensures
        ({
            let (next, access) = transfer.stepped(loaded);
            match access {
                None => now == before.printed(transfer.msg),
                Some(Access::Load(register)) => now.holds(register) && on_track(
                    next,
                    before,
                    now,
                    now.loaded(register),
                ),
                Some(Access::Store(register, value)) => {
                    &&& now.holds(register)
                    &&& register != Register::ReadHead
                    &&& register == Register::WriteHead ==> value < now.capacity()
                    &&& forall|any: u32| on_track(next, before, now.stored(register, value), any)
                },
            }
        }),
{
    let len = transfer.msg.len() as int;
    match transfer.stage {
        Stage::Begin => {},
        Stage::AwaitRead => {},
        Stage::AwaitWrite => {
            let write = loaded as int;
            if transfer.read < transfer.cap && write < transfer.cap && len <= free_space(
                transfer.read,
                write,
                transfer.cap,
            ) {
                let ready = TransferView { stage: Stage::Words, write, index: 0, ..transfer };
                assert(transfer.msg.take(0) =~= Seq::<u8>::empty());
                assert(before.bytes =~= spliced(before.bytes, write, transfer.msg.take(0)));
                lemma_emitted_keeps_track(ready, before, now);
            }
        },
        Stage::Words => {
            lemma_emitted_keeps_track(transfer, before, now);
        },
        Stage::AwaitWord => {
            lemma_store_delivers_bytes(
                before.bytes,
                now.bytes,
                transfer.write,
                transfer.msg,
                transfer.index,
            );
        },
        Stage::Done => {},
    }
}

/// A print either delivers or drops, and nothing in between. Where the
/// message fits, it stands in the ring in order from the write head of
/// before, every byte outside it is untouched, and the write head has moved
/// by the length of the message modulo the capacity. Where it does not fit,
/// the window is as it was. The read head and the magic word never change.
pub proof fn lemma_print_delivers_or_drops(before: RingView, msg: Seq<u8>)
    requires
        before.wf(),
        msg.len() < before.capacity(),
    ensures
        ({
            let after = before.printed(msg);
            let cap = before.capacity();
            let at = before.write_head;
            &&& after.wf()
            &&& after.capacity() == cap
            &&& after.magic == before.magic
            &&& after.read_head == before.read_head
            &&& before.fits(msg.len() as int) ==> {
                &&& after.write_head == (at + msg.len()) % cap
                &&& forall|k: int|
                    0 <= k < msg.len() ==> after.bytes[#[trigger] advanced(at, k, cap)] == msg[k]
                &&& forall|k: int| 0 <= k < msg.len() ==> after.bytes[(at + k) % cap] == msg[k]
                &&& forall|i: int|
                    0 <= i < cap && distance(at, i, cap) >= msg.len() ==> after.bytes[i]
                        == before.bytes[i]
            }
            &&& !before.fits(msg.len() as int) ==> after == before
        }),
{
    let after = before.printed(msg);
    let cap = before.capacity();
    let at = before.write_head;
    if before.fits(msg.len() as int) {
        lemma_advanced_is_mod(at, msg.len() as int, cap);
        lemma_spliced_in_order(before.bytes, at, msg);
        assert forall|k: int| 0 <= k < msg.len() implies after.bytes[(at + k) % cap] == msg[k] by {
            lemma_advanced_is_mod(at, k, cap);
            assert(after.bytes[advanced(at, k, cap)] == msg[k]);
        }
    }
}

/// A dropped message leaves no trace: no byte of storage changes and the
/// write head does not move.
pub proof fn lemma_drop_changes_nothing(before: RingView, msg: Seq<u8>)
    requires
        !before.fits(msg.len() as int),
    ensures
        before.printed(msg) == before,
        before.printed(msg).bytes == before.bytes,
        before.printed(msg).write_head == before.write_head,
{
}

/// Round trip: a message printed to a ring whose heads both stand at zero
/// is read back as the first bytes of storage.
pub proof fn lemma_round_trip(before: RingView, msg: Seq<u8>)
    requires
        before.wf(),
        before.read_head == 0,
        before.write_head == 0,
        msg.len() < before.capacity(),
    ensures
        before.printed(msg).bytes.subrange(0, msg.len() as int) == msg,
        before.printed(msg).write_head == msg.len(),
{
    assert(before.fits(msg.len() as int));
    assert(before.printed(msg).bytes.subrange(0, msg.len() as int) =~= msg);
}

} // verus!
