//! The print protocol, one access at a time.
//!
//! A [`Transfer`] carries one message to the ring. It samples the two heads,
//! decides whether the message fits, stores the message word by word, and
//! moves the write head past it last of all. A word that the message fills
//! is stored as it is; a word that the message fills in part is read first,
//! and stored with the lanes outside the message as they were read.

use vstd::prelude::*;
use crate::access::{Access, Register};
use crate::ring::{
    advance, advanced, encode_word, free_bytes, free_space, touched, valid_capacity, word_op,
    words_touched,
};

verus! {

/// How far a transfer has come.
#[derive(Clone, Copy, Debug, PartialEq, Eq, Structural)]
pub enum Stage {
    /// Nothing has been done yet.
    Begin,
    /// The read head is being read.
    AwaitRead,
    /// The write head is being read.
    AwaitWrite,
    /// The message fits; the word at `index` is the next to go.
    Words,
    /// The word at `index` is filled in part and is being read.
    AwaitWord,
    /// The message is delivered or dropped; nothing is left to do.
    Done,
}

/// A transfer as a mathematical value.
pub struct TransferView {
    /// The message.
    pub msg: Seq<u8>,
    /// Bytes of ring storage.
    pub cap: int,
    /// How far the transfer has come.
    pub stage: Stage,
    /// The read head as it was sampled.
    pub read: int,
    /// The write head as it was sampled.
    pub write: int,
    /// Number of words stored so far.
    pub index: int,
}

impl TransferView {
    /// A transfer of `msg` to a ring of `cap` bytes, before its first step.
    pub open spec fn begin(cap: int, msg: Seq<u8>) -> TransferView {
        TransferView { msg, cap, stage: Stage::Begin, read: 0, write: 0, index: 0 }
    }

    /// Number of words that the transfer stores in all.
    pub open spec fn count(self) -> int {
        touched(self.write, self.msg.len() as int)
    }

    /// What holds of a transfer at every step: the message is shorter than
    /// the ring, and once it is found to fit, the heads that were sampled
    /// lie inside the ring and the words stored are none too many.
    pub open spec fn wf(self) -> bool {
        &&& valid_capacity(self.cap)
        &&& self.msg.len() < self.cap
        &&& (self.stage == Stage::Words || self.stage == Stage::AwaitWord) ==> {
            &&& 0 <= self.read < self.cap
            &&& 0 <= self.write < self.cap
            &&& self.msg.len() <= free_space(self.read, self.write, self.cap)
            &&& 0 <= self.index <= self.count()
        }
        &&& self.stage == Stage::AwaitWord ==> {
            &&& self.index < self.count()
            &&& !word_op(self.write, self.cap, self.msg, self.index).is_whole()
        }
    }

    /// The step of a transfer that has a word to store or has stored them
    /// all: the write head moves once every word is stored; a whole word is
    /// stored at once; a word filled in part is read first.
    pub open spec fn emitted(self) -> (TransferView, Option<Access>) {
        if self.index >= self.count() {
            (
                TransferView { stage: Stage::Done, ..self },
                Some(
                    Access::Store(
                        Register::WriteHead,
                        advanced(self.write, self.msg.len() as int, self.cap) as u32,
                    ),
                ),
            )
        } else {
            let op = word_op(self.write, self.cap, self.msg, self.index);
            if op.is_whole() {
                (
                    TransferView { stage: Stage::Words, index: self.index + 1, ..self },
                    Some(Access::Store(Register::Buffer(op.offset), op.bits)),
                )
            } else {
                (
                    TransferView { stage: Stage::AwaitWord, ..self },
                    Some(Access::Load(Register::Buffer(op.offset))),
                )
            }
        }
    }

    /// One step: the transfer after it, and the access to make, or `None`
    /// where the transfer is over. `loaded` is the word that the access
    /// before read, if it was a load.
    ///
    /// The message is dropped, without a single store, where it is longer
    /// than the free space between the heads, and where a head points
    /// outside the ring, which is no state of the protocol.
    pub open spec fn stepped(self, loaded: u32) -> (TransferView, Option<Access>) {
        match self.stage {
            Stage::Begin => (
                TransferView { stage: Stage::AwaitRead, ..self },
                Some(Access::Load(Register::ReadHead)),
            ),
            Stage::AwaitRead => (
                TransferView { stage: Stage::AwaitWrite, read: loaded as int, ..self },
                Some(Access::Load(Register::WriteHead)),
            ),
            Stage::AwaitWrite => {
                let write = loaded as int;
                if self.read < self.cap && write < self.cap && self.msg.len() <= free_space(
                    self.read,
                    write,
                    self.cap,
                ) {
                    (TransferView { stage: Stage::Words, write, index: 0, ..self }).emitted()
                } else {
                    (TransferView { stage: Stage::Done, write, ..self }, None)
                }
            },
            Stage::Words => self.emitted(),
            Stage::AwaitWord => {
                let op = word_op(self.write, self.cap, self.msg, self.index);
                (
                    TransferView { stage: Stage::Words, index: self.index + 1, ..self },
                    Some(Access::Store(Register::Buffer(op.offset), op.merged(loaded))),
                )
            },
            Stage::Done => (self, None),
        }
    }

    /// An upper bound on the accesses that the transfer has yet to make.
    pub open spec fn remaining(self) -> int {
        match self.stage {
            Stage::Begin => 2 * (self.cap / 4 + 1) + 4,
            Stage::AwaitRead => 2 * (self.cap / 4 + 1) + 3,
            Stage::AwaitWrite => 2 * (self.cap / 4 + 1) + 2,
            Stage::Words => 2 * (self.count() - self.index) + 1,
            Stage::AwaitWord => 2 * (self.count() - self.index),
            Stage::Done => 0,
        }
    }
}

/// The write head moves last. The step that stores it comes when every
/// word of the message is stored, stores the offset just past the message,
/// and ends the transfer. No step stores to the read head or to the magic
/// word, and a transfer that is over makes no access.
pub proof fn lemma_write_head_moves_last(transfer: TransferView, loaded: u32)
    requires
        transfer.wf(),
    ensures
        ({
            let (next, access) = transfer.stepped(loaded);
            &&& access matches Some(Access::Store(register, value)) ==> {
                &&& register != Register::Magic
                &&& register != Register::ReadHead
                &&& register == Register::WriteHead ==> {
                    &&& next.stage == Stage::Done
                    &&& next.index == next.count()
                    &&& value == (next.write + next.msg.len()) % next.cap
                }
            }
            &&& next.stage == Stage::Done ==> forall|any: u32| next.stepped(any) == (next, None::<Access>)
            &&& access is None ==> next.stage == Stage::Done
        }),
{
    let (next, access) = transfer.stepped(loaded);
    if access matches Some(Access::Store(Register::WriteHead, value)) {
        crate::ring::lemma_advanced_is_mod(next.write, next.msg.len() as int, next.cap);
    }
}

/// A transfer of one message to the ring.
pub struct Transfer<'a> {
    msg: &'a [u8],
    cap: usize,
    stage: Stage,
    read: usize,
    write: usize,
    index: usize,
}

impl<'a> View for Transfer<'a> {
    type V = TransferView;

    closed spec fn view(&self) -> TransferView {
        TransferView {
            msg: self.msg@,
            cap: self.cap as int,
            stage: self.stage,
            read: self.read as int,
            write: self.write as int,
            index: self.index as int,
        }
    }
}

impl<'a> Transfer<'a> {
    /// Sets out to print `msg` to a ring of `cap` bytes.
    pub fn new(cap: usize, msg: &'a [u8]) -> (transfer: Transfer<'a>)
        requires
            valid_capacity(cap as int),
            msg@.len() < cap,
        ensures
            transfer@ == TransferView::begin(cap as int, msg@),
            transfer@.wf(),
    {
        Transfer { msg, cap, stage: Stage::Begin, read: 0, write: 0, index: 0 }
    }

    /// Tells whether the transfer is over.
    pub fn is_done(&self) -> (done: bool)
        ensures
            done == (self@.stage == Stage::Done),
    {
        match self.stage {
            Stage::Done => true,
            _ => false,
        }
    }

    /// Takes one step: hands out the access to make next, or `None` where
    /// the transfer is over. `loaded` is the word that the access handed out
    /// before this one read, where that was a load; it is not looked at
    /// otherwise.
    pub fn step(&mut self, loaded: u32) -> (access: Option<Access>)
        requires
            old(self)@.wf(),
        ensures
            (final(self)@, access) == old(self)@.stepped(loaded),
            final(self)@.wf(),
            access is Some ==> final(self)@.remaining() < old(self)@.remaining(),
            access is None ==> final(self)@.stage == Stage::Done,
            access matches Some(Access::Load(Register::Buffer(offset))) ==> offset < old(self)@.cap
                / 4,
            access matches Some(Access::Store(Register::Buffer(offset), _)) ==> offset
                < old(self)@.cap / 4,
            access matches Some(Access::Store(Register::WriteHead, head)) ==> head < old(self)@.cap,
    {
        match self.stage {
            Stage::Begin => {
                self.stage = Stage::AwaitRead;
                Some(Access::Load(Register::ReadHead))
            },
            Stage::AwaitRead => {
                self.read = loaded as usize;
                self.stage = Stage::AwaitWrite;
                Some(Access::Load(Register::WriteHead))
            },
            Stage::AwaitWrite => {
                self.write = loaded as usize;
                if self.read < self.cap && self.write < self.cap && self.msg.len() <= free_bytes(
                    self.read,
                    self.write,
                    self.cap,
                ) {
                    self.stage = Stage::Words;
                    self.index = 0;
                    self.emit()
                } else {
                    self.stage = Stage::Done;
                    None
                }
            },
            Stage::Words => self.emit(),
            Stage::AwaitWord => {
                let op = encode_word(self.write, self.cap, self.msg, self.index);
                self.index = self.index + 1;
                self.stage = Stage::Words;
                Some(Access::Store(Register::Buffer(op.offset), op.merge(loaded)))
            },
            Stage::Done => None,
        }
    }

    /// The step of a transfer that stands between two words.
    fn emit(&mut self) -> (access: Option<Access>)
        requires
            old(self)@.wf(),
            old(self)@.stage == Stage::Words,
        ensures
            (final(self)@, access) == old(self)@.emitted(),
            final(self)@.wf(),
            access is Some,
            final(self)@.remaining() < old(self)@.remaining(),
            access matches Some(Access::Load(Register::Buffer(offset))) ==> offset < old(self)@.cap
                / 4,
            access matches Some(Access::Store(Register::Buffer(offset), _)) ==> offset
                < old(self)@.cap / 4,
            access matches Some(Access::Store(Register::WriteHead, head)) ==> head < old(self)@.cap,
    {
        if self.index >= words_touched(self.write, self.msg.len()) {
            self.stage = Stage::Done;
            let head = advance(self.write, self.msg.len(), self.cap);
            Some(Access::Store(Register::WriteHead, head as u32))
        } else {
            let op = encode_word(self.write, self.cap, self.msg, self.index);
            if op.whole() {
                self.index = self.index + 1;
                Some(Access::Store(Register::Buffer(op.offset), op.bits))
            } else {
                self.stage = Stage::AwaitWord;
                Some(Access::Load(Register::Buffer(op.offset)))
            }
        }
    }
}

} // verus!
