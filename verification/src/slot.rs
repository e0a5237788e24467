//! The sink registry: slots that hold at most one sink each.
//!
//! A slot is either empty or holds exactly one sink, moved into it by value;
//! its storage is that of the sink's type, so no sink is ever too large for
//! it. A slot never becomes empty again. Access to the sink goes through the
//! slot's exclusive borrow, which stands for the slot's lock: whoever holds
//! it has the sink to itself for one whole write.

use vstd::prelude::*;
use vstd::string::StringSliceAdditionalSpecFns;
use vstd::utf8::encode_utf8;
use crate::sink::Sink;

verus! {

/// Why a sink was not installed.
#[derive(Clone, Copy, Debug, PartialEq, Eq, Structural)]
pub enum InstallError {
    /// The slot already holds a sink.
    AlreadyInstalled,
}

/// A place for one sink.
pub struct Slot<S> {
    sink: Option<S>,
}

impl<S> View for Slot<S> {
    type V = Option<S>;

    closed spec fn view(&self) -> Option<S> {
        self.sink
    }
}

/// Whether a slot in state `before` lets `install_once` succeed.
pub open spec fn admits<S>(before: Option<S>) -> bool {
    before is None
}

/// The state of a slot after `install_once` of `sink` in state `before`.
pub open spec fn installed_once<S>(before: Option<S>, sink: S) -> Option<S> {
    match before {
        None => Some(sink),
        Some(_) => before,
    }
}

/// The state of a slot after `install_once` of each of `sinks` in turn.
pub open spec fn installed_all<S>(before: Option<S>, sinks: Seq<S>) -> Option<S>
    decreases sinks.len(),
{
    if sinks.len() == 0 {
        before
    } else {
        installed_once(installed_all(before, sinks.drop_last()), sinks.last())
    }
}

/// How many of the calls of `install_once`, one for each of `sinks` in
/// turn, succeed.
pub open spec fn successes<S>(before: Option<S>, sinks: Seq<S>) -> nat
    decreases sinks.len(),
{
    if sinks.len() == 0 {
        0
    } else {
        let earlier = successes(before, sinks.drop_last());
        if admits(installed_all(before, sinks.drop_last())) {
            earlier + 1
        } else {
            earlier
        }
    }
}

/// Whatever the order in which sinks are offered to an empty slot,
/// `install_once` succeeds exactly once, for the first of them. The slot
/// then holds that sink, and no later call changes it.
pub proof fn lemma_install_once_succeeds_once<S>(sinks: Seq<S>)
    requires
        sinks.len() > 0,
    ensures
        successes(None, sinks) == 1,
        installed_all(None, sinks) == Some(sinks[0]),
        admits(installed_all(None::<S>, sinks.take(0))),
        forall|k: int|
            1 <= k < sinks.len() ==> !admits(#[trigger] installed_all(None, sinks.take(k)))
                && installed_once(installed_all(None, sinks.take(k)), sinks[k]) == installed_all(
                None,
                sinks.take(k),
            ),
    decreases sinks.len(),
{
    assert(sinks.take(0) =~= Seq::<S>::empty());
    if sinks.len() == 1 {
        assert(sinks.drop_last() =~= Seq::<S>::empty());
        assert(installed_all(None::<S>, sinks.drop_last()) == None::<S>);
        assert(successes(None::<S>, sinks.drop_last()) == 0);
    } else {
        let init = sinks.drop_last();
        lemma_install_once_succeeds_once(init);
        assert(init[0] == sinks[0]);
        assert forall|k: int| 1 <= k < sinks.len() implies !admits(
            #[trigger] installed_all(None, sinks.take(k)),
        ) && installed_once(installed_all(None, sinks.take(k)), sinks[k]) == installed_all(
            None,
            sinks.take(k),
        ) by {
            if k < init.len() {
                assert(sinks.take(k) =~= init.take(k));
                assert(!admits(installed_all(None, init.take(k))));
                assert(sinks[k] == init[k]);
            } else {
                assert(sinks.take(k) =~= init);
            }
        }
    }
}

/// Lets go of a sink without running its destructor.
///
/// Calls `core::mem::forget`, which takes ownership of the value and leaks
/// it. Nothing is claimed of the call.
#[verifier::external_body]
fn abandon<S>(sink: S) {
    core::mem::forget(sink);
}

impl<S: Sink> Slot<S> {
    /// The sink in the slot, if there is one, is fit to be written to.
    pub open spec fn inv(&self) -> bool {
        self@ matches Some(sink) ==> sink.inv()
    }

    /// The slot after `text` has been offered to it: an empty slot stays
    /// empty, a sink in the slot has been offered exactly `text`, once.
    pub open spec fn written(&self, text: Seq<char>, after: &Self) -> bool {
        match self@ {
            None => after@ is None,
            Some(sink) => after@ matches Some(next) && sink.offered(text, &next) && next.inv()
                && next.limit() == sink.limit(),
        }
    }

    /// Whether the sink in the slot, if there is one, may be offered `text`:
    /// whether the text, encoded, is within the sink's limit.
    pub open spec fn takes(&self, text: Seq<char>) -> bool {
        self@ matches Some(sink) ==> (sink.limit() matches Some(n) ==> encode_utf8(text).len() <= n)
    }

    /// An empty slot.
    pub fn new() -> (slot: Slot<S>)
        ensures
            slot@ is None,
            slot.inv(),
    {
        Slot { sink: None }
    }

    /// Tells whether the slot holds a sink.
    pub fn is_installed(&self) -> (installed: bool)
        ensures
            installed == (self@ is Some),
    {
        self.sink.is_some()
    }

    /// Length in bytes of the longest text that the slot may be offered, or
    /// `None` where nothing limits it: where the slot is empty or its sink
    /// takes text of any length.
    pub fn max_len(&self) -> (len: Option<usize>)
        requires
            self.inv(),
        ensures
            forall|text: Seq<char>|
                #[trigger] self.takes(text) <==> (len matches Some(n) ==> encode_utf8(text).len()
                    <= n),
    {
        match &self.sink {
            Some(sink) => sink.max_len(),
            None => None,
        }
    }

    /// Installs `sink` if the slot is empty. A slot that holds a sink keeps
    /// it and is not changed in any way.
    pub fn install_once(&mut self, sink: S) -> (done: Result<(), InstallError>)
        ensures
            done is Ok <==> admits(old(self)@),
            final(self)@ == installed_once(old(self)@, sink),
            old(self)@ is None ==> done is Ok && final(self)@ == Some(sink),
            old(self)@ is Some ==> done == Err::<(), InstallError>(InstallError::AlreadyInstalled)
                && final(self)@ == old(self)@,
    {
        if self.sink.is_some() {
            Err(InstallError::AlreadyInstalled)
        } else {
            self.sink = Some(sink);
            Ok(())
        }
    }

    /// Installs `sink` whatever the slot holds. A sink that was in the slot
    /// is abandoned: its destructor does not run. Use with care.
    pub fn install(&mut self, sink: S)
        ensures
            final(self)@ == Some(sink),
    {
        let previous = self.sink.take();
        self.sink = Some(sink);
        match previous {
            Some(old_sink) => abandon(old_sink),
            None => {},
        }
    }

    /// Calls `f` on the sink in the slot, with the sink to itself for the
    /// whole call. Does nothing where the slot is empty.
    pub fn with_lock<F: FnOnce(&mut S)>(&mut self, f: F)
        requires
            old(self)@ matches Some(sink) ==> forall|s: &mut S| *s == sink ==> call_requires(f, (s,)),
        ensures
            old(self)@ is None ==> final(self)@ is None,
            old(self)@ matches Some(sink) ==> final(self)@ is Some && exists|s: &mut S|
                *s == sink && *final(s) == final(self)@->0 && #[trigger] call_ensures(f, (s,), ()),
    {
        match &mut self.sink {
            Some(sink) => {
                f(sink);
            },
            None => {},
        }
    }

    /// Offers `text` to the sink in the slot, as one write under the lock.
    /// Where the slot is empty the text is discarded. A failure that the
    /// sink reports is ignored.
    pub fn write(&mut self, text: &str)
        requires
            old(self).inv(),
            old(self).takes(text@),
        ensures
            old(self).written(text@, final(self)),
            final(self).inv(),
    {
        let put = |sink: &mut S|
            requires
                old(sink).inv(),
                old(sink).limit() matches Some(n) ==> text.spec_bytes().len() <= n,
            ensures
                final(sink).inv(),
                final(sink).limit() == old(sink).limit(),
                old(sink).offered(text@, final(sink)),
            {
                let _ = sink.write_str(text);
            };
        self.with_lock(put);
    }
}

} // verus!
