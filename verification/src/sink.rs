//! Sinks: where printed text goes.
//!
//! A sink takes one piece of text at a time and tries to deliver it. What
//! delivery means is the sink's own business; each sink says so in
//! [`Sink::offered`]. A sink keeps nothing back between two calls unless it
//! says that it does.

use vstd::prelude::*;
use vstd::string::*;
use crate::is64::Ring;

verus! {

/// A sink could not deliver what it was offered.
#[derive(Clone, Copy, Debug, PartialEq, Eq, Structural)]
pub struct WriteError;

/// Something that text can be written to.
///
/// The three specification functions say what may be relied on. As they
/// stand they promise nothing and set no limit, and a sink that has more to
/// say replaces them.
pub trait Sink: Sized {
    /// What must hold of the sink for it to be written to. Constructors
    /// establish it and writes keep it.
    open spec fn inv(&self) -> bool {
        true
    }

    /// Length in bytes of the longest text that the sink may be offered,
    /// or `None` where it takes text of any length.
    open spec fn limit(&self) -> Option<nat> {
        None
    }

    /// Whether `after` is what the sink may have become by being offered
    /// `text`.
    open spec fn offered(&self, text: Seq<char>, after: &Self) -> bool {
        true
    }

    /// Length in bytes of the longest text that the sink may be offered,
    /// or `None` where it takes text of any length.
    fn max_len(&self) -> (len: Option<usize>)
        requires
            self.inv(),
        ensures
            len is None <==> self.limit() is None,
            len matches Some(n) ==> self.limit() == Some(n as nat),
    ;

    /// Offers `text` to the sink. An error says that the sink could not
    /// deliver it; callers that print for debugging ignore it.
    fn write_str(&mut self, text: &str) -> (done: Result<(), WriteError>)
        requires
            old(self).inv(),
            old(self).limit() matches Some(n) ==> text.spec_bytes().len() <= n,
        ensures
            final(self).inv(),
            final(self).limit() == old(self).limit(),
            old(self).offered(text@, final(self)),
    ;
}

/// A sink that discards everything.
#[derive(Clone, Copy, Debug, PartialEq, Eq, Structural)]
pub struct Null;

impl Sink for Null {
    fn max_len(&self) -> (len: Option<usize>) {
        None
    }

    fn write_str(&mut self, text: &str) -> (done: Result<(), WriteError>)
        ensures
            done is Ok,
    {
        Ok(())
    }
}

/// A sink that keeps everything it is offered, in order, for inspection.
pub struct Capture {
    text: String,
}

impl View for Capture {
    type V = Seq<char>;

    closed spec fn view(&self) -> Seq<char> {
        self.text@
    }
}

impl Capture {
    /// A capture that holds nothing yet.
    pub fn new() -> (capture: Capture)
        ensures
            capture@ == Seq::<char>::empty(),
    {
        Capture { text: String::new() }
    }

    /// Everything written so far.
    pub fn text(&self) -> (text: &str)
        ensures
            text@ == self@,
    {
        self.text.as_str()
    }
}

impl Sink for Capture {
    open spec fn offered(&self, text: Seq<char>, after: &Self) -> bool {
        after@ == self@ + text
    }

    fn max_len(&self) -> (len: Option<usize>) {
        None
    }

    fn write_str(&mut self, text: &str) -> (done: Result<(), WriteError>)
        ensures
            done is Ok,
    {
        self.text.append(text);
        Ok(())
    }
}

/// What a capture holds after it has been offered each of `texts` in turn,
/// one write for each.
pub open spec fn captured_all(before: Seq<char>, texts: Seq<Seq<char>>) -> Seq<char>
    decreases texts.len(),
{
    if texts.len() == 0 {
        before
    } else {
        captured_all(before, texts.drop_last()) + texts.last()
    }
}

/// Messages written one after the other stay whole: whatever the order in
/// which the writers came to hold the sink, each message stands in the
/// capture in one piece, after all that was written before it, and no byte
/// of another message lies inside it.
pub proof fn lemma_messages_stay_whole(before: Seq<char>, texts: Seq<Seq<char>>, i: int)
    requires
        0 <= i < texts.len(),
    ensures
        ({
            let start = captured_all(before, texts.take(i)).len() as int;
            &&& start + texts[i].len() <= captured_all(before, texts).len()
            &&& captured_all(before, texts).subrange(start, start + texts[i].len()) == texts[i]
            &&& captured_all(before, texts).subrange(0, start) == captured_all(
                before,
                texts.take(i),
            )
        }),
    decreases texts.len(),
{
    let start = captured_all(before, texts.take(i)).len() as int;
    let init = texts.drop_last();
    if i == texts.len() - 1 {
        assert(texts.take(i) =~= init);
        assert(captured_all(before, texts).subrange(start, start + texts[i].len()) =~= texts[i]);
        assert(captured_all(before, texts).subrange(0, start) =~= captured_all(before, init));
    } else {
        lemma_messages_stay_whole(before, init, i);
        assert(init.take(i) =~= texts.take(i));
        assert(init[i] == texts[i]);
        let whole = captured_all(before, texts);
        let shorter = captured_all(before, init);
        assert(whole.subrange(start, start + texts[i].len()) =~= shorter.subrange(
            start,
            start + texts[i].len(),
        ));
        assert(whole.subrange(0, start) =~= shorter.subrange(0, start));
    }
}

/// The IS-Viewer 64 transport over a window in memory. It starts out
/// `absent`; a successful detection makes it `present`, for good. While it
/// is present every write runs the print protocol on the ring; while it is
/// absent a write does nothing.
pub struct IsViewer {
    ring: Ring,
    present: bool,
}

impl IsViewer {
    /// The window behind the transport.
    pub closed spec fn ring(&self) -> Ring {
        self.ring
    }

    /// Whether the debugger has been detected.
    pub closed spec fn present(&self) -> bool {
        self.present
    }

    /// A transport over `ring` on which no detection has run yet.
    pub fn new(ring: Ring) -> (viewer: IsViewer)
        requires
            ring@.wf(),
        ensures
            viewer.ring() == ring,
            !viewer.present(),
            viewer.inv(),
    {
        IsViewer { ring, present: false }
    }

    /// Runs the detection probe on the window and, where it succeeds, makes
    /// the transport present. A transport that is present stays so.
    pub fn detect(&mut self) -> (present: bool)
        requires
            old(self).inv(),
        ensures
            final(self).inv(),
            present == final(self).present(),
            present,
            final(self).ring()@ == old(self).ring()@.probed(),
    {
        let answered = self.ring.probe();
        self.present = self.present || answered;
        self.present
    }

    /// Whether the debugger has been detected.
    pub fn is_present(&self) -> (present: bool)
        ensures
            present == self.present(),
    {
        self.present
    }

    /// The window behind the transport, for inspection.
    pub fn window(&self) -> (ring: &Ring)
        ensures
            *ring == self.ring(),
    {
        &self.ring
    }
}

impl Sink for IsViewer {
    open spec fn inv(&self) -> bool {
        self.ring()@.wf()
    }

    open spec fn limit(&self) -> Option<nat> {
        Some((self.ring()@.capacity() - 1) as nat)
    }

    open spec fn offered(&self, text: Seq<char>, after: &Self) -> bool {
        &&& after.present() == self.present()
        &&& after.ring()@ == if self.present() {
            self.ring()@.printed(vstd::utf8::encode_utf8(text))
        } else {
            self.ring()@
        }
    }

    fn max_len(&self) -> (len: Option<usize>) {
        Some(self.ring.capacity() - 1)
    }

    fn write_str(&mut self, text: &str) -> (done: Result<(), WriteError>)
        ensures
            done is Ok,
    {
        if self.present {
            self.ring.print(text.as_bytes());
        }
        Ok(())
    }
}

} // verus!
