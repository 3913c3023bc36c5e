//! The warning sink through which data anomalies are reported.

use vstd::prelude::*;

verus! {

/// Receives the warnings raised while a layout is compiled. An
/// implementation may print them, collect them, ignore them or stop the
/// program.
///
/// A handler that keeps what it receives says so, and says what it has
/// received; of such a handler the compiler's contracts tell which
/// messages it holds afterwards. A handler that only implements `handle`
/// keeps no record.
pub trait WarningHandler {
    /// Whether handlers of this type keep a record of what they receive.
    open spec fn keeps_record() -> bool {
        false
    }

    /// The messages that the handler has received, oldest first, if it
    /// keeps a record.
    open spec fn received(&self) -> Seq<Seq<char>> {
        Seq::empty()
    }

    fn handle(&mut self, warning: &str)
        ensures
            Self::keeps_record() ==> final(self).received() == old(self).received().push(
                warning@,
            ),
    ;
}

/// A warning handler that keeps every message it was given.
pub struct CollectWarnings {
    pub messages: Vec<String>,
}

impl CollectWarnings {
    pub fn new() -> (collector: Self)
        ensures
            collector.messages@.len() == 0,
            collector.received() == Seq::<Seq<char>>::empty(),
    {
        let collector = CollectWarnings { messages: Vec::new() };
        proof {
            assert(collector.received() =~= Seq::<Seq<char>>::empty());
        }
        collector
    }
}

impl WarningHandler for CollectWarnings {
    open spec fn keeps_record() -> bool {
        true
    }

    open spec fn received(&self) -> Seq<Seq<char>> {
        self.messages.deep_view()
    }

    fn handle(&mut self, warning: &str)
        ensures
            final(self).messages.deep_view() == old(self).messages.deep_view().push(warning@),
    {
        let message = warning.to_owned();
        self.messages.push(message);
        proof {
            assert(self.messages.deep_view() =~= old(self).messages.deep_view().push(warning@));
        }
    }
}

/// A warning handler together with a note of what was handed to it.
///
/// The compiler reports through a `Sink`, so that its contracts can say
/// which warnings an input raises: of a handler that keeps a record they
/// speak of the record, and of any other handler of the sink's note.
pub struct Sink<H: WarningHandler> {
    handler: H,
    log: Ghost<Seq<Seq<char>>>,
}

impl<H: WarningHandler> Sink<H> {
    /// The handler that receives the messages.
    pub closed spec fn handler(&self) -> H {
        self.handler
    }

    /// The messages that were handed to the handler through this sink,
    /// oldest first.
    pub closed spec fn handed(&self) -> Seq<Seq<char>> {
        self.log@
    }

    /// The messages that the handler has seen, oldest first: all that it
    /// has received, where it keeps a record; else those that were handed
    /// to it through this sink.
    pub open spec fn seen(&self) -> Seq<Seq<char>> {
        if H::keeps_record() {
            self.handler().received()
        } else {
            self.handed()
        }
    }

    pub fn new(handler: H) -> (sink: Self)
        ensures
            sink.handler() == handler,
            sink.handed() == Seq::<Seq<char>>::empty(),
    {
        Sink { handler, log: Ghost(Seq::empty()) }
    }

    /// Hands one message to the handler.
    pub fn warn(&mut self, warning: &str)
        ensures
            final(self).handed() == old(self).handed().push(warning@),
            H::keeps_record() ==> final(self).handler().received() == old(
                self,
            ).handler().received().push(warning@),
            final(self).seen() == old(self).seen().push(warning@),
    {
        self.handler.handle(warning);
        proof {
            self.log@ = self.log@.push(warning@);
        }
    }

    /// Gives the handler back.
    pub fn into_inner(self) -> (handler: H)
        ensures
            handler == self.handler(),
    {
        self.handler
    }
}

} // verus!
