//! The serial port boundary of the display driver: a transport abstraction
//! over the byte bus and the data/command, chip-select, and reset control
//! lines, modelled by the history of actions performed on the port. A
//! verified recording implementation is provided; an implementation over
//! real pins and a real bus lives outside the verified library.

use vstd::prelude::*;

verus! {

/// One observable action on the panel's serial port: a byte burst on the
/// bus, or a level change on the data/command, chip-select, or reset line.
#[verifier::ext_equal]
pub enum TxEvent {
    Spi(Seq<u8>),
    Dc(bool),
    Cs(bool),
    Rst(bool),
}

/// The command/data serial transport under the display driver. Its
/// specification is the growing history of port actions: a method either
/// appends exactly its own action and returns `Ok`, or fails and records
/// nothing, so the history never rewrites what was already sent and an
/// aborted transfer leaves exactly the actions performed before the
/// failure. The guarantees hold of implementations that Verus has checked;
/// an implementation outside the verified library keeps the default
/// `events` model, under which nothing can be concluded about what it
/// sent.
pub trait PanelTransport: Sized {
    /// The history of actions performed on the port, oldest first. An
    /// implementation that means to support reasoning about what was sent
    /// overrides this with its own model; the default says nothing.
    open spec fn events(&self) -> Seq<TxEvent> {
        Seq::empty()
    }

    /// Sends a byte burst over the serial bus.
    fn spi_write(&mut self, data: &[u8]) -> (r: Result<(), ()>)
        ensures
            r is Ok ==> final(self).events() == old(self).events().push(TxEvent::Spi(data@)),
            r is Err ==> final(self).events() == old(self).events(),
    ;

    /// Sets the data/command line: high for data, low for commands.
    fn set_dc(&mut self, level: bool) -> (r: Result<(), ()>)
        ensures
            r is Ok ==> final(self).events() == old(self).events().push(TxEvent::Dc(level)),
            r is Err ==> final(self).events() == old(self).events(),
    ;

    /// Sets the chip-select line.
    fn set_cs(&mut self, level: bool) -> (r: Result<(), ()>)
        ensures
            r is Ok ==> final(self).events() == old(self).events().push(TxEvent::Cs(level)),
            r is Err ==> final(self).events() == old(self).events(),
    ;

    /// Sets the reset line.
    fn set_rst(&mut self, level: bool) -> (r: Result<(), ()>)
        ensures
            r is Ok ==> final(self).events() == old(self).events().push(TxEvent::Rst(level)),
            r is Err ==> final(self).events() == old(self).events(),
    ;

    /// Blocks for `ms` milliseconds. Timing leaves no trace in the history.
    fn delay_ms(&mut self, ms: u8)
        ensures
            final(self).events() == old(self).events(),
    ;
}

/// One recorded port action: the executable mirror of `TxEvent`.
pub enum PortOp {
    Spi(Vec<u8>),
    Dc(bool),
    Cs(bool),
    Rst(bool),
}

impl View for PortOp {
    type V = TxEvent;

    closed spec fn view(&self) -> TxEvent {
        match self {
            PortOp::Spi(d) => TxEvent::Spi(d@),
            PortOp::Dc(l) => TxEvent::Dc(*l),
            PortOp::Cs(l) => TxEvent::Cs(*l),
            PortOp::Rst(l) => TxEvent::Rst(*l),
        }
    }
}

/// The events a sequence of recorded actions stands for, oldest first.
pub open spec fn recorded_events(ops: Seq<PortOp>) -> Seq<TxEvent> {
    ops.map_values(|op: PortOp| op@)
}

/// The bytes that actually reach the panel: the concatenation of every bus
/// burst in the history, control-line changes contributing nothing.
pub open spec fn spi_concat(events: Seq<TxEvent>) -> Seq<u8>
    decreases events.len(),
{
    if events.len() == 0 {
        Seq::empty()
    } else {
        spi_concat(events.drop_last()) + match events.last() {
            TxEvent::Spi(d) => d,
            TxEvent::Dc(_) => Seq::empty(),
            TxEvent::Cs(_) => Seq::empty(),
            TxEvent::Rst(_) => Seq::empty(),
        }
    }
}

/// A history extended by a concatenation keeps the old history as a
/// prefix.
pub broadcast proof fn lemma_prefix_of_add<A>(a: Seq<A>, b: Seq<A>)
    ensures
        #![trigger a + b]
        a.is_prefix_of(a + b),
{
    assert(a =~= (a + b).subrange(0, a.len() as int));
}

/// A history extended by one action keeps the old history as a prefix.
pub broadcast proof fn lemma_prefix_of_push<A>(a: Seq<A>, e: A)
    ensures
        #![trigger a.push(e)]
        a.is_prefix_of(a.push(e)),
{
    assert(a =~= a.push(e).subrange(0, a.len() as int));
}

/// Prefixes compose: what holds the middle history as a prefix of the last
/// also holds the first.
pub broadcast proof fn lemma_prefix_of_trans<A>(a: Seq<A>, b: Seq<A>, c: Seq<A>)
    requires
        a.is_prefix_of(b),
        b.is_prefix_of(c),
    ensures
        #![trigger a.is_prefix_of(b), b.is_prefix_of(c)]
        a.is_prefix_of(c),
{
    assert(a =~= c.subrange(0, a.len() as int)) by {
        assert forall|i: int| 0 <= i < a.len() implies a[i] == c[i] by {
            assert(a[i] == b.subrange(0, a.len() as int)[i]);
            assert(b[i] == c.subrange(0, b.len() as int)[i]);
        }
    }
}

/// A loop-back transport that records every action and never fails. It
/// stands in for the physical port when observing exactly what a driver
/// sends.
pub struct RecordingTransport {
    ops: Vec<PortOp>,
}

impl RecordingTransport {
    /// Creates a transport with an empty history.
    pub fn new() -> (r: Self)
        ensures
            r.events() == Seq::<TxEvent>::empty(),
    {
        let r = RecordingTransport { ops: Vec::new() };
        proof {
            assert(r.events() =~= Seq::<TxEvent>::empty());
        }
        r
    }

    /// The recorded actions, oldest first.
    pub fn ops(&self) -> (r: &Vec<PortOp>)
        ensures
            recorded_events(r@) == self.events(),
    {
        &self.ops
    }
}

impl PanelTransport for RecordingTransport {
    closed spec fn events(&self) -> Seq<TxEvent> {
        recorded_events(self.ops@)
    }

    fn spi_write(&mut self, data: &[u8]) -> (r: Result<(), ()>) {
        let copy: Vec<u8> = vstd::slice::slice_to_vec(data);
        self.ops.push(PortOp::Spi(copy));
        proof {
            lemma_recorded_push(old(self).ops@, self.ops@.last());
        }
        Ok(())
    }

    fn set_dc(&mut self, level: bool) -> (r: Result<(), ()>) {
        self.ops.push(PortOp::Dc(level));
        proof {
            lemma_recorded_push(old(self).ops@, self.ops@.last());
        }
        Ok(())
    }

    fn set_cs(&mut self, level: bool) -> (r: Result<(), ()>) {
        self.ops.push(PortOp::Cs(level));
        proof {
            lemma_recorded_push(old(self).ops@, self.ops@.last());
        }
        Ok(())
    }

    fn set_rst(&mut self, level: bool) -> (r: Result<(), ()>) {
        self.ops.push(PortOp::Rst(level));
        proof {
            lemma_recorded_push(old(self).ops@, self.ops@.last());
        }
        Ok(())
    }

    fn delay_ms(&mut self, ms: u8) {
    }
}

/// Recording one more action extends the viewed history by exactly that
/// action's event.
proof fn lemma_recorded_push(pre: Seq<PortOp>, op: PortOp)
    ensures
        recorded_events(pre.push(op)) == recorded_events(pre).push(op@),
{
    assert(recorded_events(pre.push(op)) =~= recorded_events(pre).push(op@));
}

} // verus!
