use vstd::prelude::*;

verus! {

#[verifier::external_type_specification]
#[verifier::external_body]
pub struct ExRelaxedCounter(atomic_counter::RelaxedCounter);

/// Calls `RelaxedCounter::default`, an atomic counter that starts at zero.
/// Its count changes through shared references, so no contract names it.
#[verifier::external_body]
fn relaxed_counter_new() -> atomic_counter::RelaxedCounter {
    atomic_counter::RelaxedCounter::default()
}

/// Calls `AtomicCounter::inc` on a `RelaxedCounter`, which adds one to the
/// count (wrapping) and returns the count before. Other threads may count at
/// the same time, so nothing is promised of the value returned.
#[verifier::external_body]
fn relaxed_counter_inc(counter: &atomic_counter::RelaxedCounter) -> usize {
    atomic_counter::AtomicCounter::inc(counter)
}

/// Counts the packets sent and received on a connection, under a label that
/// names the connection.
#[derive(Debug)]
pub struct PacketCounter {
    context: String,
    pub sent: atomic_counter::RelaxedCounter,
    pub recv: atomic_counter::RelaxedCounter,
}

impl PacketCounter {
    /// The label that names the connection.
    pub closed spec fn label(&self) -> Seq<char> {
        self.context@
    }

    /// A counter under the given label, with both counts at zero.
    pub fn new(context: String) -> (counter: Self)
        ensures
            counter.label() == context@,
    {
        PacketCounter { context, sent: relaxed_counter_new(), recv: relaxed_counter_new() }
    }

    /// The label that names the connection.
    pub fn context(&self) -> (label: &String)
        ensures
            label@ == self.label(),
    {
        &self.context
    }

    /// Counts one packet sent.
    pub fn inc_sent(&self) {
        relaxed_counter_inc(&self.sent);
    }

    /// Counts one packet received.
    pub fn inc_recv(&self) {
        relaxed_counter_inc(&self.recv);
    }
}

} // verus!
