//! The collector: it takes in the open ports that the workers report, in
//! whatever order they arrive, and hands them out once, sorted.

use crate::order::{ascending, strictly_ascending};
use crate::partition::{lemma_holder_is_owner, share};
use crate::sort::sort_ports;
use vstd::prelude::*;

verus! {

/// The open ports reported so far, in the order in which they arrived.
pub struct ResultCollector {
    ports: Vec<u16>,
}

impl View for ResultCollector {
    type V = Seq<u16>;

    /// The reported ports in order of arrival.
    closed spec fn view(&self) -> Seq<u16> {
        self.ports@
    }
}

impl ResultCollector {
    /// A collector that has been told of no port yet.
    pub fn new() -> (collector: ResultCollector)
        ensures
            collector@ == Seq::<u16>::empty(),
    {
        ResultCollector { ports: Vec::new() }
    }

    /// Takes in one open port. Nothing is dropped and nothing is put in
    /// order: the port is appended to what has arrived before.
    pub fn record(&mut self, port: u16)
        ensures
            final(self)@ == old(self)@.push(port),
    {
        self.ports.push(port);
    }

    /// Ends the collection and returns the reported ports in ascending
    /// order. The result holds every port as often as it was reported; no
    /// duplicate is removed. So where no port was reported twice, as is the
    /// case when each worker reports from its own share, the result is
    /// strictly ascending.
    pub fn collect(self) -> (out: Vec<u16>)
        ensures
            ascending(out@),
            out@.to_multiset() == self@.to_multiset(),
            out@.len() == self@.len(),
            forall|port: u16| out@.contains(port) <==> self@.contains(port),
            self@.no_duplicates() ==> strictly_ascending(out@),
    {
        sort_ports(&self.ports)
    }
}

/// Whether `arrivals` can be what the workers of one scan report, in any
/// interleaving: each arrival gives the worker and the port, the port is one
/// of that worker's share, and no worker reports a port twice.
pub open spec fn reported_from_shares(arrivals: Seq<(int, u16)>, num_workers: int) -> bool {
    &&& arrivals.no_duplicates()
    &&& forall|i: int|
        0 <= i < arrivals.len() ==> {
            &&& 0 <= (#[trigger] arrivals[i]).0 < num_workers
            &&& share(arrivals[i].0, num_workers).contains(arrivals[i].1)
        }
}

/// Why the collector needs to remove no duplicate: in whatever order the
/// reports of the workers arrive, no port arrives twice, because each port is
/// in the share of one worker only.
pub proof fn lemma_reports_from_shares_are_distinct(arrivals: Seq<(int, u16)>, num_workers: int)
    requires
        reported_from_shares(arrivals, num_workers),
    ensures
        arrivals.map_values(|arrival: (int, u16)| arrival.1).no_duplicates(),
{
    let ports = arrivals.map_values(|arrival: (int, u16)| arrival.1);
    assert forall|i: int, j: int|
        0 <= i < ports.len() && 0 <= j < ports.len() && i != j implies ports[i] != ports[j] by {
        if ports[i] == ports[j] {
            lemma_holder_is_owner(arrivals[i].0, num_workers, ports[i]);
            lemma_holder_is_owner(arrivals[j].0, num_workers, ports[j]);
        }
    }
}

} // verus!
