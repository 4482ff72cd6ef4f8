//! The scan itself: a worker asks a probe about each port of its share, and
//! the ports that the probe found open are collected and sorted.
//!
//! The probe stands for the connection attempt. It is asked about each port
//! once, and nothing is assumed of it but its own contract: two probes of
//! one port may differ, so the contracts here speak of the answers that the
//! probe gave.

use crate::collector::ResultCollector;
use crate::order::{lemma_strictly_ascending_unique, strictly_ascending};
use crate::partition::{
    lemma_holder_is_owner, lemma_owner_holds, lemma_share_contains,
    lemma_share_strictly_ascending, owner, share,
};
use crate::walk::PortWalk;
use vstd::prelude::*;

verus! {

/// Whether `found` is what a worker reports that has asked `probe` about
/// each of `ports`: exactly those of `ports` about which the probe said yes,
/// in ascending order.
pub open spec fn is_worker_report<F: Fn(u16) -> bool>(
    found: Seq<u16>,
    ports: Seq<u16>,
    probe: F,
) -> bool {
    &&& strictly_ascending(found)
    &&& forall|port: u16| found.contains(port) ==> ports.contains(port)
    &&& forall|k: int|
        0 <= k < ports.len() ==> call_ensures(
            probe,
            (#[trigger] ports[k],),
            found.contains(ports[k]),
        )
}

/// Whether `open` is the result of a scan by `num_workers` workers that have
/// asked `probe` about the ports of their shares: exactly the ports from 1
/// to 65535 about which the probe said yes, in ascending order and each
/// once. Without workers nothing is scanned, and the result is empty.
pub open spec fn is_scan_report<F: Fn(u16) -> bool>(
    open: Seq<u16>,
    num_workers: int,
    probe: F,
) -> bool {
    &&& strictly_ascending(open)
    &&& !open.contains(0)
    &&& num_workers < 1 ==> open.len() == 0
    &&& num_workers >= 1 ==> forall|port: u16|
        port >= 1 ==> call_ensures(probe, (port,), #[trigger] open.contains(port))
}

/// Runs one worker: asks `probe` about each port of the worker's share, in
/// the order of the share, and returns the ports that it found open.
pub fn scan_worker<F: Fn(u16) -> bool>(worker: u16, num_workers: u16, probe: &F) -> (found: Vec<
    u16,
>)
    requires
        forall|port: u16|
            share(worker as int, num_workers as int).contains(port) ==> call_requires(
                *probe,
                (port,),
            ),
    ensures
        is_worker_report(found@, share(worker as int, num_workers as int), *probe),
{
    let ghost ports = share(worker as int, num_workers as int);
    let mut walk = PortWalk::new(worker, num_workers);
    let mut found: Vec<u16> = Vec::new();
    let ghost mut done: int = 0;
    proof {
        lemma_share_strictly_ascending(worker as int, num_workers as int);
    }
    loop
        invariant
            ports == share(worker as int, num_workers as int),
            strictly_ascending(ports),
            0 <= done <= ports.len(),
            walk@ == ports.skip(done),
            strictly_ascending(found@),
            forall|i: int| 0 <= i < found.len() ==> ports.contains(#[trigger] found[i]),
            forall|i: int|
                0 <= i < found.len() && done < ports.len() ==> #[trigger] found[i] < ports[done],
            forall|k: int|
                0 <= k < done ==> call_ensures(
                    *probe,
                    (#[trigger] ports[k],),
                    found@.contains(ports[k]),
                ),
            forall|port: u16| ports.contains(port) ==> call_requires(*probe, (port,)),
        ensures
            is_worker_report(found@, ports, *probe),
        decreases walk@.len(),
    {
        match walk.next_port() {
            None => {
                break ;
            },
            Some(port) => {
                assert(ports.contains(port));
                let ghost before = found@;
                let answer = probe(port);
                if answer {
                    found.push(port);
                    assert(found@[found.len() - 1] == port);
                }
                assert forall|k: int| 0 <= k <= done implies call_ensures(
                    *probe,
                    (#[trigger] ports[k],),
                    found@.contains(ports[k]),
                ) by {
                    if k < done && before.contains(ports[k]) {
                        let i = choose|i: int| 0 <= i < before.len() && before[i] == ports[k];
                        assert(found@[i] == ports[k]);
                    }
                }
                proof {
                    done = done + 1;
                }
            },
        }
    }
    found
}

/// Scans the whole port space with `num_workers` workers, one after the
/// other: each asks `probe` about the ports of its share and reports the
/// open ones to a collector, which sorts them at the end. Every port from 1
/// to 65535 is probed exactly once, port 0 never.
pub fn scan<F: Fn(u16) -> bool>(num_workers: u16, probe: F) -> (open: Vec<u16>)
    requires
        forall|port: u16| port >= 1 && num_workers >= 1 ==> call_requires(probe, (port,)),
    ensures
        is_scan_report(open@, num_workers as int, probe),
{
    let ghost n = num_workers as int;
    let mut collector = ResultCollector::new();
    let mut worker: u16 = 0;
    while worker < num_workers
        invariant
            n == num_workers,
            worker <= num_workers,
            collector@.no_duplicates(),
            forall|port: u16| #[trigger]
                collector@.contains(port) ==> port >= 1 && 0 <= owner(port as int, n) < worker,
            forall|port: u16|
                port >= 1 && 0 <= owner(port as int, n) < worker ==> call_ensures(
                    probe,
                    (port,),
                    #[trigger] collector@.contains(port),
                ),
            forall|port: u16| port >= 1 && num_workers >= 1 ==> call_requires(probe, (port,)),
        decreases num_workers - worker,
    {
        let ghost ports = share(worker as int, n);
        let ghost before = collector@;
        proof {
            assert forall|port: u16| ports.contains(port) implies call_requires(probe, (port,)) by {
                lemma_share_contains(worker as int, n, port);
            }
        }
        let found = scan_worker(worker, num_workers, &probe);
        let mut i: usize = 0;
        while i < found.len()
            invariant
                i <= found.len(),
                collector@ == before + found@.take(i as int),
            decreases found.len() - i,
        {
            collector.record(found[i]);
            i += 1;
        }
        proof {
            let after = collector@;
            assert forall|port: u16| after.contains(port) <==> before.contains(port)
                || found@.contains(port) by {
                if before.contains(port) {
                    let k = choose|k: int| 0 <= k < before.len() && before[k] == port;
                    assert(after[k] == port);
                }
                if found@.contains(port) {
                    let k = choose|k: int| 0 <= k < found@.len() && found@[k] == port;
                    assert(after[before.len() + k] == port);
                }
            }
            assert forall|port: u16| found@.contains(port) implies port >= 1 && owner(
                port as int,
                n,
            ) == worker by {
                lemma_share_contains(worker as int, n, port);
                lemma_holder_is_owner(worker as int, n, port);
            }
            assert forall|j: int, k: int| 0 <= j < k < after.len() implies after[j] != after[k] by {
                if j < before.len() <= k {
                    assert(before.contains(after[j]));
                }
            }
            assert forall|port: u16|
                port >= 1 && 0 <= owner(port as int, n) < worker + 1 implies call_ensures(
                probe,
                (port,),
                #[trigger] after.contains(port),
            ) by {
                if owner(port as int, n) == worker {
                    lemma_owner_holds(port, n);
                }
            }
        }
        worker += 1;
    }
    let ghost received = collector@;
    let open = collector.collect();
    proof {
        if num_workers >= 1 {
            assert forall|port: u16| port >= 1 implies call_ensures(
                probe,
                (port,),
                #[trigger] open@.contains(port),
            ) by {
                lemma_owner_holds(port, n);
            }
        } else {
            assert(received.len() == 0) by {
                if received.len() > 0 {
                    assert(received.contains(received[0]));
                }
            }
        }
    }
    open
}

/// A target on which every probe fails yields an empty result, not an
/// error, however many workers scan it.
pub proof fn lemma_closed_target_reports_nothing<F: Fn(u16) -> bool>(
    open: Seq<u16>,
    num_workers: int,
    probe: F,
)
    requires
        is_scan_report(open, num_workers, probe),
        forall|port: u16| !call_ensures(probe, (port,), true),
    ensures
        open == Seq::<u16>::empty(),
{
    if open.len() > 0 {
        assert(open.contains(open[0]));
    }
}

/// Where the probe has one answer for each port, the result holds exactly
/// the ports from 1 to 65535 for which that answer is yes.
pub proof fn lemma_scan_report_holds_listening_ports<F: Fn(u16) -> bool>(
    open: Seq<u16>,
    num_workers: int,
    probe: F,
    listening: Set<u16>,
)
    requires
        num_workers >= 1,
        is_scan_report(open, num_workers, probe),
        forall|port: u16, answer: bool|
            call_ensures(probe, (port,), answer) ==> answer == listening.contains(port),
    ensures
        forall|port: u16| open.contains(port) <==> port >= 1 && listening.contains(port),
{
}

/// Where the probe has one answer for each port, the result does not depend
/// on the number of workers: any two scans of the target report the same
/// sequence.
pub proof fn lemma_scan_report_independent_of_workers<F: Fn(u16) -> bool>(
    first: Seq<u16>,
    first_workers: int,
    second: Seq<u16>,
    second_workers: int,
    probe: F,
    listening: Set<u16>,
)
    requires
        first_workers >= 1,
        second_workers >= 1,
        is_scan_report(first, first_workers, probe),
        is_scan_report(second, second_workers, probe),
        forall|port: u16, answer: bool|
            call_ensures(probe, (port,), answer) ==> answer == listening.contains(port),
    ensures
        first == second,
{
    lemma_scan_report_holds_listening_ports(first, first_workers, probe, listening);
    lemma_scan_report_holds_listening_ports(second, second_workers, probe, listening);
    lemma_strictly_ascending_unique(first, second);
}

} // verus!
