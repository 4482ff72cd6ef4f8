//! The mathematical model of the partition: which ports a worker is
//! responsible for, in which order, and the laws that hold of the shares.

use crate::order::strictly_ascending;
use vstd::prelude::*;

verus! {

/// The largest port number.
pub const MAX_PORT: u16 = 65535;

/// How many ports the walk from `start` in steps of `stride` visits: `start`,
/// `start + stride`, ... as long as the port does not exceed `MAX_PORT`. The
/// walk is empty where `start` is no port from 1 to 65535, and where the stride
/// is zero.
pub open spec fn run_len(start: int, stride: int) -> nat {
    if stride >= 1 && 1 <= start <= MAX_PORT {
        ((MAX_PORT - start) / stride + 1) as nat
    } else {
        0
    }
}

/// The ports that the walk from `start` in steps of `stride` visits, in order.
pub open spec fn run(start: int, stride: int) -> Seq<u16> {
    Seq::new(run_len(start, stride), |k: int| (start + k * stride) as u16)
}

/// The ports that the worker `worker` scans when `num_workers` workers share
/// the port space, in the order in which it scans them: `worker + 1`,
/// `worker + 1 + num_workers`, ... up to `MAX_PORT`. Port 0 is in no share.
pub open spec fn share(worker: int, num_workers: int) -> Seq<u16> {
    run(worker + 1, num_workers)
}

/// How many ports the worker `worker` scans.
pub open spec fn share_len(worker: int, num_workers: int) -> nat {
    run_len(worker + 1, num_workers)
}

/// Whether `port` belongs to the worker `worker`: it lies above the worker's
/// number, is a port number, and is a whole number of strides away from the
/// worker's first port.
pub open spec fn in_share(worker: int, num_workers: int, port: int) -> bool {
    &&& num_workers >= 1
    &&& 0 <= worker < port <= MAX_PORT
    &&& (port - 1 - worker) % num_workers == 0
}

/// The worker that scans `port`.
pub open spec fn owner(port: int, num_workers: int) -> int {
    (port - 1) % num_workers
}

/// One step of a walk: a walk from a port visits that port first, and then
/// what the walk from `start + stride` visits, which is nothing once
/// `start + stride` exceeds `MAX_PORT`.
pub proof fn lemma_run_step(start: int, stride: int)
    requires
        stride >= 1,
        1 <= start <= MAX_PORT,
    ensures
        run(start, stride).len() >= 1,
        run(start, stride)[0] == start,
        run(start, stride).drop_first() == run(start + stride, stride),
        start + stride > MAX_PORT ==> run(start, stride).len() == 1,
{
    let room = MAX_PORT - start;
    let rest = run(start + stride, stride);
    if start + stride <= MAX_PORT {
        assert(room / stride == (room - stride) / stride + 1) by (nonlinear_arith)
            requires
                stride >= 1,
                room >= stride,
        ;
        assert forall|k: int| 0 <= k < rest.len() implies run(start, stride).drop_first()[k]
            == rest[k] by {
            assert(start + (k + 1) * stride == start + stride + k * stride) by (nonlinear_arith);
        }
    } else {
        assert(room / stride == 0) by (nonlinear_arith)
            requires
                stride >= 1,
                0 <= room < stride,
        ;
    }
}

/// The `k`-th port of a share is `worker + 1 + k * num_workers`, computed
/// without wrapping: it is a port number above the worker's own number.
pub proof fn lemma_share_index(worker: int, num_workers: int, k: int)
    requires
        0 <= k < share_len(worker, num_workers),
    ensures
        share(worker, num_workers)[k] as int == worker + 1 + k * num_workers,
        worker < share(worker, num_workers)[k] as int <= MAX_PORT,
        in_share(worker, num_workers, share(worker, num_workers)[k] as int),
{
    let room = MAX_PORT - (worker + 1);
    assert(0 <= k * num_workers <= room && (k * num_workers) % num_workers == 0)
        by (nonlinear_arith)
        requires
            num_workers >= 1,
            room >= 0,
            0 <= k <= room / num_workers,
    ;
}

/// A port is in a worker's share exactly when `in_share` says so.
pub proof fn lemma_share_contains(worker: int, num_workers: int, port: u16)
    ensures
        share(worker, num_workers).contains(port) <==> in_share(worker, num_workers, port as int),
{
    let s = share(worker, num_workers);
    if s.contains(port) {
        let k = choose|k: int| 0 <= k < s.len() && s[k] == port;
        lemma_share_index(worker, num_workers, k);
    }
    if in_share(worker, num_workers, port as int) {
        let room = MAX_PORT - (worker + 1);
        let gap = port - 1 - worker;
        let k = gap / num_workers;
        assert(0 <= k <= room / num_workers && k * num_workers == gap) by (nonlinear_arith)
            requires
                num_workers >= 1,
                0 <= gap <= room,
                gap % num_workers == 0,
                k == gap / num_workers,
        ;
        assert(s[k] == port);
    }
}

/// Whether some worker scans `port` when `num_workers` workers share the port
/// space.
pub open spec fn covered(port: u16, num_workers: int) -> bool {
    exists|worker: int|
        0 <= worker < num_workers && #[trigger] share(worker, num_workers).contains(port)
}

/// Coverage: however many workers share the port space (one at least), the
/// shares together hold every port from 1 to 65535 and nothing else. The
/// worker that holds a port is `owner(port, num_workers)`.
pub proof fn lemma_shares_cover_port_space(num_workers: int)
    requires
        num_workers >= 1,
    ensures
        forall|port: u16|
            port >= 1 ==> {
                &&& 0 <= owner(port as int, num_workers) < num_workers
                &&& #[trigger] share(owner(port as int, num_workers), num_workers).contains(port)
            },
        forall|worker: int, port: u16| #[trigger]
            share(worker, num_workers).contains(port) ==> port >= 1,
        forall|port: u16| #[trigger] covered(port, num_workers) <==> port >= 1,
{
    assert forall|port: u16| port >= 1 implies {
        &&& 0 <= owner(port as int, num_workers) < num_workers
        &&& #[trigger] share(owner(port as int, num_workers), num_workers).contains(port)
    } by {
        lemma_owner_holds(port, num_workers);
    }
    assert forall|worker: int, port: u16| #[trigger]
        share(worker, num_workers).contains(port) implies port >= 1 by {
        lemma_share_contains(worker, num_workers, port);
    }
    assert forall|port: u16| #[trigger] covered(port, num_workers) <==> port >= 1 by {
        if port >= 1 {
            lemma_owner_holds(port, num_workers);
        }
    }
}

/// Every port from 1 to 65535 is in the share of its owner, and the owner is
/// one of the workers.
pub proof fn lemma_owner_holds(port: u16, num_workers: int)
    requires
        port >= 1,
        num_workers >= 1,
    ensures
        0 <= owner(port as int, num_workers) < num_workers,
        share(owner(port as int, num_workers), num_workers).contains(port),
{
    let below = port - 1;
    let worker = owner(port as int, num_workers);
    assert(0 <= worker < num_workers && worker <= below && (below - worker) % num_workers == 0)
        by (nonlinear_arith)
        requires
            num_workers >= 1,
            below >= 0,
            worker == below % num_workers,
    ;
    lemma_share_contains(worker, num_workers, port);
}

/// The worker that scans `port`, if any does: port 0 is scanned by nobody,
/// and nothing is scanned where there are no workers.
pub fn owner_of(port: u16, num_workers: u16) -> (worker: Option<u16>)
    ensures
        worker is Some <==> port >= 1 && num_workers >= 1,
        worker matches Some(w) ==> {
            &&& w == owner(port as int, num_workers as int)
            &&& w < num_workers
            &&& share(w as int, num_workers as int).contains(port)
        },
{
    if port >= 1 && num_workers >= 1 {
        proof {
            lemma_owner_holds(port, num_workers as int);
        }
        Some((port - 1) % num_workers)
    } else {
        None
    }
}

/// A port is in the share of no worker but its owner.
pub proof fn lemma_holder_is_owner(worker: int, num_workers: int, port: u16)
    requires
        0 <= worker < num_workers,
        share(worker, num_workers).contains(port),
    ensures
        worker == owner(port as int, num_workers),
{
    lemma_share_contains(worker, num_workers, port);
    let below = port - 1;
    assert(below % num_workers == worker) by (nonlinear_arith)
        requires
            0 <= worker < num_workers,
            worker <= below,
            (below - worker) % num_workers == 0,
    ;
}

/// No overlap: the shares of two distinct workers have no port in common.
pub proof fn lemma_shares_disjoint(first: int, second: int, num_workers: int)
    requires
        0 <= first < num_workers,
        0 <= second < num_workers,
        first != second,
    ensures
        forall|port: u16|
            !(share(first, num_workers).contains(port) && share(second, num_workers).contains(
                port,
            )),
        share(first, num_workers).to_set().disjoint(share(second, num_workers).to_set()),
{
    assert forall|port: u16|
        !(share(first, num_workers).contains(port) && share(second, num_workers).contains(
            port,
        )) by {
        if share(first, num_workers).contains(port) && share(second, num_workers).contains(port) {
            lemma_holder_is_owner(first, num_workers, port);
            lemma_holder_is_owner(second, num_workers, port);
        }
    }
}

/// Termination: a share is a finite sequence of at most 65535 ports, each
/// strictly above the one before it. So a worker never comes back to a port
/// that it has scanned, and none of its ports is the result of wrapping
/// around.
pub proof fn lemma_share_strictly_ascending(worker: int, num_workers: int)
    ensures
        share(worker, num_workers).len() <= MAX_PORT,
        forall|k: int|
            0 <= k < share(worker, num_workers).len() ==> 1 <= #[trigger] share(
                worker,
                num_workers,
            )[k],
        strictly_ascending(share(worker, num_workers)),
        share(worker, num_workers).no_duplicates(),
{
    let s = share(worker, num_workers);
    assert forall|k: int| 0 <= k < s.len() implies 1 <= #[trigger] s[k] by {
        lemma_share_index(worker, num_workers, k);
    }
    assert forall|j: int, k: int| 0 <= j < k < s.len() implies s[j] < s[k] by {
        lemma_share_index(worker, num_workers, j);
        lemma_share_index(worker, num_workers, k);
        assert(j * num_workers < k * num_workers) by (nonlinear_arith)
            requires
                j < k,
                num_workers >= 1,
        ;
    }
    if s.len() > 0 {
        let room = MAX_PORT - (worker + 1);
        assert(room / num_workers <= room) by (nonlinear_arith)
            requires
                room >= 0,
                num_workers >= 1,
        ;
    }
}

} // verus!
