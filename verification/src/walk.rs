//! The walk of one worker through its share of the port space.

use crate::partition::{lemma_run_step, run, share, MAX_PORT};
use vstd::prelude::*;

verus! {

/// A worker's position in its share: the port that it scans next, and the
/// stride that takes it from one port to the following one.
pub struct PortWalk {
    next: Option<u16>,
    stride: u16,
}

impl View for PortWalk {
    type V = Seq<u16>;

    /// The ports that are still to be scanned, in order.
    closed spec fn view(&self) -> Seq<u16> {
        match self.next {
            Some(port) => run(port as int, self.stride as int),
            None => Seq::empty(),
        }
    }
}

impl PortWalk {
    #[verifier::type_invariant]
    spec fn well_formed(&self) -> bool {
        self.next matches Some(port) ==> port >= 1 && self.stride >= 1
    }

    /// The walk of the worker `worker` among `num_workers` workers, at its
    /// start. A worker whose first port would lie beyond `MAX_PORT` has
    /// nothing to scan, and neither has any worker where there are no
    /// workers.
    pub fn new(worker: u16, num_workers: u16) -> (walk: PortWalk)
        ensures
            walk@ == share(worker as int, num_workers as int),
    {
        let next = if worker < MAX_PORT && num_workers >= 1 {
            Some(worker + 1)
        } else {
            None
        };
        PortWalk { next, stride: num_workers }
    }

    /// Hands out the next port of the walk and moves on by one stride. The
    /// following port is computed in 32 bits and compared with `MAX_PORT`
    /// before it is narrowed, so the walk ends instead of wrapping around.
    pub fn next_port(&mut self) -> (port: Option<u16>)
        ensures
            old(self)@.len() == 0 ==> port is None && final(self)@ == old(self)@,
            old(self)@.len() > 0 ==> port == Some(old(self)@[0]) && final(self)@ == old(
                self,
            )@.drop_first(),
    {
        proof {
            use_type_invariant(&*self);
        }
        match self.next {
            None => None,
            Some(port) => {
                proof {
                    lemma_run_step(port as int, self.stride as int);
                }
                let following: u32 = port as u32 + self.stride as u32;
                if following <= MAX_PORT as u32 {
                    self.next = Some(following as u16);
                } else {
                    self.next = None;
                }
                Some(port)
            },
        }
    }
}

/// All the ports of a worker's share, in the order in which it scans them.
pub fn worker_ports(worker: u16, num_workers: u16) -> (ports: Vec<u16>)
    ensures
        ports@ == share(worker as int, num_workers as int),
{
    let mut walk = PortWalk::new(worker, num_workers);
    let mut ports: Vec<u16> = Vec::new();
    loop
        invariant
            ports@ + walk@ == share(worker as int, num_workers as int),
        ensures
            ports@ == share(worker as int, num_workers as int),
        decreases walk@.len(),
    {
        match walk.next_port() {
            Some(port) => {
                ports.push(port);
            },
            None => {
                break ;
            },
        }
    }
    ports
}

} // verus!
