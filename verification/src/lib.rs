//! A TCP-connect port scanner's engine: how the port space is shared out
//! among workers, how each worker walks its share, and how the open ports
//! that the workers report become one sorted result.
//!
//! - `partition`: the shares as mathematics, and the laws that hold of them:
//!   together they cover the ports from 1 to 65535, no two of them overlap,
//!   and each is finite and strictly ascending.
//! - `walk`: the walk of one worker through its share, step by step.
//! - `scan`: a worker, and a whole scan, driven by a probe that says whether
//!   a port is open.
//! - `collector` and `sort`: taking in the reported ports and sorting them.
//! - `order`: what it means for ports to be in order.
//! - `args` and `decimal`: reading the command line.
//!
//! Nothing here opens a connection, starts a thread or prints: the program
//! around the library does.

pub mod args;
pub mod collector;
pub mod decimal;
pub mod order;
pub mod partition;
pub mod scan;
pub mod sort;
pub mod walk;
