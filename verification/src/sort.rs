//! Sorting port numbers: a merge sort, proved to return the ports that it
//! was given, each as often as it was given, in ascending order.

use crate::order::{ascending, lemma_ascending_without_duplicates, strictly_ascending};
use vstd::multiset::group_multiset_axioms;
use vstd::prelude::*;
use vstd::seq_lib::{group_to_multiset_ensures, lemma_multiset_commutative, to_multiset_build};

verus! {

/// Merges two ascending vectors into one.
fn merge(left: &Vec<u16>, right: &Vec<u16>) -> (out: Vec<u16>)
    requires
        ascending(left@),
        ascending(right@),
    ensures
        ascending(out@),
        out@.to_multiset() == (left@ + right@).to_multiset(),
{
    broadcast use {group_to_multiset_ensures, group_multiset_axioms};

    let mut out: Vec<u16> = Vec::new();
    let mut i: usize = 0;
    let mut j: usize = 0;
    while i < left.len() || j < right.len()
        invariant
            i <= left.len(),
            j <= right.len(),
            ascending(left@),
            ascending(right@),
            ascending(out@),
            out@.to_multiset() =~= left@.take(i as int).to_multiset().add(
                right@.take(j as int).to_multiset(),
            ),
            forall|k: int| 0 <= k < out.len() && i < left.len() ==> out[k] <= left[i as int],
            forall|k: int| 0 <= k < out.len() && j < right.len() ==> out[k] <= right[j as int],
        decreases left.len() - i + right.len() - j,
    {
        let ghost merged = out@;
        let ghost taken_left = left@.take(i as int);
        let ghost taken_right = right@.take(j as int);
        if j >= right.len() || (i < left.len() && left[i] <= right[j]) {
            let port = left[i];
            out.push(port);
            i += 1;
            proof {
                assert(left@.take(i as int) =~= taken_left.push(port));
                to_multiset_build(merged, port);
                to_multiset_build(taken_left, port);
            }
        } else {
            let port = right[j];
            out.push(port);
            j += 1;
            proof {
                assert(right@.take(j as int) =~= taken_right.push(port));
                to_multiset_build(merged, port);
                to_multiset_build(taken_right, port);
            }
        }
    }
    proof {
        assert(left@.take(i as int) =~= left@);
        assert(right@.take(j as int) =~= right@);
        lemma_multiset_commutative(left@, right@);
    }
    out
}

/// Sorts the ports from `from` up to `to`.
fn sort_range(ports: &Vec<u16>, from: usize, to: usize) -> (out: Vec<u16>)
    requires
        from <= to <= ports.len(),
    ensures
        ascending(out@),
        out@.to_multiset() == ports@.subrange(from as int, to as int).to_multiset(),
    decreases to - from,
{
    broadcast use {group_to_multiset_ensures, group_multiset_axioms};

    let ghost range = ports@.subrange(from as int, to as int);
    if to - from == 0 {
        Vec::new()
    } else if to - from == 1 {
        let mut out: Vec<u16> = Vec::new();
        out.push(ports[from]);
        assert(out@ =~= range);
        out
    } else {
        let middle = from + (to - from) / 2;
        let left = sort_range(ports, from, middle);
        let right = sort_range(ports, middle, to);
        let out = merge(&left, &right);
        proof {
            let low = ports@.subrange(from as int, middle as int);
            let high = ports@.subrange(middle as int, to as int);
            assert(range =~= low + high);
            lemma_multiset_commutative(left@, right@);
            lemma_multiset_commutative(low, high);
        }
        out
    }
}

/// The given ports in ascending order: the result holds each port as often as
/// `ports` holds it.
pub fn sort_ports(ports: &Vec<u16>) -> (out: Vec<u16>)
    ensures
        ascending(out@),
        out@.to_multiset() == ports@.to_multiset(),
        out@.len() == ports@.len(),
        forall|port: u16| out@.contains(port) <==> ports@.contains(port),
        ports@.no_duplicates() ==> strictly_ascending(out@),
{
    broadcast use group_to_multiset_ensures;

    let out = sort_range(ports, 0, ports.len());
    proof {
        assert(ports@.subrange(0, ports.len() as int) =~= ports@);
        assert(ports@.len() == ports@.to_multiset().len());
        assert forall|port: u16| out@.contains(port) <==> ports@.contains(port) by {
            assert(ports@.contains(port) <==> ports@.to_multiset().count(port) > 0);
        }
        if ports@.no_duplicates() {
            lemma_ascending_without_duplicates(out@, ports@);
        }
    }
    out
}

} // verus!
