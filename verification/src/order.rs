//! Order on sequences of ports.

use vstd::prelude::*;

verus! {

/// No port is followed by a smaller one.
pub open spec fn ascending(ports: Seq<u16>) -> bool {
    forall|i: int, j: int| 0 <= i < j < ports.len() ==> ports[i] <= ports[j]
}

/// Every port is smaller than those that follow it: the sequence is in
/// ascending order and holds no port twice.
pub open spec fn strictly_ascending(ports: Seq<u16>) -> bool {
    forall|i: int, j: int| 0 <= i < j < ports.len() ==> ports[i] < ports[j]
}

/// A sequence in ascending order that holds the ports of a sequence without
/// duplicates holds no port twice either, so it is strictly ascending.
pub proof fn lemma_ascending_without_duplicates(sorted: Seq<u16>, given: Seq<u16>)
    requires
        ascending(sorted),
        sorted.to_multiset() == given.to_multiset(),
        given.no_duplicates(),
    ensures
        strictly_ascending(sorted),
        sorted.no_duplicates(),
{
    given.lemma_multiset_has_no_duplicates();
    sorted.lemma_multiset_has_no_duplicates_conv();
}

/// A strictly ascending sequence is determined by the ports that it holds.
pub proof fn lemma_strictly_ascending_unique(first: Seq<u16>, second: Seq<u16>)
    requires
        strictly_ascending(first),
        strictly_ascending(second),
        forall|port: u16| first.contains(port) <==> second.contains(port),
    ensures
        first == second,
    decreases first.len(),
{
    if first.len() == 0 {
        if second.len() > 0 {
            assert(second.contains(second[0]));
        }
    } else if second.len() == 0 {
        assert(first.contains(first[0]));
    } else {
        let a = first.last();
        let b = second.last();
        assert(first.contains(a));
        assert(second.contains(b));
        let head_a = first.drop_last();
        let head_b = second.drop_last();
        assert forall|port: u16| head_a.contains(port) <==> head_b.contains(port) by {
            if head_a.contains(port) {
                assert(first.contains(port));
                let m = choose|m: int| 0 <= m < second.len() && second[m] == port;
                assert(head_b[m] == port);
            }
            if head_b.contains(port) {
                assert(second.contains(port));
                let m = choose|m: int| 0 <= m < first.len() && first[m] == port;
                assert(head_a[m] == port);
            }
        }
        lemma_strictly_ascending_unique(head_a, head_b);
        assert(second =~= head_b.push(b));
    }
}

} // verus!
