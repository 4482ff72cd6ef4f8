use ip_sniffer::partition::{owner_of, MAX_PORT};
use ip_sniffer::walk::{worker_ports, PortWalk};

#[test]
fn one_worker_scans_every_port_from_one() {
    let ports = worker_ports(0, 1);
    assert_eq!(ports.len(), 65535);
    for (k, port) in ports.iter().enumerate() {
        assert_eq!(*port as usize, k + 1);
    }
}

#[test]
fn two_workers_split_odd_and_even() {
    let odd = worker_ports(0, 2);
    let even = worker_ports(1, 2);
    assert_eq!(odd.len(), 32768);
    assert_eq!(even.len(), 32767);
    assert_eq!(odd[0], 1);
    assert_eq!(odd[1], 3);
    assert_eq!(odd[32767], 65535);
    assert_eq!(even[0], 2);
    assert_eq!(even[1], 4);
    assert_eq!(even[32766], 65534);
    assert!(odd.iter().all(|p| p % 2 == 1));
    assert!(even.iter().all(|p| p % 2 == 0));
}

#[test]
fn stride_that_does_not_divide_the_range() {
    let first = worker_ports(0, 3);
    let second = worker_ports(1, 3);
    let third = worker_ports(2, 3);
    assert_eq!(first.len(), 21845);
    assert_eq!(second.len(), 21845);
    assert_eq!(third.len(), 21845);
    assert_eq!(first[21844], 65533);
    assert_eq!(second[21844], 65534);
    assert_eq!(third[21844], 65535);
    let uneven = worker_ports(3, 4);
    assert_eq!(uneven[0], 4);
    assert_eq!(uneven.len(), 16383);
    assert_eq!(uneven[16382], 65532);
    assert_eq!(worker_ports(2, 4).len(), 16384);
    assert_eq!(worker_ports(2, 4)[16383], 65535);
}

#[test]
fn shares_cover_each_port_exactly_once() {
    for n in [1u16, 2, 3, 4, 7, 100, 1000, 40000, 65534, 65535] {
        let mut seen = vec![0u32; 65536];
        for worker in 0..n {
            for port in worker_ports(worker, n) {
                seen[port as usize] += 1;
            }
        }
        assert_eq!(seen[0], 0);
        assert!(seen[1..].iter().all(|count| *count == 1), "{} workers", n);
    }
}

#[test]
fn shares_of_distinct_workers_are_disjoint() {
    let n = 6u16;
    for i in 0..n {
        for j in 0..n {
            if i != j {
                let first = worker_ports(i, n);
                let second = worker_ports(j, n);
                assert!(first.iter().all(|p| second.binary_search(p).is_err()));
            }
        }
    }
}

#[test]
fn port_is_scanned_by_its_owner() {
    for n in [1u16, 4, 9, 65535] {
        for port in [1u16, 2, 80, 8080, 65534, 65535] {
            let worker = owner_of(port, n).unwrap();
            assert_eq!(worker, (port - 1) % n);
            assert!(worker_ports(worker, n).contains(&port));
        }
    }
}

#[test]
fn owner_of_a_port() {
    assert_eq!(owner_of(8080, 4), Some(3));
    assert_eq!(owner_of(1, 4), Some(0));
    assert_eq!(owner_of(4, 4), Some(3));
    assert_eq!(owner_of(5, 4), Some(0));
    assert_eq!(owner_of(65535, 2), Some(0));
    assert_eq!(owner_of(65535, 65535), Some(65534));
    assert_eq!(owner_of(0, 4), None);
    assert_eq!(owner_of(80, 0), None);
}

#[test]
fn as_many_workers_as_ports_scan_one_port_each() {
    for worker in [0u16, 1, 2, 8079, 65533, 65534] {
        assert_eq!(worker_ports(worker, 65535), vec![worker + 1]);
    }
}

#[test]
fn worker_that_starts_beyond_the_last_port_scans_nothing() {
    assert_eq!(worker_ports(65535, 65535), Vec::<u16>::new());
    assert_eq!(worker_ports(65535, 1), Vec::<u16>::new());
    let mut walk = PortWalk::new(65535, 65535);
    assert_eq!(walk.next_port(), None);
}

#[test]
fn no_workers_scan_nothing() {
    assert_eq!(worker_ports(0, 0), Vec::<u16>::new());
    assert_eq!(worker_ports(7, 0), Vec::<u16>::new());
    let mut walk = PortWalk::new(0, 0);
    assert_eq!(walk.next_port(), None);
}

#[test]
fn walk_ends_at_the_last_port_without_wrapping() {
    let mut walk = PortWalk::new(65533, 1);
    assert_eq!(walk.next_port(), Some(65534));
    assert_eq!(walk.next_port(), Some(65535));
    assert_eq!(walk.next_port(), None);
    assert_eq!(walk.next_port(), None);

    let mut wide = PortWalk::new(9, 60000);
    assert_eq!(wide.next_port(), Some(10));
    assert_eq!(wide.next_port(), Some(60010));
    assert_eq!(wide.next_port(), None);

    let mut widest = PortWalk::new(0, 65535);
    assert_eq!(widest.next_port(), Some(1));
    assert_eq!(widest.next_port(), None);
}

#[test]
fn walk_never_returns_to_a_port() {
    for (worker, n) in [(0u16, 1u16), (3, 4), (0, 65535), (100, 257), (65534, 2)] {
        let mut walk = PortWalk::new(worker, n);
        let mut last = 0u16;
        let mut steps = 0u32;
        while let Some(port) = walk.next_port() {
            assert!(port > last);
            assert!(port >= 1);
            last = port;
            steps += 1;
            assert!(steps <= 65535);
        }
        assert_eq!(walk.next_port(), None);
    }
}

#[test]
fn walk_hands_out_the_share_in_order() {
    let mut walk = PortWalk::new(2, 20000);
    assert_eq!(walk.next_port(), Some(3));
    assert_eq!(walk.next_port(), Some(20003));
    assert_eq!(walk.next_port(), Some(40003));
    assert_eq!(walk.next_port(), Some(60003));
    assert_eq!(walk.next_port(), None);
    assert_eq!(worker_ports(2, 20000), vec![3, 20003, 40003, 60003]);
}

#[test]
fn last_port_is_the_largest_of_sixteen_bits() {
    assert_eq!(MAX_PORT, u16::MAX);
    assert_eq!(MAX_PORT, 65535);
}
