use ip_sniffer::partition::owner_of;
use ip_sniffer::scan::{scan, scan_worker};
use std::cell::RefCell;

#[test]
fn single_listener_is_found_by_its_worker() {
    let listener = |port: u16| port == 8080;
    assert_eq!(scan(4, listener), vec![8080]);
    assert_eq!((8080 - 1) % 4, 3);
    assert_eq!(owner_of(8080, 4), Some(3));
    assert_eq!(scan_worker(3, 4, &listener), vec![8080]);
    assert_eq!(scan_worker(0, 4, &listener), Vec::<u16>::new());
    assert_eq!(scan_worker(1, 4, &listener), Vec::<u16>::new());
    assert_eq!(scan_worker(2, 4, &listener), Vec::<u16>::new());
}

#[test]
fn no_listener_with_one_worker_gives_empty_result() {
    assert_eq!(scan(1, |_port: u16| false), Vec::<u16>::new());
}

#[test]
fn closed_target_gives_empty_result_for_any_number_of_workers() {
    for n in [0u16, 1, 2, 4, 1000, 65535] {
        assert_eq!(scan(n, |_port: u16| false), Vec::<u16>::new());
    }
}

#[test]
fn without_workers_nothing_is_probed() {
    let asked = RefCell::new(0u32);
    let open = scan(0, |_port: u16| {
        *asked.borrow_mut() += 1;
        true
    });
    assert_eq!(open, Vec::<u16>::new());
    assert_eq!(*asked.borrow(), 0);
}

#[test]
fn every_port_but_zero_is_probed_exactly_once() {
    for n in [1u16, 3, 4, 1024, 65535] {
        let asked = RefCell::new(vec![0u32; 65536]);
        let open = scan(n, |port: u16| {
            asked.borrow_mut()[port as usize] += 1;
            port % 1000 == 0
        });
        let asked = asked.into_inner();
        assert_eq!(asked[0], 0);
        assert!(asked[1..].iter().all(|count| *count == 1));
        let expected: Vec<u16> = (1..=65u16).map(|k| k * 1000).collect();
        assert_eq!(open, expected);
    }
}

#[test]
fn fully_open_target_reports_every_port_from_one() {
    let open = scan(7, |_port: u16| true);
    let expected: Vec<u16> = (1..=65535u16).collect();
    assert_eq!(open, expected);
}

#[test]
fn result_is_sorted_whatever_the_order_of_discovery() {
    let listener = |port: u16| [1u16, 22, 443, 8080, 65535].contains(&port);
    for n in [1u16, 2, 3, 4, 5, 100, 65535] {
        assert_eq!(scan(n, listener), vec![1, 22, 443, 8080, 65535]);
    }
}

#[test]
fn worker_reports_open_ports_of_its_share_in_order() {
    let listener = |port: u16| port < 20;
    assert_eq!(scan_worker(0, 4, &listener), vec![1, 5, 9, 13, 17]);
    assert_eq!(scan_worker(1, 4, &listener), vec![2, 6, 10, 14, 18]);
    assert_eq!(scan_worker(3, 4, &listener), vec![4, 8, 12, 16]);
    assert_eq!(scan_worker(65535, 4, &listener), Vec::<u16>::new());
    assert_eq!(scan_worker(0, 0, &listener), Vec::<u16>::new());
}

#[test]
fn worker_probes_its_share_and_nothing_else() {
    let asked = RefCell::new(Vec::<u16>::new());
    let found = scan_worker(1, 30000, &|port: u16| {
        asked.borrow_mut().push(port);
        port > 40000
    });
    assert_eq!(asked.into_inner(), vec![2, 30002, 60002]);
    assert_eq!(found, vec![60002]);
}

#[test]
fn port_zero_is_never_reported() {
    let open = scan(2, |port: u16| port < 3);
    assert_eq!(open, vec![1, 2]);
}
