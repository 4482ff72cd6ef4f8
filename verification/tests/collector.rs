use ip_sniffer::collector::ResultCollector;
use ip_sniffer::sort::sort_ports;

#[test]
fn collect_sorts_what_arrived() {
    let mut collector = ResultCollector::new();
    for port in [8080u16, 22, 443, 80, 65535, 1] {
        collector.record(port);
    }
    assert_eq!(collector.collect(), vec![1, 22, 80, 443, 8080, 65535]);
}

#[test]
fn collect_of_nothing_is_empty() {
    let collector = ResultCollector::new();
    assert_eq!(collector.collect(), Vec::<u16>::new());
}

#[test]
fn collect_of_one_port() {
    let mut collector = ResultCollector::new();
    collector.record(8080);
    assert_eq!(collector.collect(), vec![8080]);
}

#[test]
fn collect_removes_no_duplicate() {
    let mut collector = ResultCollector::new();
    for port in [80u16, 22, 80, 22, 80] {
        collector.record(port);
    }
    assert_eq!(collector.collect(), vec![22, 22, 80, 80, 80]);
}

#[test]
fn collect_is_strictly_ascending_without_duplicates() {
    let mut collector = ResultCollector::new();
    let mut port: u16 = 7;
    for _ in 0..5000 {
        collector.record(port);
        port = port.wrapping_mul(31).wrapping_add(11) | 1;
    }
    let mut collector_unique = ResultCollector::new();
    let mut seen = vec![false; 65536];
    let mut port: u16 = 7;
    for _ in 0..5000 {
        if !seen[port as usize] {
            seen[port as usize] = true;
            collector_unique.record(port);
        }
        port = port.wrapping_mul(31).wrapping_add(11) | 1;
    }
    let all = collector.collect();
    assert_eq!(all.len(), 5000);
    assert!(all.windows(2).all(|w| w[0] <= w[1]));
    let unique = collector_unique.collect();
    assert!(unique.windows(2).all(|w| w[0] < w[1]));
}

#[test]
fn sort_agrees_with_the_standard_sort() {
    let mut ports: Vec<u16> = Vec::new();
    let mut x: u32 = 12345;
    for _ in 0..10001 {
        x = x.wrapping_mul(1103515245).wrapping_add(12345);
        ports.push((x >> 8) as u16);
    }
    let mut expected = ports.clone();
    expected.sort();
    assert_eq!(sort_ports(&ports), expected);
    assert_ne!(sort_ports(&ports), ports);
}

#[test]
fn sort_of_descending_ports() {
    let ports: Vec<u16> = (0..1000u16).rev().collect();
    let expected: Vec<u16> = (0..1000u16).collect();
    assert_eq!(sort_ports(&ports), expected);
    assert_eq!(sort_ports(&[3u16, 1, 2].to_vec()), vec![1, 2, 3]);
    assert_eq!(sort_ports(&vec![2u16, 1]), vec![1, 2]);
    assert_eq!(sort_ports(&Vec::new()), Vec::<u16>::new());
}
