use std::collections::VecDeque;

use paneview::system::{
    collect_interfaces, format_bytes, format_duration, history_values, push_history, str_less, InterfaceAddress,
    HISTORY_LIMIT,
};

fn float_format(bytes: u64) -> String {
    let units = ["B", "KiB", "MiB", "GiB", "TiB"];
    let mut value = bytes as f64;
    let mut unit: usize = 0;
    while value >= 1024.0 && unit < units.len() - 1 {
        value /= 1024.0;
        unit += 1;
    }
    if unit == 0 {
        format!("{bytes} {}", units[unit])
    } else {
        format!("{value:.1} {}", units[unit])
    }
}

#[test]
fn format_bytes_examples() {
    assert_eq!(format_bytes(0), "0 B");
    assert_eq!(format_bytes(1023), "1023 B");
    assert_eq!(format_bytes(1024), "1.0 KiB");
    assert_eq!(format_bytes(1536), "1.5 KiB");
    assert_eq!(format_bytes(10 * 1024 * 1024), "10.0 MiB");
    assert_eq!(format_bytes(1024 * 1024 * 1024 * 1024 * 3), "3.0 TiB");
}

#[test]
fn format_bytes_matches_float_formatting() {
    let mut samples: Vec<u64> = vec![
        1, 999, 1023, 1024, 1025, 1152, 1280, 1331, 1536, 1587, 2048, 10239, 10240, 1048575, 1048576, 5_000_000,
        123_456_789, 1_073_741_823, 1_073_741_824, 1_099_511_627_775, 1_099_511_627_776, 9_007_199_254_740_991,
        9_007_199_254_740_993, 18_014_398_509_481_983, u64::MAX - 1, u64::MAX,
    ];
    // Exact ties at a tenth of a unit and their neighbours.
    for unit in [1024u64, 1024 * 1024, 1024 * 1024 * 1024] {
        for k in 1..40u64 {
            let tie: u64 = (2 * k + 1) * unit / 20;
            samples.push(tie);
            samples.push(tie + 1);
            samples.push(tie - 1);
        }
    }
    let mut x: u64 = 0x9E37_79B9_7F4A_7C15;
    for _ in 0..2000 {
        x ^= x << 13;
        x ^= x >> 7;
        x ^= x << 17;
        samples.push(x >> (x % 64));
    }
    for b in samples {
        assert_eq!(format_bytes(b), float_format(b), "bytes = {b}");
    }
}

#[test]
fn format_duration_examples() {
    assert_eq!(format_duration(0), "0m");
    assert_eq!(format_duration(59), "0m");
    assert_eq!(format_duration(3599), "59m");
    assert_eq!(format_duration(3600), "1h 0m");
    assert_eq!(format_duration(90061), "1d 1h 1m");
    assert_eq!(format_duration(86400 * 3 + 60 * 5), "3d 0h 5m");
}

#[test]
fn history_keeps_the_newest_samples() {
    let mut history = VecDeque::new();
    for v in 0..(HISTORY_LIMIT as u64 + 5) {
        push_history(&mut history, v);
        assert!(history.len() <= HISTORY_LIMIT);
        assert_eq!(*history.back().unwrap(), v);
    }
    let values = history_values(&history);
    assert_eq!(values.len(), HISTORY_LIMIT);
    assert_eq!(values[0], 5);
    assert_eq!(values[HISTORY_LIMIT - 1], HISTORY_LIMIT as u64 + 4);
}

#[test]
fn str_less_orders_like_string() {
    let words = ["", "a", "ab", "b", "B", "é", "eth0", "eth1", "lo", "lo0"];
    for a in words {
        for b in words {
            assert_eq!(str_less(a, b), a < b, "{a} < {b}");
        }
    }
}

fn addr(name: &str, ip: &str, is_up: bool) -> InterfaceAddress {
    InterfaceAddress { name: name.to_string(), ip: ip.to_string(), is_up }
}

#[test]
fn interfaces_are_merged_and_sorted() {
    let addrs = vec![
        addr("lo", "127.0.0.1", true),
        addr("eth0", "10.0.0.2", false),
        addr("lo", "::1", true),
        addr("eth0", "fe80::1", true),
        addr("lo", "127.0.0.1", true),
    ];
    let names = vec!["wlan0".to_string(), "eth0".to_string(), "docker0".to_string()];
    let list = collect_interfaces(&addrs, &names);
    let view: Vec<(&str, Vec<&str>, Option<bool>)> = list
        .iter()
        .map(|i| (i.name.as_str(), i.ips.iter().map(|s| s.as_str()).collect(), i.is_up))
        .collect();
    assert_eq!(
        view,
        vec![
            ("docker0", vec![], None),
            ("eth0", vec!["10.0.0.2", "fe80::1"], Some(true)),
            ("lo", vec!["127.0.0.1", "::1"], Some(true)),
            ("wlan0", vec![], None),
        ]
    );
}

#[test]
fn no_interfaces_give_an_empty_list() {
    assert!(collect_interfaces(&Vec::new(), &Vec::new()).is_empty());
}

#[test]
fn refresh_is_due_after_a_second() {
    assert!(!paneview::system::refresh_due(999));
    assert!(paneview::system::refresh_due(1000));
    assert!(paneview::system::refresh_due(5000));
}
