use lanscan::address::{get_subnet, LocalAddress, ProbeTarget, SubnetPrefix, FIRST_HOST, LAST_HOST};
use lanscan::decimal::decimal_string;
use lanscan::sweep::{sweep_targets, HOST_COUNT};

#[test]
fn subnet_is_first_three_octets() {
    let local = LocalAddress { a: 192, b: 168, c: 1, d: 42 };
    assert_eq!(get_subnet(&local), SubnetPrefix { a: 192, b: 168, c: 1 });
}

#[test]
fn subnet_ignores_last_octet() {
    let low = LocalAddress { a: 10, b: 0, c: 0, d: 0 };
    let high = LocalAddress { a: 10, b: 0, c: 0, d: 255 };
    assert_eq!(get_subnet(&low), get_subnet(&high));
    assert_eq!(get_subnet(&low), SubnetPrefix { a: 10, b: 0, c: 0 });
}

#[test]
fn candidates_range_over_the_subnet() {
    let local = LocalAddress { a: 192, b: 168, c: 1, d: 42 };
    let targets = sweep_targets(get_subnet(&local));
    assert_eq!(targets.len(), 254);
    assert_eq!(targets[0].to_text(), "192.168.1.1");
    assert_eq!(targets[41].to_text(), "192.168.1.42");
    assert_eq!(targets[253].to_text(), "192.168.1.254");
    for (i, target) in targets.iter().enumerate() {
        assert_eq!(target.to_text(), format!("192.168.1.{}", i + 1));
    }
}

#[test]
fn every_host_is_a_candidate_exactly_once() {
    let prefix = SubnetPrefix { a: 172, b: 16, c: 254 };
    let targets = sweep_targets(prefix);
    assert_eq!(targets.len(), HOST_COUNT);
    for suffix in FIRST_HOST..=LAST_HOST {
        let hits = targets.iter().filter(|t| t.suffix == suffix).count();
        assert_eq!(hits, 1, "suffix {}", suffix);
    }
    assert!(targets.iter().all(|t| t.prefix == prefix));
    assert!(targets.iter().all(|t| t.suffix != 0 && t.suffix != 255));
}

#[test]
fn candidates_are_written_apart() {
    let targets = sweep_targets(SubnetPrefix { a: 1, b: 11, c: 111 });
    let mut texts: Vec<String> = targets.iter().map(|t| t.to_text()).collect();
    texts.sort();
    texts.dedup();
    assert_eq!(texts.len(), 254);
}

#[test]
fn constants_bound_the_hosts() {
    assert_eq!(FIRST_HOST, 1);
    assert_eq!(LAST_HOST, 254);
    assert_eq!(HOST_COUNT, 254);
}

#[test]
fn address_text_is_dotted_quad() {
    assert_eq!(LocalAddress { a: 10, b: 0, c: 0, d: 5 }.to_text(), "10.0.0.5");
    assert_eq!(LocalAddress { a: 0, b: 0, c: 0, d: 0 }.to_text(), "0.0.0.0");
    assert_eq!(LocalAddress { a: 255, b: 255, c: 255, d: 255 }.to_text(), "255.255.255.255");
    assert_eq!(LocalAddress { a: 1, b: 20, c: 100, d: 9 }.to_text(), "1.20.100.9");
}

#[test]
fn target_text_is_prefix_then_suffix() {
    let target = ProbeTarget { prefix: SubnetPrefix { a: 192, b: 168, c: 0 }, suffix: 254 };
    assert_eq!(target.to_text(), "192.168.0.254");
}

#[test]
fn decimal_of_small_numbers() {
    assert_eq!(decimal_string(0), "0");
    assert_eq!(decimal_string(7), "7");
    assert_eq!(decimal_string(9), "9");
    assert_eq!(decimal_string(10), "10");
    assert_eq!(decimal_string(99), "99");
    assert_eq!(decimal_string(100), "100");
    assert_eq!(decimal_string(254), "254");
}

#[test]
fn decimal_of_large_numbers() {
    assert_eq!(decimal_string(1_000_000_007), "1000000007");
    assert_eq!(decimal_string(u64::MAX as u128), "18446744073709551615");
    assert_eq!(decimal_string(u128::MAX), "340282366920938463463374607431768211455");
}

#[test]
fn decimal_agrees_with_std_formatting() {
    let mut n: u128 = 1;
    for _ in 0..38 {
        assert_eq!(decimal_string(n), format!("{}", n));
        assert_eq!(decimal_string(n - 1), format!("{}", n - 1));
        n *= 10;
    }
}
