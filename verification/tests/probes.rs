use lanscan::address::{ProbeTarget, SubnetPrefix};
use lanscan::probe::{
    probe_command, probe_result, ProbeOutcome, RoundTrip, ECHO_COUNT, PROBE_TIMEOUT_MS,
};
use lanscan::report::{active_line, no_address_line, scanning_line, ScanError};
use lanscan::address::LocalAddress;

#[test]
fn reply_reports_elapsed_time() {
    let result = probe_result(ProbeOutcome::Exited { success: true }, 2_000_000);
    assert_eq!(result, Some(RoundTrip { nanos: 2_000_000 }));
}

#[test]
fn instant_reply_reports_zero() {
    let result = probe_result(ProbeOutcome::Exited { success: true }, 0);
    assert_eq!(result, Some(RoundTrip { nanos: 0 }));
}

#[test]
fn slow_reply_is_still_a_reply() {
    let result = probe_result(ProbeOutcome::Exited { success: true }, 250_000_000);
    assert_eq!(result, Some(RoundTrip { nanos: 250_000_000 }));
}

#[test]
fn failed_exit_reports_nothing() {
    assert_eq!(probe_result(ProbeOutcome::Exited { success: false }, 2_000_000), None);
    assert_eq!(probe_result(ProbeOutcome::Exited { success: false }, 100_000_000), None);
}

#[test]
fn spawn_failure_reports_nothing() {
    assert_eq!(probe_result(ProbeOutcome::SpawnFailed, 0), None);
    assert_eq!(probe_result(ProbeOutcome::SpawnFailed, 5_000), None);
}

#[test]
fn probe_constants() {
    assert_eq!(ECHO_COUNT, 1);
    assert_eq!(PROBE_TIMEOUT_MS, 100);
}

#[test]
fn only_a_successful_exit_is_a_reply() {
    assert!(ProbeOutcome::Exited { success: true }.replied());
    assert!(!ProbeOutcome::Exited { success: false }.replied());
    assert!(!ProbeOutcome::SpawnFailed.replied());
}

#[test]
fn longest_time_is_kept_whole() {
    let result = probe_result(ProbeOutcome::Exited { success: true }, u128::MAX);
    assert_eq!(result, Some(RoundTrip { nanos: u128::MAX }));
}

#[test]
fn command_sends_one_echo_with_timeout() {
    let target = ProbeTarget { prefix: SubnetPrefix { a: 10, b: 0, c: 0 }, suffix: 1 };
    let command = probe_command(&target);
    assert_eq!(command.program, "ping");
    assert_eq!(command.arguments, vec!["-n", "1", "-w", "100", "10.0.0.1"]);
}

#[test]
fn command_names_its_target() {
    let prefix = SubnetPrefix { a: 192, b: 168, c: 1 };
    let first = probe_command(&ProbeTarget { prefix, suffix: 1 });
    let last = probe_command(&ProbeTarget { prefix, suffix: 254 });
    assert_eq!(first.arguments[4], "192.168.1.1");
    assert_eq!(last.arguments[4], "192.168.1.254");
    assert_eq!(first.arguments[..4], last.arguments[..4]);
}

#[test]
fn scanning_line_names_the_local_address() {
    let local = LocalAddress { a: 192, b: 168, c: 1, d: 42 };
    assert_eq!(scanning_line(&local), "Scanning LAN from IP: 192.168.1.42");
}

#[test]
fn active_line_names_host_and_time() {
    let target = ProbeTarget { prefix: SubnetPrefix { a: 10, b: 0, c: 0 }, suffix: 254 };
    assert_eq!(active_line(&target, "15.0"), "Active IP: 10.0.0.254, RTT: 15.0 ms");
    assert_eq!(active_line(&target, "1.2"), "Active IP: 10.0.0.254, RTT: 1.2 ms");
}

#[test]
fn active_line_takes_the_time_as_written() {
    let target = ProbeTarget { prefix: SubnetPrefix { a: 192, b: 168, c: 1 }, suffix: 1 };
    assert_eq!(
        active_line(&target, &format!("{:.1}", 0.25_f64)),
        "Active IP: 192.168.1.1, RTT: 0.2 ms"
    );
    assert_eq!(
        active_line(&target, &format!("{:.1}", 0.35_f64)),
        format!("Active IP: 192.168.1.1, RTT: {:.1} ms", 0.35_f64)
    );
    assert_eq!(active_line(&target, ""), "Active IP: 192.168.1.1, RTT:  ms");
}

#[test]
fn no_address_line_is_fixed() {
    assert_eq!(no_address_line(), "Could not determine local IP address. Exiting...");
}

#[test]
fn unsupported_platform_message() {
    assert_eq!(ScanError::UnsupportedPlatform.message(), "This program only runs on Windows.");
}
