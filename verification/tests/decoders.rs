use compose_rs::container::PortMapping;
use compose_rs::container::{ContainerStatus, Status};
use compose_rs::error::ComposeError;
use compose_rs::stats::{Stats, StatsIO, StatsPercentage, StatsUsage};

#[test]
fn port_range_expands_to_one_mapping_per_port() {
    let ms = PortMapping::from_string("4001-4002/tcp").unwrap();
    assert_eq!(ms.len(), 2);
    assert_eq!(ms[0].container_port, 4001);
    assert_eq!(ms[1].container_port, 4002);
    for m in &ms {
        assert!(m.host_ip.is_none());
        assert!(m.host_port.is_none());
        assert_eq!(m.protocol, "tcp");
    }
}

#[test]
fn published_port_keeps_host_binding() {
    let ms = PortMapping::from_string("0.0.0.0:5432->5432/tcp").unwrap();
    assert_eq!(ms.len(), 1);
    assert_eq!(ms[0].host_ip.as_deref(), Some("0.0.0.0"));
    assert_eq!(ms[0].host_port, Some(5432));
    assert_eq!(ms[0].container_port, 5432);
    assert_eq!(ms[0].protocol, "tcp");
}

#[test]
fn unpublished_port_has_no_host_binding() {
    let ms = PortMapping::from_string("9229/tcp").unwrap();
    assert_eq!(ms.len(), 1);
    assert!(ms[0].host_ip.is_none());
    assert!(ms[0].host_port.is_none());
    assert_eq!(ms[0].container_port, 9229);
    assert_eq!(ms[0].protocol, "tcp");
}

#[test]
fn inverted_port_range_is_empty() {
    let ms = PortMapping::from_string("4002-4001/tcp").unwrap();
    assert_eq!(ms.len(), 0);
}

#[test]
fn port_without_protocol_fails() {
    let r = PortMapping::from_string("8080");
    assert!(matches!(r, Err(ComposeError::InvalidPortMapping(_))));
}

#[test]
fn port_with_bad_number_fails() {
    let r = PortMapping::from_string("abc/tcp");
    assert!(matches!(r, Err(ComposeError::InvalidPortMapping(_))));
    let r = PortMapping::from_string("70000/tcp");
    assert!(matches!(r, Err(ComposeError::InvalidPortMapping(_))));
    let r = PortMapping::from_string("1.2.3.4:80->x/tcp");
    assert!(matches!(r, Err(ComposeError::InvalidPortMapping(_))));
    let r = PortMapping::from_string("nohost->80/tcp");
    assert!(matches!(r, Err(ComposeError::InvalidPortMapping(_))));
}

#[test]
fn status_with_exit_code() {
    let s = ContainerStatus::from_string("Exited (137) 3 minutes ago").unwrap();
    assert!(matches!(s.status, Status::Exited));
    assert_eq!(s.exit_code, Some(137));
    assert_eq!(s.since, "3 minutes ago");
}

#[test]
fn status_without_exit_code() {
    let s = ContainerStatus::from_string("Up 2 hours").unwrap();
    assert!(matches!(s.status, Status::Up));
    assert_eq!(s.exit_code, None);
    assert_eq!(s.since, "2 hours");
}

#[test]
fn status_tag_is_case_insensitive() {
    let s = ContainerStatus::from_string("RESTARTING (1) 2 seconds ago").unwrap();
    assert!(matches!(s.status, Status::Restarting));
    assert_eq!(s.exit_code, Some(1));
    let t = Status::from_string("dEaD").unwrap();
    assert!(matches!(t, Status::Dead));
}

#[test]
fn unknown_status_tag_is_an_error_not_a_panic() {
    let r = ContainerStatus::from_string("Zombie 3 hours");
    assert!(matches!(r, Err(ComposeError::InvalidStatus(_))));
    let r = Status::from_string("gone");
    assert!(matches!(r, Err(ComposeError::InvalidStatus(_))));
}

#[test]
fn status_with_non_numeric_code_keeps_none() {
    let s = ContainerStatus::from_string("Exited (abc) 3 minutes ago").unwrap();
    assert!(matches!(s.status, Status::Exited));
    assert_eq!(s.exit_code, None);
    assert_eq!(s.since, "3 minutes ago");
}

#[test]
fn exit_code_above_a_byte_is_dropped() {
    let s = ContainerStatus::from_string("Exited (300) 1 minute ago").unwrap();
    assert_eq!(s.exit_code, None);
    assert_eq!(s.since, "1 minute ago");
}

#[test]
fn largest_port_is_accepted() {
    let ms = PortMapping::from_string("65535/udp").unwrap();
    assert_eq!(ms[0].container_port, 65535);
    assert_eq!(ms[0].protocol, "udp");
}

#[test]
fn size_pair_round_trip() {
    let u = StatsUsage::from_string("10MiB / 7.685GiB").unwrap();
    assert_eq!(u.usage, 10 * 1024 * 1024);
    let gib = 1024.0 * 1024.0 * 1024.0;
    let limit_gib = u.limit as f64 / gib;
    assert!((limit_gib - 7.685).abs() < 0.001, "limit was {} GiB", limit_gib);
}

#[test]
fn io_pair_decodes_both_sides() {
    let io = StatsIO::from_string("1.39kB / 0B").unwrap();
    assert_eq!(io.input, 1390);
    assert_eq!(io.output, 0);
}

#[test]
fn bad_size_pair_fails() {
    assert!(matches!(
        StatsUsage::from_string("10MiB"),
        Err(ComposeError::InvalidSize(_))
    ));
    assert!(matches!(
        StatsIO::from_string("x / y"),
        Err(ComposeError::InvalidSize(_))
    ));
}

#[test]
fn size_with_too_many_digits_is_rejected_not_a_panic() {
    // One digit past the parser's 20-digit accumulator; must fail cleanly.
    assert!(matches!(
        StatsUsage::from_string("184467440737095516155 / 1B"),
        Err(ComposeError::InvalidSize(_))
    ));
    // Twenty digits are already outside the accepted bound.
    assert!(matches!(
        StatsIO::from_string("1B / 18446744073709551615"),
        Err(ComposeError::InvalidSize(_))
    ));
    // Nineteen digits still decode.
    let u = StatsUsage::from_string("9223372036854775807 / 1B").unwrap();
    assert_eq!(u.usage, 9223372036854775807);
    let line = "{\"BlockIO\":\"184467440737095516155 / 0B\",\"CPUPerc\":\"0.03%\",\"Container\":\"a\",\"ID\":\"a\",\"MemPerc\":\"0.13%\",\"MemUsage\":\"10MiB / 1GiB\",\"Name\":\"a\",\"NetIO\":\"0B / 0B\",\"PIDs\":\"1\"}";
    assert!(matches!(
        Stats::from_json_line(line),
        Err(ComposeError::InvalidSize(_))
    ));
}

#[test]
fn percentage_decodes_to_millionths() {
    assert_eq!(StatsPercentage::from_string("0.03%").unwrap().0, 30_000);
    assert_eq!(StatsPercentage::from_string("15.0%").unwrap().0, 15_000_000);
    assert_eq!(StatsPercentage::from_string("7%").unwrap().0, 7_000_000);
    assert_eq!(StatsPercentage::from_string(".5%").unwrap().0, 500_000);
}

#[test]
fn bad_percentage_fails() {
    assert!(matches!(
        StatsPercentage::from_string("abc%"),
        Err(ComposeError::InvalidPercentage(_))
    ));
    assert!(matches!(
        StatsPercentage::from_string("%"),
        Err(ComposeError::InvalidPercentage(_))
    ));
}

#[test]
fn json_line_decodes_every_field() {
    let line = "{\"BlockIO\":\"0B / 0B\",\"CPUPerc\":\"0.03%\",\"Container\":\"9ca40acb565a\",\"ID\":\"9ca40acb565a\",\"MemPerc\":\"0.13%\",\"MemUsage\":\"10MiB / 7.685GiB\",\"Name\":\"examples-rqlite-1\",\"NetIO\":\"1.39kB / 0B\",\"PIDs\":\"10\"}";
    let s = Stats::from_json_line(line).unwrap();
    assert_eq!(s.block_io.input, 0);
    assert_eq!(s.block_io.output, 0);
    assert_eq!(s.cpu_perc.0, 30_000);
    assert_eq!(s.container, "9ca40acb565a");
    assert_eq!(s.id, "9ca40acb565a");
    assert_eq!(s.mem_perc.0, 130_000);
    assert_eq!(s.mem_usage.usage, 10 * 1024 * 1024);
    assert_eq!(s.name, "examples-rqlite-1");
    assert_eq!(s.net_io.input, 1390);
    assert_eq!(s.pids, "10");
}

#[test]
fn malformed_json_line_fails() {
    assert!(matches!(
        Stats::from_json_line("{not json"),
        Err(ComposeError::JsonDecodeError(_))
    ));
    assert!(matches!(
        Stats::from_json_line("[1,2,3]"),
        Err(ComposeError::JsonDecodeError(_))
    ));
}

#[test]
fn json_line_with_missing_field_fails() {
    let line = "{\"CPUPerc\":\"0.03%\"}";
    assert!(matches!(
        Stats::from_json_line(line),
        Err(ComposeError::JsonDecodeError(_))
    ));
}
