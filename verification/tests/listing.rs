use compose_rs::container::Status;
use compose_rs::error::ComposeError;
use compose_rs::parser::{find_header_indices, parse_ps, remove_ansi_codes};

fn listing(rows: &[[&str; 7]]) -> String {
    let mut out = String::new();
    let header = ["NAME", "IMAGE", "COMMAND", "SERVICE", "CREATED", "STATUS", "PORTS"];
    for h in &header {
        out.push_str(&format!("{:<26}", h));
    }
    out.push('\n');
    for row in rows {
        for cell in row {
            out.push_str(&format!("{:<26}", cell));
        }
        out.push('\n');
    }
    out
}

#[test]
fn one_record_per_data_line_in_order() {
    let text = listing(&[
        [
            "web-1",
            "nginx:latest",
            "\"nginx -g daemon off;\"",
            "web",
            "2 hours ago",
            "Up 2 hours",
            "0.0.0.0:8080->80/tcp",
        ],
        [
            "db-1",
            "postgres:16",
            "\"postgres\"",
            "db",
            "2 hours ago",
            "Exited (1) 5 minutes ago",
            "",
        ],
        [
            "cache-1",
            "redis:7",
            "\"redis-server\"",
            "cache",
            "3 hours ago",
            "Up 3 hours",
            "6379/tcp, 4001-4002/tcp",
        ],
    ]);
    let records = parse_ps(&text).unwrap();
    assert_eq!(records.len(), 3);
    assert_eq!(records[0].name, "web-1");
    assert_eq!(records[1].name, "db-1");
    assert_eq!(records[2].name, "cache-1");

    assert_eq!(records[0].image, "nginx:latest");
    assert_eq!(records[0].command, "nginx -g daemon off;");
    assert_eq!(records[0].service, "web");
    assert_eq!(records[0].created, "2 hours ago");
    assert!(matches!(records[0].status.status, Status::Up));
    assert_eq!(records[0].ports.len(), 1);
    assert_eq!(records[0].ports[0].host_ip.as_deref(), Some("0.0.0.0"));
    assert_eq!(records[0].ports[0].host_port, Some(8080));
    assert_eq!(records[0].ports[0].container_port, 80);

    assert!(matches!(records[1].status.status, Status::Exited));
    assert_eq!(records[1].status.exit_code, Some(1));
    assert_eq!(records[1].status.since, "5 minutes ago");

    assert_eq!(records[2].ports.len(), 3);
    assert_eq!(records[2].ports[0].container_port, 6379);
    assert_eq!(records[2].ports[1].container_port, 4001);
    assert_eq!(records[2].ports[2].container_port, 4002);
}

#[test]
fn empty_ports_cell_gives_empty_sequence() {
    let text = listing(&[[
        "db-1",
        "postgres:16",
        "\"postgres\"",
        "db",
        "2 hours ago",
        "Up 2 hours",
        "",
    ]]);
    let records = parse_ps(&text).unwrap();
    assert_eq!(records.len(), 1);
    assert!(records[0].ports.is_empty());
}

#[test]
fn malformed_port_clause_is_skipped_not_fatal() {
    let text = listing(&[[
        "web-1",
        "nginx:latest",
        "\"nginx\"",
        "web",
        "2 hours ago",
        "Up 2 hours",
        "nonsense, 80/tcp",
    ]]);
    let records = parse_ps(&text).unwrap();
    assert_eq!(records[0].ports.len(), 1);
    assert_eq!(records[0].ports[0].container_port, 80);
}

#[test]
fn empty_output_is_missing_header() {
    assert!(matches!(parse_ps(""), Err(ComposeError::MissingHeader)));
}

#[test]
fn missing_required_column_is_named() {
    let text = "IMAGE  COMMAND  SERVICE  CREATED  STATUS  PORTS\nx  y  z  w  Up 1s  \n";
    match parse_ps(text) {
        Err(ComposeError::MissingColumn(name)) => assert_eq!(name, "NAME"),
        other => panic!("expected a missing-column failure, got {:?}", other),
    }
}

#[test]
fn bad_status_aborts_the_listing() {
    let text = listing(&[[
        "web-1",
        "nginx:latest",
        "\"nginx\"",
        "web",
        "2 hours ago",
        "Teleported 2 hours",
        "",
    ]]);
    assert!(matches!(parse_ps(&text), Err(ComposeError::InvalidStatus(_))));
}

#[test]
fn header_indices_are_first_occurrences() {
    let entries = find_header_indices("NAME     IMAGE  PORTS");
    assert_eq!(entries.len(), 3);
    assert_eq!(entries[0], ("NAME".to_string(), 0));
    assert_eq!(entries[1], ("IMAGE".to_string(), 9));
    assert_eq!(entries[2], ("PORTS".to_string(), 16));
}

#[test]
fn ansi_escapes_are_stripped() {
    let out = remove_ansi_codes("\u{1b}[31mred\u{1b}[0m and \u{1b}[2Jplain").unwrap();
    assert_eq!(out, "red and plain");
}

#[test]
fn strip_matches_a_reference_matcher() {
    let re = regex::Regex::new("\u{1b}\\[[0-9;]*[mGKHfJ]").unwrap();
    let inputs = [
        "\u{1b}[1;32mgreen\u{1b}[0m",
        "no escapes at all",
        "\u{1b}[Kcleared\u{1b}[10;20Hmoved",
        "half an escape \u{1b}[12x kept",
        "\u{1b}[J\u{1b}[f\u{1b}[G",
        "dangling \u{1b}[12;",
    ];
    for input in &inputs {
        let expected = re.replace_all(input, "").to_string();
        let got = remove_ansi_codes(input).unwrap();
        assert_eq!(got, expected, "on {:?}", input);
    }
}
