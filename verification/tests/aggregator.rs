use compose_rs::error::ComposeError;
use compose_rs::stats::{clean_line, parse_stats_output, process_window, Stats, WindowVerdict};

fn sample_line(id: &str, cpu: &str) -> String {
    format!(
        "{{\"BlockIO\":\"12B / 4B\",\"CPUPerc\":\"{}\",\"Container\":\"{}\",\"ID\":\"{}\",\"MemPerc\":\"0.10%\",\"MemUsage\":\"10MiB / 1GiB\",\"Name\":\"svc-{}\",\"NetIO\":\"100B / 50B\",\"PIDs\":\"7\"}}",
        cpu, id, id, id
    )
}

#[test]
fn empty_window_stops_the_stream() {
    let lines: Vec<String> = Vec::new();
    assert!(matches!(process_window(&lines), WindowVerdict::Stop));
}

#[test]
fn identical_samples_average_to_the_sample_itself() {
    let line = sample_line("aaa", "1.25%");
    let lines = vec![line.clone(), line.clone(), line.clone()];
    let single = Stats::from_json_line(&line).unwrap();
    match process_window(&lines) {
        WindowVerdict::Batch(batch) => {
            assert_eq!(batch.len(), 1);
            let b = &batch[0];
            assert_eq!(b.block_io, single.block_io);
            assert_eq!(b.cpu_perc, single.cpu_perc);
            assert_eq!(b.container, single.container);
            assert_eq!(b.id, single.id);
            assert_eq!(b.mem_perc, single.mem_perc);
            assert_eq!(b.mem_usage, single.mem_usage);
            assert_eq!(b.name, single.name);
            assert_eq!(b.net_io, single.net_io);
            assert_eq!(b.pids, single.pids);
        },
        other => panic!("expected a batch, got something else: {:?}", verdict_name(&other)),
    }
}

#[test]
fn two_samples_average_their_cpu() {
    let lines = vec![sample_line("aaa", "10.0%"), sample_line("aaa", "20.0%")];
    match process_window(&lines) {
        WindowVerdict::Batch(batch) => {
            assert_eq!(batch.len(), 1);
            assert_eq!(batch[0].cpu_perc.0, 15_000_000);
        },
        other => panic!("expected a batch, got {}", verdict_name(&other)),
    }
}

#[test]
fn distinct_ids_stay_separate_in_first_seen_order() {
    let lines = vec![
        sample_line("bbb", "4.0%"),
        sample_line("aaa", "1.0%"),
        sample_line("bbb", "6.0%"),
    ];
    match process_window(&lines) {
        WindowVerdict::Batch(batch) => {
            assert_eq!(batch.len(), 2);
            assert_eq!(batch[0].id, "bbb");
            assert_eq!(batch[0].cpu_perc.0, 5_000_000);
            assert_eq!(batch[1].id, "aaa");
            assert_eq!(batch[1].cpu_perc.0, 1_000_000);
        },
        other => panic!("expected a batch, got {}", verdict_name(&other)),
    }
}

#[test]
fn malformed_line_aborts_the_window() {
    let lines = vec![sample_line("aaa", "1.0%"), "{broken".to_string()];
    match process_window(&lines) {
        WindowVerdict::Abort(ComposeError::JsonDecodeError(_)) => {},
        other => panic!("expected an abort, got {}", verdict_name(&other)),
    }
}

fn verdict_name(v: &WindowVerdict) -> &'static str {
    match v {
        WindowVerdict::Stop => "stop",
        WindowVerdict::Batch(_) => "batch",
        WindowVerdict::Abort(_) => "abort",
    }
}

#[test]
fn integer_fields_use_truncating_division() {
    let lines = vec![sample_line("aaa", "1.0%"), sample_line("aaa", "2.0%")];
    match process_window(&lines) {
        WindowVerdict::Batch(batch) => {
            // 12 and 12 average to 12; 4 and 4 to 4.
            assert_eq!(batch[0].block_io.input, 12);
            assert_eq!(batch[0].block_io.output, 4);
            // 1.5% truncates nothing in millionths.
            assert_eq!(batch[0].cpu_perc.0, 1_500_000);
        },
        other => panic!("expected a batch, got {}", verdict_name(&other)),
    }
}

#[test]
fn clean_line_strips_and_drops_empties() {
    assert_eq!(clean_line("  \u{1b}[2J  "), None);
    assert_eq!(clean_line("  {\"a\":1}  ").as_deref(), Some("{\"a\":1}"));
    assert_eq!(clean_line("\u{1b}[31m x \u{1b}[0m").as_deref(), Some("x"));
}

#[test]
fn one_shot_output_parses_line_by_line() {
    let out = format!("{}\n{}\n", sample_line("aaa", "1.0%"), sample_line("bbb", "2.0%"));
    let samples = parse_stats_output(&out).unwrap();
    assert_eq!(samples.len(), 2);
    assert_eq!(samples[0].id, "aaa");
    assert_eq!(samples[1].id, "bbb");
}

#[test]
fn one_shot_output_fails_on_a_bad_line() {
    let out = format!("{}\nnot json\n", sample_line("aaa", "1.0%"));
    assert!(matches!(
        parse_stats_output(&out),
        Err(ComposeError::JsonDecodeError(_))
    ));
}
