use experiment_driver::commands::{
    experiment_prep_commands, join_spaced, mkdir_command, params_command, result_line,
    setup_commands, shell_quote, sleep_command, time_command, workload_commands,
};
use experiment_driver::codec::{escape_json, parse_descriptor, serialize_descriptor};
use experiment_driver::descriptor::ExpConfig;
use experiment_driver::namer::{artifact_path, file_name, results_dir};
use experiment_driver::sequencer::Sequencer;
use experiment_driver::strutil::u64_to_string;
use experiment_driver::timestamp::Timestamp;

fn demo_timestamp() -> Timestamp {
    Timestamp::new(2026, 10, 12, 7, 4, 1).unwrap()
}

fn demo_config() -> ExpConfig {
    ExpConfig::new("demo_experiment".to_string(), 2, 3, demo_timestamp())
}

#[test]
fn timestamp_renders_zero_padded() {
    let t = Timestamp::new(2026, 1, 2, 3, 4, 5).unwrap();
    assert_eq!(t.render(), "2026-01-02T03:04:05");
}

#[test]
fn timestamp_rejects_out_of_range_fields() {
    assert!(Timestamp::new(2026, 13, 12, 7, 4, 1).is_none());
    assert!(Timestamp::new(2026, 0, 12, 7, 4, 1).is_none());
    assert!(Timestamp::new(2026, 10, 32, 7, 4, 1).is_none());
    assert!(Timestamp::new(2026, 10, 12, 24, 4, 1).is_none());
    assert!(Timestamp::new(2026, 10, 12, 7, 60, 1).is_none());
    assert!(Timestamp::new(2026, 10, 12, 7, 4, 60).is_none());
    assert!(Timestamp::new(0, 10, 12, 7, 4, 1).is_none());
    assert!(Timestamp::new(10000, 10, 12, 7, 4, 1).is_none());
}

#[test]
fn u64_renders_canonical_decimal() {
    assert_eq!(u64_to_string(0), "0");
    assert_eq!(u64_to_string(7), "7");
    assert_eq!(u64_to_string(1234567890), "1234567890");
    assert_eq!(u64_to_string(u64::MAX), "18446744073709551615");
}

#[test]
fn file_names_are_deterministic() {
    let d = demo_config();
    assert_eq!(
        file_name(&d, "params"),
        "demo_experiment_2026-10-12T07:04:01.params"
    );
    assert_eq!(
        file_name(&d, "time"),
        "demo_experiment_2026-10-12T07:04:01.time"
    );
    assert_eq!(file_name(&d, "params"), file_name(&d, "params"));
}

#[test]
fn file_name_ignores_non_identity_parameters() {
    let d1 = ExpConfig::new("demo_experiment".to_string(), 2, 3, demo_timestamp());
    let d2 = ExpConfig::new("demo_experiment".to_string(), 99, 1000, demo_timestamp());
    assert_eq!(file_name(&d1, "params"), file_name(&d2, "params"));
    assert_eq!(file_name(&d1, ""), file_name(&d2, ""));
}

#[test]
fn distinct_roles_never_collide() {
    let d = demo_config();
    assert_ne!(file_name(&d, "params"), file_name(&d, "time"));
    assert_ne!(file_name(&d, ""), file_name(&d, "params"));
}

#[test]
fn distinct_timestamps_never_collide() {
    let d1 = ExpConfig::new("demo_experiment".to_string(), 2, 3, demo_timestamp());
    let d2 = ExpConfig::new(
        "demo_experiment".to_string(),
        2,
        3,
        Timestamp::new(2026, 10, 12, 7, 4, 2).unwrap(),
    );
    assert_ne!(file_name(&d1, "params"), file_name(&d2, "params"));
}

#[test]
fn empty_role_names_base_strict_prefix() {
    let d = demo_config();
    let base = file_name(&d, "");
    assert_eq!(base, "demo_experiment_2026-10-12T07:04:01");
    let params = file_name(&d, "params");
    assert!(params.starts_with(&base));
    assert!(params.len() > base.len());
}

#[test]
fn artifact_paths_sit_under_results_dir() {
    let d = demo_config();
    assert_eq!(results_dir("/home/user"), "/home/user/results");
    assert_eq!(
        artifact_path(&d, "params", "/home/user"),
        "/home/user/results/demo_experiment_2026-10-12T07:04:01.params"
    );
}

#[test]
fn serializes_to_exact_json() {
    let d = demo_config();
    assert_eq!(
        serialize_descriptor(&d),
        "{\"exp\":\"demo_experiment\",\"time\":2,\"iterations\":3,\"timestamp\":\"2026-10-12T07:04:01\"}"
    );
}

#[test]
fn serialized_text_is_real_json() {
    let d = demo_config();
    let text = serialize_descriptor(&d);
    let v: serde_json::Value = serde_json::from_str(&text).unwrap();
    assert_eq!(v.get("exp").unwrap().as_str().unwrap(), "demo_experiment");
    assert_eq!(v.get("time").unwrap().as_u64().unwrap(), 2);
    assert_eq!(v.get("iterations").unwrap().as_u64().unwrap(), 3);
    assert_eq!(
        v.get("timestamp").unwrap().as_str().unwrap(),
        "2026-10-12T07:04:01"
    );
}

#[test]
fn escaped_label_is_real_json() {
    let d = ExpConfig::new("we\"ird\\label".to_string(), 1, 1, demo_timestamp());
    let text = serialize_descriptor(&d);
    let v: serde_json::Value = serde_json::from_str(&text).unwrap();
    assert_eq!(v.get("exp").unwrap().as_str().unwrap(), "we\"ird\\label");
}

#[test]
fn escape_json_escapes_quotes_and_backslashes() {
    assert_eq!(escape_json("plain"), "plain");
    assert_eq!(escape_json("a\"b\\c"), "a\\\"b\\\\c");
    assert_eq!(escape_json(""), "");
}

#[test]
fn round_trip_recovers_every_field() {
    let d = demo_config();
    let text = serialize_descriptor(&d);
    let back = parse_descriptor(&text).unwrap();
    assert_eq!(back.exp, "demo_experiment");
    assert_eq!(back.time, 2);
    assert_eq!(back.iterations, 3);
    assert_eq!(back.timestamp, demo_timestamp());
}

#[test]
fn round_trip_with_escaped_label() {
    let d = ExpConfig::new("we\"ird\\label".to_string(), 0, u64::MAX, demo_timestamp());
    let text = serialize_descriptor(&d);
    let back = parse_descriptor(&text).unwrap();
    assert_eq!(back.exp, "we\"ird\\label");
    assert_eq!(back.time, 0);
    assert_eq!(back.iterations, u64::MAX);
    assert_eq!(back.timestamp, demo_timestamp());
}

#[test]
fn parse_rejects_malformed_text() {
    assert!(parse_descriptor("").is_none());
    assert!(parse_descriptor("garbage").is_none());
    assert!(parse_descriptor("{\"exp\":\"a\",\"time\":1,\"iterations\":2}").is_none());
    // unterminated label
    assert!(parse_descriptor("{\"exp\":\"a").is_none());
    // trailing data after the object
    assert!(parse_descriptor(
        "{\"exp\":\"a\",\"time\":1,\"iterations\":2,\"timestamp\":\"2026-10-12T07:04:01\"}x"
    )
    .is_none());
    // number too large for a machine word
    assert!(parse_descriptor(
        "{\"exp\":\"a\",\"time\":18446744073709551616,\"iterations\":2,\"timestamp\":\"2026-10-12T07:04:01\"}"
    )
    .is_none());
    // timestamp out of calendar range
    assert!(parse_descriptor(
        "{\"exp\":\"a\",\"time\":1,\"iterations\":2,\"timestamp\":\"2026-13-12T07:04:01\"}"
    )
    .is_none());
}

#[test]
fn shell_quote_wraps_and_escapes() {
    assert_eq!(shell_quote("plain"), "'plain'");
    assert_eq!(shell_quote("it's"), "'it'\\''s'");
    assert_eq!(shell_quote(""), "''");
}

#[test]
fn join_spaced_joins_words() {
    let items: Vec<String> = vec!["a".to_string(), "b".to_string(), "c".to_string()];
    assert_eq!(join_spaced(&items), "a b c");
    let one: Vec<String> = vec!["a".to_string()];
    assert_eq!(join_spaced(&one), "a");
    let none: Vec<String> = Vec::new();
    assert_eq!(join_spaced(&none), "");
}

#[test]
fn setup_issues_exactly_three_commands_in_order() {
    let cmds = setup_commands();
    assert_eq!(cmds.len(), 3);
    assert_eq!(cmds[0], "sudo apt update");
    assert_eq!(cmds[1], "sudo apt upgrade -y");
    assert_eq!(cmds[2], "sudo apt install -y build-essential bison flex");
}

#[test]
fn setup_succeeds_iff_all_three_succeed() {
    let mut seq = Sequencer::new(setup_commands());
    while let Some(_cmd) = seq.next_command() {
        seq.record_success();
    }
    assert!(seq.into_result().is_ok());

    let mut seq = Sequencer::new(setup_commands());
    let first = seq.next_command().unwrap();
    assert_eq!(first, "sudo apt update");
    seq.record_success();
    let second = seq.next_command().unwrap();
    assert_eq!(second, "sudo apt upgrade -y");
    seq.record_failure("E: lock held".to_string(), Some(100));
    assert!(seq.next_command().is_none());
    let err = seq.into_result().unwrap_err();
    assert_eq!(err.cmd, "sudo apt upgrade -y");
}

#[test]
fn sequencer_stops_at_first_failure() {
    let cmds: Vec<String> = vec!["A".to_string(), "B".to_string(), "C".to_string()];
    let mut seq = Sequencer::new(cmds);
    assert_eq!(seq.next_command().unwrap(), "A");
    seq.record_success();
    assert_eq!(seq.next_command().unwrap(), "B");
    seq.record_failure("B exploded".to_string(), Some(2));
    // C is never handed out
    assert!(seq.next_command().is_none());
    let err = seq.into_result().unwrap_err();
    assert_eq!(err.cmd, "B");
    assert_eq!(err.output, "B exploded");
    assert_eq!(err.exit_status, Some(2));
}

#[test]
fn sequencer_error_describes_command() {
    let cmds: Vec<String> = vec!["A".to_string()];
    let mut seq = Sequencer::new(cmds);
    seq.next_command().unwrap();
    seq.record_failure("boom".to_string(), None);
    let err = seq.into_result().unwrap_err();
    assert_eq!(err.describe(), "remote command failed: A");
}

#[test]
fn experiment_commands_match_scenario() {
    let d = demo_config();
    let home = "/home/user";
    let prep = experiment_prep_commands(&d, home);
    assert_eq!(prep.len(), 2);
    assert_eq!(prep[0], "mkdir -p /home/user/results");
    assert_eq!(
        prep[1],
        "echo '{\"exp\":\"demo_experiment\",\"time\":2,\"iterations\":3,\"timestamp\":\"2026-10-12T07:04:01\"}' | tee /home/user/results/demo_experiment_2026-10-12T07:04:01.params"
    );
    let work = workload_commands(&d);
    assert_eq!(work.len(), 3);
    for cmd in &work {
        assert_eq!(cmd, "sleep 2");
    }
    assert_eq!(
        time_command(&d, home, "6.123"),
        "echo 6.123 | tee /home/user/results/demo_experiment_2026-10-12T07:04:01.time"
    );
}

#[test]
fn mkdir_command_targets_results_dir() {
    assert_eq!(mkdir_command("/root"), "mkdir -p /root/results");
}

#[test]
fn params_command_quotes_the_json() {
    let d = ExpConfig::new("it's".to_string(), 1, 1, demo_timestamp());
    let cmd = params_command(&d, "/h");
    assert!(cmd.starts_with("echo '"));
    assert!(cmd.contains("'\\''"));
    assert!(cmd.ends_with(" | tee /h/results/it's_2026-10-12T07:04:01.params"));
}

#[test]
fn result_line_has_exact_protocol_form() {
    let d = demo_config();
    let line = result_line(&d, "/home/user");
    assert_eq!(
        line,
        "RESULTS: /home/user/results/demo_experiment_2026-10-12T07:04:01"
    );
    assert!(!line.contains('\n'));
}

#[test]
fn sleep_command_renders_seconds() {
    assert_eq!(sleep_command(2), "sleep 2");
    assert_eq!(sleep_command(0), "sleep 0");
}
