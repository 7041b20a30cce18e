use bini_server::node::{
    check_node, check_version, judge_report, node_env, start_node_api, NodeEvent,
};

fn too_old(version: &str) -> Result<(), String> {
    Err(format!(
        "\n  \u{1b}[31m✗\u{1b}[0m  Node.js v20 or later is required (found v{}).\n      Upgrade at https://nodejs.org\n\n",
        version
    ))
}

#[test]
fn version_twenty_and_later_will_do() {
    for printed in ["v20.0.0\n", "v20.11.1\r\n", "v22.1.0\n", "20", "  v100.1", "vv21.0.0", "v+20.1"] {
        assert_eq!(check_version(printed), Ok(()), "{:?}", printed);
    }
}

#[test]
fn earlier_and_unreadable_versions_will_not() {
    assert_eq!(check_version("v19.9.0\n"), too_old("19.9.0"));
    assert_eq!(check_version("v9.0.0\n"), too_old("9.0.0"));
    assert_eq!(check_version(""), too_old(""));
    assert_eq!(check_version("node\n"), too_old("node"));
    assert_eq!(check_version("v 20.0\n"), too_old(" 20.0"));
    assert_eq!(check_version("v4294967296.0"), too_old("4294967296.0"));
}

#[test]
fn missing_node_is_reported() {
    assert_eq!(
        check_node(None),
        Err("\n  \u{1b}[31m✗\u{1b}[0m  Node.js is not installed.\n      Install it from https://nodejs.org\n\n".to_string())
    );
}

#[test]
fn version_bytes_are_decoded() {
    assert_eq!(check_node(Some(b"v20.0.0\n")), Ok(()));
    assert_eq!(check_node(Some(b"v18.\xff\n")), too_old("18.\u{fffd}"));
    assert_eq!(check_node(Some("v18.ß\n".as_bytes())), too_old("18.ß"));
}

#[test]
fn process_is_told_its_limits() {
    let vars = node_env(3001, 30, 10485760, "src/app/api");
    let vars: Vec<(&str, &str)> = vars.iter().map(|(k, v)| (k.as_str(), v.as_str())).collect();
    assert_eq!(
        vars,
        vec![
            ("BINI_API_DIR", "src/app/api"),
            ("BINI_API_PORT", "3001"),
            ("HANDLER_TIMEOUT", "30000"),
            ("BINI_BODY_SIZE_LIMIT", "10485760"),
            ("NODE_ENV", "production"),
        ]
    );
}

fn report(port: u16, line: &str) -> Result<(), String> {
    start_node_api(port, &NodeEvent::Line(line.to_string()))
}

#[test]
fn process_that_reports_its_port_is_up() {
    for port in [0u16, 3001, 65535] {
        assert_eq!(report(port, &format!("{{\"port\":{}}}\n", port)), Ok(()));
    }
    assert_eq!(report(3001, " { \"x\": [1], \"port\" : 3001 }\r\n"), Ok(()));
}

#[test]
fn reported_port_counts_by_its_lower_bits() {
    assert_eq!(report(3001, "{\"port\":68537}"), Ok(()));
}

#[test]
fn other_port_is_refused() {
    assert_eq!(
        report(3001, "{\"port\":3002}\n"),
        Err("Node started on port 3002 but expected 3001".to_string())
    );
    assert_eq!(
        report(3001, "{\"port\":65536}\n"),
        Err("Node started on port 0 but expected 3001".to_string())
    );
    assert_eq!(
        report(3001, &format!("{{\"port\":{}}}\n", u64::MAX)),
        Err("Node started on port 65535 but expected 3001".to_string())
    );
}

#[test]
fn report_without_port_is_refused() {
    let missing = Err("Missing 'port' field in Node startup JSON".to_string());
    for line in ["{}\n", "[3001]", "3001", "{\"port\":\"3001\"}", "{\"port\":-1}", "{\"port\":1.5}"] {
        assert_eq!(report(3001, line), missing, "{}", line);
    }
}

#[test]
fn report_that_is_not_json_is_refused() {
    assert_eq!(
        report(3001, "\n"),
        Err("Unexpected Node startup message: EOF while parsing a value at line 1 column 0 (got: \"\\n\")".to_string())
    );
    assert_eq!(
        report(3001, "oops\n"),
        Err("Unexpected Node startup message: expected value at line 1 column 1 (got: \"oops\\n\")".to_string())
    );
}

#[test]
fn silent_process_is_refused() {
    assert_eq!(
        start_node_api(1, &NodeEvent::NoStdout),
        Err("Node produced no stdout".to_string())
    );
    assert_eq!(
        start_node_api(1, &NodeEvent::TimedOut),
        Err("Node API server did not start within 15s".to_string())
    );
}

#[test]
fn report_is_judged_by_what_was_read() {
    assert_eq!(judge_report(7, "x", &Ok(Some(7))), Ok(()));
    assert_eq!(
        judge_report(7, "a\"b", &Err("bad".to_string())),
        Err("Unexpected Node startup message: bad (got: \"a\\\"b\")".to_string())
    );
}
