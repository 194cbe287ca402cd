use wssh_client::command::{DescribeCommandRequest, RunCommandRequest, StopCommandRequest};

fn sample_run() -> RunCommandRequest {
    RunCommandRequest {
        command_id: String::from("cmd-1"),
        command: b"echo hi".to_vec(),
        timeout: 30,
        kill_mode: false,
        client_token: String::from("tok-1"),
    }
}

#[test]
fn run_request_serializes_to_canonical_bytes() {
    let expected = "{\"command_id\":\"cmd-1\",\"command\":[101,99,104,111,32,104,105],\
\"timeout\":30,\"kill_mode\":false,\"client_token\":\"tok-1\"}";
    assert_eq!(sample_run().to_json(), expected.as_bytes().to_vec());
}

#[test]
fn run_request_serialization_is_deterministic() {
    let a = sample_run().to_json();
    let b = sample_run().to_json();
    assert_eq!(a, b);
}

#[test]
fn run_request_round_trips() {
    let original = sample_run();
    let bytes = original.to_json();
    let back = RunCommandRequest::from_json(&bytes).expect("canonical bytes must parse");
    assert_eq!(back.command_id, original.command_id);
    assert_eq!(back.command, original.command);
    assert_eq!(back.timeout, original.timeout);
    assert_eq!(back.kill_mode, original.kill_mode);
    assert_eq!(back.client_token, original.client_token);
}

#[test]
fn run_request_output_is_valid_json_per_serde() {
    let bytes = sample_run().to_json();
    let v: serde_json::Value = serde_json::from_slice(&bytes).expect("must be valid JSON");
    assert_eq!(v["command_id"].as_str(), Some("cmd-1"));
    let nums: Vec<u8> = v["command"]
        .as_array()
        .expect("command is an array")
        .iter()
        .map(|n| n.as_u64().unwrap() as u8)
        .collect();
    assert_eq!(nums, b"echo hi".to_vec());
    assert_eq!(v["timeout"].as_u64(), Some(30));
    assert_eq!(v["kill_mode"].as_bool(), Some(false));
    assert_eq!(v["client_token"].as_str(), Some("tok-1"));
}

#[test]
fn run_request_escapes_like_serde() {
    let original = RunCommandRequest {
        command_id: String::from("a\"b\\c\nd\te\u{1}f"),
        command: vec![0u8, 255],
        timeout: 0,
        kill_mode: true,
        client_token: String::from("tok/2"),
    };
    let bytes = original.to_json();
    let v: serde_json::Value = serde_json::from_slice(&bytes).expect("must be valid JSON");
    assert_eq!(v["command_id"].as_str(), Some("a\"b\\c\nd\te\u{1}f"));
    assert_eq!(v["kill_mode"].as_bool(), Some(true));
    let back = RunCommandRequest::from_json(&bytes).expect("escaped bytes must parse");
    assert_eq!(back.command_id, original.command_id);
    assert_eq!(back.command, vec![0u8, 255]);
}

#[test]
fn run_request_with_multibyte_text_round_trips() {
    let original = RunCommandRequest {
        command_id: String::from("h\u{e9}llo \u{4e16}\u{754c}"),
        command: Vec::new(),
        timeout: 4294967295,
        kill_mode: true,
        client_token: String::new(),
    };
    let bytes = original.to_json();
    let back = RunCommandRequest::from_json(&bytes).expect("multibyte text must parse");
    assert_eq!(back.command_id, original.command_id);
    assert_eq!(back.command, Vec::<u8>::new());
    assert_eq!(back.timeout, 4294967295);
    assert!(back.kill_mode);
    assert_eq!(back.client_token, "");
    let v: serde_json::Value = serde_json::from_slice(&bytes).expect("must be valid JSON");
    assert_eq!(v["command_id"].as_str(), Some("h\u{e9}llo \u{4e16}\u{754c}"));
}

#[test]
fn from_json_rejects_non_canonical_input() {
    assert!(RunCommandRequest::from_json(&Vec::new()).is_none());
    assert!(RunCommandRequest::from_json(&b"{}".to_vec()).is_none());
    let mut truncated = sample_run().to_json();
    truncated.pop();
    assert!(RunCommandRequest::from_json(&truncated).is_none());
    let mut trailing = sample_run().to_json();
    trailing.push(b' ');
    assert!(RunCommandRequest::from_json(&trailing).is_none());
}

#[test]
fn from_json_rejects_timeout_overflow() {
    let too_big = "{\"command_id\":\"c\",\"command\":[],\"timeout\":4294967296,\
\"kill_mode\":false,\"client_token\":\"t\"}";
    assert!(RunCommandRequest::from_json(&too_big.as_bytes().to_vec()).is_none());
    let just_fits = "{\"command_id\":\"c\",\"command\":[],\"timeout\":4294967295,\
\"kill_mode\":false,\"client_token\":\"t\"}";
    let parsed = RunCommandRequest::from_json(&just_fits.as_bytes().to_vec())
        .expect("the largest timeout must parse");
    assert_eq!(parsed.timeout, u32::MAX);
}

#[test]
fn stop_request_serializes_to_canonical_bytes() {
    let req = StopCommandRequest { command_id: String::from("cmd-9") };
    assert_eq!(req.to_json(), b"{\"command_id\":\"cmd-9\"}".to_vec());
    let v: serde_json::Value = serde_json::from_slice(&req.to_json()).unwrap();
    assert_eq!(v["command_id"].as_str(), Some("cmd-9"));
}

#[test]
fn describe_request_serializes_to_canonical_bytes() {
    let req = DescribeCommandRequest { command_id: String::from("cmd-2"), output: true };
    assert_eq!(req.to_json(), b"{\"command_id\":\"cmd-2\",\"output\":true}".to_vec());
    let v: serde_json::Value = serde_json::from_slice(&req.to_json()).unwrap();
    assert_eq!(v["command_id"].as_str(), Some("cmd-2"));
    assert_eq!(v["output"].as_bool(), Some(true));
}
