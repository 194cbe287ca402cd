use wssh_client::endpoint::{
    describe_command_path, handshake_path, parse_channel_id, resolve_destination,
    run_command_path, stop_command_path, Destination, HYPERVISOR_PORT, NETWORK_PORT,
};
use wssh_client::errors::ClientError;

#[test]
fn channel_id_parses_plain_decimal() {
    assert_eq!(parse_channel_id("42"), Some(42));
    assert_eq!(parse_channel_id("0"), Some(0));
    assert_eq!(parse_channel_id("4294967295"), Some(u32::MAX));
}

#[test]
fn channel_id_rejects_non_decimal_input() {
    assert_eq!(parse_channel_id(""), None);
    assert_eq!(parse_channel_id("12a"), None);
    assert_eq!(parse_channel_id("-3"), None);
    assert_eq!(parse_channel_id(" 7"), None);
    assert_eq!(parse_channel_id("4294967296"), None);
}

#[test]
fn no_argument_resolves_to_network_mode() {
    assert_eq!(
        resolve_destination(None),
        Ok(Destination::Network { port: NETWORK_PORT })
    );
}

#[test]
fn channel_argument_resolves_to_hypervisor_mode() {
    assert_eq!(
        resolve_destination(Some("3")),
        Ok(Destination::HypervisorChannel { cid: 3, port: HYPERVISOR_PORT })
    );
}

#[test]
fn bad_channel_argument_is_a_fatal_transport_error() {
    assert_eq!(resolve_destination(Some("guest")), Err(ClientError::Transport));
}

#[test]
fn fixed_paths_and_ports() {
    assert_eq!(handshake_path(), "/ops/ssh");
    assert_eq!(run_command_path(), "/ops/run_command");
    assert_eq!(stop_command_path(), "/ops/stop_command");
    assert_eq!(describe_command_path(), "/ops/describe_command");
    assert_eq!(NETWORK_PORT, 7777);
    assert_eq!(HYPERVISOR_PORT, 1027);
}
