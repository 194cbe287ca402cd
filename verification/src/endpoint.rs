//! Transport selection: where the framed connection goes.
//!
//! The client reaches its peer either over a normal network socket to a
//! loopback address, or over a hypervisor-to-guest channel named by a
//! numeric identifier.  The choice is made once at startup and is immutable
//! for the process lifetime; any connect or handshake failure is fatal at
//! startup, with no retry.  The handshake targets a fixed path at a
//! mode-specific port.

use vstd::prelude::*;
use crate::errors::ClientError;
use crate::json::{parse_dec_u32, parse_u32_at};
use vstd::slice::slice_to_vec;
use vstd::string::StringSliceAdditionalSpecFns;

verus! {

/// The framing-handshake port in network mode.
pub const NETWORK_PORT: u16 = 7777;

/// The fixed well-known port of the hypervisor channel.
pub const HYPERVISOR_PORT: u32 = 1027;

/// The immutable resolved endpoint, fixed once at startup.
#[derive(Clone, Copy, Debug, PartialEq, Eq, Structural)]
pub enum Destination {
    /// A stream socket to the configured loopback address.
    Network { port: u16 },
    /// A hypervisor-to-guest channel, named by its numeric identifier.
    HypervisorChannel { cid: u32, port: u32 },
}

/// What a channel-identifier argument names: a decimal number that fits in
/// a `u32`, with nothing else around it.
pub open spec fn spec_channel_id(bytes: Seq<u8>) -> Option<u32> {
    match parse_dec_u32(bytes) {
        Some((v, rest)) => if rest.len() == 0 {
            Some(v)
        } else {
            None
        },
        None => None,
    }
}

/// Parse a numeric channel identifier: the whole argument must be decimal
/// digits naming a value that fits in a `u32`.
pub fn parse_channel_id(arg: &str) -> (r: Option<u32>)
    ensures
        r == spec_channel_id(arg.spec_bytes()),
{
    let bytes = slice_to_vec(arg.as_bytes());
    proof {
        assert(bytes@.skip(0) =~= bytes@);
    }
    match parse_u32_at(&bytes, 0) {
        Some((v, p)) => {
            if p == bytes.len() {
                proof {
                    assert(bytes@.skip(p as int).len() == 0);
                }
                Some(v)
            } else {
                proof {
                    assert(bytes@.skip(p as int).len() > 0);
                }
                None
            }
        },
        None => None,
    }
}

/// Resolve the destination once, from the optional channel-identifier
/// argument: none names network mode at its fixed port; one names the
/// hypervisor channel it parses to, at the fixed well-known port.  An
/// argument that is not a valid identifier is a fatal transport error — no
/// retry, startup fails.
pub fn resolve_destination(cid_arg: Option<&str>) -> (r: Result<Destination, ClientError>)
    ensures
        match cid_arg {
            None => r == Ok::<Destination, ClientError>(
                Destination::Network { port: NETWORK_PORT },
            ),
            Some(arg) => match spec_channel_id(arg.spec_bytes()) {
                Some(cid) => r == Ok::<Destination, ClientError>(
                    Destination::HypervisorChannel { cid, port: HYPERVISOR_PORT },
                ),
                None => r == Err::<Destination, ClientError>(ClientError::Transport),
            },
        },
{
    match cid_arg {
        None => Ok(Destination::Network { port: NETWORK_PORT }),
        Some(arg) => match parse_channel_id(arg) {
            Some(cid) => Ok(Destination::HypervisorChannel { cid, port: HYPERVISOR_PORT }),
            None => Err(ClientError::Transport),
        },
    }
}

/// The fixed path the framing handshake targets.
pub fn handshake_path() -> (r: &'static str)
    ensures
        r@ == "/ops/ssh"@,
{
    "/ops/ssh"
}

/// The control-plane path a run request is posted to.
pub fn run_command_path() -> (r: &'static str)
    ensures
        r@ == "/ops/run_command"@,
{
    "/ops/run_command"
}

/// The control-plane path a stop request is posted to.
pub fn stop_command_path() -> (r: &'static str)
    ensures
        r@ == "/ops/stop_command"@,
{
    "/ops/stop_command"
}

/// The control-plane path a describe request is posted to.
pub fn describe_command_path() -> (r: &'static str)
    ensures
        r@ == "/ops/describe_command"@,
{
    "/ops/describe_command"
}

} // verus!
