//! The command dispatch client's request shapes and their wire encoding.
//!
//! Three control-plane requests ride over the established transport, each
//! posted to its own fixed path: run, stop and describe.  All are immutable
//! value objects; each serializes deterministically to canonical JSON bytes
//! — fields in declaration order, no whitespace — so the same value always
//! yields the same bytes.  The run request can be read back from exactly
//! those bytes, and the round-trip law at the bottom proves the reader
//! inverts the writer.

use vstd::prelude::*;
use vstd::slice::slice_to_vec;
use vstd::string::StringSliceAdditionalSpecFns;
use vstd::utf8::{valid_utf8, encode_utf8, decode_utf8, encode_utf8_valid_utf8};
use crate::json::{
    json_string,
    json_byte_array,
    json_bool,
    dec_bytes,
    push_json_string,
    push_json_byte_array,
    push_json_bool,
    push_dec_u32,
    parse_json_string,
    parse_json_byte_array,
    parse_json_bool,
    parse_dec_u32,
    expect_bytes,
    parse_string_at,
    parse_byte_array_at,
    parse_bool_at,
    parse_u32_at,
    expect_at,
    lemma_expect_bytes_of,
    lemma_parse_json_string_of,
    lemma_parse_json_byte_array_of,
    lemma_parse_json_bool_of,
    lemma_parse_dec_of_dec_bytes,
};

verus! {

// ---------------------------------------------------------------------------
// The fixed pieces of the three request objects
// ---------------------------------------------------------------------------
/// `{"command_id":` — every request object opens with this field.
pub open spec fn lit_command_id() -> Seq<u8> {
    seq![0x7b, 0x22, 0x63, 0x6f, 0x6d, 0x6d, 0x61, 0x6e, 0x64, 0x5f, 0x69, 0x64, 0x22, 0x3a]
}

/// `,"command":`
pub open spec fn lit_command() -> Seq<u8> {
    seq![0x2c, 0x22, 0x63, 0x6f, 0x6d, 0x6d, 0x61, 0x6e, 0x64, 0x22, 0x3a]
}

/// `,"timeout":`
pub open spec fn lit_timeout() -> Seq<u8> {
    seq![0x2c, 0x22, 0x74, 0x69, 0x6d, 0x65, 0x6f, 0x75, 0x74, 0x22, 0x3a]
}

/// `,"kill_mode":`
pub open spec fn lit_kill_mode() -> Seq<u8> {
    seq![0x2c, 0x22, 0x6b, 0x69, 0x6c, 0x6c, 0x5f, 0x6d, 0x6f, 0x64, 0x65, 0x22, 0x3a]
}

/// `,"client_token":`
pub open spec fn lit_client_token() -> Seq<u8> {
    seq![0x2c, 0x22, 0x63, 0x6c, 0x69, 0x65, 0x6e, 0x74, 0x5f, 0x74, 0x6f, 0x6b, 0x65, 0x6e, 0x22, 0x3a]
}

/// `,"output":`
pub open spec fn lit_output() -> Seq<u8> {
    seq![0x2c, 0x22, 0x6f, 0x75, 0x74, 0x70, 0x75, 0x74, 0x22, 0x3a]
}

/// `}`
pub open spec fn lit_end() -> Seq<u8> {
    seq![0x7d]
}

// ---------------------------------------------------------------------------
// Canonical serialization of the three request shapes
// ---------------------------------------------------------------------------
/// The canonical bytes of a run request with these field values, string
/// fields given as their UTF-8 bytes.
pub open spec fn run_request_json(
    command_id: Seq<u8>,
    command: Seq<u8>,
    timeout: u32,
    kill_mode: bool,
    client_token: Seq<u8>,
) -> Seq<u8> {
    lit_command_id() + json_string(command_id) + lit_command() + json_byte_array(command)
        + lit_timeout() + dec_bytes(timeout as nat) + lit_kill_mode() + json_bool(kill_mode)
        + lit_client_token() + json_string(client_token) + lit_end()
}

/// The canonical bytes of a stop request.
pub open spec fn stop_request_json(command_id: Seq<u8>) -> Seq<u8> {
    lit_command_id() + json_string(command_id) + lit_end()
}

/// The canonical bytes of a describe request.
pub open spec fn describe_request_json(command_id: Seq<u8>, output: bool) -> Seq<u8> {
    lit_command_id() + json_string(command_id) + lit_output() + json_bool(output) + lit_end()
}

// ---------------------------------------------------------------------------
// Reading a run request back
// ---------------------------------------------------------------------------
/// The field values a run request parse yields, string fields as their
/// UTF-8 bytes.
pub struct RunRequestFields {
    pub command_id: Seq<u8>,
    pub command: Seq<u8>,
    pub timeout: u32,
    pub kill_mode: bool,
    pub client_token: Seq<u8>,
}

/// Read a whole run request: the canonical shape, nothing before or after,
/// with both string fields valid UTF-8.
pub open spec fn parse_run_request(s: Seq<u8>) -> Option<RunRequestFields> {
    match expect_bytes(s, lit_command_id()) {
        None => None,
        Some(r1) => match parse_json_string(r1) {
            None => None,
            Some((command_id, r2)) => match expect_bytes(r2, lit_command()) {
                None => None,
                Some(r3) => match parse_json_byte_array(r3) {
                    None => None,
                    Some((command, r4)) => match expect_bytes(r4, lit_timeout()) {
                        None => None,
                        Some(r5) => match parse_dec_u32(r5) {
                            None => None,
                            Some((timeout, r6)) => match expect_bytes(r6, lit_kill_mode()) {
                                None => None,
                                Some(r7) => match parse_json_bool(r7) {
                                    None => None,
                                    Some((kill_mode, r8)) => match expect_bytes(
                                        r8,
                                        lit_client_token(),
                                    ) {
                                        None => None,
                                        Some(r9) => match parse_json_string(r9) {
                                            None => None,
                                            Some((client_token, r10)) => if r10 == lit_end()
                                                && valid_utf8(command_id) && valid_utf8(
                                                client_token,
                                            ) {
                                                Some(
                                                    RunRequestFields {
                                                        command_id,
                                                        command,
                                                        timeout,
                                                        kill_mode,
                                                        client_token,
                                                    },
                                                )
                                            } else {
                                                None
                                            },
                                        },
                                    },
                                },
                            },
                        },
                    },
                },
            },
        },
    }
}

// ---------------------------------------------------------------------------
// Executable helpers for the fixed pieces
// ---------------------------------------------------------------------------
/// Append `{"command_id":`.
fn push_lit_command_id(out: &mut Vec<u8>)
    ensures
        final(out)@ == old(out)@ + lit_command_id(),
{
    out.push(0x7b);
    out.push(0x22);
    out.push(0x63);
    out.push(0x6f);
    out.push(0x6d);
    out.push(0x6d);
    out.push(0x61);
    out.push(0x6e);
    out.push(0x64);
    out.push(0x5f);
    out.push(0x69);
    out.push(0x64);
    out.push(0x22);
    out.push(0x3a);
    proof {
        assert(final(out)@ =~= old(out)@ + lit_command_id());
    }
}

/// `{"command_id":` as a vector, for the reader.
fn lit_command_id_vec() -> (r: Vec<u8>)
    ensures
        r@ == lit_command_id(),
{
    let mut r: Vec<u8> = Vec::new();
    push_lit_command_id(&mut r);
    proof {
        assert(r@ =~= lit_command_id());
    }
    r
}

/// Append `,"command":`.
fn push_lit_command(out: &mut Vec<u8>)
    ensures
        final(out)@ == old(out)@ + lit_command(),
{
    out.push(0x2c);
    out.push(0x22);
    out.push(0x63);
    out.push(0x6f);
    out.push(0x6d);
    out.push(0x6d);
    out.push(0x61);
    out.push(0x6e);
    out.push(0x64);
    out.push(0x22);
    out.push(0x3a);
    proof {
        assert(final(out)@ =~= old(out)@ + lit_command());
    }
}

/// `,"command":` as a vector, for the reader.
fn lit_command_vec() -> (r: Vec<u8>)
    ensures
        r@ == lit_command(),
{
    let mut r: Vec<u8> = Vec::new();
    push_lit_command(&mut r);
    proof {
        assert(r@ =~= lit_command());
    }
    r
}

/// Append `,"timeout":`.
fn push_lit_timeout(out: &mut Vec<u8>)
    ensures
        final(out)@ == old(out)@ + lit_timeout(),
{
    out.push(0x2c);
    out.push(0x22);
    out.push(0x74);
    out.push(0x69);
    out.push(0x6d);
    out.push(0x65);
    out.push(0x6f);
    out.push(0x75);
    out.push(0x74);
    out.push(0x22);
    out.push(0x3a);
    proof {
        assert(final(out)@ =~= old(out)@ + lit_timeout());
    }
}

/// `,"timeout":` as a vector, for the reader.
fn lit_timeout_vec() -> (r: Vec<u8>)
    ensures
        r@ == lit_timeout(),
{
    let mut r: Vec<u8> = Vec::new();
    push_lit_timeout(&mut r);
    proof {
        assert(r@ =~= lit_timeout());
    }
    r
}

/// Append `,"kill_mode":`.
fn push_lit_kill_mode(out: &mut Vec<u8>)
    ensures
        final(out)@ == old(out)@ + lit_kill_mode(),
{
    out.push(0x2c);
    out.push(0x22);
    out.push(0x6b);
    out.push(0x69);
    out.push(0x6c);
    out.push(0x6c);
    out.push(0x5f);
    out.push(0x6d);
    out.push(0x6f);
    out.push(0x64);
    out.push(0x65);
    out.push(0x22);
    out.push(0x3a);
    proof {
        assert(final(out)@ =~= old(out)@ + lit_kill_mode());
    }
}

/// `,"kill_mode":` as a vector, for the reader.
fn lit_kill_mode_vec() -> (r: Vec<u8>)
    ensures
        r@ == lit_kill_mode(),
{
    let mut r: Vec<u8> = Vec::new();
    push_lit_kill_mode(&mut r);
    proof {
        assert(r@ =~= lit_kill_mode());
    }
    r
}

/// Append `,"client_token":`.
fn push_lit_client_token(out: &mut Vec<u8>)
    ensures
        final(out)@ == old(out)@ + lit_client_token(),
{
    out.push(0x2c);
    out.push(0x22);
    out.push(0x63);
    out.push(0x6c);
    out.push(0x69);
    out.push(0x65);
    out.push(0x6e);
    out.push(0x74);
    out.push(0x5f);
    out.push(0x74);
    out.push(0x6f);
    out.push(0x6b);
    out.push(0x65);
    out.push(0x6e);
    out.push(0x22);
    out.push(0x3a);
    proof {
        assert(final(out)@ =~= old(out)@ + lit_client_token());
    }
}

/// `,"client_token":` as a vector, for the reader.
fn lit_client_token_vec() -> (r: Vec<u8>)
    ensures
        r@ == lit_client_token(),
{
    let mut r: Vec<u8> = Vec::new();
    push_lit_client_token(&mut r);
    proof {
        assert(r@ =~= lit_client_token());
    }
    r
}

/// Append `,"output":`.
fn push_lit_output(out: &mut Vec<u8>)
    ensures
        final(out)@ == old(out)@ + lit_output(),
{
    out.push(0x2c);
    out.push(0x22);
    out.push(0x6f);
    out.push(0x75);
    out.push(0x74);
    out.push(0x70);
    out.push(0x75);
    out.push(0x74);
    out.push(0x22);
    out.push(0x3a);
    proof {
        assert(final(out)@ =~= old(out)@ + lit_output());
    }
}

// ---------------------------------------------------------------------------
// The request shapes
// ---------------------------------------------------------------------------
/// Start a remote command.
pub struct RunCommandRequest {
    pub command_id: String,
    pub command: Vec<u8>,
    pub timeout: u32,
    pub kill_mode: bool,
    pub client_token: String,
}

/// Stop a running remote command.
pub struct StopCommandRequest {
    pub command_id: String,
}

/// Ask after a remote command, optionally with its output.
pub struct DescribeCommandRequest {
    pub command_id: String,
    pub output: bool,
}

/// Relies on String::from_utf8: it succeeds exactly on valid UTF-8 input
/// and yields the string those bytes encode, unchanged.
#[verifier::external_body]
fn string_from_utf8(bytes: Vec<u8>) -> (r: Option<String>)
    ensures
        r is Some <==> valid_utf8(bytes@),
        (r matches Some(s) ==> encode_utf8(s@) == bytes@ && s@ == decode_utf8(bytes@)),
{
    String::from_utf8(bytes).ok()
}

impl RunCommandRequest {
    /// The canonical wire bytes: a function of the field values alone, so
    /// repeated calls on the same value yield the same bytes.
    pub fn to_json(&self) -> (r: Vec<u8>)
        ensures
            r@ == run_request_json(
                encode_utf8(self.command_id@),
                self.command@,
                self.timeout,
                self.kill_mode,
                encode_utf8(self.client_token@),
            ),
    {
        let mut out: Vec<u8> = Vec::new();
        push_lit_command_id(&mut out);
        let id_bytes = slice_to_vec(self.command_id.as_str().as_bytes());
        push_json_string(&mut out, &id_bytes);
        push_lit_command(&mut out);
        push_json_byte_array(&mut out, &self.command);
        push_lit_timeout(&mut out);
        push_dec_u32(&mut out, self.timeout);
        push_lit_kill_mode(&mut out);
        push_json_bool(&mut out, self.kill_mode);
        push_lit_client_token(&mut out);
        let tok_bytes = slice_to_vec(self.client_token.as_str().as_bytes());
        push_json_string(&mut out, &tok_bytes);
        out.push(0x7d);
        proof {
            assert(out@ =~= run_request_json(
                encode_utf8(self.command_id@),
                self.command@,
                self.timeout,
                self.kill_mode,
                encode_utf8(self.client_token@),
            ));
        }
        out
    }

    /// Read a run request back from its canonical wire bytes.  Succeeds
    /// exactly where the canonical reader does, and then carries exactly
    /// the field values the bytes name.
    pub fn from_json(data: &Vec<u8>) -> (r: Option<RunCommandRequest>)
        ensures
            match parse_run_request(data@) {
                None => r is None,
                Some(f) => (r matches Some(req) && encode_utf8(req.command_id@) == f.command_id
                    && req.command@ == f.command && req.timeout == f.timeout && req.kill_mode
                    == f.kill_mode && encode_utf8(req.client_token@) == f.client_token),
            },
    {
        proof {
            assert(data@.skip(0) =~= data@);
        }
        let lit1 = lit_command_id_vec();
        let p1 = match expect_at(data, 0, &lit1) {
            Some(p) => p,
            None => {
                return None;
            },
        };
        let (id_bytes, p2) = match parse_string_at(data, p1) {
            Some(x) => x,
            None => {
                return None;
            },
        };
        let lit2 = lit_command_vec();
        let p3 = match expect_at(data, p2, &lit2) {
            Some(p) => p,
            None => {
                return None;
            },
        };
        let (command, p4) = match parse_byte_array_at(data, p3) {
            Some(x) => x,
            None => {
                return None;
            },
        };
        let lit3 = lit_timeout_vec();
        let p5 = match expect_at(data, p4, &lit3) {
            Some(p) => p,
            None => {
                return None;
            },
        };
        let (timeout, p6) = match parse_u32_at(data, p5) {
            Some(x) => x,
            None => {
                return None;
            },
        };
        let lit4 = lit_kill_mode_vec();
        let p7 = match expect_at(data, p6, &lit4) {
            Some(p) => p,
            None => {
                return None;
            },
        };
        let (kill_mode, p8) = match parse_bool_at(data, p7) {
            Some(x) => x,
            None => {
                return None;
            },
        };
        let lit5 = lit_client_token_vec();
        let p9 = match expect_at(data, p8, &lit5) {
            Some(p) => p,
            None => {
                return None;
            },
        };
        let (tok_bytes, p10) = match parse_string_at(data, p9) {
            Some(x) => x,
            None => {
                return None;
            },
        };
        if !(p10 < data.len() && data.len() - p10 == 1) {
            proof {
                assert(data@.skip(p10 as int).len() == data@.len() - p10);
                if data@.skip(p10 as int) == lit_end() {
                    assert(data@.skip(p10 as int).len() == 1);
                }
            }
            return None;
        }
        if data[p10] != 0x7d {
            proof {
                assert(data@.skip(p10 as int)[0] == data@[p10 as int]);
                if data@.skip(p10 as int) == lit_end() {
                    assert(data@.skip(p10 as int)[0] == 0x7d);
                }
            }
            return None;
        }
        proof {
            assert(data@.skip(p10 as int) =~= lit_end());
        }
        let command_id = match string_from_utf8(id_bytes) {
            Some(s) => s,
            None => {
                return None;
            },
        };
        let client_token = match string_from_utf8(tok_bytes) {
            Some(s) => s,
            None => {
                return None;
            },
        };
        Some(RunCommandRequest { command_id, command, timeout, kill_mode, client_token })
    }
}

impl StopCommandRequest {
    /// The canonical wire bytes: a function of the field value alone.
    pub fn to_json(&self) -> (r: Vec<u8>)
        ensures
            r@ == stop_request_json(encode_utf8(self.command_id@)),
    {
        let mut out: Vec<u8> = Vec::new();
        push_lit_command_id(&mut out);
        let id_bytes = slice_to_vec(self.command_id.as_str().as_bytes());
        push_json_string(&mut out, &id_bytes);
        out.push(0x7d);
        proof {
            assert(out@ =~= stop_request_json(encode_utf8(self.command_id@)));
        }
        out
    }
}

impl DescribeCommandRequest {
    /// The canonical wire bytes: a function of the field values alone.
    pub fn to_json(&self) -> (r: Vec<u8>)
        ensures
            r@ == describe_request_json(encode_utf8(self.command_id@), self.output),
    {
        let mut out: Vec<u8> = Vec::new();
        push_lit_command_id(&mut out);
        let id_bytes = slice_to_vec(self.command_id.as_str().as_bytes());
        push_json_string(&mut out, &id_bytes);
        push_lit_output(&mut out);
        push_json_bool(&mut out, self.output);
        out.push(0x7d);
        proof {
            assert(out@ =~= describe_request_json(encode_utf8(self.command_id@), self.output));
        }
        out
    }
}

// ---------------------------------------------------------------------------
// The round-trip law
// ---------------------------------------------------------------------------
/// Reading the writer's output yields the fields back, byte for byte.
#[verifier::rlimit(60)]
#[verifier::spinoff_prover]
proof fn lemma_parse_run_request_bytes(
    command_id: Seq<u8>,
    command: Seq<u8>,
    timeout: u32,
    kill_mode: bool,
    client_token: Seq<u8>,
)
    requires
        valid_utf8(command_id),
        valid_utf8(client_token),
    ensures
        parse_run_request(run_request_json(command_id, command, timeout, kill_mode, client_token))
            == Some(
            RunRequestFields { command_id, command, timeout, kill_mode, client_token },
        ),
{
    let e = lit_end();
    let s10 = json_string(client_token) + e;
    let s9 = lit_client_token() + s10;
    let s8 = json_bool(kill_mode) + s9;
    let s7 = lit_kill_mode() + s8;
    let s6 = dec_bytes(timeout as nat) + s7;
    let s5 = lit_timeout() + s6;
    let s4 = json_byte_array(command) + s5;
    let s3 = lit_command() + s4;
    let s2 = json_string(command_id) + s3;
    let s1 = lit_command_id() + s2;
    assert(run_request_json(command_id, command, timeout, kill_mode, client_token) =~= s1);
    lemma_expect_bytes_of(lit_command_id(), s2);
    lemma_parse_json_string_of(command_id, s3);
    lemma_expect_bytes_of(lit_command(), s4);
    lemma_parse_json_byte_array_of(command, s5);
    lemma_expect_bytes_of(lit_timeout(), s6);
    assert(s7.first() == 0x2c);
    lemma_parse_dec_of_dec_bytes(timeout as nat, s7);
    lemma_expect_bytes_of(lit_kill_mode(), s8);
    lemma_parse_json_bool_of(kill_mode, s9);
    lemma_expect_bytes_of(lit_client_token(), s10);
    lemma_parse_json_string_of(client_token, e);
}

/// The round-trip law for a run request: whatever the field values —
/// string fields given as character sequences, as a request value holds
/// them — writing the canonical bytes and reading them back yields exactly
/// those values.  Together with `RunCommandRequest::to_json` and
/// `RunCommandRequest::from_json` this pins the whole cycle: serialize,
/// deserialize, and the value is equal again.
pub proof fn lemma_run_request_round_trip(
    command_id: Seq<char>,
    command: Seq<u8>,
    timeout: u32,
    kill_mode: bool,
    client_token: Seq<char>,
)
    ensures
        parse_run_request(
            run_request_json(
                encode_utf8(command_id),
                command,
                timeout,
                kill_mode,
                encode_utf8(client_token),
            ),
        ) == Some(
            RunRequestFields {
                command_id: encode_utf8(command_id),
                command,
                timeout,
                kill_mode,
                client_token: encode_utf8(client_token),
            },
        ),
{
    encode_utf8_valid_utf8(command_id);
    encode_utf8_valid_utf8(client_token);
    lemma_parse_run_request_bytes(
        encode_utf8(command_id),
        command,
        timeout,
        kill_mode,
        encode_utf8(client_token),
    );
}

} // verus!
