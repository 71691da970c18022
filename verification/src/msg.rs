//! Wire messages: tagged JSON records.  Outbound messages are encoded by a
//! verified printer; inbound bytes are parsed into a string-field map by
//! serde_json and then decoded by verified code.

use vstd::prelude::*;
use vstd::string::StrSliceExecFns;
use vstd::string::StringExecFns;

use crate::codes::hex_digit;
use crate::codes::hex_digit_exec;
use crate::codes::push_char;

verus! {

/// The protocol's message variants, selected on the wire by the `msg_type`
/// discriminator field.
pub enum MsgType {
    /// Peer to server: a liveness ping from a registered host.
    PingRequest,
    /// Server to peer: reply to a ping, and the sweep's unsolicited ping.
    PingResponse,
    /// Peer to server: register the sender as a host.
    HostRegisterRequest,
    /// Server to peer: the registered host's rendezvous code.
    HostRegisterResponse { host_code: String },
    /// Peer to server: resolve a rendezvous code.
    HostLookupRequest { host_code: String },
    /// Server to peer: the resolution's outcome.
    HostLookupResponse { success: bool, host_info: String },
    /// Server to the resolved host: who is about to connect to it.
    ClientLookupResponse { client_info: String },
}

/// How one character is written inside a JSON string literal.
pub open spec fn esc_char(c: char) -> Seq<char> {
    if c == '"' {
        seq!['\\', '"']
    } else if c == '\\' {
        seq!['\\', '\\']
    } else if c == '\n' {
        seq!['\\', 'n']
    } else if c == '\r' {
        seq!['\\', 'r']
    } else if c == '\t' {
        seq!['\\', 't']
    } else if (c as u32) < 0x20 {
        seq!['\\', 'u', '0', '0', hex_digit((c as u32) >> 4), hex_digit((c as u32) & 0xF)]
    } else {
        seq![c]
    }
}

/// How a whole string value is written inside a JSON string literal.
pub open spec fn json_escape(s: Seq<char>) -> Seq<char>
    decreases s.len(),
{
    if s.len() == 0 {
        Seq::empty()
    } else {
        json_escape(s.drop_last()) + esc_char(s.last())
    }
}

/// The wire text of a ping, in either direction of the ping exchange.
pub open spec fn ping_response_text() -> Seq<char> {
    "{\"msg_type\":\"PingResponse\"}"@
}

/// The wire text carrying a host its rendezvous code.
pub open spec fn register_response_text(code: Seq<char>) -> Seq<char> {
    "{\"msg_type\":\"HostRegisterResponse\",\"host_code\":\""@ + json_escape(code) + "\"}"@
}

/// The wire text answering a lookup; failure carries an empty `host_info`.
pub open spec fn lookup_response_text(success: bool, host_info: Seq<char>) -> Seq<char> {
    "{\"msg_type\":\"HostLookupResponse\",\"success\":"@ + (if success {
        "true"@
    } else {
        "false"@
    }) + ",\"host_info\":\""@ + json_escape(host_info) + "\"}"@
}

/// The wire text telling a host which client just resolved it.
pub open spec fn client_lookup_text(client_info: Seq<char>) -> Seq<char> {
    "{\"msg_type\":\"ClientLookupResponse\",\"client_info\":\""@ + json_escape(client_info) + "\"}"@
}

/// The exact wire text of every outbound message.
pub open spec fn encode_spec(m: MsgType) -> Seq<char> {
    match m {
        MsgType::PingRequest => "{\"msg_type\":\"PingRequest\"}"@,
        MsgType::PingResponse => ping_response_text(),
        MsgType::HostRegisterRequest => "{\"msg_type\":\"HostRegisterRequest\"}"@,
        MsgType::HostRegisterResponse { host_code } => register_response_text(host_code@),
        MsgType::HostLookupRequest { host_code } => (
        "{\"msg_type\":\"HostLookupRequest\",\"host_code\":\""@ + json_escape(host_code@) + "\"}"@),
        MsgType::HostLookupResponse { success, host_info } => lookup_response_text(
            success,
            host_info@,
        ),
        MsgType::ClientLookupResponse { client_info } => client_lookup_text(client_info@),
    }
}

/// Append `s`, escaped as a JSON string-literal body, to `out`.
fn append_escaped(out: &mut String, s: &str)
    ensures
        final(out)@ == old(out)@ + json_escape(s@),
{
    let n = s.unicode_len();
    let mut i: usize = 0;
    while i < n
        invariant
            n == s@.len(),
            i <= n,
            out@ == old(out)@ + json_escape(s@.take(i as int)),
        decreases n - i,
    {
        let ghost before = out@;
        let c = s.get_char(i);
        if c == '"' {
            push_char(out, '\\');
            push_char(out, '"');
        } else if c == '\\' {
            push_char(out, '\\');
            push_char(out, '\\');
        } else if c == '\n' {
            push_char(out, '\\');
            push_char(out, 'n');
        } else if c == '\r' {
            push_char(out, '\\');
            push_char(out, 'r');
        } else if c == '\t' {
            push_char(out, '\\');
            push_char(out, 't');
        } else {
            let v = c as u32;
            assert(v < 0x20 ==> (v >> 4) < 16 && (v & 0xF) < 16) by (bit_vector);
            if v < 0x20 {
                push_char(out, '\\');
                push_char(out, 'u');
                push_char(out, '0');
                push_char(out, '0');
                push_char(out, hex_digit_exec(v >> 4));
                push_char(out, hex_digit_exec(v & 0xF));
            } else {
                push_char(out, c);
            }
        }
        proof {
            assert(out@ =~= before + esc_char(s@[i as int]));
            assert(s@.take(i + 1 as int).drop_last() =~= s@.take(i as int));
            assert(s@.take(i + 1 as int).last() == s@[i as int]);
            assert(out@ =~= old(out)@ + json_escape(s@.take(i + 1 as int)));
        }
        i = i + 1;
    }
    proof {
        assert(s@.take(n as int) =~= s@);
    }
}

/// Encode an outbound message as its wire text.
pub fn encode(m: &MsgType) -> (s: String)
    ensures
        s@ == encode_spec(*m),
{
    match m {
        MsgType::PingRequest => String::from_str("{\"msg_type\":\"PingRequest\"}"),
        MsgType::PingResponse => String::from_str("{\"msg_type\":\"PingResponse\"}"),
        MsgType::HostRegisterRequest => String::from_str("{\"msg_type\":\"HostRegisterRequest\"}"),
        MsgType::HostRegisterResponse { host_code } => {
            let mut out = String::from_str(
                "{\"msg_type\":\"HostRegisterResponse\",\"host_code\":\"",
            );
            append_escaped(&mut out, host_code.as_str());
            out.append("\"}");
            out
        },
        MsgType::HostLookupRequest { host_code } => {
            let mut out = String::from_str("{\"msg_type\":\"HostLookupRequest\",\"host_code\":\"");
            append_escaped(&mut out, host_code.as_str());
            out.append("\"}");
            out
        },
        MsgType::HostLookupResponse { success, host_info } => {
            let mut out = String::from_str("{\"msg_type\":\"HostLookupResponse\",\"success\":");
            if *success {
                out.append("true");
            } else {
                out.append("false");
            }
            out.append(",\"host_info\":\"");
            append_escaped(&mut out, host_info.as_str());
            out.append("\"}");
            out
        },
        MsgType::ClientLookupResponse { client_info } => {
            let mut out = String::from_str(
                "{\"msg_type\":\"ClientLookupResponse\",\"client_info\":\"",
            );
            append_escaped(&mut out, client_info.as_str());
            out.append("\"}");
            out
        },
    }
}

/// What `serde_json` parses a document into, when the document is a JSON
/// object whose values are all strings: its fields, keyed and valued at the
/// character level, in the deterministic order serde_json's map yields them.
/// Any other document, malformed ones included, parses to nothing.
pub uninterp spec fn json_string_fields(data: Seq<char>) -> Option<Seq<(Seq<char>, Seq<char>)>>;

/// The fields of a parsed object, at the character level.
pub open spec fn pairs_view(fs: Seq<(String, String)>) -> Seq<(Seq<char>, Seq<char>)> {
    fs.map_values(|p: (String, String)| (p.0@, p.1@))
}

/// Relies on `serde_json::from_str` deserializing into a map with `String`
/// keys and values: it yields the fields of a JSON object whose values are
/// all strings, and an error on any other document.  The outcome is a
/// function of the document alone.
#[verifier::external_body]
fn parse_string_object(data: &str) -> (r: Option<Vec<(String, String)>>)
    ensures
        match r {
            Some(v) => match json_string_fields(data@) {
                Some(fs) => pairs_view(v@) == fs,
                None => false,
            },
            None => json_string_fields(data@) is None,
        },
{
    match serde_json::from_str::<std::collections::BTreeMap<String, String>>(data) {
        Ok(m) => Some(m.into_iter().collect()),
        Err(_) => None,
    }
}

/// The first value held under `key`, if any.
pub open spec fn field_of(fs: Seq<(Seq<char>, Seq<char>)>, key: Seq<char>) -> Option<Seq<char>>
    decreases fs.len(),
{
    if fs.len() == 0 {
        None
    } else if fs[0].0 == key {
        Some(fs[0].1)
    } else {
        field_of(fs.drop_first(), key)
    }
}

/// The requested code of a lookup; a missing `host_code` field reads as the
/// empty code.
pub open spec fn code_of(fs: Seq<(Seq<char>, Seq<char>)>) -> Seq<char> {
    match field_of(fs, "host_code"@) {
        Some(v) => v,
        None => Seq::empty(),
    }
}

/// An inbound message as the dispatcher sees it.
pub enum InboundMsg {
    /// A liveness ping.
    Ping,
    /// A registration request.
    Register,
    /// A lookup for the carried code.
    Lookup(Seq<char>),
    /// Anything else: unparseable input, a missing or unrecognized
    /// discriminator, or a variant that never travels toward the server.
    Invalid,
}

/// How a parsed object reads as an inbound message.
pub open spec fn inbound_of(fs: Seq<(Seq<char>, Seq<char>)>) -> InboundMsg {
    match field_of(fs, "msg_type"@) {
        None => InboundMsg::Invalid,
        Some(t) => if t == "PingRequest"@ {
            InboundMsg::Ping
        } else if t == "HostRegisterRequest"@ {
            InboundMsg::Register
        } else if t == "HostLookupRequest"@ {
            InboundMsg::Lookup(code_of(fs))
        } else {
            InboundMsg::Invalid
        },
    }
}

/// How a decoded message reads as an inbound message.
pub open spec fn msg_view(m: MsgType) -> InboundMsg {
    match m {
        MsgType::PingRequest => InboundMsg::Ping,
        MsgType::HostRegisterRequest => InboundMsg::Register,
        MsgType::HostLookupRequest { host_code } => InboundMsg::Lookup(host_code@),
        _ => InboundMsg::Invalid,
    }
}

/// Whether `s` holds exactly the characters of `lit`.
fn str_is(s: &String, lit: &str) -> (r: bool)
    ensures
        r == (s@ == lit@),
{
    let key = lit.to_owned();
    *s == key
}

/// The first value held under `key`, if any.
fn find_field(fields: &Vec<(String, String)>, key: &str) -> (r: Option<String>)
    ensures
        match r {
            Some(v) => field_of(pairs_view(fields@), key@) == Some(v@),
            None => field_of(pairs_view(fields@), key@) is None,
        },
{
    let ghost pv = pairs_view(fields@);
    proof {
        assert(pv.skip(0) =~= pv);
    }
    let n = fields.len();
    let mut i: usize = 0;
    while i < n
        invariant
            pv == pairs_view(fields@),
            n == fields@.len(),
            i <= n,
            field_of(pv, key@) == field_of(pv.skip(i as int), key@),
        decreases n - i,
    {
        proof {
            assert(pv.skip(i as int).len() == n - i);
            assert(pv.skip(i as int)[0] == pv[i as int]);
            assert(pv.skip(i as int).drop_first() =~= pv.skip(i + 1 as int));
        }
        if str_is(&fields[i].0, key) {
            return Some(fields[i].1.clone());
        }
        i = i + 1;
    }
    proof {
        assert(pv.skip(n as int) =~= Seq::<(Seq<char>, Seq<char>)>::empty());
    }
    None
}

/// Decode a parsed object into the message it carries, if it carries one
/// the server accepts.
pub fn decode(fields: &Vec<(String, String)>) -> (r: Option<MsgType>)
    ensures
        match r {
            Some(m) => msg_view(m) == inbound_of(pairs_view(fields@)) && !(msg_view(m)
                is Invalid),
            None => inbound_of(pairs_view(fields@)) is Invalid,
        },
{
    match find_field(fields, "msg_type") {
        None => None,
        Some(t) => {
            if str_is(&t, "PingRequest") {
                Some(MsgType::PingRequest)
            } else if str_is(&t, "HostRegisterRequest") {
                Some(MsgType::HostRegisterRequest)
            } else if str_is(&t, "HostLookupRequest") {
                let host_code = match find_field(fields, "host_code") {
                    Some(v) => v,
                    None => String::new(),
                };
                Some(MsgType::HostLookupRequest { host_code })
            } else {
                None
            }
        },
    }
}

/// Parse and decode one inbound datagram.  Unparseable input and messages
/// the server does not accept read as nothing.
pub fn parse_message(data: &str) -> (r: Option<MsgType>)
    ensures
        match json_string_fields(data@) {
            None => r is None,
            Some(fs) => match r {
                Some(m) => msg_view(m) == inbound_of(fs) && !(msg_view(m) is Invalid),
                None => inbound_of(fs) is Invalid,
            },
        },
{
    match parse_string_object(data) {
        None => None,
        Some(fields) => decode(&fields),
    }
}

} // verus!
