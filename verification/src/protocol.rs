//! Control-protocol envelopes.
//!
//! When the child is told to route tool-use permission prompts through its
//! standard streams, it sends `control_request` lines on stdout and expects
//! correlated `control_response` lines on stdin.  The orchestrator also
//! sends uncorrelated one-way `control_request` commands of its own.  Every
//! outbound envelope is rendered here as one line of JSON text whose exact
//! character sequence is stated by a spec function.

use vstd::prelude::*;
use vstd::string::StringExecFns;
use crate::jsontext::{spec_escape, spec_hex, escape_chars, hex_chars};
use crate::chars::{string_to_chars, chars_to_string};

verus! {

/// Permission decision sent back to the child for one `can_use_tool`
/// request.  A replacement tool input, when present, is carried as the
/// JSON text of the replacement value and spliced into the envelope as-is.
#[derive(Debug, Clone)]
pub enum PermissionResult {
    Allow { updated_input: Option<String> },
    Deny { message: String, interrupt: Option<bool> },
}

/// Payload of a control response: the correlation id and the decision.
#[derive(Debug, Clone)]
pub struct ControlResponsePayload {
    pub request_id: String,
    pub response: PermissionResult,
}

/// Control response envelope written to the child's stdin.
#[derive(Debug, Clone)]
pub struct ControlResponse {
    pub response: ControlResponsePayload,
}

/// One-way control commands the orchestrator can send to the child.
#[derive(Debug, Clone)]
pub enum SdkControlRequestPayload {
    Interrupt,
    SetPermissionMode { mode: String },
    SetModel { model: Option<String> },
}

/// Control request envelope for runtime commands sent to the child's
/// stdin.  Fire-and-forget: no response is correlated to `request_id`.
#[derive(Debug, Clone)]
pub struct ControlRequest {
    pub request_id: String,
    pub request: SdkControlRequestPayload,
}

/// The JSON text of a permission decision.
pub open spec fn spec_permission_result_json(p: PermissionResult) -> Seq<char> {
    match p {
        PermissionResult::Allow { updated_input } => match updated_input {
            Option::None => "{\"behavior\":\"allow\"}"@,
            Option::Some(t) => "{\"behavior\":\"allow\",\"updatedInput\":"@ + t@ + "}"@,
        },
        PermissionResult::Deny { message, interrupt } => "{\"behavior\":\"deny\",\"message\":\""@
            + spec_escape(message@) + "\""@ + (match interrupt {
            Option::Some(true) => ",\"interrupt\":true"@,
            Option::Some(false) => ",\"interrupt\":false"@,
            Option::None => Seq::<char>::empty(),
        }) + "}"@,
    }
}

/// The JSON text of a full control response envelope.
pub open spec fn spec_control_response_json(r: ControlResponse) -> Seq<char> {
    "{\"type\":\"control_response\",\"response\":{\"subtype\":\"success\",\"request_id\":\""@
        + spec_escape(r.response.request_id@) + "\",\"response\":"@ + spec_permission_result_json(
        r.response.response,
    ) + "}}"@
}

/// The JSON text of a one-way command payload.
pub open spec fn spec_sdk_payload_json(p: SdkControlRequestPayload) -> Seq<char> {
    match p {
        SdkControlRequestPayload::Interrupt => "{\"subtype\":\"interrupt\"}"@,
        SdkControlRequestPayload::SetPermissionMode { mode } => {
            "{\"subtype\":\"set_permission_mode\",\"mode\":\""@ + spec_escape(mode@) + "\"}"@
        },
        SdkControlRequestPayload::SetModel { model } => match model {
            Option::Some(m) => "{\"subtype\":\"set_model\",\"model\":\""@ + spec_escape(m@)
                + "\"}"@,
            Option::None => "{\"subtype\":\"set_model\"}"@,
        },
    }
}

/// The JSON text of a full outbound control request envelope.
pub open spec fn spec_control_request_json(r: ControlRequest) -> Seq<char> {
    "{\"type\":\"control_request\",\"request_id\":\""@ + spec_escape(r.request_id@)
        + "\",\"request\":"@ + spec_sdk_payload_json(r.request) + "}"@
}

/// The JSON text of a user turn handed to the child as one input line.
pub open spec fn spec_user_turn_json(content: Seq<char>) -> Seq<char> {
    "{\"type\":\"user\",\"message\":{\"role\":\"user\",\"content\":\""@ + spec_escape(content)
        + "\"}}"@
}

/// Append the escaped characters of `s` to `out`.
fn append_escaped(out: &mut String, s: &str)
    ensures
        final(out)@ == old(out)@ + spec_escape(s@),
{
    let cs = string_to_chars(s);
    let esc = escape_chars(&cs);
    let t = chars_to_string(&esc);
    out.append(t.as_str());
}

impl PermissionResult {
    /// Render the decision as JSON text.
    pub fn to_json(&self) -> (r: String)
        ensures
            r@ == spec_permission_result_json(*self),
    {
        let mut out = String::new();
        match self {
            PermissionResult::Allow { updated_input } => {
                match updated_input {
                    Option::None => {
                        out.append("{\"behavior\":\"allow\"}");
                    },
                    Option::Some(t) => {
                        out.append("{\"behavior\":\"allow\",\"updatedInput\":");
                        out.append(t.as_str());
                        out.append("}");
                    },
                }
            },
            PermissionResult::Deny { message, interrupt } => {
                out.append("{\"behavior\":\"deny\",\"message\":\"");
                append_escaped(&mut out, message.as_str());
                out.append("\"");
                match interrupt {
                    Option::Some(b) => {
                        if *b {
                            out.append(",\"interrupt\":true");
                        } else {
                            out.append(",\"interrupt\":false");
                        }
                    },
                    Option::None => {},
                }
                out.append("}");
            },
        }
        proof {
            assert(out@ =~= spec_permission_result_json(*self));
        }
        out
    }
}

impl ControlResponse {
    /// Create an "allow" response for a given request.
    pub fn allow(request_id: String) -> (r: Self)
        ensures
            r.response.request_id == request_id,
            r.response.response == (PermissionResult::Allow { updated_input: Option::None }),
    {
        ControlResponse {
            response: ControlResponsePayload {
                request_id,
                response: PermissionResult::Allow { updated_input: Option::None },
            },
        }
    }

    /// Create a "deny" response for a given request.  The interrupt flag is
    /// carried only when set, as the wire format leaves it out otherwise.
    pub fn deny(request_id: String, message: String, interrupt: bool) -> (r: Self)
        ensures
            r.response.request_id == request_id,
            r.response.response == (PermissionResult::Deny {
                message,
                interrupt: if interrupt {
                    Option::Some(true)
                } else {
                    Option::None
                },
            }),
    {
        ControlResponse {
            response: ControlResponsePayload {
                request_id,
                response: PermissionResult::Deny {
                    message,
                    interrupt: if interrupt {
                        Option::Some(true)
                    } else {
                        Option::None
                    },
                },
            },
        }
    }

    /// Render the full envelope as one line of JSON text.
    pub fn to_json(&self) -> (r: String)
        ensures
            r@ == spec_control_response_json(*self),
    {
        let mut out = String::new();
        out.append(
            "{\"type\":\"control_response\",\"response\":{\"subtype\":\"success\",\"request_id\":\"",
        );
        append_escaped(&mut out, self.response.request_id.as_str());
        out.append("\",\"response\":");
        let body = self.response.response.to_json();
        out.append(body.as_str());
        out.append("}}");
        proof {
            assert(out@ =~= spec_control_response_json(*self));
        }
        out
    }
}

/// Relies on `rand::random`, which draws from the thread-local generator;
/// nothing is assumed of the value.
#[verifier::external_body]
fn random_u64() -> u64 {
    rand::random::<u64>()
}

impl ControlRequest {
    /// Generate a random request id: the lower-case hexadecimal rendering
    /// of one random 64-bit draw.
    fn random_id() -> (r: String)
        ensures
            r@.len() >= 1,
            exists|n: int| 0 <= n && r@ == spec_hex(n),
    {
        let n = random_u64();
        let cs = hex_chars(n);
        let r = chars_to_string(&cs);
        proof {
            assert(r@ == spec_hex(n as int));
        }
        r
    }

    /// An interrupt command under a fresh random id.
    pub fn interrupt() -> (r: Self)
        ensures
            r.request == SdkControlRequestPayload::Interrupt,
            r.request_id@.len() >= 1,
            exists|n: int| 0 <= n && r.request_id@ == spec_hex(n),
    {
        ControlRequest {
            request_id: Self::random_id(),
            request: SdkControlRequestPayload::Interrupt,
        }
    }

    /// A permission-mode change under a fresh random id.
    pub fn set_permission_mode(mode: String) -> (r: Self)
        ensures
            r.request == (SdkControlRequestPayload::SetPermissionMode { mode }),
            r.request_id@.len() >= 1,
            exists|n: int| 0 <= n && r.request_id@ == spec_hex(n),
    {
        ControlRequest {
            request_id: Self::random_id(),
            request: SdkControlRequestPayload::SetPermissionMode { mode },
        }
    }

    /// A model change under a fresh random id.
    pub fn set_model(model: Option<String>) -> (r: Self)
        ensures
            r.request == (SdkControlRequestPayload::SetModel { model }),
            r.request_id@.len() >= 1,
            exists|n: int| 0 <= n && r.request_id@ == spec_hex(n),
    {
        ControlRequest {
            request_id: Self::random_id(),
            request: SdkControlRequestPayload::SetModel { model },
        }
    }

    /// Render the full envelope as one line of JSON text.
    pub fn to_json(&self) -> (r: String)
        ensures
            r@ == spec_control_request_json(*self),
    {
        let mut out = String::new();
        out.append("{\"type\":\"control_request\",\"request_id\":\"");
        append_escaped(&mut out, self.request_id.as_str());
        out.append("\",\"request\":");
        match &self.request {
            SdkControlRequestPayload::Interrupt => {
                out.append("{\"subtype\":\"interrupt\"}");
            },
            SdkControlRequestPayload::SetPermissionMode { mode } => {
                out.append("{\"subtype\":\"set_permission_mode\",\"mode\":\"");
                append_escaped(&mut out, mode.as_str());
                out.append("\"}");
            },
            SdkControlRequestPayload::SetModel { model } => {
                match model {
                    Option::Some(m) => {
                        out.append("{\"subtype\":\"set_model\",\"model\":\"");
                        append_escaped(&mut out, m.as_str());
                        out.append("\"}");
                    },
                    Option::None => {
                        out.append("{\"subtype\":\"set_model\"}");
                    },
                }
            },
        }
        out.append("}");
        proof {
            assert(out@ =~= spec_control_request_json(*self));
        }
        out
    }
}

/// Two separator-free parts concatenate to a separator-free whole.
proof fn lemma_no_char_concat(a: Seq<char>, b: Seq<char>, c: char)
    requires
        !crate::chars::seq_contains_char(a, c),
        !crate::chars::seq_contains_char(b, c),
    ensures
        !crate::chars::seq_contains_char(a + b, c),
{
    assert forall|k: int| 0 <= k < (a + b).len() implies (a + b)[k] != c by {
        if k < a.len() {
            assert((a + b)[k] == a[k]);
        } else {
            assert((a + b)[k] == b[k - a.len()]);
        }
    }
}

/// No literal of the response envelope holds a newline.
proof fn lemma_response_literals_one_line()
    ensures
        !crate::chars::seq_contains_char(
            "{\"type\":\"control_response\",\"response\":{\"subtype\":\"success\",\"request_id\":\""@,
            '\n',
        ),
        !crate::chars::seq_contains_char("\",\"response\":"@, '\n'),
        !crate::chars::seq_contains_char("}}"@, '\n'),
        !crate::chars::seq_contains_char("{\"behavior\":\"allow\"}"@, '\n'),
        !crate::chars::seq_contains_char("{\"behavior\":\"allow\",\"updatedInput\":"@, '\n'),
        !crate::chars::seq_contains_char("}"@, '\n'),
        !crate::chars::seq_contains_char("{\"behavior\":\"deny\",\"message\":\""@, '\n'),
        !crate::chars::seq_contains_char("\""@, '\n'),
        !crate::chars::seq_contains_char(",\"interrupt\":true"@, '\n'),
        !crate::chars::seq_contains_char(",\"interrupt\":false"@, '\n'),
{
    reveal_strlit(
        "{\"type\":\"control_response\",\"response\":{\"subtype\":\"success\",\"request_id\":\"",
    );
    reveal_strlit("\",\"response\":");
    reveal_strlit("}}");
    reveal_strlit("{\"behavior\":\"allow\"}");
    reveal_strlit("{\"behavior\":\"allow\",\"updatedInput\":");
    reveal_strlit("}");
    reveal_strlit("{\"behavior\":\"deny\",\"message\":\"");
    reveal_strlit("\"");
    reveal_strlit(",\"interrupt\":true");
    reveal_strlit(",\"interrupt\":false");
}

/// A rendered permission decision holds no newline, as long as a spliced
/// replacement input holds none.
proof fn lemma_result_one_line(p: PermissionResult)
    requires
        match p {
            PermissionResult::Allow { updated_input: Option::Some(t) } => !crate::chars::seq_contains_char(
                t@,
                '\n',
            ),
            _ => true,
        },
    ensures
        !crate::chars::seq_contains_char(spec_permission_result_json(p), '\n'),
{
    lemma_response_literals_one_line();
    match p {
        PermissionResult::Allow { updated_input } => {
            match updated_input {
                Option::None => {},
                Option::Some(t) => {
                    lemma_no_char_concat("{\"behavior\":\"allow\",\"updatedInput\":"@, t@, '\n');
                    lemma_no_char_concat(
                        "{\"behavior\":\"allow\",\"updatedInput\":"@ + t@,
                        "}"@,
                        '\n',
                    );
                },
            }
        },
        PermissionResult::Deny { message, interrupt } => {
            crate::jsontext::lemma_escape_no_newline(message@);
            let head = "{\"behavior\":\"deny\",\"message\":\""@;
            lemma_no_char_concat(head, crate::jsontext::spec_escape(message@), '\n');
            lemma_no_char_concat(head + crate::jsontext::spec_escape(message@), "\""@, '\n');
            let mid = head + crate::jsontext::spec_escape(message@) + "\""@;
            let flag = match interrupt {
                Option::Some(true) => ",\"interrupt\":true"@,
                Option::Some(false) => ",\"interrupt\":false"@,
                Option::None => Seq::<char>::empty(),
            };
            assert(!crate::chars::seq_contains_char(flag, '\n'));
            lemma_no_char_concat(mid, flag, '\n');
            lemma_no_char_concat(mid + flag, "}"@, '\n');
        },
    }
}

/// A control response renders as one complete line: the envelope holds
/// no newline, so framing it with one final newline puts exactly one
/// complete line on the wire.  With every write for a session funnelled
/// through the serialized send, concurrent permission decisions can
/// never interleave their response bytes.
pub proof fn lemma_control_response_one_line(r: ControlResponse)
    requires
        match r.response.response {
            PermissionResult::Allow { updated_input: Option::Some(t) } => !crate::chars::seq_contains_char(
                t@,
                '\n',
            ),
            _ => true,
        },
    ensures
        !crate::chars::seq_contains_char(spec_control_response_json(r), '\n'),
{
    lemma_response_literals_one_line();
    lemma_result_one_line(r.response.response);
    crate::jsontext::lemma_escape_no_newline(r.response.request_id@);
    let a =
        "{\"type\":\"control_response\",\"response\":{\"subtype\":\"success\",\"request_id\":\""@;
    let b = crate::jsontext::spec_escape(r.response.request_id@);
    let c = "\",\"response\":"@;
    let d = spec_permission_result_json(r.response.response);
    let e = "}}"@;
    lemma_no_char_concat(a, b, '\n');
    lemma_no_char_concat(a + b, c, '\n');
    lemma_no_char_concat(a + b + c, d, '\n');
    lemma_no_char_concat(a + b + c + d, e, '\n');
}

/// A one-way control command renders as one complete line: the envelope
/// holds no newline, whatever mode or model name it carries.
pub proof fn lemma_control_request_one_line(r: ControlRequest)
    ensures
        !crate::chars::seq_contains_char(spec_control_request_json(r), '\n'),
{
    reveal_strlit("{\"type\":\"control_request\",\"request_id\":\"");
    reveal_strlit("\",\"request\":");
    reveal_strlit("}");
    reveal_strlit("{\"subtype\":\"interrupt\"}");
    reveal_strlit("{\"subtype\":\"set_permission_mode\",\"mode\":\"");
    reveal_strlit("\"}");
    reveal_strlit("{\"subtype\":\"set_model\",\"model\":\"");
    reveal_strlit("{\"subtype\":\"set_model\"}");
    crate::jsontext::lemma_escape_no_newline(r.request_id@);
    let body = spec_sdk_payload_json(r.request);
    assert(!crate::chars::seq_contains_char(body, '\n')) by {
        match r.request {
            SdkControlRequestPayload::Interrupt => {},
            SdkControlRequestPayload::SetPermissionMode { mode } => {
                crate::jsontext::lemma_escape_no_newline(mode@);
                let h = "{\"subtype\":\"set_permission_mode\",\"mode\":\""@;
                lemma_no_char_concat(h, crate::jsontext::spec_escape(mode@), '\n');
                lemma_no_char_concat(h + crate::jsontext::spec_escape(mode@), "\"}"@, '\n');
            },
            SdkControlRequestPayload::SetModel { model } => {
                match model {
                    Option::Some(m) => {
                        crate::jsontext::lemma_escape_no_newline(m@);
                        let h = "{\"subtype\":\"set_model\",\"model\":\""@;
                        lemma_no_char_concat(h, crate::jsontext::spec_escape(m@), '\n');
                        lemma_no_char_concat(h + crate::jsontext::spec_escape(m@), "\"}"@, '\n');
                    },
                    Option::None => {},
                }
            },
        }
    }
    let a = "{\"type\":\"control_request\",\"request_id\":\""@;
    let b = crate::jsontext::spec_escape(r.request_id@);
    let c = "\",\"request\":"@;
    let e = "}"@;
    lemma_no_char_concat(a, b, '\n');
    lemma_no_char_concat(a + b, c, '\n');
    lemma_no_char_concat(a + b + c, body, '\n');
    lemma_no_char_concat(a + b + c + body, e, '\n');
}

/// A user turn renders as one complete line: the envelope holds no
/// newline, whatever the prompt text holds.
pub proof fn lemma_user_turn_one_line(content: Seq<char>)
    ensures
        !crate::chars::seq_contains_char(spec_user_turn_json(content), '\n'),
{
    reveal_strlit("{\"type\":\"user\",\"message\":{\"role\":\"user\",\"content\":\"");
    reveal_strlit("\"}}");
    crate::jsontext::lemma_escape_no_newline(content);
    let a = "{\"type\":\"user\",\"message\":{\"role\":\"user\",\"content\":\""@;
    let b = crate::jsontext::spec_escape(content);
    let c = "\"}}"@;
    lemma_no_char_concat(a, b, '\n');
    lemma_no_char_concat(a + b, c, '\n');
}

/// Payload of a `control_request` line sent by the child.  Only the two
/// negotiated subtypes carry fields the mediator branches on; anything
/// else is an unknown subtype.  A tool input is carried as the JSON text
/// of the value, passed through unmodified.
#[derive(Debug, Clone)]
pub enum ControlRequestPayload {
    CanUseTool {
        tool_name: String,
        input: Option<String>,
        description: Option<String>,
        tool_use_id: Option<String>,
    },
    HookCallback { callback_id: String, input: Option<String>, tool_use_id: Option<String> },
    Unknown,
}

/// Classification of one stdout line: a control request to mediate, or
/// any other message, forwarded verbatim to the output sink.
#[derive(Debug, Clone)]
pub enum StdoutMessage {
    ControlRequest { request_id: String, request: ControlRequestPayload },
    Other,
}

/// The permission-request event handed to the decision collaborator.
#[derive(Debug, Clone)]
pub struct PermissionRequestEvent {
    pub request_id: String,
    pub tool_name: String,
    pub input: Option<String>,
    pub description: Option<String>,
    pub tool_use_id: Option<String>,
}

/// Frame a user prompt as the one-line JSON user turn the child expects.
pub fn user_turn_json(content: &str) -> (r: String)
    ensures
        r@ == spec_user_turn_json(content@),
{
    let mut out = String::new();
    out.append("{\"type\":\"user\",\"message\":{\"role\":\"user\",\"content\":\"");
    append_escaped(&mut out, content);
    out.append("\"}}");
    proof {
        assert(out@ =~= spec_user_turn_json(content@));
    }
    out
}

} // verus!
