//! Inbound line classification.
//!
//! The child writes newline-delimited JSON on stdout.  Only the fields
//! the mediator branches on are decoded — the top-level discriminator,
//! the control subtype and the few subtype fields — and any other
//! message passes through untouched.  The JSON reading itself is done by
//! `serde_json` behind the trusted items below; what each read returns
//! is a function of the line's text alone, so the results carry names
//! that the classifier's contract is stated over, and the branching on
//! the extracted plain values is verified code.

use vstd::prelude::*;
use crate::protocol::{StdoutMessage, ControlRequestPayload};
use crate::process::str_eq;

verus! {

/// Relies on `serde_json::from_str::<Value>`: whether the text is one
/// valid JSON value, a function of the text alone.
pub uninterp spec fn spec_json_ok(s: Seq<char>) -> bool;

/// Relies on `serde_json::from_str::<Value>`: whether the line parses.
#[verifier::external_body]
fn json_ok(s: &str) -> (r: bool)
    ensures
        r == spec_json_ok(s@),
{
    serde_json::from_str::<serde_json::Value>(s).is_ok()
}

/// Relies on `serde_json::from_str`, `Value::get` and `Value::as_str`:
/// the characters of the string member under `key` of the JSON text
/// `s`, or nothing when `s` is not valid JSON, is not an object, has no
/// such member, or the member is not a string — a function of the text
/// and key alone.
pub uninterp spec fn spec_str_member(s: Seq<char>, key: Seq<char>) -> Option<Seq<char>>;

/// Relies on `serde_json::from_str`, `Value::get` and `Value::as_str`:
/// the string member under `key`, as [`spec_str_member`] names it.
#[verifier::external_body]
fn str_member(s: &str, key: &str) -> (r: Option<String>)
    ensures
        match r {
            Option::Some(t) => spec_str_member(s@, key@) == Option::Some(t@),
            Option::None => spec_str_member(s@, key@) is None,
        },
{
    match serde_json::from_str::<serde_json::Value>(s) {
        Ok(v) => match v.get(key) {
            Some(f) => f.as_str().map(|x| x.to_string()),
            None => None,
        },
        Err(_) => None,
    }
}

/// Relies on `serde_json::from_str`, `Value::get` and
/// `serde_json::to_string`: the JSON text of the member under `key` of
/// the JSON text `s`, or nothing when `s` is not valid JSON, is not an
/// object, or has no such member — a function of the text and key alone.
pub uninterp spec fn spec_member_text(s: Seq<char>, key: Seq<char>) -> Option<Seq<char>>;

/// Relies on `serde_json::from_str`, `Value::get` and
/// `serde_json::to_string`: the member's JSON text, as
/// [`spec_member_text`] names it.
#[verifier::external_body]
fn member_text(s: &str, key: &str) -> (r: Option<String>)
    ensures
        match r {
            Option::Some(t) => spec_member_text(s@, key@) == Option::Some(t@),
            Option::None => spec_member_text(s@, key@) is None,
        },
{
    match serde_json::from_str::<serde_json::Value>(s) {
        Ok(v) => match v.get(key) {
            Some(f) => serde_json::to_string(f).ok(),
            None => None,
        },
        Err(_) => None,
    }
}

/// The view of an optional extracted string.
pub open spec fn spec_opt_view(o: Option<String>) -> Option<Seq<char>> {
    match o {
        Option::Some(s) => Option::Some(s@),
        Option::None => Option::None,
    }
}

/// Whether the line is a control request: valid JSON whose top-level
/// discriminator is the string `control_request`.
pub open spec fn spec_is_control(line: Seq<char>) -> bool {
    spec_json_ok(line) && spec_str_member(line, "type"@) == Option::Some("control_request"@)
}

/// Whether a control request is malformed: missing its request id or
/// request payload, a payload without a subtype, or a negotiated
/// subtype missing its one required field.
pub open spec fn spec_control_malformed(line: Seq<char>) -> bool {
    ||| spec_str_member(line, "request_id"@) is None
    ||| match spec_member_text(line, "request"@) {
        Option::Some(reqt) => match spec_str_member(reqt, "subtype"@) {
            Option::Some(st) => (st == "can_use_tool"@ && spec_str_member(reqt, "tool_name"@)
                is None) || (st == "hook_callback"@ && spec_str_member(reqt, "callback_id"@)
                is None),
            Option::None => true,
        },
        Option::None => true,
    }
}

/// Whether a decoded payload carries exactly the fields of the request
/// text: the negotiated subtypes with their fields, anything else as
/// the unknown subtype.
pub open spec fn spec_payload_matches(p: ControlRequestPayload, reqt: Seq<char>) -> bool {
    match p {
        ControlRequestPayload::CanUseTool { tool_name, input, description, tool_use_id } => {
            &&& spec_str_member(reqt, "subtype"@) == Option::Some("can_use_tool"@)
            &&& Option::Some(tool_name@) == spec_str_member(reqt, "tool_name"@)
            &&& spec_opt_view(input) == spec_member_text(reqt, "input"@)
            &&& spec_opt_view(description) == spec_str_member(reqt, "description"@)
            &&& spec_opt_view(tool_use_id) == spec_str_member(reqt, "tool_use_id"@)
        },
        ControlRequestPayload::HookCallback { callback_id, input, tool_use_id } => {
            &&& spec_str_member(reqt, "subtype"@) == Option::Some("hook_callback"@)
            &&& Option::Some(callback_id@) == spec_str_member(reqt, "callback_id"@)
            &&& spec_opt_view(input) == spec_member_text(reqt, "input"@)
            &&& spec_opt_view(tool_use_id) == spec_str_member(reqt, "tool_use_id"@)
        },
        ControlRequestPayload::Unknown => match spec_str_member(reqt, "subtype"@) {
            Option::Some(st) => st != "can_use_tool"@ && st != "hook_callback"@,
            Option::None => false,
        },
    }
}

/// The classification of one stdout line: dropped exactly when it is
/// not valid JSON or is a malformed control request; passed through
/// exactly when it is valid JSON of any other type; decoded, with every
/// field pinned to the named members of the text, exactly when it is a
/// well-formed control request.
pub open spec fn spec_parse_post(line: Seq<char>, r: Option<StdoutMessage>) -> bool {
    match r {
        Option::None => !spec_json_ok(line) || (spec_is_control(line) && spec_control_malformed(
            line,
        )),
        Option::Some(StdoutMessage::Other) => spec_json_ok(line) && !spec_is_control(line),
        Option::Some(StdoutMessage::ControlRequest { request_id, request }) => {
            &&& spec_is_control(line)
            &&& !spec_control_malformed(line)
            &&& Option::Some(request_id@) == spec_str_member(line, "request_id"@)
            &&& match spec_member_text(line, "request"@) {
                Option::Some(reqt) => spec_payload_matches(request, reqt),
                Option::None => false,
            }
        },
    }
}

/// Classify one stdout line.
///
/// A line that is not valid JSON yields nothing: the relay drops it
/// rather than crash, as producers are assumed well-formed.  A valid
/// line whose discriminator is `control_request` is decoded for the
/// mediator, unless its envelope is malformed, in which case it too is
/// dropped; everything else passes through.
pub fn parse_stdout_line(line: &str) -> (r: Option<StdoutMessage>)
    ensures
        spec_parse_post(line@, r),
{
    if !json_ok(line) {
        return None;
    }
    let is_control = match str_member(line, "type") {
        Option::Some(t) => str_eq(t.as_str(), "control_request"),
        Option::None => false,
    };
    if !is_control {
        return Some(StdoutMessage::Other);
    }
    let request_id = match str_member(line, "request_id") {
        Option::Some(id) => id,
        Option::None => {
            return None;
        },
    };
    let req_text = match member_text(line, "request") {
        Option::Some(t) => t,
        Option::None => {
            return None;
        },
    };
    let subtype = match str_member(req_text.as_str(), "subtype") {
        Option::Some(s) => s,
        Option::None => {
            return None;
        },
    };
    proof {
        reveal_strlit("can_use_tool");
        reveal_strlit("hook_callback");
        assert("can_use_tool"@.len() == 12);
        assert("hook_callback"@.len() == 13);
        assert("can_use_tool"@ != "hook_callback"@);
    }
    let payload: ControlRequestPayload;
    if str_eq(subtype.as_str(), "can_use_tool") {
        let tool_name = match str_member(req_text.as_str(), "tool_name") {
            Option::Some(t) => t,
            Option::None => {
                return None;
            },
        };
        payload = ControlRequestPayload::CanUseTool {
            tool_name,
            input: member_text(req_text.as_str(), "input"),
            description: str_member(req_text.as_str(), "description"),
            tool_use_id: str_member(req_text.as_str(), "tool_use_id"),
        };
    } else if str_eq(subtype.as_str(), "hook_callback") {
        let callback_id = match str_member(req_text.as_str(), "callback_id") {
            Option::Some(c) => c,
            Option::None => {
                return None;
            },
        };
        payload = ControlRequestPayload::HookCallback {
            callback_id,
            input: member_text(req_text.as_str(), "input"),
            tool_use_id: str_member(req_text.as_str(), "tool_use_id"),
        };
    } else {
        payload = ControlRequestPayload::Unknown;
    }
    Some(StdoutMessage::ControlRequest { request_id, request: payload })
}

} // verus!
