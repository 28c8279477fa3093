//! Stream relays.
//!
//! One reader task per session per stream.  The stdout relay classifies
//! each line: control requests go to the mediator, anything else is
//! forwarded verbatim to the session's output sink, and a malformed line
//! is dropped.  When the stream ends — clean end-of-file and read error
//! are treated identically — the relay emits exactly one terminal exit
//! marker and one exit notification, and never a second: stream end is
//! the sole authoritative exit signal for a session.

use vstd::prelude::*;
use vstd::string::StringExecFns;
use crate::protocol::{StdoutMessage, ControlRequestPayload};
use crate::inbound::{
    parse_stdout_line,
    spec_json_ok,
    spec_is_control,
    spec_control_malformed,
    spec_str_member,
    spec_member_text,
    spec_payload_matches,
};

verus! {

/// What the relay does with one stdout line.
#[derive(Debug)]
pub enum RelayAction {
    /// Hand a control request to the mediator.
    Mediate { request_id: String, request: ControlRequestPayload },
    /// Forward the line verbatim to the output sink.
    Forward { line: String },
    /// Drop a malformed line.
    Skip,
}

/// One end-of-stream step: the marker is emitted exactly when the relay
/// had not ended yet, and the relay has ended afterwards.
pub open spec fn spec_end_step(pre: bool, post: bool, emitted: bool) -> bool {
    emitted == !pre && post
}

/// A child that exits on its own yields exactly one terminal exit
/// notification: of two successive end-of-stream steps of one relay,
/// the first emits the notification and the second is refused.
pub proof fn lemma_exit_notice_once(s1: bool, s2: bool, e1: bool, e2: bool)
    requires
        spec_end_step(false, s1, e1),
        spec_end_step(s1, s2, e2),
    ensures
        e1,
        !e2,
{
}

/// After the exit the id is immediately reusable: registering a new
/// entry after removal leaves the registry exactly as a first
/// registration would, mapping the id to the new entry alone.
pub proof fn lemma_id_reusable_after_exit(m: Map<Seq<char>, u64>, id: Seq<char>, chan: u64)
    ensures
        m.remove(id).insert(id, chan) == m.insert(id, chan),
        m.remove(id).insert(id, chan)[id] == chan,
{
    assert(m.remove(id).insert(id, chan) =~= m.insert(id, chan));
}

/// The per-session stdout relay: classifies lines until end-of-stream,
/// then ends exactly once.
#[derive(Debug)]
pub struct StdoutRelay {
    ended: bool,
}

impl StdoutRelay {
    /// Whether the relay has already seen end-of-stream.
    pub closed spec fn view(&self) -> bool {
        self.ended
    }

    pub fn new() -> (r: Self)
        ensures
            !r@,
    {
        StdoutRelay { ended: false }
    }

    /// Classify one line read from the child's stdout.  Every line of
    /// valid JSON that is not a control request is forwarded exactly as
    /// it arrived; a well-formed control request goes to the mediator
    /// with its fields pinned to the named members of the text; a line
    /// that fails to parse, or a malformed control request, is dropped
    /// without aborting the relay.
    pub fn on_line(&self, line: &str) -> (r: RelayAction)
        requires
            !self@,
        ensures
            match r {
                RelayAction::Skip => !spec_json_ok(line@) || (spec_is_control(line@)
                    && spec_control_malformed(line@)),
                RelayAction::Forward { line: l } => l@ == line@ && spec_json_ok(line@)
                    && !spec_is_control(line@),
                RelayAction::Mediate { request_id, request } => spec_is_control(line@)
                    && !spec_control_malformed(line@) && Option::Some(request_id@)
                    == spec_str_member(line@, "request_id"@) && match spec_member_text(
                    line@,
                    "request"@,
                ) {
                    Option::Some(reqt) => spec_payload_matches(request, reqt),
                    Option::None => false,
                },
            },
    {
        match parse_stdout_line(line) {
            Option::Some(StdoutMessage::ControlRequest { request_id, request }) => {
                RelayAction::Mediate { request_id, request }
            },
            Option::Some(StdoutMessage::Other) => {
                RelayAction::Forward { line: line.to_owned() }
            },
            Option::None => RelayAction::Skip,
        }
    }

    /// Record end-of-stream.  The result says whether to emit the
    /// terminal exit marker and the exit notification: exactly once per
    /// relay, however often the end is reported.
    pub fn on_end(&mut self) -> (emit: bool)
        ensures
            spec_end_step(old(self)@, final(self)@, emit),
    {
        let emit = !self.ended;
        self.ended = true;
        emit
    }
}

/// The terminal marker placed on the output sink when the child's stdout
/// ends, as one line of JSON text.
pub fn exit_marker_json() -> (r: String)
    ensures
        r@ == "{\"type\":\"process_exit\"}"@,
{
    "{\"type\":\"process_exit\"}".to_owned()
}

} // verus!
