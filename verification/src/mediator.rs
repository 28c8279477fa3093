//! Control-protocol mediator.
//!
//! Each inbound `can_use_tool` or `hook_callback` request is turned into a
//! permission-request event for a decision collaborator, and every request
//! is answered on the wire exactly once: the mediator records the request
//! ids it has responded to and refuses to emit a second response for the
//! same id.  A collaborator failure is resolved to a deny rather than
//! left unanswered, since an unanswered request stalls the child forever.

use vstd::prelude::*;
use vstd::string::StringExecFns;
use crate::protocol::{ControlResponse, ControlResponsePayload, PermissionResult, PermissionRequestEvent};
use crate::process::{str_eq, StdinManager, WriteOp, ProcessError, spec_frame};

verus! {

/// A decision returned by the collaborator for one permission request.
#[derive(Debug, Clone)]
pub enum PermissionDecision {
    Allow { updated_input: Option<String> },
    Deny { message: String, interrupt: bool },
}

/// Whether a wire-level permission result renders the given decision,
/// with a collaborator error substituted by an explanatory deny.
pub open spec fn spec_result_matches(
    r: PermissionResult,
    decision: Result<PermissionDecision, String>,
) -> bool {
    match decision {
        Result::Ok(PermissionDecision::Allow { updated_input }) => r == (PermissionResult::Allow {
            updated_input,
        }),
        Result::Ok(PermissionDecision::Deny { message, interrupt }) => r == (PermissionResult::Deny {
            message,
            interrupt: if interrupt {
                Option::Some(true)
            } else {
                Option::None
            },
        }),
        Result::Err(detail) => match r {
            PermissionResult::Deny { message, interrupt } => message@ ==
                "Permission decision failed: "@ + detail@ && interrupt is None,
            _ => false,
        },
    }
}

/// One resolution step: a response is emitted exactly when the id was not
/// yet answered, and the answered set grows by that id when it is.
pub open spec fn spec_responds(
    pre: Set<Seq<char>>,
    post: Set<Seq<char>>,
    id: Seq<char>,
    emitted: bool,
) -> bool {
    emitted == !pre.contains(id) && post == if emitted {
        pre.insert(id)
    } else {
        pre
    }
}

/// For every request id, one response is written and never a second one:
/// of two successive resolutions for the same fresh id, the first emits
/// and the second is refused.
pub proof fn lemma_exactly_one_response(
    s0: Set<Seq<char>>,
    s1: Set<Seq<char>>,
    s2: Set<Seq<char>>,
    id: Seq<char>,
    e1: bool,
    e2: bool,
)
    requires
        !s0.contains(id),
        spec_responds(s0, s1, id, e1),
        spec_responds(s1, s2, id, e2),
    ensures
        e1,
        !e2,
        s1 == s0.insert(id),
        s2 == s1,
{
}

/// Per-request response bookkeeping for one session's control protocol.
#[derive(Debug)]
pub struct Mediator {
    responded: Vec<String>,
}

impl Mediator {
    /// The set of request ids already answered on the wire.
    pub closed spec fn view(&self) -> Set<Seq<char>> {
        Set::new(|id: Seq<char>| exists|i: int|
            0 <= i < self.responded@.len() && self.responded@[i]@ == id)
    }

    pub fn new() -> (r: Self)
        ensures
            r@ == Set::<Seq<char>>::empty(),
    {
        let r = Mediator { responded: Vec::new() };
        proof {
            assert(r@ =~= Set::<Seq<char>>::empty());
        }
        r
    }

    /// Whether a response for the id has already been written.
    pub fn has_responded(&self, request_id: &str) -> (r: bool)
        ensures
            r == self@.contains(request_id@),
    {
        let n: usize = self.responded.len();
        let mut i: usize = 0;
        while i < n
            invariant
                i <= n,
                n == self.responded@.len(),
                forall|k: int| 0 <= k < i ==> (#[trigger] self.responded@[k])@ != request_id@,
            decreases n - i,
        {
            if str_eq(self.responded[i].as_str(), request_id) {
                proof {
                    assert(self@.contains(request_id@));
                }
                return true;
            }
            i += 1;
        }
        proof {
            if self@.contains(request_id@) {
                let k = choose|k: int|
                    0 <= k < self.responded@.len() && self.responded@[k]@ == request_id@;
                assert((self.responded@[k])@ != request_id@);
            }
        }
        false
    }

    /// Resolve one permission decision into at most one wire response.
    ///
    /// The first resolution for a request id yields the response envelope
    /// to write; any later resolution for the same id yields nothing and
    /// leaves the mediator unchanged.  A collaborator error is resolved to
    /// a deny carrying an explanatory message, never dropped.
    pub fn resolve_decision(
        &mut self,
        request_id: &str,
        decision: Result<PermissionDecision, String>,
    ) -> (r: Option<ControlResponse>)
        ensures
            spec_responds(old(self)@, final(self)@, request_id@, r is Some),
            match r {
                Option::Some(resp) => resp.response.request_id@ == request_id@
                    && spec_result_matches(resp.response.response, decision),
                Option::None => true,
            },
    {
        if self.has_responded(request_id) {
            return None;
        }
        let id_owned = request_id.to_owned();
        let result = match decision {
            Result::Ok(PermissionDecision::Allow { updated_input }) => ControlResponse {
                response: ControlResponsePayload {
                    request_id: id_owned,
                    response: PermissionResult::Allow { updated_input },
                },
            },
            Result::Ok(PermissionDecision::Deny { message, interrupt }) => ControlResponse::deny(
                id_owned,
                message,
                interrupt,
            ),
            Result::Err(detail) => {
                let mut message = "Permission decision failed: ".to_owned();
                message.append(detail.as_str());
                ControlResponse::deny(id_owned, message, false)
            },
        };
        let ghost pre = self.responded@;
        self.responded.push(request_id.to_owned());
        proof {
            assert forall|id2: Seq<char>| true implies self@.contains(id2) == old(
                self,
            )@.insert(request_id@).contains(id2) by {
                if id2 == request_id@ {
                    assert(self.responded@[pre.len() as int]@ == id2);
                } else {
                    if self@.contains(id2) {
                        let k = choose|k: int|
                            0 <= k < self.responded@.len() && self.responded@[k]@ == id2;
                        assert(pre[k]@ == id2);
                        assert(old(self)@.contains(id2));
                    }
                    if old(self)@.contains(id2) {
                        let k = choose|k: int| 0 <= k < pre.len() && pre[k]@ == id2;
                        assert(self.responded@[k]@ == id2);
                    }
                }
            }
            assert(self@ =~= old(self)@.insert(request_id@));
        }
        Some(result)
    }

    /// Resolve one decision and plan its delivery on the wire.
    ///
    /// The first resolution for a request id renders the response
    /// envelope and frames it as one complete line for the session's
    /// input channel; the write itself is the I/O layer's part, under
    /// the same exclusion as every other send to that session.  A later
    /// resolution for the same id plans nothing.  When the session has
    /// no registered channel the response cannot be delivered and
    /// `NoSuchSession` comes back; the request still counts as answered,
    /// as no channel will ever carry it.
    pub fn respond(
        &mut self,
        stdin_mgr: &StdinManager,
        session_id: &str,
        request_id: &str,
        decision: Result<PermissionDecision, String>,
    ) -> (r: Result<Option<(ControlResponse, WriteOp)>, ProcessError>)
        requires
            stdin_mgr.inv(),
        ensures
            spec_responds(old(self)@, final(self)@, request_id@, !old(self)@.contains(request_id@)),
            old(self)@.contains(request_id@) ==> (r matches Result::Ok(o) && o is None),
            !old(self)@.contains(request_id@) ==> match r {
                Result::Ok(Option::Some((resp, w))) => stdin_mgr@.dom().contains(session_id@)
                    && resp.response.request_id@ == request_id@ && spec_result_matches(
                    resp.response.response,
                    decision,
                ) && w.chan == stdin_mgr@[session_id@] && w.line@ == spec_frame(
                    crate::protocol::spec_control_response_json(resp),
                ),
                Result::Ok(Option::None) => false,
                Result::Err(e) => !stdin_mgr@.dom().contains(session_id@) && (
                e matches ProcessError::NoSuchSession),
            },
    {
        match self.resolve_decision(request_id, decision) {
            Option::Some(resp) => {
                let line = resp.to_json();
                match stdin_mgr.send(session_id, line.as_str()) {
                    Result::Ok(w) => Ok(Some((resp, w))),
                    Result::Err(e) => Err(e),
                }
            },
            Option::None => Ok(None),
        }
    }

    /// Shape the permission-request event emitted to the decision
    /// collaborator for one `can_use_tool` request.
    pub fn permission_event(
        &self,
        request_id: String,
        tool_name: String,
        input: Option<String>,
        description: Option<String>,
        tool_use_id: Option<String>,
    ) -> (r: PermissionRequestEvent)
        ensures
            r.request_id == request_id,
            r.tool_name == tool_name,
            r.input == input,
            r.description == description,
            r.tool_use_id == tool_use_id,
    {
        PermissionRequestEvent { request_id, tool_name, input, description, tool_use_id }
    }
}

} // verus!
