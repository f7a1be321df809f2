//! What a plan offers to an ordinary conversation of ClaudeCode.

use vstd::prelude::*;
use crate::agents::codex_catalog_plan::{
    is_conversation, requirements, CapabilityVerdict, RequestCapabilityRequirements,
};
use crate::runtime::facts::IngressProtocol;

verus! {

/// What a conversation of ClaudeCode asks of a candidate. It brings no instructions in its middle
/// and no images.
pub fn claude_requirements() -> (r: RequestCapabilityRequirements)
    ensures
        is_conversation(r, IngressProtocol::Messages, false, false),
{
    let mut asked = requirements(false);
    asked.ingress_protocol = IngressProtocol::Messages;
    asked.mid_conversation_instructions = false;
    asked
}

/// A candidate of a plan: whether it has a profile for messages, and what the profile answers to
/// the requirements, where the gateway can execute it.
#[derive(Clone, Copy, Debug, PartialEq, Eq, Structural)]
pub enum MessagesProfile {
    Missing,
    NotExecutable,
    Answers(CapabilityVerdict),
}

/// A compiled plan: its candidates, its window where that is known, and the window that a client
/// is told for it, where it is large enough for one.
#[derive(Debug)]
pub struct ClaudePlan {
    pub is_valid: bool,
    pub candidates: Vec<MessagesProfile>,
    pub plan_window: Option<u64>,
    pub context_window: Option<u64>,
}

#[derive(Clone, Copy, Debug)]
pub enum ClaudeClientCapabilityPreviewV1 {
    Available { context_window: u64, plan_window: u64 },
    Unavailable { reason: &'static str },
}

pub enum PreviewView {
    Available { context_window: u64, plan_window: u64 },
    Unavailable { reason: Seq<char> },
}

impl View for ClaudeClientCapabilityPreviewV1 {
    type V = PreviewView;

    open spec fn view(&self) -> PreviewView {
        match *self {
            ClaudeClientCapabilityPreviewV1::Available { context_window, plan_window } => {
                PreviewView::Available { context_window, plan_window }
            },
            ClaudeClientCapabilityPreviewV1::Unavailable { reason } => {
                PreviewView::Unavailable { reason: reason@ }
            },
        }
    }
}

pub open spec fn candidate_fault(candidate: MessagesProfile) -> Option<Seq<char>> {
    match candidate {
        MessagesProfile::Missing => Some("messages_protocol"@),
        MessagesProfile::NotExecutable => Some("request_capabilities"@),
        MessagesProfile::Answers(verdict) => if verdict == CapabilityVerdict::Supported {
            None
        } else {
            Some("request_capabilities"@)
        },
    }
}

/// The fault of the first candidate that has one.
pub open spec fn candidates_fault(candidates: Seq<MessagesProfile>) -> Option<Seq<char>>
    decreases candidates.len(),
{
    if candidates.len() == 0 {
        None
    } else {
        match candidate_fault(candidates[0]) {
            Some(fault) => Some(fault),
            None => candidates_fault(candidates.skip(1)),
        }
    }
}

/// What a client is told of a plan: every candidate must carry the conversation.
pub open spec fn claude_preview_of(plan: ClaudePlan) -> PreviewView {
    if !plan.is_valid {
        PreviewView::Unavailable { reason: "invalid_compiled_plan"@ }
    } else {
        match (candidates_fault(plan.candidates@), plan.plan_window, plan.context_window) {
            (Some(reason), _, _) => PreviewView::Unavailable { reason },
            (None, None, _) => PreviewView::Unavailable { reason: "context_window"@ },
            (None, Some(_), None) => {
                PreviewView::Unavailable { reason: "context_window_below_minimum"@ }
            },
            (None, Some(plan_window), Some(context_window)) => {
                PreviewView::Available { context_window, plan_window }
            },
        }
    }
}

pub fn claude_plan_capability_preview(plan: &ClaudePlan) -> (r: ClaudeClientCapabilityPreviewV1)
    ensures
        r@ == claude_preview_of(*plan),
{
    if !plan.is_valid {
        return ClaudeClientCapabilityPreviewV1::Unavailable { reason: "invalid_compiled_plan" };
    }
    let ghost all = plan.candidates@;
    let mut i: usize = 0;
    assert(all.skip(0) == all);
    while i < plan.candidates.len()
        invariant
            i <= plan.candidates.len(),
            plan.is_valid,
            all == plan.candidates@,
            candidates_fault(all) == candidates_fault(all.skip(i as int)),
        decreases plan.candidates.len() - i,
    {
        proof {
            assert(all.skip(i as int)[0] == all[i as int]);
            assert(all.skip(i as int).skip(1) == all.skip(i + 1));
        }
        match plan.candidates[i] {
            MessagesProfile::Missing => {
                return ClaudeClientCapabilityPreviewV1::Unavailable { reason: "messages_protocol" };
            },
            MessagesProfile::Answers(CapabilityVerdict::Supported) => {},
            _ => {
                return ClaudeClientCapabilityPreviewV1::Unavailable {
                    reason: "request_capabilities",
                };
            },
        }
        i += 1;
    }
    match (plan.plan_window, plan.context_window) {
        (None, _) => ClaudeClientCapabilityPreviewV1::Unavailable { reason: "context_window" },
        (Some(_), None) => ClaudeClientCapabilityPreviewV1::Unavailable {
            reason: "context_window_below_minimum",
        },
        (Some(plan_window), Some(context_window)) => {
            ClaudeClientCapabilityPreviewV1::Available { context_window, plan_window }
        },
    }
}

/// A plan is available only if each of its candidates carries the conversation.
pub proof fn available_plans_carry_the_conversation(plan: ClaudePlan, i: int)
    requires
        claude_preview_of(plan) is Available,
        0 <= i < plan.candidates@.len(),
    ensures
        plan.candidates@[i] == MessagesProfile::Answers(CapabilityVerdict::Supported),
{
    lemma_no_fault(plan.candidates@, i);
}

proof fn lemma_no_fault(candidates: Seq<MessagesProfile>, i: int)
    requires
        candidates_fault(candidates) is None,
        0 <= i < candidates.len(),
    ensures
        candidate_fault(candidates[i]) is None,
    decreases candidates.len(),
{
    if i > 0 {
        lemma_no_fault(candidates.skip(1), i - 1);
        assert(candidates.skip(1)[i - 1] == candidates[i]);
    }
}

} // verus!
