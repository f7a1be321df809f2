//! Routing plans as entries of a Codex model directory.
//!
//! A plan is offered with what all of its candidates can do. A plan of which one candidate cannot
//! serve the client's ordinary request is not offered at all.

use vstd::prelude::*;
use crate::agents::codex_catalog::{
    catalog_models, default_of, entries_of, first_by_priority, is_available, is_catalog, is_wanted,
    last_priority, later_entries_keep_a_shown_default, named, plan_priorities_come_last,
    preserves_default, read_entry, texts, CodexCatalogError, CodexCatalogSelection,
    CodexDefaultPolicy, EntryView, PolicyView, SelectionView, Visibility,
};
use crate::json::{
    array_view, compact_json, json_view, lemma_array_view, member_of, object_view, put_member,
    to_bytes, Json, JsonView,
};
use crate::runtime::facts::IngressProtocol;
use crate::text::{in_order, insert_in_order, views_of};

verus! {

/// The window that a plan without a setting of its own offers, in tokens.
pub const DEFAULT_CONTEXT_WINDOW_TOKENS: u64 = 272_000;

/// How tools may be chosen in a request.
#[derive(Clone, Copy, Debug, PartialEq, Eq, Structural)]
pub enum ToolChoice {
    Auto,
}

/// What an ordinary conversation of a client asks of a candidate.
#[derive(Debug)]
pub struct RequestCapabilityRequirements {
    pub ingress_protocol: IngressProtocol,
    pub text: bool,
    pub initial_instructions: bool,
    pub mid_conversation_instructions: bool,
    pub image_url: bool,
    pub image_base64: bool,
    pub image_media_types: Vec<String>,
    pub function_tools: bool,
    pub strict_tools: bool,
    pub tool_choice: ToolChoice,
    pub parallel_tools: bool,
    pub tool_roundtrip: bool,
    pub tool_result_text: bool,
    pub tool_result_json: bool,
    pub logical_tool_id_mapping: bool,
    pub streaming: bool,
    pub stream_text: bool,
    pub stream_tool_arguments: bool,
    pub stream_reasoning: bool,
    pub stream_usage: bool,
    pub provider_state: bool,
}

pub open spec fn image_types() -> Seq<Seq<char>> {
    seq!["image/jpeg"@, "image/png"@, "image/gif"@, "image/webp"@]
}

/// Whether requirements are those of a conversation: instructions, function tools with text and
/// JSON results, and streaming of text, tool arguments and usage; images only where asked.
pub open spec fn is_conversation(
    requirements: RequestCapabilityRequirements,
    protocol: IngressProtocol,
    mid_conversation_instructions: bool,
    image: bool,
) -> bool {
    &&& requirements.ingress_protocol == protocol
    &&& requirements.text
    &&& requirements.initial_instructions
    &&& requirements.mid_conversation_instructions == mid_conversation_instructions
    &&& requirements.image_url == image
    &&& requirements.image_base64 == image
    &&& views_of(requirements.image_media_types@) == (if image {
        image_types()
    } else {
        Seq::empty()
    })
    &&& requirements.function_tools
    &&& !requirements.strict_tools
    &&& requirements.tool_choice == ToolChoice::Auto
    &&& !requirements.parallel_tools
    &&& requirements.tool_roundtrip
    &&& requirements.tool_result_text
    &&& requirements.tool_result_json
    &&& requirements.logical_tool_id_mapping
    &&& requirements.streaming
    &&& requirements.stream_text
    &&& requirements.stream_tool_arguments
    &&& !requirements.stream_reasoning
    &&& requirements.stream_usage
    &&& !requirements.provider_state
}

/// What a Codex conversation asks of a candidate.
pub fn requirements(image: bool) -> (r: RequestCapabilityRequirements)
    ensures
        is_conversation(r, IngressProtocol::Responses, true, image),
{
    let mut image_media_types: Vec<String> = Vec::new();
    if image {
        image_media_types.push("image/jpeg".to_owned());
        image_media_types.push("image/png".to_owned());
        image_media_types.push("image/gif".to_owned());
        image_media_types.push("image/webp".to_owned());
    }
    proof {
        if image {
            assert(views_of(image_media_types@) =~= image_types());
        } else {
            assert(views_of(image_media_types@) =~= Seq::<Seq<char>>::empty());
        }
    }
    RequestCapabilityRequirements {
        ingress_protocol: IngressProtocol::Responses,
        text: true,
        initial_instructions: true,
        mid_conversation_instructions: true,
        image_url: image,
        image_base64: image,
        image_media_types,
        function_tools: true,
        strict_tools: false,
        tool_choice: ToolChoice::Auto,
        parallel_tools: false,
        tool_roundtrip: true,
        tool_result_text: true,
        tool_result_json: true,
        logical_tool_id_mapping: true,
        streaming: true,
        stream_text: true,
        stream_tool_arguments: true,
        stream_reasoning: false,
        stream_usage: true,
        provider_state: false,
    }
}

/// What a candidate's profile answers to a set of requirements.
#[derive(Clone, Copy, Debug, PartialEq, Eq, Structural)]
pub enum CapabilityVerdict {
    Supported,
    InstructionsUnsupported,
    Unsupported,
}

/// A candidate's profile as the gateway executes it, and its answers to the requirements without
/// and with images.
#[derive(Clone, Copy, Debug)]
pub struct ExecutableProfileFacts {
    pub upstream_protocol: IngressProtocol,
    pub text: CapabilityVerdict,
    pub image: CapabilityVerdict,
}

/// A candidate's profile for the client's protocol. A limit is there where it is known exactly;
/// the total may be known to be unlimited. The reservation is that of the reasoning that the
/// candidate was chosen with.
#[derive(Clone, Copy, Debug)]
pub struct ResponsesProfileFacts {
    pub executable: Option<ExecutableProfileFacts>,
    pub max_input_tokens: Option<u64>,
    pub max_output_tokens: Option<u64>,
    pub max_total_tokens: Option<Option<u64>>,
    pub reasoning_reservation_tokens: Option<u64>,
}

#[derive(Debug)]
pub struct PlanCandidate {
    pub binding_id: String,
    pub profile: Option<ResponsesProfileFacts>,
}

/// A published plan, as far as a client's directory shows it.
#[derive(Debug)]
pub struct CatalogPlan {
    pub alias: String,
    pub display_name: String,
    pub purpose: String,
    pub is_valid: bool,
    pub context_window_tokens: Option<u64>,
    pub candidates: Vec<PlanCandidate>,
}

#[derive(Clone, Copy, Debug, PartialEq, Eq, Structural)]
pub enum CodexCapabilityIssueKindV1 {
    InvalidCompiledPlan,
    ResponsesProtocol,
    RequestCapabilities,
    InstructionRoles,
    ContextInput,
    ContextOutput,
    ContextTotal,
    ReasoningProfile,
    ContextWindow,
}

#[derive(Debug)]
pub struct CodexCapabilityIssueV1 {
    pub kind: CodexCapabilityIssueKindV1,
    pub binding_id: Option<String>,
}

#[derive(Clone, Copy, Debug, PartialEq, Eq, Structural)]
pub enum CodexInputModalityV1 {
    Text,
    Image,
}

#[derive(Clone, Copy, Debug, PartialEq, Eq, Structural)]
pub enum CodexReasoningControlV1 {
    RouteConfiguration,
}

#[derive(Clone, Copy, Debug, PartialEq, Eq, Structural)]
pub enum CodexCandidateCapabilityLimitKindV1 {
    ContextWindow,
    ImageInput,
}

#[derive(Debug)]
pub struct CodexCandidateCapabilityLimitV1 {
    pub kind: CodexCandidateCapabilityLimitKindV1,
    pub binding_ids: Vec<String>,
}

#[derive(Clone, Copy, Debug, PartialEq, Eq, Structural)]
pub enum CodexFixedCapabilityLimitV1 {
    ParallelToolCallsDisabled,
}

/// What a client is told of a plan.
#[derive(Debug)]
pub enum CodexClientCapabilityPreviewV1 {
    Available {
        context_window: u64,
        input_modalities: Vec<CodexInputModalityV1>,
        reasoning: CodexReasoningControlV1,
        limitations: Vec<CodexCandidateCapabilityLimitV1>,
        fixed_limits: Vec<CodexFixedCapabilityLimitV1>,
    },
    Unavailable { issues: Vec<CodexCapabilityIssueV1> },
}

pub struct LimitView {
    pub kind: CodexCandidateCapabilityLimitKindV1,
    pub binding_ids: Seq<Seq<char>>,
}

pub enum PreviewView {
    Available {
        context_window: u64,
        input_modalities: Seq<CodexInputModalityV1>,
        limitations: Seq<LimitView>,
        fixed_limits: Seq<CodexFixedCapabilityLimitV1>,
    },
    Unavailable { issues: Seq<(CodexCapabilityIssueKindV1, Option<Seq<char>>)> },
}

pub open spec fn issue_view(issue: CodexCapabilityIssueV1) -> (
    CodexCapabilityIssueKindV1,
    Option<Seq<char>>,
) {
    (
        issue.kind,
        match issue.binding_id {
            Some(id) => Some(id@),
            None => None,
        },
    )
}

pub open spec fn limit_view(limit: CodexCandidateCapabilityLimitV1) -> LimitView {
    LimitView { kind: limit.kind, binding_ids: views_of(limit.binding_ids@) }
}

impl View for CodexClientCapabilityPreviewV1 {
    type V = PreviewView;

    open spec fn view(&self) -> PreviewView {
        match self {
            CodexClientCapabilityPreviewV1::Available {
                context_window,
                input_modalities,
                reasoning: _,
                limitations,
                fixed_limits,
            } => PreviewView::Available {
                context_window: *context_window,
                input_modalities: input_modalities@,
                limitations: limitations@.map_values(
                    |limit: CodexCandidateCapabilityLimitV1| limit_view(limit),
                ),
                fixed_limits: fixed_limits@,
            },
            CodexClientCapabilityPreviewV1::Unavailable { issues } => PreviewView::Unavailable {
                issues: issues@.map_values(|issue: CodexCapabilityIssueV1| issue_view(issue)),
            },
        }
    }
}

/// What is left of a total after a reservation, and never more than the input allows.
pub open spec fn window_of(input: u64, total: Option<u64>, reservation: int) -> u64 {
    match total {
        None => input,
        Some(total) => {
            let left = if total > reservation {
                total - reservation
            } else {
                0
            };
            if input <= left {
                input
            } else {
                left as u64
            }
        },
    }
}

/// The window that a candidate offers and whether it takes images, or why it cannot serve. The
/// client's ordinary input holds items in a developer role, which the messages protocol lacks.
pub open spec fn candidate_window(candidate: PlanCandidate) -> Result<
    (u64, bool),
    CodexCapabilityIssueKindV1,
> {
    match candidate.profile {
        None => Err(CodexCapabilityIssueKindV1::ResponsesProtocol),
        Some(profile) => match profile.executable {
            None => Err(CodexCapabilityIssueKindV1::RequestCapabilities),
            Some(executable) => if executable.upstream_protocol == IngressProtocol::Messages
                || executable.text == CapabilityVerdict::InstructionsUnsupported {
                Err(CodexCapabilityIssueKindV1::InstructionRoles)
            } else if executable.text == CapabilityVerdict::Unsupported {
                Err(CodexCapabilityIssueKindV1::RequestCapabilities)
            } else if profile.max_input_tokens is None {
                Err(CodexCapabilityIssueKindV1::ContextInput)
            } else if profile.max_output_tokens is None {
                Err(CodexCapabilityIssueKindV1::ContextOutput)
            } else if profile.max_total_tokens is None {
                Err(CodexCapabilityIssueKindV1::ContextTotal)
            } else if profile.reasoning_reservation_tokens is None {
                Err(CodexCapabilityIssueKindV1::ReasoningProfile)
            } else {
                let output = profile.max_output_tokens->0;
                let reservation = output + profile.reasoning_reservation_tokens->0;
                let window = window_of(
                    profile.max_input_tokens->0,
                    profile.max_total_tokens->0,
                    reservation,
                );
                if reservation > u64::MAX || window == 0 || output == 0 {
                    Err(CodexCapabilityIssueKindV1::ContextWindow)
                } else {
                    Ok((window, executable.image == CapabilityVerdict::Supported))
                }
            },
        },
    }
}

/// What a candidate offers, with its binding.
pub struct Offer {
    pub binding_id: Seq<char>,
    pub window: u64,
    pub image: bool,
}

/// What the candidates of a plan offer, or the first that cannot serve and why.
pub open spec fn offers(candidates: Seq<PlanCandidate>) -> Result<
    Seq<Offer>,
    (CodexCapabilityIssueKindV1, Seq<char>),
>
    decreases candidates.len(),
{
    if candidates.len() == 0 {
        Ok(Seq::empty())
    } else {
        match offers(candidates.drop_last()) {
            Err(issue) => Err(issue),
            Ok(list) => match candidate_window(candidates.last()) {
                Err(kind) => Err((kind, candidates.last().binding_id@)),
                Ok((window, image)) => Ok(
                    list.push(Offer { binding_id: candidates.last().binding_id@, window, image }),
                ),
            },
        }
    }
}

/// The smallest window on offer.
pub open spec fn common_window(list: Seq<Offer>) -> u64
    decreases list.len(),
{
    if list.len() <= 1 {
        list[0].window
    } else {
        let before = common_window(list.drop_last());
        if list.last().window < before {
            list.last().window
        } else {
            before
        }
    }
}

/// The bindings of the offers that a window or a missing capability comes from, in order.
pub open spec fn bindings_with_window(list: Seq<Offer>, window: u64) -> Seq<Seq<char>> {
    in_order(
        list.filter(|offer: Offer| offer.window == window).map_values(
            |offer: Offer| offer.binding_id,
        ),
    )
}

pub open spec fn bindings_without_image(list: Seq<Offer>) -> Seq<Seq<char>> {
    in_order(
        list.filter(|offer: Offer| !offer.image).map_values(|offer: Offer| offer.binding_id),
    )
}

pub open spec fn wider(list: Seq<Offer>, window: u64) -> bool {
    exists|i: int| 0 <= i < list.len() && (#[trigger] list[i]).window > window
}

pub open spec fn some_image(list: Seq<Offer>, image: bool) -> bool {
    exists|i: int| 0 <= i < list.len() && (#[trigger] list[i]).image == image
}

pub open spec fn limitations_of(list: Seq<Offer>) -> Seq<LimitView> {
    let common = common_window(list);
    let windows = if wider(list, common) {
        seq![
            LimitView {
                kind: CodexCandidateCapabilityLimitKindV1::ContextWindow,
                binding_ids: bindings_with_window(list, common),
            },
        ]
    } else {
        Seq::empty()
    };
    let images = if some_image(list, true) && some_image(list, false) {
        seq![
            LimitView {
                kind: CodexCandidateCapabilityLimitKindV1::ImageInput,
                binding_ids: bindings_without_image(list),
            },
        ]
    } else {
        Seq::empty()
    };
    windows + images
}

/// The window that a plan is set to, or the usual one, and never more than all candidates offer.
pub open spec fn plan_window(setting: Option<u64>, common: u64) -> u64 {
    let wanted = match setting {
        Some(tokens) => tokens,
        None => DEFAULT_CONTEXT_WINDOW_TOKENS,
    };
    if wanted <= common {
        wanted
    } else {
        common
    }
}

pub open spec fn unavailable_view(
    kind: CodexCapabilityIssueKindV1,
    binding_id: Option<Seq<char>>,
) -> PreviewView {
    PreviewView::Unavailable { issues: seq![(kind, binding_id)] }
}

/// What a client is told of a plan.
pub open spec fn preview_of(plan: CatalogPlan) -> PreviewView {
    if !plan.is_valid {
        unavailable_view(CodexCapabilityIssueKindV1::InvalidCompiledPlan, None)
    } else {
        match offers(plan.candidates@) {
            Err((kind, binding_id)) => unavailable_view(kind, Some(binding_id)),
            Ok(list) => if list.len() == 0 {
                unavailable_view(CodexCapabilityIssueKindV1::InvalidCompiledPlan, None)
            } else {
                let window = plan_window(plan.context_window_tokens, common_window(list));
                if window == 0 || window > i64::MAX {
                    unavailable_view(CodexCapabilityIssueKindV1::ContextWindow, None)
                } else {
                    PreviewView::Available {
                        context_window: window,
                        input_modalities: if some_image(list, false) {
                            seq![CodexInputModalityV1::Text]
                        } else {
                            seq![CodexInputModalityV1::Text, CodexInputModalityV1::Image]
                        },
                        limitations: limitations_of(list),
                        fixed_limits: seq![CodexFixedCapabilityLimitV1::ParallelToolCallsDisabled],
                    }
                }
            },
        }
    }
}

fn check_candidate(candidate: &PlanCandidate) -> (r: Result<
    (u64, bool),
    CodexCapabilityIssueKindV1,
>)
    ensures
        r == candidate_window(*candidate),
{
    let profile = match &candidate.profile {
        Some(profile) => profile,
        None => return Err(CodexCapabilityIssueKindV1::ResponsesProtocol),
    };
    let executable = match &profile.executable {
        Some(executable) => executable,
        None => return Err(CodexCapabilityIssueKindV1::RequestCapabilities),
    };
    if executable.upstream_protocol == IngressProtocol::Messages {
        return Err(CodexCapabilityIssueKindV1::InstructionRoles);
    }
    match executable.text {
        CapabilityVerdict::Supported => {},
        CapabilityVerdict::InstructionsUnsupported => {
            return Err(CodexCapabilityIssueKindV1::InstructionRoles);
        },
        CapabilityVerdict::Unsupported => {
            return Err(CodexCapabilityIssueKindV1::RequestCapabilities);
        },
    }
    let image = executable.image == CapabilityVerdict::Supported;
    let input: u64 = match profile.max_input_tokens {
        Some(input) => input,
        None => return Err(CodexCapabilityIssueKindV1::ContextInput),
    };
    let output: u64 = match profile.max_output_tokens {
        Some(output) => output,
        None => return Err(CodexCapabilityIssueKindV1::ContextOutput),
    };
    let total = match profile.max_total_tokens {
        Some(total) => total,
        None => return Err(CodexCapabilityIssueKindV1::ContextTotal),
    };
    let additional: u64 = match profile.reasoning_reservation_tokens {
        Some(additional) => additional,
        None => return Err(CodexCapabilityIssueKindV1::ReasoningProfile),
    };
    let reservation: u64 = match output.checked_add(additional) {
        Some(reservation) => reservation,
        None => return Err(CodexCapabilityIssueKindV1::ContextWindow),
    };
    let window: u64 = match total {
        None => input,
        Some(total) => {
            let left: u64 = if total > reservation {
                total - reservation
            } else {
                0
            };
            if input <= left {
                input
            } else {
                left
            }
        },
    };
    if window == 0 || output == 0 {
        return Err(CodexCapabilityIssueKindV1::ContextWindow);
    }
    Ok((window, image))
}

fn unavailable(kind: CodexCapabilityIssueKindV1, binding_id: Option<&str>) -> (r:
    CodexClientCapabilityPreviewV1)
    ensures
        r@ == unavailable_view(
            kind,
            match binding_id {
                Some(id) => Some(id@),
                None => None,
            },
        ),
{
    let binding_id = match binding_id {
        Some(id) => Some(id.to_owned()),
        None => None,
    };
    let mut issues: Vec<CodexCapabilityIssueV1> = Vec::new();
    issues.push(CodexCapabilityIssueV1 { kind, binding_id });
    let preview = CodexClientCapabilityPreviewV1::Unavailable { issues };
    assert(preview@->issues =~= seq![issue_view(issues@[0])]);
    preview
}

/// A candidate's place among the candidates of its plan, and what it offers.
struct Placed {
    at: usize,
    window: u64,
    image: bool,
}

spec fn placed_offers(list: Seq<Placed>, candidates: Seq<PlanCandidate>) -> Seq<Offer> {
    list.map_values(
        |placed: Placed|
            Offer {
                binding_id: candidates[placed.at as int].binding_id@,
                window: placed.window,
                image: placed.image,
            },
    )
}

/// The bindings of the chosen offers, in order. With a window those that offer exactly it are
/// chosen, without one those that take no images.
fn limiting_bindings(
    list: &Vec<Placed>,
    candidates: &Vec<PlanCandidate>,
    window: Option<u64>,
) -> (r: Vec<String>)
    requires
        forall|i: int| 0 <= i < list@.len() ==> (#[trigger] list@[i]).at < candidates@.len(),
    ensures
        views_of(r@) == (match window {
            Some(window) => bindings_with_window(placed_offers(list@, candidates@), window),
            None => bindings_without_image(placed_offers(list@, candidates@)),
        }),
{
    let ghost all = placed_offers(list@, candidates@);
    let ghost chosen = match window {
        Some(window) => |offer: Offer| offer.window == window,
        None => |offer: Offer| !offer.image,
    };
    let ghost name = |offer: Offer| offer.binding_id;
    let mut out: Vec<String> = Vec::new();
    let mut i: usize = 0;
    proof {
        reveal(Seq::filter);
        assert(all.take(0).filter(chosen).map_values(name) =~= Seq::<Seq<char>>::empty());
        assert(views_of(out@) =~= Seq::<Seq<char>>::empty());
    }
    while i < list.len()
        invariant
            i <= list.len(),
            all == placed_offers(list@, candidates@),
            forall|k: int| 0 <= k < list@.len() ==> (#[trigger] list@[k]).at < candidates@.len(),
            chosen == (match window {
                Some(window) => |offer: Offer| offer.window == window,
                None => |offer: Offer| !offer.image,
            }),
            name == (|offer: Offer| offer.binding_id),
            views_of(out@) == in_order(all.take(i as int).filter(chosen).map_values(name)),
        decreases list.len() - i,
    {
        let placed = &list[i];
        let ghost offer = all[i as int];
        let ghost before = all.take(i as int).filter(chosen).map_values(name);
        let wanted = match window {
            Some(window) => placed.window == window,
            None => !placed.image,
        };
        proof {
            reveal(Seq::filter);
            assert(all.take(i + 1).drop_last() == all.take(i as int));
            assert(all.take(i + 1).last() == offer);
            assert(wanted == chosen(offer));
            if wanted {
                assert(all.take(i + 1).filter(chosen).map_values(name) =~= before.push(
                    offer.binding_id,
                ));
                assert(before.push(offer.binding_id).drop_last() == before);
            }
        }
        if wanted {
            insert_in_order(&mut out, candidates[placed.at].binding_id.as_str());
        }
        i += 1;
    }
    assert(all.take(i as int) == all);
    out
}

proof fn lemma_offers_error(candidates: Seq<PlanCandidate>, k: int)
    requires
        0 <= k <= candidates.len(),
        offers(candidates.take(k)) is Err,
    ensures
        offers(candidates) == offers(candidates.take(k)),
    decreases candidates.len() - k,
{
    if k < candidates.len() {
        assert(candidates.take(k + 1).drop_last() == candidates.take(k));
        lemma_offers_error(candidates, k + 1);
    } else {
        assert(candidates.take(k) == candidates);
    }
}

proof fn lemma_placed_push(
    before: Seq<Placed>,
    placed: Placed,
    candidates: Seq<PlanCandidate>,
)
    ensures
        placed_offers(before.push(placed), candidates) == placed_offers(before, candidates).push(
            Offer {
                binding_id: candidates[placed.at as int].binding_id@,
                window: placed.window,
                image: placed.image,
            },
        ),
{
    assert(placed_offers(before.push(placed), candidates) =~= placed_offers(
        before,
        candidates,
    ).push(
        Offer {
            binding_id: candidates[placed.at as int].binding_id@,
            window: placed.window,
            image: placed.image,
        },
    ));
}

/// What the offers have in common: the smallest window, and whether any is wider, takes images or
/// takes none.
struct Common {
    window: u64,
    wider: bool,
    with_image: bool,
    without_image: bool,
}

fn common_of(list: &Vec<Placed>, Ghost(candidates): Ghost<Seq<PlanCandidate>>) -> (r: Common)
    requires
        list@.len() > 0,
    ensures
        ({
            let all = placed_offers(list@, candidates);
            &&& r.window == common_window(all)
            &&& r.wider == wider(all, r.window)
            &&& r.with_image == some_image(all, true)
            &&& r.without_image == some_image(all, false)
        }),
{
    let ghost all = placed_offers(list@, candidates);
    let mut window: u64 = list[0].window;
    let mut with_image = list[0].image;
    let mut without_image = !list[0].image;
    let mut i: usize = 1;
    proof {
        assert(all.take(1)[0] == all[0]);
    }
    while i < list.len()
        invariant
            1 <= i <= list.len(),
            all == placed_offers(list@, candidates),
            window == common_window(all.take(i as int)),
            with_image == exists|j: int| 0 <= j < i && (#[trigger] all[j]).image == true,
            without_image == exists|j: int| 0 <= j < i && (#[trigger] all[j]).image == false,
        decreases list.len() - i,
    {
        proof {
            assert(all.take(i + 1).drop_last() == all.take(i as int));
            assert(all.take(i + 1).last() == all[i as int]);
            assert(all[i as int].window == list@[i as int].window);
            assert(all[i as int].image == list@[i as int].image);
        }
        if list[i].window < window {
            window = list[i].window;
        }
        if list[i].image {
            with_image = true;
        } else {
            without_image = true;
        }
        i += 1;
    }
    assert(all.take(i as int) == all);
    let mut wider = false;
    let mut k: usize = 0;
    while k < list.len()
        invariant
            k <= list.len(),
            all == placed_offers(list@, candidates),
            wider == exists|j: int| 0 <= j < k && (#[trigger] all[j]).window > window,
        decreases list.len() - k,
    {
        assert(all[k as int].window == list@[k as int].window);
        if list[k].window > window {
            wider = true;
        }
        k += 1;
    }
    Common { window, wider, with_image, without_image }
}

/// What a client is told of a plan.
pub fn codex_plan_capability_preview(plan: &CatalogPlan) -> (r: CodexClientCapabilityPreviewV1)
    ensures
        r@ == preview_of(*plan),
{
    if !plan.is_valid {
        return unavailable(CodexCapabilityIssueKindV1::InvalidCompiledPlan, None);
    }
    let ghost all = plan.candidates@;
    let mut list: Vec<Placed> = Vec::new();
    let mut i: usize = 0;
    proof {
        assert(all.take(0) == Seq::<PlanCandidate>::empty());
        assert(placed_offers(list@, all) =~= Seq::<Offer>::empty());
    }
    while i < plan.candidates.len()
        invariant
            i <= plan.candidates.len(),
            plan.is_valid,
            all == plan.candidates@,
            offers(all.take(i as int)) == Ok::<_, (CodexCapabilityIssueKindV1, Seq<char>)>(
                placed_offers(list@, all),
            ),
            forall|j: int| 0 <= j < list@.len() ==> (#[trigger] list@[j]).at < all.len(),
        decreases plan.candidates.len() - i,
    {
        let candidate = &plan.candidates[i];
        proof {
            assert(all.take(i + 1).drop_last() == all.take(i as int));
            assert(all.take(i + 1).last() == *candidate);
        }
        match check_candidate(candidate) {
            Ok((window, image)) => {
                let placed = Placed { at: i, window, image };
                proof {
                    lemma_placed_push(list@, placed, all);
                }
                list.push(placed);
            },
            Err(kind) => {
                proof {
                    lemma_offers_error(all, i + 1);
                }
                return unavailable(kind, Some(candidate.binding_id.as_str()));
            },
        }
        i += 1;
    }
    let ghost given = placed_offers(list@, all);
    assert(all.take(i as int) == all);
    if list.len() == 0 {
        return unavailable(CodexCapabilityIssueKindV1::InvalidCompiledPlan, None);
    }
    let common = common_of(&list, Ghost(all));
    let wanted: u64 = match plan.context_window_tokens {
        Some(tokens) => tokens,
        None => DEFAULT_CONTEXT_WINDOW_TOKENS,
    };
    let context_window: u64 = if wanted <= common.window {
        wanted
    } else {
        common.window
    };
    if context_window == 0 || context_window > 0x7fff_ffff_ffff_ffff {
        return unavailable(CodexCapabilityIssueKindV1::ContextWindow, None);
    }
    let mut limitations: Vec<CodexCandidateCapabilityLimitV1> = Vec::new();
    if common.wider {
        limitations.push(
            CodexCandidateCapabilityLimitV1 {
                kind: CodexCandidateCapabilityLimitKindV1::ContextWindow,
                binding_ids: limiting_bindings(&list, &plan.candidates, Some(common.window)),
            },
        );
    }
    if common.with_image && common.without_image {
        limitations.push(
            CodexCandidateCapabilityLimitV1 {
                kind: CodexCandidateCapabilityLimitKindV1::ImageInput,
                binding_ids: limiting_bindings(&list, &plan.candidates, None),
            },
        );
    }
    let mut input_modalities: Vec<CodexInputModalityV1> = Vec::new();
    input_modalities.push(CodexInputModalityV1::Text);
    if !common.without_image {
        input_modalities.push(CodexInputModalityV1::Image);
    }
    let mut fixed_limits: Vec<CodexFixedCapabilityLimitV1> = Vec::new();
    fixed_limits.push(CodexFixedCapabilityLimitV1::ParallelToolCallsDisabled);
    proof {
        assert(limitations@.map_values(
            |limit: CodexCandidateCapabilityLimitV1| limit_view(limit),
        ) =~= limitations_of(given));
        if common.without_image {
            assert(input_modalities@ =~= seq![CodexInputModalityV1::Text]);
        } else {
            assert(input_modalities@ =~= seq![
                CodexInputModalityV1::Text,
                CodexInputModalityV1::Image,
            ]);
        }
        assert(fixed_limits@ =~= seq![CodexFixedCapabilityLimitV1::ParallelToolCallsDisabled]);
    }
    CodexClientCapabilityPreviewV1::Available {
        context_window,
        input_modalities,
        reasoning: CodexReasoningControlV1::RouteConfiguration,
        limitations,
        fixed_limits,
    }
}

pub open spec fn plan_description(purpose: Seq<char>) -> Seq<char> {
    "HiRoute 路由计划："@ + purpose + "；推理强度由计划配置决定"@
}

fn description(purpose: &str) -> (r: String)
    ensures
        r@ == plan_description(purpose@),
{
    let mut text = "HiRoute 路由计划：".to_owned();
    text.append(purpose);
    text.append("；推理强度由计划配置决定");
    text
}

pub open spec fn messages_view(prompt: Seq<char>) -> JsonView {
    JsonView::Object(
        map![
            "instructions_template"@ => JsonView::Str(prompt),
            "instructions_variables"@ => JsonView::Null,
            "approvals"@ => JsonView::Null,
            "collaboration_modes"@ => JsonView::Null,
            "auto_review"@ => JsonView::Null,
            "permissions"@ => JsonView::Null,
            "token_budget"@ => JsonView::Null,
        ],
    )
}

pub open spec fn truncation_view() -> JsonView {
    JsonView::Object(
        map!["mode"@ => JsonView::Str("bytes"@), "limit"@ => JsonView::Int(10000)],
    )
}

pub open spec fn modality_names(modalities: Seq<CodexInputModalityV1>) -> Seq<JsonView> {
    modalities.map_values(
        |modality: CodexInputModalityV1|
            match modality {
                CodexInputModalityV1::Text => JsonView::Str("text"@),
                CodexInputModalityV1::Image => JsonView::Str("image"@),
            },
    )
}

/// The directory entry of a plan: its names, its window and its modalities. The client may set
/// neither reasoning nor parallel tools, and nothing is claimed that a route does not give.
pub open spec fn plan_entry_view(
    plan: CatalogPlan,
    priority: int,
    window: u64,
    modalities: Seq<CodexInputModalityV1>,
    prompt: Seq<char>,
) -> JsonView {
    JsonView::Object(
        map![
            "slug"@ => JsonView::Str(plan.alias@),
            "display_name"@ => JsonView::Str(plan.display_name@),
            "description"@ => JsonView::Str(plan_description(plan.purpose@)),
            "visibility"@ => JsonView::Str("list"@),
            "supported_in_api"@ => JsonView::Bool(true),
            "priority"@ => JsonView::Int(priority),
            "default_reasoning_level"@ => JsonView::Null,
            "supported_reasoning_levels"@ => JsonView::Array(Seq::empty()),
            "shell_type"@ => JsonView::Str("shell_command"@),
            "apply_patch_tool_type"@ => JsonView::Null,
            "model_messages"@ => messages_view(prompt),
            "truncation_policy"@ => truncation_view(),
            "context_window"@ => JsonView::Int(window as int),
            "max_context_window"@ => JsonView::Int(window as int),
            "auto_compact_token_limit"@ => JsonView::Null,
            "effective_context_window_percent"@ => JsonView::Int(95),
            "supports_reasoning_summary_parameter"@ => JsonView::Bool(false),
            "default_reasoning_summary"@ => JsonView::Str("none"@),
            "support_verbosity"@ => JsonView::Bool(false),
            "default_verbosity"@ => JsonView::Null,
            "input_modalities"@ => JsonView::Array(modality_names(modalities)),
            "supports_parallel_tool_calls"@ => JsonView::Bool(false),
            "supports_image_detail_original"@ => JsonView::Bool(false),
            "web_search_tool_type"@ => JsonView::Str("text"@),
            "supports_search_tool"@ => JsonView::Bool(false),
            "experimental_supported_tools"@ => JsonView::Array(Seq::empty()),
            "use_responses_lite"@ => JsonView::Bool(false),
            "tool_mode"@ => JsonView::Str("direct"@),
            "include_skills_usage_instructions"@ => JsonView::Bool(false),
            "include_plugin_usage_instructions"@ => JsonView::Bool(false),
            "include_apps_usage_instructions"@ => JsonView::Bool(false),
            "upgrade"@ => JsonView::Null,
            "availability_nux"@ => JsonView::Null,
            "comp_hash"@ => JsonView::Null,
            "default_service_tier"@ => JsonView::Null,
            "auto_review_model_override"@ => JsonView::Null,
            "model_specialty"@ => JsonView::Null,
            "multi_agent_version"@ => JsonView::Null,
            "service_tiers"@ => JsonView::Array(Seq::empty()),
            "additional_speed_tiers"@ => JsonView::Array(Seq::empty()),
        ],
    )
}

fn put_text(members: &mut Vec<(String, Json)>, name: &str, value: &str)
    ensures
        object_view(final(members)@) == object_view(old(members)@).insert(
            name@,
            JsonView::Str(value@),
        ),
{
    put_member(members, name, Json::Str(value.to_owned()));
}

fn whole_number(value: i64) -> (r: Json)
    ensures
        r@ == JsonView::Int(value as int),
{
    if value >= 0 {
        Json::Pos(value as u64)
    } else {
        Json::Neg(value)
    }
}

fn messages(prompt: &str) -> (r: Json)
    ensures
        r@ == messages_view(prompt@),
{
    let mut members: Vec<(String, Json)> = Vec::new();
    put_text(&mut members, "instructions_template", prompt);
    put_member(&mut members, "instructions_variables", Json::Null);
    put_member(&mut members, "approvals", Json::Null);
    put_member(&mut members, "collaboration_modes", Json::Null);
    put_member(&mut members, "auto_review", Json::Null);
    put_member(&mut members, "permissions", Json::Null);
    put_member(&mut members, "token_budget", Json::Null);
    Json::Object(members)
}

fn truncation() -> (r: Json)
    ensures
        r@ == truncation_view(),
{
    let mut members: Vec<(String, Json)> = Vec::new();
    put_text(&mut members, "mode", "bytes");
    put_member(&mut members, "limit", Json::Pos(10000));
    Json::Object(members)
}

fn modality_list(modalities: &Vec<CodexInputModalityV1>) -> (r: Json)
    ensures
        r@ == JsonView::Array(modality_names(modalities@)),
{
    let mut out: Vec<Json> = Vec::new();
    let mut i: usize = 0;
    assert(array_view(out@) =~= modality_names(modalities@.take(0)));
    while i < modalities.len()
        invariant
            i <= modalities.len(),
            array_view(out@) == modality_names(modalities@.take(i as int)),
        decreases modalities.len() - i,
    {
        let ghost before = out@;
        let name = match modalities[i] {
            CodexInputModalityV1::Text => "text".to_owned(),
            CodexInputModalityV1::Image => "image".to_owned(),
        };
        out.push(Json::Str(name));
        proof {
            assert(out@.drop_last() == before);
            assert(json_view(out@.last()) == JsonView::Str(name@));
            assert(modality_names(modalities@.take(i + 1)) =~= modality_names(
                modalities@.take(i as int),
            ).push(JsonView::Str(name@)));
        }
        i += 1;
    }
    assert(modalities@.take(i as int) == modalities@);
    Json::Array(out)
}

fn entry_json(
    plan: &CatalogPlan,
    priority: i32,
    window: u64,
    modalities: &Vec<CodexInputModalityV1>,
    prompt: &str,
) -> (r: Json)
    ensures
        r@ == plan_entry_view(*plan, priority as int, window, modalities@, prompt@),
{
    let mut members: Vec<(String, Json)> = Vec::new();
    put_text(&mut members, "slug", plan.alias.as_str());
    put_text(&mut members, "display_name", plan.display_name.as_str());
    put_text(&mut members, "description", description(plan.purpose.as_str()).as_str());
    put_text(&mut members, "visibility", "list");
    put_member(&mut members, "supported_in_api", Json::Bool(true));
    put_member(&mut members, "priority", whole_number(priority as i64));
    put_member(&mut members, "default_reasoning_level", Json::Null);
    put_member(&mut members, "supported_reasoning_levels", Json::Array(Vec::new()));
    put_text(&mut members, "shell_type", "shell_command");
    put_member(&mut members, "apply_patch_tool_type", Json::Null);
    put_member(&mut members, "model_messages", messages(prompt));
    put_member(&mut members, "truncation_policy", truncation());
    put_member(&mut members, "context_window", Json::Pos(window));
    put_member(&mut members, "max_context_window", Json::Pos(window));
    put_member(&mut members, "auto_compact_token_limit", Json::Null);
    put_member(&mut members, "effective_context_window_percent", Json::Pos(95));
    put_member(&mut members, "supports_reasoning_summary_parameter", Json::Bool(false));
    put_text(&mut members, "default_reasoning_summary", "none");
    put_member(&mut members, "support_verbosity", Json::Bool(false));
    put_member(&mut members, "default_verbosity", Json::Null);
    put_member(&mut members, "input_modalities", modality_list(modalities));
    put_member(&mut members, "supports_parallel_tool_calls", Json::Bool(false));
    put_member(&mut members, "supports_image_detail_original", Json::Bool(false));
    put_text(&mut members, "web_search_tool_type", "text");
    put_member(&mut members, "supports_search_tool", Json::Bool(false));
    put_member(&mut members, "experimental_supported_tools", Json::Array(Vec::new()));
    put_member(&mut members, "use_responses_lite", Json::Bool(false));
    put_text(&mut members, "tool_mode", "direct");
    put_member(&mut members, "include_skills_usage_instructions", Json::Bool(false));
    put_member(&mut members, "include_plugin_usage_instructions", Json::Bool(false));
    put_member(&mut members, "include_apps_usage_instructions", Json::Bool(false));
    put_member(&mut members, "upgrade", Json::Null);
    put_member(&mut members, "availability_nux", Json::Null);
    put_member(&mut members, "comp_hash", Json::Null);
    put_member(&mut members, "default_service_tier", Json::Null);
    put_member(&mut members, "auto_review_model_override", Json::Null);
    put_member(&mut members, "model_specialty", Json::Null);
    put_member(&mut members, "multi_agent_version", Json::Null);
    put_member(&mut members, "service_tiers", Json::Array(Vec::new()));
    put_member(&mut members, "additional_speed_tiers", Json::Array(Vec::new()));
    Json::Object(members)
}

/// A plan's entry, where its capabilities are proven.
pub open spec fn entry_of_plan(plan: CatalogPlan, priority: int, prompt: Seq<char>) -> Option<
    JsonView,
> {
    match preview_of(plan) {
        PreviewView::Available { context_window, input_modalities, .. } => Some(
            plan_entry_view(plan, priority, context_window, input_modalities, prompt),
        ),
        PreviewView::Unavailable { .. } => None,
    }
}

/// The entry of a plan. `prompt` is the generic instructions template.
pub fn plan_entry(plan: &CatalogPlan, priority: i32, prompt: &str) -> (r: Result<
    Json,
    CodexCatalogError,
>)
    ensures
        match entry_of_plan(*plan, priority as int, prompt@) {
            Some(entry) => r matches Ok(json) && json@ == entry,
            None => r matches Err(error) && error == CodexCatalogError::CapabilityUnproven,
        },
{
    match codex_plan_capability_preview(plan) {
        CodexClientCapabilityPreviewV1::Available { context_window, input_modalities, .. } => Ok(
            entry_json(plan, priority, context_window, &input_modalities, prompt),
        ),
        CodexClientCapabilityPreviewV1::Unavailable { .. } => {
            Err(CodexCatalogError::CapabilityUnproven)
        },
    }
}

/// The entries of plans, with priorities that follow `last`.
pub open spec fn entries_of_plans(
    plans: Seq<CatalogPlan>,
    last: int,
    prompt: Seq<char>,
) -> Option<Seq<JsonView>>
    decreases plans.len(),
{
    if plans.len() == 0 {
        Some(Seq::empty())
    } else {
        match (
            entries_of_plans(plans.drop_last(), last, prompt),
            entry_of_plan(plans.last(), last + plans.len(), prompt),
        ) {
            (Some(list), Some(entry)) => Some(list.push(entry)),
            _ => None,
        }
    }
}

/// Where the metadata of a catalog comes from.
#[derive(Clone, Copy, Debug, PartialEq, Eq, Structural)]
pub enum CodexCatalogMetadataSourceV1 {
    UserConfigured,
    TargetCache,
    TargetBundled,
    HirouteGenerated,
}

/// Whether an entry's name is one of those to keep.
pub open spec fn is_retained(model: JsonView, retained: Option<Seq<Seq<char>>>) -> bool {
    match retained {
        None => true,
        Some(names) => member_of(model, "slug"@) matches Some(JsonView::Str(name))
            && names.contains(name),
    }
}

pub open spec fn retained_models(models: Seq<JsonView>, retained: Option<Seq<Seq<char>>>) -> Seq<
    JsonView,
> {
    models.filter(|model: JsonView| is_retained(model, retained))
}

/// An entry of a target's own cache takes parallel tools unless it says otherwise.
pub open spec fn with_parallel_tools(model: JsonView) -> JsonView {
    match model {
        JsonView::Object(members) => if members.contains_key("supports_parallel_tool_calls"@) {
            model
        } else {
            JsonView::Object(members.insert("supports_parallel_tool_calls"@, JsonView::Bool(true)))
        },
        _ => model,
    }
}

pub open spec fn native_models(
    models: Seq<JsonView>,
    source: CodexCatalogMetadataSourceV1,
    retained: Option<Seq<Seq<char>>>,
) -> Option<Seq<JsonView>> {
    let kept = retained_models(models, retained);
    if source != CodexCatalogMetadataSourceV1::TargetCache {
        Some(kept)
    } else if exists|i: int| 0 <= i < kept.len() && !((#[trigger] kept[i]) is Object) {
        None
    } else {
        Some(kept.map_values(|model: JsonView| with_parallel_tools(model)))
    }
}

/// A catalog with other entries.
pub open spec fn with_models(catalog: JsonView, models: Seq<JsonView>) -> JsonView {
    JsonView::Object(catalog->Object_0.insert("models"@, JsonView::Array(models)))
}

/// A catalog with plans after its own entries.
pub open spec fn merged_catalog(
    catalog: JsonView,
    source: CodexCatalogMetadataSourceV1,
    retained: Option<Seq<Seq<char>>>,
    plans: Seq<CatalogPlan>,
    last: int,
    prompt: Seq<char>,
) -> Result<JsonView, CodexCatalogError> {
    match native_models(catalog_models(catalog)->0, source, retained) {
        None => Err(CodexCatalogError::InvalidCatalog),
        Some(native) => match entries_of_plans(plans, last, prompt) {
            None => Err(CodexCatalogError::CapabilityUnproven),
            Some(entries) => Ok(with_models(catalog, native + entries)),
        },
    }
}

pub open spec fn retained_view(retained: Option<&Vec<String>>) -> Option<Seq<Seq<char>>> {
    match retained {
        Some(names) => Some(texts(names@)),
        None => None,
    }
}

fn keeps(model: &Json, retained: Option<&Vec<String>>) -> (r: bool)
    ensures
        r == is_retained(model@, retained_view(retained)),
{
    match retained {
        None => true,
        Some(names) => match model.member("slug") {
            Some(Json::Str(name)) => named(names, name.as_str()),
            _ => false,
        },
    }
}

fn parallel_tools(model: &Json) -> (r: Option<Json>)
    ensures
        match r {
            Some(json) => model@ is Object && json@ == with_parallel_tools(model@),
            None => !(model@ is Object),
        },
{
    match model.copied() {
        Json::Object(members) => {
            let mut members = members;
            if crate::json::find_member(&members, "supports_parallel_tool_calls").is_none() {
                put_member(&mut members, "supports_parallel_tool_calls", Json::Bool(true));
            }
            Some(Json::Object(members))
        },
        _ => None,
    }
}

/// The entries that a catalog keeps.
fn native_entries(
    models: &Vec<Json>,
    source: CodexCatalogMetadataSourceV1,
    retained: Option<&Vec<String>>,
) -> (r: Option<Vec<Json>>)
    ensures
        match r {
            Some(list) => native_models(array_view(models@), source, retained_view(retained))
                == Some(array_view(list@)),
            None => native_models(array_view(models@), source, retained_view(retained)) is None,
        },
{
    let ghost all = array_view(models@);
    let ghost keep = |model: JsonView| is_retained(model, retained_view(retained));
    let ghost adjust = |model: JsonView| with_parallel_tools(model);
    let ghost whole = retained_models(all, retained_view(retained));
    let cached = source == CodexCatalogMetadataSourceV1::TargetCache;
    let mut out: Vec<Json> = Vec::new();
    let mut i: usize = 0;
    proof {
        lemma_array_view(models@);
        reveal(Seq::filter);
        assert(all.take(0).filter(keep) =~= Seq::<JsonView>::empty());
        assert(all.take(0).filter(keep).map_values(adjust) =~= Seq::<JsonView>::empty());
        assert(array_view(out@) =~= Seq::<JsonView>::empty());
    }
    while i < models.len()
        invariant
            i <= models.len(),
            all == array_view(models@),
            all.len() == models@.len(),
            forall|j: int| 0 <= j < models@.len() ==> #[trigger] all[j] == json_view(models@[j]),
            keep == (|model: JsonView| is_retained(model, retained_view(retained))),
            adjust == (|model: JsonView| with_parallel_tools(model)),
            whole == all.filter(keep),
            cached == (source == CodexCatalogMetadataSourceV1::TargetCache),
            cached ==> (forall|j: int|
                0 <= j < all.take(i as int).filter(keep).len() ==> (#[trigger] all.take(
                    i as int,
                ).filter(keep)[j]) is Object),
            array_view(out@) == (if cached {
                all.take(i as int).filter(keep).map_values(adjust)
            } else {
                all.take(i as int).filter(keep)
            }),
        decreases models.len() - i,
    {
        let model = &models[i];
        let ghost so_far = all.take(i as int).filter(keep);
        let ghost before = out@;
        proof {
            reveal(Seq::filter);
            assert(all[i as int] == model@);
            assert(all.take(i + 1).drop_last() == all.take(i as int));
            assert(all.take(i + 1).last() == model@);
        }
        if keeps(model, retained) {
            proof {
                assert(keep(model@));
                assert(all.take(i + 1).filter(keep) == so_far.push(model@));
                assert(so_far.push(model@).map_values(adjust) =~= so_far.map_values(adjust).push(
                    with_parallel_tools(model@),
                ));
            }
            let copy = if cached {
                match parallel_tools(model) {
                    Some(copy) => copy,
                    None => {
                        proof {
                            lemma_filter_prefix(all, keep, i + 1);
                            let at = so_far.len() as int;
                            assert(all.take(i + 1).filter(keep)[at] == model@);
                            assert(whole[at] == model@);
                            assert(whole == retained_models(all, retained_view(retained)));
                            assert(!(whole[at] is Object));
                        }
                        return None;
                    },
                }
            } else {
                model.copied()
            };
            out.push(copy);
            assert(out@.drop_last() == before);
        } else {
            assert(!keep(model@));
            assert(all.take(i + 1).filter(keep) == so_far);
        }
        i += 1;
    }
    proof {
        assert(all.take(i as int) == all);
        assert(whole == retained_models(all, retained_view(retained)));
        if cached {
            assert(!(exists|j: int| 0 <= j < whole.len() && !((#[trigger] whole[j]) is Object)));
            assert(whole.map_values(adjust) == whole.map_values(
                |model: JsonView| with_parallel_tools(model),
            ));
        }
    }
    Some(out)
}

proof fn lemma_filter_prefix(all: Seq<JsonView>, keep: spec_fn(JsonView) -> bool, k: int)
    requires
        0 <= k <= all.len(),
    ensures
        all.take(k).filter(keep).len() <= all.filter(keep).len(),
        forall|j: int|
            0 <= j < all.take(k).filter(keep).len() ==> #[trigger] all.filter(keep)[j] == all.take(
                k,
            ).filter(keep)[j],
    decreases all.len() - k,
{
    reveal(Seq::filter);
    if k == all.len() {
        assert(all.take(k) == all);
    } else {
        lemma_filter_prefix(all, keep, k + 1);
        assert(all.take(k + 1).drop_last() == all.take(k));
        let shorter = all.take(k).filter(keep);
        let longer = all.take(k + 1).filter(keep);
        assert forall|j: int| 0 <= j < shorter.len() implies #[trigger] all.filter(keep)[j]
            == shorter[j] by {
            assert(longer[j] == shorter[j]);
            assert(all.filter(keep)[j] == longer[j]);
        }
    }
}

/// The entries of plans, after `last`.
pub(crate) fn plan_entries(plans: &Vec<CatalogPlan>, priorities: &Vec<i32>, prompt: &str, Ghost(last): Ghost<
    int,
>) -> (r: Option<Vec<Json>>)
    requires
        priorities@.len() == plans@.len(),
        forall|i: int| 0 <= i < plans@.len() ==> #[trigger] priorities@[i] == last + i + 1,
    ensures
        match r {
            Some(list) => entries_of_plans(plans@, last, prompt@) == Some(array_view(list@)),
            None => entries_of_plans(plans@, last, prompt@) is None,
        },
{
    let mut out: Vec<Json> = Vec::new();
    let mut i: usize = 0;
    proof {
        assert(plans@.take(0) == Seq::<CatalogPlan>::empty());
        assert(array_view(out@) =~= Seq::<JsonView>::empty());
    }
    while i < plans.len()
        invariant
            i <= plans.len(),
            priorities@.len() == plans@.len(),
            forall|j: int| 0 <= j < plans@.len() ==> #[trigger] priorities@[j] == last + j + 1,
            entries_of_plans(plans@.take(i as int), last, prompt@) == Some(array_view(out@)),
        decreases plans.len() - i,
    {
        let ghost before = out@;
        proof {
            assert(plans@.take(i + 1).drop_last() == plans@.take(i as int));
            assert(plans@.take(i + 1).last() == plans@[i as int]);
            assert(priorities@[i as int] == last + plans@.take(i + 1).len());
        }
        match plan_entry(&plans[i], priorities[i], prompt) {
            Ok(entry) => {
                out.push(entry);
                assert(out@.drop_last() == before);
            },
            Err(_) => {
                proof {
                    lemma_plans_unproven(plans@, last, prompt@, i + 1);
                }
                return None;
            },
        }
        i += 1;
    }
    assert(plans@.take(i as int) == plans@);
    Some(out)
}

proof fn lemma_plans_unproven(plans: Seq<CatalogPlan>, last: int, prompt: Seq<char>, k: int)
    requires
        0 <= k <= plans.len(),
        entries_of_plans(plans.take(k), last, prompt) is None,
    ensures
        entries_of_plans(plans, last, prompt) is None,
    decreases plans.len() - k,
{
    if k < plans.len() {
        assert(plans.take(k + 1).drop_last() == plans.take(k));
        lemma_plans_unproven(plans, last, prompt, k + 1);
    } else {
        assert(plans.take(k) == plans);
    }
}

impl CodexCatalogSelection {
    /// Adds plans after the entries of a catalog that meets the structural contract, with only the
    /// retained entries of its own. What comes out must itself meet the contract and keep the
    /// default: see [`CodexCatalogSelection::accept_plans`].
    pub fn append_plans(
        &self,
        schema_holds: bool,
        plans: &Vec<CatalogPlan>,
        metadata_source: CodexCatalogMetadataSourceV1,
        retained_models: Option<&Vec<String>>,
        names: &Vec<String>,
        prompt: &str,
    ) -> (r: Result<CodexCatalogSelection, CodexCatalogError>)
        requires
            self@.wf(),
        ensures
            ({
                let last = last_priority(self@.entries);
                if !schema_holds {
                    r matches Err(error) && error == CodexCatalogError::InvalidCatalog
                } else if plans@.len() > i32::MAX || last + plans@.len() > i32::MAX {
                    r matches Err(error) && error == CodexCatalogError::PriorityExhausted
                } else {
                    match merged_catalog(
                        self@.original,
                        metadata_source,
                        retained_view(retained_models),
                        plans@,
                        last,
                        prompt@,
                    ) {
                        Err(failure) => r matches Err(error) && error == failure,
                        Ok(merged) => if is_catalog(merged, texts(names@)) {
                            r matches Ok(updated) && updated@.original == merged && updated@.wf()
                        } else {
                            r matches Err(error) && error == CodexCatalogError::InvalidCatalog
                        },
                    }
                }
            }),
    {
        if !schema_holds {
            return Err(CodexCatalogError::InvalidCatalog);
        }
        assert(self@.entries.len() == catalog_models(self@.original)->0.len());
        let priorities = match self.plan_priorities(plans.len()) {
            Ok(priorities) => priorities,
            Err(error) => return Err(error),
        };
        let members = match self.original() {
            Json::Object(members) => members,
            _ => return Err(CodexCatalogError::InvalidCatalog),
        };
        let models = match crate::json::find_member(members, "models") {
            Some(Json::Array(models)) => models,
            _ => return Err(CodexCatalogError::InvalidCatalog),
        };
        assert(catalog_models(self@.original) == Some(array_view(models@)));
        let mut entries = match native_entries(models, metadata_source, retained_models) {
            Some(entries) => entries,
            None => return Err(CodexCatalogError::InvalidCatalog),
        };
        let ghost native = array_view(entries@);
        let mut added = match plan_entries(
            plans,
            &priorities,
            prompt,
            Ghost(last_priority(self@.entries)),
        ) {
            Some(added) => added,
            None => return Err(CodexCatalogError::CapabilityUnproven),
        };
        proof {
            lemma_array_join(entries@, added@);
        }
        entries.append(&mut added);
        let mut merged = match self.original().copied() {
            Json::Object(members) => members,
            _ => return Err(CodexCatalogError::InvalidCatalog),
        };
        put_member(&mut merged, "models", Json::Array(entries));
        CodexCatalogSelection::parse(Json::Object(merged), names)
    }

    /// Accepts a catalog to which plans were added, where it meets the structural contract and
    /// keeps the default of this one.
    pub fn accept_plans(
        &self,
        updated: &CodexCatalogSelection,
        schema_holds: bool,
        policy: CodexDefaultPolicy<'_>,
        names: &Vec<String>,
    ) -> (r: Result<Json, CodexCatalogError>)
        ensures
            if !schema_holds {
                r matches Err(error) && error == CodexCatalogError::InvalidCatalog
            } else {
                match preserves_default(self@.entries, updated@.entries, policy@, texts(names@)) {
                    Err(failure) => r matches Err(error) && error == failure,
                    Ok(()) => r matches Ok(json) && json@ == updated@.original,
                }
            },
    {
        if !schema_holds {
            return Err(CodexCatalogError::InvalidCatalog);
        }
        match self.require_preserved_default(updated, policy, names) {
            Ok(()) => Ok(updated.original().copied()),
            Err(error) => Err(error),
        }
    }
}

proof fn lemma_array_join(a: Seq<Json>, b: Seq<Json>)
    ensures
        array_view(a + b) == array_view(a) + array_view(b),
{
    lemma_array_view(a);
    lemma_array_view(b);
    lemma_array_view(a + b);
    assert(array_view(a + b) =~= array_view(a) + array_view(b));
}

/// The catalog of a private worker: the one plan of its task.
pub open spec fn worker_catalog_view(plan: CatalogPlan, prompt: Seq<char>) -> Option<JsonView> {
    match entry_of_plan(plan, 0, prompt) {
        Some(entry) => Some(JsonView::Object(map!["models"@ => JsonView::Array(seq![entry])])),
        None => None,
    }
}

/// The catalog of a private worker, before it is held to the structural contract.
pub fn worker_catalog(plan: &CatalogPlan, prompt: &str) -> (r: Result<Json, CodexCatalogError>)
    ensures
        match worker_catalog_view(*plan, prompt@) {
            Some(catalog) => r matches Ok(json) && json@ == catalog,
            None => r matches Err(error) && error == CodexCatalogError::CapabilityUnproven,
        },
{
    let entry = match plan_entry(plan, 0, prompt) {
        Ok(entry) => entry,
        Err(error) => return Err(error),
    };
    let mut models: Vec<Json> = Vec::new();
    models.push(entry);
    proof {
        lemma_array_view(models@);
        assert(array_view(models@) =~= seq![entry@]);
    }
    let mut members: Vec<(String, Json)> = Vec::new();
    put_member(&mut members, "models", Json::Array(models));
    Ok(Json::Object(members))
}

/// The catalog file of a private worker, which owns a fresh home: its only model is its task's
/// plan, with the same entry that a user's catalog gets. `schema_holds` says whether the catalog
/// of [`worker_catalog`] meets the structural contract.
pub fn codex_private_worker_catalog(
    plan: &CatalogPlan,
    prompt: &str,
    names: &Vec<String>,
    schema_holds: bool,
) -> (r: Result<Vec<u8>, CodexCatalogError>)
    ensures
        match worker_catalog_view(*plan, prompt@) {
            None => r matches Err(error) && error == CodexCatalogError::CapabilityUnproven,
            Some(catalog) => if is_catalog(catalog, texts(names@)) && schema_holds {
                r matches Ok(bytes) && bytes@ == compact_json(catalog)
            } else {
                r matches Err(error) && error == CodexCatalogError::InvalidCatalog
            },
        },
{
    let catalog = match worker_catalog(plan, prompt) {
        Ok(catalog) => catalog,
        Err(error) => return Err(error),
    };
    match CodexCatalogSelection::for_current_adapter(catalog, names, schema_holds) {
        Ok(selection) => Ok(to_bytes(selection.original())),
        Err(error) => Err(error),
    }
}

/// Adding plans to a catalog of the user's own leaves its entries as they are, in their places,
/// and everything beside the entries too.
pub proof fn appending_keeps_the_original(
    catalog: JsonView,
    source: CodexCatalogMetadataSourceV1,
    plans: Seq<CatalogPlan>,
    last: int,
    prompt: Seq<char>,
)
    requires
        catalog_models(catalog) is Some,
        source != CodexCatalogMetadataSourceV1::TargetCache,
        merged_catalog(catalog, source, None, plans, last, prompt) is Ok,
    ensures
        ({
            let merged = merged_catalog(catalog, source, None, plans, last, prompt)->Ok_0;
            let before = catalog_models(catalog)->0;
            let after = merged->Object_0["models"@]->Array_0;
            &&& after.len() == before.len() + plans.len()
            &&& after.take(before.len() as int) == before
            &&& merged->Object_0.remove("models"@) == catalog->Object_0.remove("models"@)
        }),
{
    let before = catalog_models(catalog)->0;
    let merged = merged_catalog(catalog, source, None, plans, last, prompt)->Ok_0;
    lemma_all_retained(before);
    lemma_plan_entries_len(plans, last, prompt);
    let entries = entries_of_plans(plans, last, prompt)->0;
    let after = merged->Object_0["models"@]->Array_0;
    assert(after == before + entries);
    assert(after.take(before.len() as int) =~= before);
    assert(merged->Object_0.remove("models"@) =~= catalog->Object_0.remove("models"@));
}

proof fn lemma_all_retained(models: Seq<JsonView>)
    ensures
        retained_models(models, None) == models,
    decreases models.len(),
{
    reveal(Seq::filter);
    if models.len() > 0 {
        lemma_all_retained(models.drop_last());
        assert(models =~= models.drop_last().push(models.last()));
    }
}

proof fn lemma_plan_entries_len(plans: Seq<CatalogPlan>, last: int, prompt: Seq<char>)
    requires
        entries_of_plans(plans, last, prompt) is Some,
    ensures
        entries_of_plans(plans, last, prompt)->0.len() == plans.len(),
    decreases plans.len(),
{
    if plans.len() > 0 {
        lemma_plan_entries_len(plans.drop_last(), last, prompt);
    }
}

/// What selection reads of a plan's entry: the plan's alias at its priority, shown to the client
/// and usable everywhere.
pub open spec fn plan_facts(plan: CatalogPlan, priority: int) -> EntryView {
    EntryView {
        slug: plan.alias@,
        priority,
        visibility: Visibility::List,
        supported_in_api: true,
    }
}

/// The selection facts of the plans that follow a catalog whose last priority is `last`.
pub open spec fn facts_of_plans(plans: Seq<CatalogPlan>, last: int) -> Seq<EntryView> {
    Seq::new(plans.len(), |k: int| plan_facts(plans[k], last + k + 1))
}

/// The selection facts of the entries that a catalog keeps.
pub open spec fn kept_facts(catalog: JsonView, retained: Option<Seq<Seq<char>>>) -> Seq<EntryView> {
    retained_models(catalog_models(catalog)->0, retained).map_values(
        |model: JsonView| read_entry(model)->0,
    )
}

proof fn lemma_plan_entry_facts(
    plan: CatalogPlan,
    priority: int,
    window: u64,
    modalities: Seq<CodexInputModalityV1>,
    prompt: Seq<char>,
)
    requires
        i32::MIN <= priority <= i32::MAX,
    ensures
        read_entry(plan_entry_view(plan, priority, window, modalities, prompt)) == Some(
            plan_facts(plan, priority),
        ),
{
    reveal_strlit("slug");
    reveal_strlit("display_name");
    reveal_strlit("description");
    reveal_strlit("visibility");
    reveal_strlit("supported_in_api");
    reveal_strlit("priority");
    reveal_strlit("default_reasoning_level");
    reveal_strlit("supported_reasoning_levels");
    reveal_strlit("shell_type");
    reveal_strlit("apply_patch_tool_type");
    reveal_strlit("model_messages");
    reveal_strlit("truncation_policy");
    reveal_strlit("context_window");
    reveal_strlit("max_context_window");
    reveal_strlit("auto_compact_token_limit");
    reveal_strlit("effective_context_window_percent");
    reveal_strlit("supports_reasoning_summary_parameter");
    reveal_strlit("default_reasoning_summary");
    reveal_strlit("support_verbosity");
    reveal_strlit("default_verbosity");
    reveal_strlit("input_modalities");
    reveal_strlit("supports_parallel_tool_calls");
    reveal_strlit("supports_image_detail_original");
    reveal_strlit("web_search_tool_type");
    reveal_strlit("supports_search_tool");
    reveal_strlit("experimental_supported_tools");
    reveal_strlit("use_responses_lite");
    reveal_strlit("tool_mode");
    reveal_strlit("include_skills_usage_instructions");
    reveal_strlit("include_plugin_usage_instructions");
    reveal_strlit("include_apps_usage_instructions");
    reveal_strlit("upgrade");
    reveal_strlit("availability_nux");
    reveal_strlit("comp_hash");
    reveal_strlit("default_service_tier");
    reveal_strlit("auto_review_model_override");
    reveal_strlit("model_specialty");
    reveal_strlit("multi_agent_version");
    reveal_strlit("service_tiers");
    reveal_strlit("additional_speed_tiers");
    assert("slug"@.len() == 4);
    assert("display_name"@.len() == 12);
    assert("description"@.len() == 11);
    assert("visibility"@.len() == 10);
    assert("supported_in_api"@.len() == 16);
    assert("priority"@.len() == 8);
    assert("default_reasoning_level"@.len() == 23);
    assert("supported_reasoning_levels"@.len() == 26);
    assert("shell_type"@.len() == 10);
    assert("apply_patch_tool_type"@.len() == 21);
    assert("model_messages"@.len() == 14);
    assert("truncation_policy"@.len() == 17);
    assert("context_window"@.len() == 14);
    assert("max_context_window"@.len() == 18);
    assert("auto_compact_token_limit"@.len() == 24);
    assert("effective_context_window_percent"@.len() == 32);
    assert("supports_reasoning_summary_parameter"@.len() == 36);
    assert("default_reasoning_summary"@.len() == 25);
    assert("support_verbosity"@.len() == 17);
    assert("default_verbosity"@.len() == 17);
    assert("input_modalities"@.len() == 16);
    assert("supports_parallel_tool_calls"@.len() == 28);
    assert("supports_image_detail_original"@.len() == 30);
    assert("web_search_tool_type"@.len() == 20);
    assert("supports_search_tool"@.len() == 20);
    assert("experimental_supported_tools"@.len() == 28);
    assert("use_responses_lite"@.len() == 18);
    assert("tool_mode"@.len() == 9);
    assert("include_skills_usage_instructions"@.len() == 33);
    assert("include_plugin_usage_instructions"@.len() == 33);
    assert("include_apps_usage_instructions"@.len() == 31);
    assert("upgrade"@.len() == 7);
    assert("availability_nux"@.len() == 16);
    assert("comp_hash"@.len() == 9);
    assert("default_service_tier"@.len() == 20);
    assert("auto_review_model_override"@.len() == 26);
    assert("model_specialty"@.len() == 15);
    assert("multi_agent_version"@.len() == 19);
    assert("service_tiers"@.len() == 13);
    assert("additional_speed_tiers"@.len() == 22);
    assert("visibility"@[0] != "shell_type"@[0]);
    assert("supported_in_api"@[0] != "input_modalities"@[0]);
    assert("supported_in_api"@[0] != "availability_nux"@[0]);
    let members = plan_entry_view(plan, priority, window, modalities, prompt)->Object_0;
    assert(members["slug"@] == JsonView::Str(plan.alias@));
    assert(members["priority"@] == JsonView::Int(priority));
    assert(members["visibility"@] == JsonView::Str("list"@));
    assert(members["supported_in_api"@] == JsonView::Bool(true));
}

proof fn lemma_plan_facts(plans: Seq<CatalogPlan>, last: int, prompt: Seq<char>)
    requires
        entries_of_plans(plans, last, prompt) is Some,
        i32::MIN <= last,
        last + plans.len() <= i32::MAX,
    ensures
        entries_of_plans(plans, last, prompt)->0.map_values(|model: JsonView| read_entry(model)->0)
            == facts_of_plans(plans, last),
    decreases plans.len(),
{
    let entries = entries_of_plans(plans, last, prompt)->0;
    let facts = entries.map_values(|model: JsonView| read_entry(model)->0);
    if plans.len() > 0 {
        let init = plans.drop_last();
        let before = entries_of_plans(init, last, prompt)->0;
        lemma_plan_facts(init, last, prompt);
        lemma_plan_entries_len(plans, last, prompt);
        lemma_plan_entries_len(init, last, prompt);
        match preview_of(plans.last()) {
            PreviewView::Available { context_window, input_modalities, .. } => {
                lemma_plan_entry_facts(
                    plans.last(),
                    last + plans.len(),
                    context_window,
                    input_modalities,
                    prompt,
                );
            },
            PreviewView::Unavailable { .. } => {},
        }
        assert forall|k: int| 0 <= k < plans.len() implies facts[k] == #[trigger] facts_of_plans(
            plans,
            last,
        )[k] by {
            if k < init.len() {
                assert(entries[k] == before[k]);
                assert(before.map_values(|model: JsonView| read_entry(model)->0)[k]
                    == facts_of_plans(init, last)[k]);
            }
        }
    }
    assert(facts =~= facts_of_plans(plans, last));
}

proof fn lemma_retained_are_own(models: Seq<JsonView>, retained: Option<Seq<Seq<char>>>)
    ensures
        forall|i: int|
            0 <= i < retained_models(models, retained).len() ==> models.contains(
                #[trigger] retained_models(models, retained)[i],
            ),
    decreases models.len(),
{
    reveal(Seq::filter);
    if models.len() > 0 {
        let init = models.drop_last();
        lemma_retained_are_own(init, retained);
        assert forall|i: int| 0 <= i < retained_models(models, retained).len() implies
            models.contains(#[trigger] retained_models(models, retained)[i]) by {
            if i < retained_models(init, retained).len() {
                let model = retained_models(init, retained)[i];
                let at = choose|at: int| 0 <= at < init.len() && init[at] == model;
                assert(models[at] == model);
            } else {
                assert(models[models.len() - 1] == retained_models(models, retained)[i]);
            }
        }
    }
}

proof fn lemma_parallel_tools_facts(model: JsonView)
    ensures
        read_entry(with_parallel_tools(model)) == read_entry(model),
{
    reveal_strlit("slug");
    reveal_strlit("priority");
    reveal_strlit("visibility");
    reveal_strlit("supported_in_api");
    reveal_strlit("supports_parallel_tool_calls");
    let tools = "supports_parallel_tool_calls"@;
    assert(tools.len() == 28);
    assert("slug"@.len() == 4 && "priority"@.len() == 8);
    assert("visibility"@.len() == 10 && "supported_in_api"@.len() == 16);
    if let JsonView::Object(members) = model {
        let with = members.insert(tools, JsonView::Bool(true));
        assert(with.contains_key("slug"@) == members.contains_key("slug"@));
        assert(with.contains_key("priority"@) == members.contains_key("priority"@));
        assert(with.contains_key("visibility"@) == members.contains_key("visibility"@));
        assert(with.contains_key("supported_in_api"@) == members.contains_key(
            "supported_in_api"@,
        ));
    }
}

/// Adding plans changes no name and no priority of the entries that stay, whatever the source of
/// the catalog: they come first, in their order, and the plans follow in theirs, each under its
/// alias, with priorities after every entry of the catalog. No two entries of the outcome share a
/// name. The client's default stays as the entries that were kept have it, wherever one of them
/// is shown to the client and no plan has the alias that the client asks for; without a selection
/// of entries to keep, that is the default of the catalog itself.
pub proof fn appended_plans_keep_names_priorities_and_default(
    selection: SelectionView,
    source: CodexCatalogMetadataSourceV1,
    retained: Option<Seq<Seq<char>>>,
    plans: Seq<CatalogPlan>,
    prompt: Seq<char>,
    names: Seq<Seq<char>>,
    policy: PolicyView,
)
    requires
        selection.wf(),
        is_catalog(selection.original, names),
        last_priority(selection.entries) + plans.len() <= i32::MAX,
        ({
            let last = last_priority(selection.entries);
            merged_catalog(selection.original, source, retained, plans, last, prompt) matches Ok(
                merged,
            ) && is_catalog(merged, names)
        }),
    ensures
        ({
            let last = last_priority(selection.entries);
            let merged = merged_catalog(
                selection.original,
                source,
                retained,
                plans,
                last,
                prompt,
            )->Ok_0;
            let kept = kept_facts(selection.original, retained);
            let after = entries_of(merged);
            &&& after == kept + facts_of_plans(plans, last)
            &&& retained is None ==> kept == selection.entries
            &&& forall|i: int, k: int|
                0 <= i < selection.entries.len() && 0 <= k < plans.len()
                    ==> (#[trigger] selection.entries[i]).priority < (#[trigger] facts_of_plans(
                    plans,
                    last,
                )[k]).priority
            &&& forall|i: int, j: int|
                0 <= i < j < after.len() ==> (#[trigger] after[i]).slug != (
                #[trigger] after[j]).slug
            &&& first_by_priority(kept, policy.uses_codex_backend, true) is Some && (forall|k: int|
                0 <= k < plans.len() ==> policy.explicit_model != Some(
                    (#[trigger] plans[k]).alias@,
                )) ==> default_of(after, policy, names) == default_of(kept, policy, names)
        }),
{
    let last = last_priority(selection.entries);
    let merged = merged_catalog(selection.original, source, retained, plans, last, prompt)->Ok_0;
    let models = catalog_models(selection.original)->0;
    let own = retained_models(models, retained);
    let native = native_models(models, source, retained)->0;
    let entries = entries_of_plans(plans, last, prompt)->0;
    let kept = kept_facts(selection.original, retained);
    let added = facts_of_plans(plans, last);
    let after = entries_of(merged);
    lemma_priority_range(selection, names);
    lemma_retained_are_own(models, retained);
    lemma_plan_entries_len(plans, last, prompt);
    lemma_plan_facts(plans, last, prompt);
    assert(catalog_models(merged) == Some(native + entries));
    assert(native.len() == own.len());
    assert forall|i: int| 0 <= i < own.len() implies read_entry(#[trigger] native[i]) == read_entry(
        own[i],
    ) by {
        lemma_parallel_tools_facts(own[i]);
    }
    assert forall|i: int| 0 <= i < after.len() implies #[trigger] after[i] == (kept + added)[i] by {
        if i < own.len() {
            assert((native + entries)[i] == native[i]);
        } else {
            assert((native + entries)[i] == entries[i - own.len()]);
            assert(entries.map_values(|model: JsonView| read_entry(model)->0)[i - own.len()]
                == added[i - own.len()]);
        }
    }
    assert(after =~= kept + added);
    if retained is None {
        lemma_all_retained(models);
        assert(kept =~= selection.entries);
    }
    assert forall|i: int, k: int|
        0 <= i < selection.entries.len() && 0 <= k < plans.len() implies (
    #[trigger] selection.entries[i]).priority < (#[trigger] added[k]).priority by {
        plan_priorities_come_last(selection.entries, i, k + 1);
    }
    if first_by_priority(kept, policy.uses_codex_backend, true) is Some && (forall|k: int|
        0 <= k < plans.len() ==> policy.explicit_model != Some((#[trigger] plans[k]).alias@)) {
        assert forall|i: int, j: int| 0 <= i < kept.len() && 0 <= j < added.len() implies (
        #[trigger] kept[i]).priority <= (#[trigger] added[j]).priority by {
            let at = choose|at: int| 0 <= at < models.len() && models[at] == own[i];
            assert(selection.entries[at] == kept[i]);
        }
        later_entries_keep_a_shown_default(
            kept,
            added,
            PolicyView { explicit_model: None, ..policy },
            names,
        );
        if let Some(requested) = policy.explicit_model {
            let backend = policy.uses_codex_backend;
            if is_available(kept, backend, requested) {
                let i = choose|i: int|
                    0 <= i < kept.len() && is_wanted(#[trigger] kept[i], backend, false)
                        && kept[i].slug == requested;
                assert(after[i] == kept[i]);
            }
            if is_available(after, backend, requested) {
                let i = choose|i: int|
                    0 <= i < after.len() && is_wanted(#[trigger] after[i], backend, false)
                        && after[i].slug == requested;
                if i >= kept.len() {
                    assert(after[i] == added[i - kept.len()]);
                    assert(plans[i - kept.len()].alias@ == requested);
                }
                assert(after[i] == kept[i]);
            }
        }
    }
}

proof fn lemma_priority_range(selection: SelectionView, names: Seq<Seq<char>>)
    requires
        selection.wf(),
        is_catalog(selection.original, names),
    ensures
        i32::MIN <= last_priority(selection.entries),
{
    let models = catalog_models(selection.original)->0;
    plan_priorities_come_last(selection.entries, 0, 1);
    assert(read_entry(models[0]) is Some);
    assert(selection.entries[0] == read_entry(models[0])->0);
}

/// A private worker's entry is the one that a user's catalog gets, but for its priority.
pub proof fn worker_entries_are_plan_entries(
    plan: CatalogPlan,
    priority: int,
    prompt: Seq<char>,
)
    requires
        entry_of_plan(plan, priority, prompt) is Some,
    ensures
        worker_catalog_view(plan, prompt) is Some,
        ({
            let worker = worker_catalog_view(plan, prompt)->0->Object_0["models"@]->Array_0[0];
            worker->Object_0.remove("priority"@) == entry_of_plan(
                plan,
                priority,
                prompt,
            )->0->Object_0.remove("priority"@)
        }),
{
    let worker = entry_of_plan(plan, 0, prompt)->0->Object_0;
    let merged = entry_of_plan(plan, priority, prompt)->0->Object_0;
    assert(worker.remove("priority"@) =~= merged.remove("priority"@));
}

} // verus!
