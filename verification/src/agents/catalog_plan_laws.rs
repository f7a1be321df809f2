//! What a plan is offered as, told by its candidates alone.

use vstd::prelude::*;
use crate::agents::codex_catalog::{catalog_models, CodexCatalogError};
use crate::agents::codex_catalog_plan::{
    bindings_with_window, bindings_without_image, candidate_window, codex_plan_capability_preview,
    common_window, entries_of_plans, entry_of_plan, issue_view, limit_view, limitations_of,
    merged_catalog, native_models, offers, plan_entry, preview_of, requirements, retained_models,
    some_image, wider, with_parallel_tools, worker_catalog_view, CapabilityVerdict, CatalogPlan,
    CodexCandidateCapabilityLimitKindV1, CodexCandidateCapabilityLimitV1,
    CodexCapabilityIssueKindV1, CodexCapabilityIssueV1, CodexCatalogMetadataSourceV1,
    CodexClientCapabilityPreviewV1, CodexFixedCapabilityLimitV1, CodexInputModalityV1, Offer,
    PlanCandidate, RequestCapabilityRequirements,
};
use crate::json::{Json, JsonView};
use crate::runtime::facts::IngressProtocol;
use crate::text::{in_order, ordered_lists_hold_the_same, views_of};

verus! {

/// Whether a candidate can serve the client's ordinary request at all, and all of its limits are
/// known.
pub open spec fn is_complete(candidate: PlanCandidate) -> bool {
    candidate.profile matches Some(profile) && {
        &&& profile.executable matches Some(executable) && executable.upstream_protocol
            != IngressProtocol::Messages && executable.text == CapabilityVerdict::Supported
        &&& profile.max_input_tokens is Some
        &&& profile.max_output_tokens is Some
        &&& profile.max_total_tokens is Some
        &&& profile.reasoning_reservation_tokens is Some
    }
}

/// Whether a candidate takes so many tokens of input: no more than its input allows, and with its
/// output and the reservation of its reasoning no more than its total.
pub open spec fn has_room(candidate: PlanCandidate, tokens: int) -> bool {
    candidate.profile matches Some(profile) && {
        &&& tokens <= profile.max_input_tokens->0
        &&& profile.max_total_tokens->0 matches Some(total) ==> tokens
            + profile.max_output_tokens->0 + profile.reasoning_reservation_tokens->0 <= total
    }
}

/// Whether a candidate can answer: it has an output, which can be counted together with the
/// reservation.
pub open spec fn can_answer(candidate: PlanCandidate) -> bool {
    candidate.profile matches Some(profile) && profile.max_output_tokens->0 > 0
        && profile.max_output_tokens->0 + profile.reasoning_reservation_tokens->0 <= u64::MAX
}

pub open spec fn takes_images(candidate: PlanCandidate) -> bool {
    candidate.profile matches Some(profile) && profile.executable matches Some(executable)
        && executable.image == CapabilityVerdict::Supported
}

/// What a plan asks for: its own setting, or the usual window of 272 000 tokens.
pub open spec fn asked_for(plan: CatalogPlan) -> int {
    match plan.context_window_tokens {
        Some(tokens) => tokens as int,
        None => 272_000,
    }
}

proof fn lemma_candidate(candidate: PlanCandidate)
    ensures
        candidate_window(candidate) is Ok <==> is_complete(candidate) && can_answer(candidate)
            && has_room(candidate, 1),
        candidate_window(candidate) matches Ok((window, image)) ==> {
            &&& has_room(candidate, window as int)
            &&& !has_room(candidate, window + 1)
            &&& window > 0
            &&& image == takes_images(candidate)
        },
{
}

proof fn lemma_offers(candidates: Seq<PlanCandidate>)
    ensures
        match offers(candidates) {
            Ok(list) => {
                &&& list.len() == candidates.len()
                &&& forall|i: int|
                    0 <= i < candidates.len() ==> (#[trigger] list[i]).binding_id
                        == candidates[i].binding_id@ && candidate_window(candidates[i]) == Ok::<
                        (u64, bool),
                        CodexCapabilityIssueKindV1,
                    >((list[i].window, list[i].image))
            },
            Err((kind, binding_id)) => exists|i: int|
                0 <= i < candidates.len() && candidate_window(#[trigger] candidates[i]) == Err::<
                    (u64, bool),
                    CodexCapabilityIssueKindV1,
                >(kind) && binding_id == candidates[i].binding_id@ && forall|j: int|
                    0 <= j < i ==> candidate_window(#[trigger] candidates[j]) is Ok,
        },
    decreases candidates.len(),
{
    if candidates.len() > 0 {
        let rest = candidates.drop_last();
        lemma_offers(rest);
        match offers(rest) {
            Ok(list) => {
                if candidate_window(candidates.last()) is Err {
                    assert(candidates[candidates.len() - 1] == candidates.last());
                    assert forall|j: int| 0 <= j < candidates.len() - 1 implies candidate_window(
                        #[trigger] candidates[j],
                    ) is Ok by {
                        assert(rest[j] == candidates[j]);
                        assert(list[j].binding_id == rest[j].binding_id@);
                    }
                } else {
                    let all = offers(candidates)->Ok_0;
                    assert forall|i: int| 0 <= i < candidates.len() implies (
                    #[trigger] all[i]).binding_id == candidates[i].binding_id@
                        && candidate_window(candidates[i]) == Ok::<
                        (u64, bool),
                        CodexCapabilityIssueKindV1,
                    >((all[i].window, all[i].image)) by {
                        if i < rest.len() {
                            assert(all[i] == list[i]);
                            assert(rest[i] == candidates[i]);
                        }
                    }
                }
            },
            Err((kind, binding_id)) => {
                let i = choose|i: int|
                    0 <= i < rest.len() && candidate_window(#[trigger] rest[i]) == Err::<
                        (u64, bool),
                        CodexCapabilityIssueKindV1,
                    >(kind) && binding_id == rest[i].binding_id@ && forall|j: int|
                        0 <= j < i ==> candidate_window(#[trigger] rest[j]) is Ok;
                assert(candidates[i] == rest[i]);
                assert forall|j: int| 0 <= j < i implies candidate_window(
                    #[trigger] candidates[j],
                ) is Ok by {
                    assert(rest[j] == candidates[j]);
                }
            },
        }
    }
}

proof fn lemma_common(list: Seq<Offer>)
    requires
        list.len() > 0,
    ensures
        forall|i: int| 0 <= i < list.len() ==> common_window(list) <= (#[trigger] list[i]).window,
        exists|i: int| 0 <= i < list.len() && common_window(list) == (#[trigger] list[i]).window,
    decreases list.len(),
{
    if list.len() > 1 {
        let rest = list.drop_last();
        lemma_common(rest);
        let k = choose|k: int| 0 <= k < rest.len() && common_window(rest) == (
        #[trigger] rest[k]).window;
        assert(list[k] == rest[k]);
        assert forall|i: int| 0 <= i < list.len() implies common_window(list) <= (
        #[trigger] list[i]).window by {
            if i < rest.len() {
                assert(list[i] == rest[i]);
            }
        }
        assert(list[list.len() - 1] == list.last());
    } else {
        assert(list[0].window == common_window(list));
    }
}

proof fn lemma_offered(plan: CatalogPlan)
    requires
        offers(plan.candidates@) is Ok,
        plan.candidates@.len() > 0,
    ensures
        ({
            let list = offers(plan.candidates@)->Ok_0;
            let common = common_window(list);
            &&& list.len() == plan.candidates@.len()
            &&& common > 0
            &&& forall|i: int|
                0 <= i < list.len() ==> {
                    let candidate = #[trigger] plan.candidates@[i];
                    &&& is_complete(candidate)
                    &&& can_answer(candidate)
                    &&& has_room(candidate, common as int)
                    &&& has_room(candidate, 1)
                    &&& has_room(candidate, list[i].window as int)
                    &&& !has_room(candidate, list[i].window + 1)
                    &&& list[i].image == takes_images(candidate)
                    &&& list[i].binding_id == candidate.binding_id@
                    &&& list[i].window >= common
                }
            &&& exists|i: int|
                0 <= i < list.len() && !has_room(#[trigger] plan.candidates@[i], common + 1)
        }),
{
    let list = offers(plan.candidates@)->Ok_0;
    let common = common_window(list);
    lemma_offers(plan.candidates@);
    lemma_common(list);
    assert forall|i: int| 0 <= i < list.len() implies {
        let candidate = #[trigger] plan.candidates@[i];
        &&& is_complete(candidate)
        &&& can_answer(candidate)
        &&& has_room(candidate, common as int)
        &&& has_room(candidate, 1)
        &&& has_room(candidate, list[i].window as int)
        &&& !has_room(candidate, list[i].window + 1)
        &&& list[i].image == takes_images(candidate)
        &&& list[i].binding_id == candidate.binding_id@
        &&& list[i].window >= common
        &&& list[i].window > 0
    } by {
        assert(list[i].binding_id == plan.candidates@[i].binding_id@);
        lemma_candidate(plan.candidates@[i]);
    }
    let k = choose|k: int| 0 <= k < list.len() && common == (#[trigger] list[k]).window;
    assert(is_complete(plan.candidates@[k]));
    assert(!has_room(plan.candidates@[k], common + 1));
}

/// The window that a plan is offered with leaves every candidate room for its answer: it is within
/// what the candidate takes as input, and together with the candidate's output and the reservation
/// of its reasoning it is within the candidate's total. It is never more than the plan asks for.
pub proof fn offered_windows_leave_room_for_the_answer(
    plan: &CatalogPlan,
    r: CodexClientCapabilityPreviewV1,
    at: int,
)
    requires
        call_ensures(codex_plan_capability_preview, (plan,), r),
        r is Available,
        0 <= at < plan.candidates@.len(),
    ensures
        ({
            let window = r->Available_context_window;
            let profile = plan.candidates@[at].profile->0;
            &&& plan.candidates@[at].profile is Some
            &&& profile.max_input_tokens matches Some(input) && window <= input
            &&& profile.max_output_tokens is Some && profile.reasoning_reservation_tokens is Some
            &&& profile.max_total_tokens is Some
            &&& profile.max_total_tokens->0 matches Some(total) ==> window
                + profile.max_output_tokens->0 + profile.reasoning_reservation_tokens->0 <= total
            &&& 0 < window <= i64::MAX
            &&& match plan.context_window_tokens {
                Some(tokens) => window <= tokens,
                None => window <= 272_000,
            }
        }),
{
    lemma_offers(plan.candidates@);
    lemma_offered(*plan);
    assert(is_complete(plan.candidates@[at]));
}

/// The window is the largest such number: whatever all candidates have room for, up to what the
/// plan asks for, is offered.
pub proof fn offered_windows_are_the_largest(
    plan: &CatalogPlan,
    r: CodexClientCapabilityPreviewV1,
    tokens: int,
)
    requires
        call_ensures(codex_plan_capability_preview, (plan,), r),
        r is Available,
        forall|i: int| 0 <= i < plan.candidates@.len() ==> has_room(#[trigger] plan.candidates@[i], tokens),
        match plan.context_window_tokens {
            Some(setting) => tokens <= setting,
            None => tokens <= 272_000,
        },
    ensures
        tokens <= r->Available_context_window,
{
    lemma_offers(plan.candidates@);
    lemma_offered(*plan);
    let common = common_window(offers(plan.candidates@)->Ok_0);
    let k = choose|k: int|
        0 <= k < plan.candidates@.len() && !has_room(#[trigger] plan.candidates@[k], common + 1);
    assert(is_complete(plan.candidates@[k]));
    assert(has_room(plan.candidates@[k], tokens));
}

/// A plan is offered exactly where it is valid, has candidates, each of them can serve the ordinary
/// request and has room for a question and an answer, and the window that comes of them is one.
pub proof fn plans_are_offered_where_all_candidates_serve(
    plan: &CatalogPlan,
    r: CodexClientCapabilityPreviewV1,
)
    requires
        call_ensures(codex_plan_capability_preview, (plan,), r),
    ensures
        r is Available <==> {
            &&& plan.is_valid
            &&& plan.candidates@.len() > 0
            &&& forall|i: int|
                0 <= i < plan.candidates@.len() ==> is_complete(#[trigger] plan.candidates@[i])
                    && can_answer(plan.candidates@[i]) && has_room(plan.candidates@[i], 1)
            &&& asked_for(*plan) > 0
            &&& asked_for(*plan) <= i64::MAX || exists|i: int|
                0 <= i < plan.candidates@.len() && !has_room(
                    #[trigger] plan.candidates@[i],
                    i64::MAX + 1,
                )
        },
{
    lemma_offers(plan.candidates@);
    match offers(plan.candidates@) {
        Ok(list) => {
            if plan.candidates@.len() > 0 {
                lemma_offered(*plan);
                let common = common_window(list);
                assert(is_complete(plan.candidates@[0]));
                let k = choose|k: int|
                    0 <= k < plan.candidates@.len() && !has_room(
                        #[trigger] plan.candidates@[k],
                        common + 1,
                    );
                assert(is_complete(plan.candidates@[k]));
                if common <= i64::MAX {
                    assert(!has_room(plan.candidates@[k], i64::MAX + 1));
                } else {
                    assert forall|i: int| 0 <= i < plan.candidates@.len() implies has_room(
                        #[trigger] plan.candidates@[i],
                        i64::MAX + 1,
                    ) by {
                        assert(is_complete(plan.candidates@[i]));
                    }
                }
            }
        },
        Err((kind, binding_id)) => {
            let i = choose|i: int|
                0 <= i < plan.candidates@.len() && candidate_window(
                    #[trigger] plan.candidates@[i],
                ) == Err::<(u64, bool), CodexCapabilityIssueKindV1>(kind) && binding_id
                    == plan.candidates@[i].binding_id@ && forall|j: int|
                    0 <= j < i ==> candidate_window(#[trigger] plan.candidates@[j]) is Ok;
            lemma_candidate(plan.candidates@[i]);
        },
    }
}

/// A client is told of one thing that keeps a plan back: of the first candidate that cannot serve,
/// what it lacks first.
pub proof fn the_first_failing_candidate_is_told(
    plan: &CatalogPlan,
    r: CodexClientCapabilityPreviewV1,
    at: int,
)
    requires
        call_ensures(codex_plan_capability_preview, (plan,), r),
        plan.is_valid,
        0 <= at < plan.candidates@.len(),
        forall|i: int|
            0 <= i < at ==> is_complete(#[trigger] plan.candidates@[i]) && can_answer(
                plan.candidates@[i],
            ) && has_room(plan.candidates@[i], 1),
        !(is_complete(plan.candidates@[at]) && can_answer(plan.candidates@[at]) && has_room(
            plan.candidates@[at],
            1,
        )),
    ensures
        r is Unavailable,
        ({
            let issues = r->Unavailable_issues;
            let kind = issues@[0].kind;
            let candidate = plan.candidates@[at];
            let profile = candidate.profile->0;
            &&& issues@.len() == 1
            &&& issues@[0].binding_id matches Some(id) && id@ == candidate.binding_id@
            &&& kind == CodexCapabilityIssueKindV1::ResponsesProtocol <==> candidate.profile is None
            &&& kind == CodexCapabilityIssueKindV1::InstructionRoles <==> candidate.profile is Some
                && (profile.executable matches Some(executable) && (executable.upstream_protocol
                == IngressProtocol::Messages || executable.text
                == CapabilityVerdict::InstructionsUnsupported))
            &&& kind == CodexCapabilityIssueKindV1::RequestCapabilities <==> candidate.profile
                is Some && (profile.executable matches Some(executable) ==>
                executable.upstream_protocol != IngressProtocol::Messages && executable.text
                == CapabilityVerdict::Unsupported)
            &&& serves_text(candidate) ==> {
                &&& kind == CodexCapabilityIssueKindV1::ContextInput
                    <==> profile.max_input_tokens is None
                &&& kind == CodexCapabilityIssueKindV1::ContextOutput
                    <==> profile.max_input_tokens is Some && profile.max_output_tokens is None
                &&& kind == CodexCapabilityIssueKindV1::ContextTotal
                    <==> profile.max_input_tokens is Some && profile.max_output_tokens is Some
                    && profile.max_total_tokens is None
                &&& kind == CodexCapabilityIssueKindV1::ReasoningProfile
                    <==> profile.max_input_tokens is Some && profile.max_output_tokens is Some
                    && profile.max_total_tokens is Some && profile.reasoning_reservation_tokens
                    is None
                &&& kind == CodexCapabilityIssueKindV1::ContextWindow <==> is_complete(candidate)
            }
        }),
{
    lemma_offers(plan.candidates@);
    assert forall|i: int| 0 <= i < at implies candidate_window(
        #[trigger] plan.candidates@[i],
    ) is Ok by {
        lemma_candidate(plan.candidates@[i]);
    }
    lemma_candidate(plan.candidates@[at]);
    match offers(plan.candidates@) {
        Ok(list) => {
            assert(list[at].binding_id == plan.candidates@[at].binding_id@);
        },
        Err((kind, binding_id)) => {
            let i = choose|i: int|
                0 <= i < plan.candidates@.len() && candidate_window(
                    #[trigger] plan.candidates@[i],
                ) == Err::<(u64, bool), CodexCapabilityIssueKindV1>(kind) && binding_id
                    == plan.candidates@[i].binding_id@ && forall|j: int|
                    0 <= j < i ==> candidate_window(#[trigger] plan.candidates@[j]) is Ok;
            if i < at {
                lemma_candidate(plan.candidates@[i]);
            }
            if at < i {
                assert(candidate_window(plan.candidates@[at]) is Ok);
            }
            assert(i == at);
            lemma_told(r->Unavailable_issues@);
        },
    }
}

proof fn lemma_told(issues: Seq<CodexCapabilityIssueV1>)
    ensures
        ({
            let told = issues.map_values(|issue: CodexCapabilityIssueV1| issue_view(issue));
            told.len() == issues.len() && (issues.len() > 0 ==> told[0] == issue_view(issues[0]))
        }),
{
}

pub open spec fn serves_text(candidate: PlanCandidate) -> bool {
    candidate.profile matches Some(profile) && profile.executable matches Some(executable)
        && executable.upstream_protocol != IngressProtocol::Messages && executable.text
        == CapabilityVerdict::Supported
}

/// A plan that is no valid one, or that has no candidates, is told as such, and nothing else of it.
pub proof fn invalid_plans_are_told(plan: &CatalogPlan, r: CodexClientCapabilityPreviewV1)
    requires
        call_ensures(codex_plan_capability_preview, (plan,), r),
        !plan.is_valid || plan.candidates@.len() == 0,
    ensures
        r is Unavailable,
        ({
            let issues = r->Unavailable_issues;
            issues@.len() == 1 && issues@[0].kind
                == CodexCapabilityIssueKindV1::InvalidCompiledPlan && issues@[0].binding_id is None
        }),
{
    lemma_offers(plan.candidates@);
    lemma_told(r->Unavailable_issues@);
}

/// A plan takes text always, and images exactly where all of its candidates do. It never calls
/// tools in parallel.
pub proof fn plans_take_images_where_all_do(
    plan: &CatalogPlan,
    r: CodexClientCapabilityPreviewV1,
)
    requires
        call_ensures(codex_plan_capability_preview, (plan,), r),
        r is Available,
    ensures
        r->Available_input_modalities@.contains(CodexInputModalityV1::Text),
        r->Available_input_modalities@.contains(CodexInputModalityV1::Image) <==> forall|i: int|
            0 <= i < plan.candidates@.len() ==> takes_images(#[trigger] plan.candidates@[i]),
        r->Available_input_modalities@.no_duplicates(),
        r->Available_fixed_limits@ == seq![CodexFixedCapabilityLimitV1::ParallelToolCallsDisabled],
{
    lemma_offers(plan.candidates@);
    lemma_offered(*plan);
    let list = offers(plan.candidates@)->Ok_0;
    let told = r->Available_input_modalities@;
    assert(told[0] == CodexInputModalityV1::Text);
    if some_image(list, false) {
        let k = choose|k: int| 0 <= k < list.len() && (#[trigger] list[k]).image == false;
        assert(!takes_images(plan.candidates@[k]));
        assert(told =~= seq![CodexInputModalityV1::Text]);
        assert(!told.contains(CodexInputModalityV1::Image));
    } else {
        assert(told[1] == CodexInputModalityV1::Image);
        assert forall|i: int| 0 <= i < plan.candidates@.len() implies takes_images(
            #[trigger] plan.candidates@[i],
        ) by {
            assert(list[i].image != false);
        }
    }
}

/// What holds a plan back is told by its bindings: those with the smallest window where others have
/// more, and those that take no images where others do.
pub proof fn limitations_name_what_holds_a_plan_back(
    plan: &CatalogPlan,
    r: CodexClientCapabilityPreviewV1,
    binding: Seq<char>,
    room: int,
)
    requires
        call_ensures(codex_plan_capability_preview, (plan,), r),
        r is Available,
        forall|i: int|
            0 <= i < plan.candidates@.len() ==> has_room(#[trigger] plan.candidates@[i], room),
        exists|i: int|
            0 <= i < plan.candidates@.len() && !has_room(#[trigger] plan.candidates@[i], room + 1),
    ensures
        told_of(r, CodexCandidateCapabilityLimitKindV1::ContextWindow, binding) <==> {
            &&& exists|i: int|
                0 <= i < plan.candidates@.len() && has_room(#[trigger] plan.candidates@[i], room + 1)
            &&& exists|i: int|
                0 <= i < plan.candidates@.len() && !has_room(
                    #[trigger] plan.candidates@[i],
                    room + 1,
                ) && plan.candidates@[i].binding_id@ == binding
        },
        told_of(r, CodexCandidateCapabilityLimitKindV1::ImageInput, binding) <==> {
            &&& exists|i: int|
                0 <= i < plan.candidates@.len() && takes_images(#[trigger] plan.candidates@[i])
            &&& exists|i: int|
                0 <= i < plan.candidates@.len() && !takes_images(#[trigger] plan.candidates@[i])
                    && plan.candidates@[i].binding_id@ == binding
        },
{
    lemma_offers(plan.candidates@);
    lemma_offered(*plan);
    let all = plan.candidates@;
    let list = offers(all)->Ok_0;
    let common = common_window(list);
    lemma_common(list);
    let low = choose|i: int| 0 <= i < all.len() && !has_room(#[trigger] all[i], room + 1);
    let least = choose|i: int| 0 <= i < all.len() && !has_room(#[trigger] all[i], common + 1);
    assert(is_complete(all[low]) && is_complete(all[least]));
    assert(has_room(all[least], room));
    assert(room <= common);
    assert(has_room(all[low], common as int));
    assert(room == common);
    assert forall|i: int| 0 <= i < all.len() implies (list[i].window == common <==> !has_room(
        #[trigger] all[i],
        room + 1,
    )) && (list[i].window > common <==> has_room(all[i], room + 1)) && list[i].binding_id
        == all[i].binding_id@ && list[i].image == takes_images(all[i]) by {
        assert(is_complete(all[i]));
    }
    lemma_limits(r, list);
    lemma_named(list, |offer: Offer| offer.window == common, binding);
    lemma_named(list, |offer: Offer| !offer.image, binding);
    let windows = bindings_with_window(list, common);
    let images = bindings_without_image(list);
    assert(wider(list, common) <==> exists|i: int|
        0 <= i < all.len() && has_room(#[trigger] all[i], room + 1)) by {
        if wider(list, common) {
            let i = choose|i: int| 0 <= i < list.len() && (#[trigger] list[i]).window > common;
            assert(has_room(all[i], room + 1));
        }
        if exists|i: int| 0 <= i < all.len() && has_room(#[trigger] all[i], room + 1) {
            let i = choose|i: int| 0 <= i < all.len() && has_room(#[trigger] all[i], room + 1);
            assert(list[i].window > common);
        }
    }
    assert(some_image(list, true) <==> exists|i: int|
        0 <= i < all.len() && takes_images(#[trigger] all[i])) by {
        if some_image(list, true) {
            let i = choose|i: int| 0 <= i < list.len() && (#[trigger] list[i]).image == true;
            assert(takes_images(all[i]));
        }
        if exists|i: int| 0 <= i < all.len() && takes_images(#[trigger] all[i]) {
            let i = choose|i: int| 0 <= i < all.len() && takes_images(#[trigger] all[i]);
            assert(list[i].image == true);
        }
    }
    assert(windows.contains(binding) <==> exists|i: int|
        0 <= i < all.len() && !has_room(#[trigger] all[i], room + 1) && all[i].binding_id@
            == binding) by {
        if windows.contains(binding) {
            let i = choose|i: int|
                0 <= i < list.len() && (#[trigger] list[i]).window == common && list[i].binding_id
                    == binding;
            assert(!has_room(all[i], room + 1) && all[i].binding_id@ == binding);
        }
        if exists|i: int|
            0 <= i < all.len() && !has_room(#[trigger] all[i], room + 1) && all[i].binding_id@
                == binding {
            let i = choose|i: int|
                0 <= i < all.len() && !has_room(#[trigger] all[i], room + 1) && all[i].binding_id@
                    == binding;
            assert(list[i].window == common && list[i].binding_id == binding);
        }
    }
    assert(images.contains(binding) <==> exists|i: int|
        0 <= i < all.len() && !takes_images(#[trigger] all[i]) && all[i].binding_id@ == binding) by {
        if images.contains(binding) {
            let i = choose|i: int|
                0 <= i < list.len() && !(#[trigger] list[i]).image && list[i].binding_id == binding;
            assert(!takes_images(all[i]) && all[i].binding_id@ == binding);
        }
        if exists|i: int|
            0 <= i < all.len() && !takes_images(#[trigger] all[i]) && all[i].binding_id@
                == binding {
            let i = choose|i: int|
                0 <= i < all.len() && !takes_images(#[trigger] all[i]) && all[i].binding_id@
                    == binding;
            assert(!list[i].image && list[i].binding_id == binding);
        }
    }
    if images.contains(binding) {
        let i = choose|i: int|
            0 <= i < list.len() && !(#[trigger] list[i]).image && list[i].binding_id == binding;
        assert(some_image(list, false));
    }
}

/// Whether a preview names a binding under a limit.
pub open spec fn told_of(
    preview: CodexClientCapabilityPreviewV1,
    kind: CodexCandidateCapabilityLimitKindV1,
    binding: Seq<char>,
) -> bool {
    exists|k: int|
        0 <= k < preview->Available_limitations@.len() && (
        #[trigger] preview->Available_limitations@[k]).kind == kind && views_of(
            preview->Available_limitations@[k].binding_ids@,
        ).contains(binding)
}

proof fn lemma_limits(r: CodexClientCapabilityPreviewV1, list: Seq<Offer>)
    requires
        r is Available,
        r->Available_limitations@.map_values(
            |limit: CodexCandidateCapabilityLimitV1| limit_view(limit),
        ) == limitations_of(list),
    ensures
        forall|binding: Seq<char>|
            #![trigger told_of(r, CodexCandidateCapabilityLimitKindV1::ContextWindow, binding)]
            told_of(r, CodexCandidateCapabilityLimitKindV1::ContextWindow, binding) <==> wider(
                list,
                common_window(list),
            ) && bindings_with_window(list, common_window(list)).contains(binding),
        forall|binding: Seq<char>|
            #![trigger told_of(r, CodexCandidateCapabilityLimitKindV1::ImageInput, binding)]
            told_of(r, CodexCandidateCapabilityLimitKindV1::ImageInput, binding) <==> some_image(
                list,
                true,
            ) && some_image(list, false) && bindings_without_image(list).contains(binding),
{
    let limits = r->Available_limitations@;
    let told = limitations_of(list);
    assert(told.len() == limits.len());
    assert forall|k: int| 0 <= k < limits.len() implies told[k] == limit_view(
        #[trigger] limits[k],
    ) by {}
    assert forall|binding: Seq<char>|
        #![trigger told_of(r, CodexCandidateCapabilityLimitKindV1::ContextWindow, binding)]
        told_of(r, CodexCandidateCapabilityLimitKindV1::ContextWindow, binding) <==> wider(
            list,
            common_window(list),
        ) && bindings_with_window(list, common_window(list)).contains(binding) by {
        if wider(list, common_window(list)) {
            assert(told[0].kind == CodexCandidateCapabilityLimitKindV1::ContextWindow);
            assert(limits[0].kind == told[0].kind);
        }
    }
    assert forall|binding: Seq<char>|
        #![trigger told_of(r, CodexCandidateCapabilityLimitKindV1::ImageInput, binding)]
        told_of(r, CodexCandidateCapabilityLimitKindV1::ImageInput, binding) <==> some_image(
            list,
            true,
        ) && some_image(list, false) && bindings_without_image(list).contains(binding) by {
        if some_image(list, true) && some_image(list, false) {
            let at = told.len() - 1;
            assert(told[at].kind == CodexCandidateCapabilityLimitKindV1::ImageInput);
            assert(limits[at].kind == told[at].kind);
        }
    }
}

proof fn lemma_named(list: Seq<Offer>, chosen: spec_fn(Offer) -> bool, binding: Seq<char>)
    ensures
        in_order(
            list.filter(chosen).map_values(|offer: Offer| offer.binding_id),
        ).contains(binding) <==> exists|i: int|
            0 <= i < list.len() && chosen(#[trigger] list[i]) && list[i].binding_id == binding,
{
    let kept = list.filter(chosen);
    let names = kept.map_values(|offer: Offer| offer.binding_id);
    ordered_lists_hold_the_same(names);
    if names.contains(binding) {
        let k = choose|k: int| 0 <= k < names.len() && names[k] == binding;
        assert(kept.contains(kept[k]));
        list.lemma_filter_contains_rev(chosen, kept[k]);
        let i = choose|i: int| 0 <= i < list.len() && list[i] == kept[k];
        list.lemma_filter_pred(chosen, k);
        assert(chosen(list[i]) && list[i].binding_id == binding);
    }
    if exists|i: int|
        0 <= i < list.len() && chosen(#[trigger] list[i]) && list[i].binding_id == binding {
        let i = choose|i: int|
            0 <= i < list.len() && chosen(#[trigger] list[i]) && list[i].binding_id == binding;
        list.lemma_filter_contains(chosen, i);
        let k = choose|k: int| 0 <= k < kept.len() && kept[k] == list[i];
        assert(names[k] == binding);
    }
}

/// Whether a value is an object that says so of a name.
pub open spec fn says(json: JsonView, name: Seq<char>, value: JsonView) -> bool {
    json matches JsonView::Object(members) && members.contains_key(name) && members[name] == value
}

proof fn lemma_entry_says(plan: CatalogPlan, priority: i32, prompt: Seq<char>)
    requires
        entry_of_plan(plan, priority as int, prompt) is Some,
    ensures
        ({
            let entry = entry_of_plan(plan, priority as int, prompt)->0;
            let window = preview_of(plan)->Available_context_window;
            &&& says(entry, "slug"@, JsonView::Str(plan.alias@))
            &&& says(entry, "display_name"@, JsonView::Str(plan.display_name@))
            &&& says(entry, "description"@, JsonView::Str("HiRoute 路由计划："@ + plan.purpose@ + "；推理强度由计划配置决定"@))
            &&& says(entry, "visibility"@, JsonView::Str("list"@))
            &&& says(entry, "supported_in_api"@, JsonView::Bool(true))
            &&& says(entry, "priority"@, JsonView::Int(priority as int))
            &&& says(entry, "default_reasoning_level"@, JsonView::Null)
            &&& says(entry, "supported_reasoning_levels"@, JsonView::Array(Seq::empty()))
            &&& says(entry, "shell_type"@, JsonView::Str("shell_command"@))
            &&& says(entry, "apply_patch_tool_type"@, JsonView::Null)
            &&& says(entry, "context_window"@, JsonView::Int(window as int))
            &&& says(entry, "max_context_window"@, JsonView::Int(window as int))
            &&& says(entry, "auto_compact_token_limit"@, JsonView::Null)
            &&& says(entry, "effective_context_window_percent"@, JsonView::Int(95))
            &&& says(entry, "supports_reasoning_summary_parameter"@, JsonView::Bool(false))
            &&& says(entry, "default_reasoning_summary"@, JsonView::Str("none"@))
            &&& says(entry, "support_verbosity"@, JsonView::Bool(false))
            &&& says(entry, "default_verbosity"@, JsonView::Null)
            &&& says(entry, "supports_parallel_tool_calls"@, JsonView::Bool(false))
            &&& says(entry, "supports_image_detail_original"@, JsonView::Bool(false))
            &&& says(entry, "web_search_tool_type"@, JsonView::Str("text"@))
            &&& says(entry, "supports_search_tool"@, JsonView::Bool(false))
            &&& says(entry, "experimental_supported_tools"@, JsonView::Array(Seq::empty()))
            &&& says(entry, "use_responses_lite"@, JsonView::Bool(false))
            &&& says(entry, "tool_mode"@, JsonView::Str("direct"@))
            &&& says(entry, "include_skills_usage_instructions"@, JsonView::Bool(false))
            &&& says(entry, "include_plugin_usage_instructions"@, JsonView::Bool(false))
            &&& says(entry, "include_apps_usage_instructions"@, JsonView::Bool(false))
            &&& says(entry, "upgrade"@, JsonView::Null)
            &&& says(entry, "availability_nux"@, JsonView::Null)
            &&& says(entry, "comp_hash"@, JsonView::Null)
            &&& says(entry, "default_service_tier"@, JsonView::Null)
            &&& says(entry, "auto_review_model_override"@, JsonView::Null)
            &&& says(entry, "model_specialty"@, JsonView::Null)
            &&& says(entry, "multi_agent_version"@, JsonView::Null)
            &&& says(entry, "service_tiers"@, JsonView::Array(Seq::empty()))
            &&& says(entry, "additional_speed_tiers"@, JsonView::Array(Seq::empty()))
            &&& entry->Object_0.dom() == entry_names()
            &&& entry->Object_0["model_messages"@] == crate::agents::codex_catalog_plan::messages_view(prompt)
            &&& entry->Object_0["truncation_policy"@] == crate::agents::codex_catalog_plan::truncation_view()
            &&& entry->Object_0["input_modalities"@] == JsonView::Array(
                crate::agents::codex_catalog_plan::modality_names(
                    preview_of(plan)->Available_input_modalities,
                ),
            )
        }),
{
    reveal_strlit("slug");
    reveal_strlit("display_name");
    reveal_strlit("description");
    reveal_strlit("visibility");
    reveal_strlit("supported_in_api");
    reveal_strlit("priority");
    reveal_strlit("default_reasoning_level");
    reveal_strlit("supported_reasoning_levels");
    reveal_strlit("shell_type");
    reveal_strlit("apply_patch_tool_type");
    reveal_strlit("model_messages");
    reveal_strlit("truncation_policy");
    reveal_strlit("context_window");
    reveal_strlit("max_context_window");
    reveal_strlit("auto_compact_token_limit");
    reveal_strlit("effective_context_window_percent");
    reveal_strlit("supports_reasoning_summary_parameter");
    reveal_strlit("default_reasoning_summary");
    reveal_strlit("support_verbosity");
    reveal_strlit("default_verbosity");
    reveal_strlit("input_modalities");
    reveal_strlit("supports_parallel_tool_calls");
    reveal_strlit("supports_image_detail_original");
    reveal_strlit("web_search_tool_type");
    reveal_strlit("supports_search_tool");
    reveal_strlit("experimental_supported_tools");
    reveal_strlit("use_responses_lite");
    reveal_strlit("tool_mode");
    reveal_strlit("include_skills_usage_instructions");
    reveal_strlit("include_plugin_usage_instructions");
    reveal_strlit("include_apps_usage_instructions");
    reveal_strlit("upgrade");
    reveal_strlit("availability_nux");
    reveal_strlit("comp_hash");
    reveal_strlit("default_service_tier");
    reveal_strlit("auto_review_model_override");
    reveal_strlit("model_specialty");
    reveal_strlit("multi_agent_version");
    reveal_strlit("service_tiers");
    reveal_strlit("additional_speed_tiers");
    assert("slug"@.len() == 4);
    assert("display_name"@.len() == 12);
    assert("description"@.len() == 11);
    assert("visibility"@.len() == 10);
    assert("supported_in_api"@.len() == 16);
    assert("priority"@.len() == 8);
    assert("default_reasoning_level"@.len() == 23);
    assert("supported_reasoning_levels"@.len() == 26);
    assert("shell_type"@.len() == 10);
    assert("apply_patch_tool_type"@.len() == 21);
    assert("model_messages"@.len() == 14);
    assert("truncation_policy"@.len() == 17);
    assert("context_window"@.len() == 14);
    assert("max_context_window"@.len() == 18);
    assert("auto_compact_token_limit"@.len() == 24);
    assert("effective_context_window_percent"@.len() == 32);
    assert("supports_reasoning_summary_parameter"@.len() == 36);
    assert("default_reasoning_summary"@.len() == 25);
    assert("support_verbosity"@.len() == 17);
    assert("default_verbosity"@.len() == 17);
    assert("input_modalities"@.len() == 16);
    assert("supports_parallel_tool_calls"@.len() == 28);
    assert("supports_image_detail_original"@.len() == 30);
    assert("web_search_tool_type"@.len() == 20);
    assert("supports_search_tool"@.len() == 20);
    assert("experimental_supported_tools"@.len() == 28);
    assert("use_responses_lite"@.len() == 18);
    assert("tool_mode"@.len() == 9);
    assert("include_skills_usage_instructions"@.len() == 33);
    assert("include_plugin_usage_instructions"@.len() == 33);
    assert("include_apps_usage_instructions"@.len() == 31);
    assert("upgrade"@.len() == 7);
    assert("availability_nux"@.len() == 16);
    assert("comp_hash"@.len() == 9);
    assert("default_service_tier"@.len() == 20);
    assert("auto_review_model_override"@.len() == 26);
    assert("model_specialty"@.len() == 15);
    assert("multi_agent_version"@.len() == 19);
    assert("service_tiers"@.len() == 13);
    assert("additional_speed_tiers"@.len() == 22);
    assert("visibility"@[0] != "shell_type"@[0]);
    assert("supported_in_api"@[0] != "input_modalities"@[0]);
    assert("supported_in_api"@[0] != "availability_nux"@[0]);
    assert("supported_reasoning_levels"@[0] != "auto_review_model_override"@[0]);
    assert("model_messages"@[0] != "context_window"@[0]);
    assert("truncation_policy"@[0] != "support_verbosity"@[0]);
    assert("truncation_policy"@[0] != "default_verbosity"@[0]);
    assert("max_context_window"@[0] != "use_responses_lite"@[0]);
    assert("support_verbosity"@[0] != "default_verbosity"@[0]);
    assert("input_modalities"@[0] != "availability_nux"@[0]);
    assert("supports_parallel_tool_calls"@[0] != "experimental_supported_tools"@[0]);
    assert("web_search_tool_type"@[0] != "supports_search_tool"@[0]);
    assert("web_search_tool_type"@[0] != "default_service_tier"@[0]);
    assert("supports_search_tool"@[0] != "default_service_tier"@[0]);
    assert("tool_mode"@[0] != "comp_hash"@[0]);
    assert("include_skills_usage_instructions"@[8] != "include_plugin_usage_instructions"@[8]);
    let entry = entry_of_plan(plan, priority as int, prompt)->0;
    assert(entry->Object_0.dom() =~= entry_names());
}

pub open spec fn entry_names() -> Set<Seq<char>> {
    set![
        "slug"@,
        "display_name"@,
        "description"@,
        "visibility"@,
        "supported_in_api"@,
        "priority"@,
        "default_reasoning_level"@,
        "supported_reasoning_levels"@,
        "shell_type"@,
        "apply_patch_tool_type"@,
        "model_messages"@,
        "truncation_policy"@,
        "context_window"@,
        "max_context_window"@,
        "auto_compact_token_limit"@,
        "effective_context_window_percent"@,
        "supports_reasoning_summary_parameter"@,
        "default_reasoning_summary"@,
        "support_verbosity"@,
        "default_verbosity"@,
        "input_modalities"@,
        "supports_parallel_tool_calls"@,
        "supports_image_detail_original"@,
        "web_search_tool_type"@,
        "supports_search_tool"@,
        "experimental_supported_tools"@,
        "use_responses_lite"@,
        "tool_mode"@,
        "include_skills_usage_instructions"@,
        "include_plugin_usage_instructions"@,
        "include_apps_usage_instructions"@,
        "upgrade"@,
        "availability_nux"@,
        "comp_hash"@,
        "default_service_tier"@,
        "auto_review_model_override"@,
        "model_specialty"@,
        "multi_agent_version"@,
        "service_tiers"@,
        "additional_speed_tiers"@,
    ]
}

/// The entry of a plan, member by member: the plan's own names, the window and the modalities that
/// the plan is offered with, and nothing claimed that a route does not give: no reasoning levels,
/// no parallel tools, no search, no tiers.
pub proof fn entries_say_what_a_plan_offers(
    plan: &CatalogPlan,
    priority: i32,
    prompt: &str,
    r: Result<Json, CodexCatalogError>,
    preview: CodexClientCapabilityPreviewV1,
)
    requires
        call_ensures(plan_entry, (plan, priority, prompt), r),
        call_ensures(codex_plan_capability_preview, (plan,), preview),
    ensures
        r is Ok <==> preview is Available,
        r matches Err(error) ==> error == CodexCatalogError::CapabilityUnproven,
        r matches Ok(json) ==> {
            let entry = json@;
            let window = preview->Available_context_window;
            &&& says(entry, "slug"@, JsonView::Str(plan.alias@))
            &&& says(entry, "display_name"@, JsonView::Str(plan.display_name@))
            &&& says(entry, "description"@, JsonView::Str("HiRoute 路由计划："@ + plan.purpose@ + "；推理强度由计划配置决定"@))
            &&& says(entry, "visibility"@, JsonView::Str("list"@))
            &&& says(entry, "supported_in_api"@, JsonView::Bool(true))
            &&& says(entry, "priority"@, JsonView::Int(priority as int))
            &&& says(entry, "default_reasoning_level"@, JsonView::Null)
            &&& says(entry, "supported_reasoning_levels"@, JsonView::Array(Seq::empty()))
            &&& says(entry, "shell_type"@, JsonView::Str("shell_command"@))
            &&& says(entry, "apply_patch_tool_type"@, JsonView::Null)
            &&& says(entry, "context_window"@, JsonView::Int(window as int))
            &&& says(entry, "max_context_window"@, JsonView::Int(window as int))
            &&& says(entry, "auto_compact_token_limit"@, JsonView::Null)
            &&& says(entry, "effective_context_window_percent"@, JsonView::Int(95))
            &&& says(entry, "supports_reasoning_summary_parameter"@, JsonView::Bool(false))
            &&& says(entry, "default_reasoning_summary"@, JsonView::Str("none"@))
            &&& says(entry, "support_verbosity"@, JsonView::Bool(false))
            &&& says(entry, "default_verbosity"@, JsonView::Null)
            &&& says(entry, "supports_parallel_tool_calls"@, JsonView::Bool(false))
            &&& says(entry, "supports_image_detail_original"@, JsonView::Bool(false))
            &&& says(entry, "web_search_tool_type"@, JsonView::Str("text"@))
            &&& says(entry, "supports_search_tool"@, JsonView::Bool(false))
            &&& says(entry, "experimental_supported_tools"@, JsonView::Array(Seq::empty()))
            &&& says(entry, "use_responses_lite"@, JsonView::Bool(false))
            &&& says(entry, "tool_mode"@, JsonView::Str("direct"@))
            &&& says(entry, "include_skills_usage_instructions"@, JsonView::Bool(false))
            &&& says(entry, "include_plugin_usage_instructions"@, JsonView::Bool(false))
            &&& says(entry, "include_apps_usage_instructions"@, JsonView::Bool(false))
            &&& says(entry, "upgrade"@, JsonView::Null)
            &&& says(entry, "availability_nux"@, JsonView::Null)
            &&& says(entry, "comp_hash"@, JsonView::Null)
            &&& says(entry, "default_service_tier"@, JsonView::Null)
            &&& says(entry, "auto_review_model_override"@, JsonView::Null)
            &&& says(entry, "model_specialty"@, JsonView::Null)
            &&& says(entry, "multi_agent_version"@, JsonView::Null)
            &&& says(entry, "service_tiers"@, JsonView::Array(Seq::empty()))
            &&& says(entry, "additional_speed_tiers"@, JsonView::Array(Seq::empty()))
            &&& entry->Object_0.dom() == entry_names()
            &&& says(entry->Object_0["model_messages"@], "instructions_template"@, JsonView::Str(
                prompt@,
            ))
            &&& says(entry->Object_0["truncation_policy"@], "mode"@, JsonView::Str("bytes"@))
            &&& says(entry->Object_0["truncation_policy"@], "limit"@, JsonView::Int(10000))
            &&& entry->Object_0["input_modalities"@] matches JsonView::Array(told)
                && told.contains(JsonView::Str("text"@)) && (told.contains(JsonView::Str("image"@))
                <==> preview->Available_input_modalities@.contains(CodexInputModalityV1::Image))
        },
{
    if let Ok(json) = r {
        lemma_entry_says(*plan, priority, prompt@);
        plans_take_images_where_all_do(plan, preview);
        lemma_message_names();
        let modalities = preview->Available_input_modalities@;
        let told = json@->Object_0["input_modalities"@]->Array_0;
        assert(told.len() == modalities.len());
        reveal_strlit("text");
        reveal_strlit("image");
        assert("text"@.len() == 4 && "image"@.len() == 5);
        let t = choose|t: int| 0 <= t < modalities.len() && modalities[t] == CodexInputModalityV1::Text;
        assert(told[t] == JsonView::Str("text"@));
        if modalities.contains(CodexInputModalityV1::Image) {
            let i = choose|i: int|
                0 <= i < modalities.len() && modalities[i] == CodexInputModalityV1::Image;
            assert(told[i] == JsonView::Str("image"@));
        }
        if told.contains(JsonView::Str("image"@)) {
            let i = choose|i: int| 0 <= i < told.len() && told[i] == JsonView::Str("image"@);
            assert(modalities[i] == CodexInputModalityV1::Image);
        }
    }
}

proof fn lemma_message_names()
    ensures
        "instructions_template"@ != "instructions_variables"@,
        "instructions_template"@ != "approvals"@,
        "instructions_template"@ != "collaboration_modes"@,
        "instructions_template"@ != "auto_review"@,
        "instructions_template"@ != "permissions"@,
        "instructions_template"@ != "token_budget"@,
        "mode"@ != "limit"@,
{
    reveal_strlit("instructions_template");
    reveal_strlit("instructions_variables");
    reveal_strlit("approvals");
    reveal_strlit("collaboration_modes");
    reveal_strlit("auto_review");
    reveal_strlit("permissions");
    reveal_strlit("token_budget");
    reveal_strlit("mode");
    reveal_strlit("limit");
    assert("instructions_template"@.len() == 21);
    assert("instructions_variables"@.len() == 22);
    assert("approvals"@.len() == 9);
    assert("collaboration_modes"@.len() == 19);
    assert("auto_review"@.len() == 11);
    assert("permissions"@.len() == 11);
    assert("token_budget"@.len() == 12);
    assert("mode"@.len() == 4);
    assert("limit"@.len() == 5);
    assert("auto_review"@[0] != "permissions"@[0]);
}

proof fn lemma_entries(plans: Seq<CatalogPlan>, last: int, prompt: Seq<char>, k: int)
    requires
        entries_of_plans(plans, last, prompt) is Some,
        0 <= k < plans.len(),
    ensures
        entries_of_plans(plans, last, prompt)->0.len() == plans.len(),
        entry_of_plan(plans[k], last + k + 1, prompt) == Some(
            entries_of_plans(plans, last, prompt)->0[k],
        ),
    decreases plans.len(),
{
    let rest = plans.drop_last();
    if rest.len() == 0 {
        assert(entries_of_plans(rest, last, prompt) == Some(Seq::<JsonView>::empty()));
    } else {
        lemma_entries(rest, last, prompt, 0);
    }
    if k < rest.len() {
        assert(rest[k] == plans[k]);
        lemma_entries(rest, last, prompt, k);
    }
}

/// Plans come behind the entries that a catalog keeps, in their order, each under its alias and
/// with the next priority. Of its own entries a catalog keeps exactly those whose names are to be
/// kept, and all where none are named.
pub proof fn plans_come_behind_what_is_kept(
    catalog: JsonView,
    source: CodexCatalogMetadataSourceV1,
    retained: Option<Seq<Seq<char>>>,
    plans: Seq<CatalogPlan>,
    last: int,
    prompt: Seq<char>,
    k: int,
)
    requires
        catalog_models(catalog) is Some,
        merged_catalog(catalog, source, retained, plans, last, prompt) is Ok,
        i32::MIN <= last,
        last + plans.len() <= i32::MAX,
        0 <= k < plans.len(),
    ensures
        ({
            let merged = merged_catalog(catalog, source, retained, plans, last, prompt)->Ok_0;
            let own = catalog_models(catalog)->0;
            let after = catalog_models(merged)->0;
            let kept = after.len() - plans.len();
            &&& catalog_models(merged) is Some
            &&& 0 <= kept <= own.len()
            &&& says(after[kept + k], "slug"@, JsonView::Str(plans[k].alias@))
            &&& says(after[kept + k], "priority"@, JsonView::Int(last + k + 1))
            &&& preview_of(plans[k]) is Available
            &&& source != CodexCatalogMetadataSourceV1::TargetCache ==> forall|model: JsonView|
                after.take(kept).contains(model) <==> own.contains(model) && (
                retained matches Some(names) ==> exists|name: Seq<char>|
                    #![trigger names.contains(name)]
                    names.contains(name) && says(model, "slug"@, JsonView::Str(name)))
        }),
{
    let merged = merged_catalog(catalog, source, retained, plans, last, prompt)->Ok_0;
    let own = catalog_models(catalog)->0;
    let native = native_models(own, source, retained)->0;
    let entries = entries_of_plans(plans, last, prompt)->0;
    let after = native + entries;
    assert(catalog_models(merged) == Some(after));
    lemma_entries(plans, last, prompt, k);
    assert(after[native.len() + k] == entries[k]);
    lemma_entry_says(plans[k], (last + k + 1) as i32, prompt);
    let keep = |model: JsonView| crate::agents::codex_catalog_plan::is_retained(model, retained);
    own.lemma_filter_len(keep);
    assert(retained_models(own, retained) == own.filter(keep));
    assert(after.take(native.len() as int) =~= native);
    if source != CodexCatalogMetadataSourceV1::TargetCache {
        assert forall|model: JsonView|
            after.take(native.len() as int).contains(model) <==> own.contains(model) && (
            retained matches Some(names) ==> exists|name: Seq<char>|
                #![trigger names.contains(name)]
                names.contains(name) && says(model, "slug"@, JsonView::Str(name))) by {
            if native.contains(model) {
                own.lemma_filter_contains_rev(keep, model);
                let i = choose|i: int| 0 <= i < native.len() && native[i] == model;
                own.lemma_filter_pred(keep, i);
                if let Some(names) = retained {
                    let name = model->Object_0["slug"@]->Str_0;
                    assert(names.contains(name) && says(model, "slug"@, JsonView::Str(name)));
                }
            }
            if own.contains(model) && keep(model) {
                let i = choose|i: int| 0 <= i < own.len() && own[i] == model;
                own.lemma_filter_contains(keep, i);
            }
        }
    }
}

/// A target's own cache leaves out what its reader takes as given: a kept entry takes parallel
/// tools unless it says otherwise, and is otherwise as it was.
pub proof fn cached_entries_take_parallel_tools(
    catalog: JsonView,
    plans: Seq<CatalogPlan>,
    last: int,
    prompt: Seq<char>,
    at: int,
)
    requires
        catalog_models(catalog) is Some,
        0 <= at < catalog_models(catalog)->0.len(),
        merged_catalog(
            catalog,
            CodexCatalogMetadataSourceV1::TargetCache,
            None,
            plans,
            last,
            prompt,
        ) is Ok,
    ensures
        ({
            let merged = merged_catalog(
                catalog,
                CodexCatalogMetadataSourceV1::TargetCache,
                None,
                plans,
                last,
                prompt,
            )->Ok_0;
            let own = catalog_models(catalog)->0[at];
            let after = catalog_models(merged)->0[at];
            let name = "supports_parallel_tool_calls"@;
            &&& own is Object && after is Object
            &&& own->Object_0.contains_key(name) ==> after == own
            &&& !own->Object_0.contains_key(name) ==> says(after, name, JsonView::Bool(true))
                && after->Object_0.remove(name) == own->Object_0
        }),
{
    let own = catalog_models(catalog)->0;
    let keep = |model: JsonView| crate::agents::codex_catalog_plan::is_retained(model, None);
    lemma_all_kept(own);
    let source = CodexCatalogMetadataSourceV1::TargetCache;
    let native = native_models(own, source, None)->0;
    let merged = merged_catalog(catalog, source, None, plans, last, prompt)->Ok_0;
    let entries = entries_of_plans(plans, last, prompt)->0;
    assert(catalog_models(merged) == Some(native + entries));
    assert(native[at] == with_parallel_tools(own[at]));
    assert(retained_models(own, None)[at] is Object);
    let name = "supports_parallel_tool_calls"@;
    if !own[at]->Object_0.contains_key(name) {
        assert(native[at]->Object_0.remove(name) =~= own[at]->Object_0);
    }
}

proof fn lemma_all_kept(models: Seq<JsonView>)
    ensures
        retained_models(models, None) == models,
    decreases models.len(),
{
    reveal(Seq::filter);
    if models.len() > 0 {
        lemma_all_kept(models.drop_last());
        assert(models =~= models.drop_last().push(models.last()));
    } else {
        assert(retained_models(models, None) =~= models);
    }
}

/// What an ordinary conversation asks of a candidate: text, instructions in every place, function
/// tools with text and JSON results, one call at a time, and streaming; images, by address and
/// inline, in the usual four types, only where asked for.
pub proof fn conversations_ask_for_what_the_client_sends(
    image: bool,
    r: RequestCapabilityRequirements,
)
    requires
        call_ensures(requirements, (image,), r),
    ensures
        r.ingress_protocol == IngressProtocol::Responses,
        r.text && r.initial_instructions && r.mid_conversation_instructions,
        r.function_tools && r.tool_roundtrip && r.tool_result_text && r.tool_result_json,
        r.logical_tool_id_mapping,
        r.streaming && r.stream_text && r.stream_tool_arguments && r.stream_usage,
        !r.strict_tools && !r.parallel_tools && !r.stream_reasoning && !r.provider_state,
        r.image_url == image && r.image_base64 == image,
        views_of(r.image_media_types@).contains("image/jpeg"@) == image,
        views_of(r.image_media_types@).contains("image/png"@) == image,
        views_of(r.image_media_types@).contains("image/gif"@) == image,
        views_of(r.image_media_types@).contains("image/webp"@) == image,
        r.image_media_types@.len() == if image { 4int } else { 0 },
{
    let told = views_of(r.image_media_types@);
    assert(told.len() == r.image_media_types@.len());
    if image {
        assert(told[0] == "image/jpeg"@ && told[1] == "image/png"@ && told[2] == "image/gif"@
            && told[3] == "image/webp"@);
    }
}

/// A private worker's catalog holds the one plan of its task, first of all.
pub proof fn workers_see_their_own_plan(plan: CatalogPlan, prompt: Seq<char>)
    requires
        preview_of(plan) is Available,
    ensures
        worker_catalog_view(plan, prompt) matches Some(catalog) && {
            &&& catalog_models(catalog) matches Some(models) && models.len() == 1 && says(
                models[0],
                "slug"@,
                JsonView::Str(plan.alias@),
            ) && says(models[0], "priority"@, JsonView::Int(0))
            &&& catalog->Object_0.dom() == set!["models"@]
        },
{
    lemma_entry_says(plan, 0, prompt);
    assert(worker_catalog_view(plan, prompt)->0->Object_0.dom() =~= set!["models"@]);
}

} // verus!
