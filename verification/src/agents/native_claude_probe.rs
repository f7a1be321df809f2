//! The explicit check of ClaudeCode: what it is started with, how long it may run, and the
//! evidence that it leaves.
//!
//! The installation runs against a private endpoint with a home and settings of its own. Evidence
//! holds for the very binary that was checked, and for a while.

use vstd::prelude::*;
use crate::agents::claude_config::{shell_quote, shell_quoted};
use crate::agents::claude_files::{named, own_name};
use crate::agents::collaboration_probe::texted;
use crate::agents::discovery::{
    evidence_view, AgentCapability, CapabilityEvidence, CapabilityState, EvidenceView,
};
use crate::digest::CanonicalDigest;
use crate::json::{
    array_view, canonical_digest, canonical_digest_of, compact_json, lemma_array_view,
    put_member, to_bytes, Json, JsonView,
};
use crate::text::views_of;

verus! {

/// The contract that a check proves.
pub open spec fn contract() -> Seq<char> {
    "hiroute."@ + (own_name() + "-native-messages/v1"@)
}

pub fn contract_text() -> (r: String)
    ensures
        r@ == contract(),
{
    let mut text = "hiroute.".to_owned();
    text.append(named("-native-messages/v1").as_str());
    text
}

pub const MARKER: &'static str = "hiroute-native-probe-no-authority";

pub const MODEL: &'static str = "hiroute/0011223344556677";

/// The connection that a check names.
pub open spec fn connection() -> Seq<char> {
    "agent-connection/"@ + (own_name() + "/native-probe"@)
}

pub fn connection_text() -> (r: String)
    ensures
        r@ == connection(),
{
    let mut text = "agent-connection/".to_owned();
    text.append(named("/native-probe").as_str());
    text
}

/// How many requests a check takes.
pub const REQUEST_COUNT_LIMIT: u32 = 8;

/// How long, in milliseconds, a check may take.
pub const CHECK_DEADLINE_MS: u64 = 45_000;

/// How many bytes a checked process may print.
pub const PRINTED_LIMIT: u64 = 131_072;

/// How long, in milliseconds, evidence holds.
pub const EVIDENCE_LIFETIME_MS: u64 = 300_000;

/// The helper that a checked process asks for its credential. It answers only for the verb and the
/// connection of the check.
pub open spec fn helper_script_of(verb: Seq<char>) -> Seq<char> {
    "#!/bin/sh\n[ \"$1\" = '"@ + verb + "' ] || exit 2\n[ \"$2\" = '"@ + connection()
        + "' ] || exit 3\nprintf '%s\\n' '"@ + MARKER@ + "'\n"@
}

pub fn helper_script(verb: &str) -> (r: String)
    ensures
        r@ == helper_script_of(verb@),
{
    let mut text = "#!/bin/sh\n[ \"$1\" = '".to_owned();
    text.append(verb);
    text.append("' ] || exit 2\n[ \"$2\" = '");
    text.append(connection_text().as_str());
    text.append("' ] || exit 3\nprintf '%s\\n' '");
    text.append(MARKER);
    text.append("'\n");
    text
}

/// The settings of a check: its helper, its endpoint and its model.
pub open spec fn settings_of_check(
    helper: Seq<char>,
    verb: Seq<char>,
    endpoint: Seq<char>,
) -> JsonView {
    JsonView::Object(
        map![
            "apiKeyHelper"@ => JsonView::Str(
                shell_quoted(helper) + " "@ + shell_quoted(verb) + " "@ + shell_quoted(connection()),
            ),
            "env"@ => JsonView::Object(
                map![
                    "ANTHROPIC_BASE_URL"@ => JsonView::Str(endpoint),
                    "ANTHROPIC_MODEL"@ => JsonView::Str(MODEL@),
                ],
            ),
        ],
    )
}

pub fn check_settings(helper: &str, verb: &str, endpoint: &str) -> (r: Vec<u8>)
    ensures
        r@ == compact_json(settings_of_check(helper@, verb@, endpoint@)),
{
    let mut command = shell_quote(helper);
    command.append(" ");
    command.append(shell_quote(verb).as_str());
    command.append(" ");
    command.append(shell_quote(connection_text().as_str()).as_str());
    let mut env: Vec<(String, Json)> = Vec::new();
    texted(&mut env, "ANTHROPIC_BASE_URL", endpoint);
    texted(&mut env, "ANTHROPIC_MODEL", MODEL);
    let mut members: Vec<(String, Json)> = Vec::new();
    texted(&mut members, "apiKeyHelper", command.as_str());
    put_member(&mut members, "env", Json::Object(env));
    to_bytes(&Json::Object(members))
}

/// The arguments of a check; a collaboration brings a plugin, a shell tool and the skill's name.
pub open spec fn check_arguments_of(settings: Seq<char>, plugin: Option<Seq<char>>) -> Seq<
    Seq<char>,
> {
    let start = seq![
        "--bare"@,
        "--print"@,
        "--no-session-persistence"@,
        "--setting-sources"@,
        ""@,
        "--settings"@,
        settings,
        "--tools"@,
        if plugin is Some {
            "Bash"@
        } else {
            ""@
        },
        "--strict-mcp-config"@,
        "--mcp-config"@,
        "{\"mcpServers\":{}}"@,
        "--no-chrome"@,
        "--permission-mode"@,
        "dontAsk"@,
        "--output-format"@,
        "json"@,
    ];
    match plugin {
        Some(plugin) => start + seq![
            "--plugin-dir"@,
            plugin,
            "--allowedTools"@,
            "Bash"@,
            "--permission-mode"@,
            "dontAsk"@,
            "/hiroute-native-probe:hiroute-probe"@,
        ],
        None => start + seq!["Reply with OK only. Do not use tools."@],
    }
}

pub fn check_arguments(settings: &str, plugin: Option<&str>) -> (r: Vec<String>)
    ensures
        views_of(r@) == check_arguments_of(
            settings@,
            match plugin {
                Some(plugin) => Some(plugin@),
                None => None,
            },
        ),
{
    let mut out: Vec<String> = Vec::new();
    out.push("--bare".to_owned());
    out.push("--print".to_owned());
    out.push("--no-session-persistence".to_owned());
    out.push("--setting-sources".to_owned());
    out.push("".to_owned());
    out.push("--settings".to_owned());
    out.push(settings.to_owned());
    out.push("--tools".to_owned());
    match plugin {
        Some(_) => {
            out.push("Bash".to_owned());
        },
        None => {
            out.push("".to_owned());
        },
    }
    out.push("--strict-mcp-config".to_owned());
    out.push("--mcp-config".to_owned());
    out.push("{\"mcpServers\":{}}".to_owned());
    out.push("--no-chrome".to_owned());
    out.push("--permission-mode".to_owned());
    out.push("dontAsk".to_owned());
    out.push("--output-format".to_owned());
    out.push("json".to_owned());
    match plugin {
        Some(plugin) => {
            out.push("--plugin-dir".to_owned());
            out.push(plugin.to_owned());
            out.push("--allowedTools".to_owned());
            out.push("Bash".to_owned());
            out.push("--permission-mode".to_owned());
            out.push("dontAsk".to_owned());
            out.push("/hiroute-native-probe:hiroute-probe".to_owned());
        },
        None => {
            out.push("Reply with OK only. Do not use tools.".to_owned());
        },
    }
    assert(views_of(out@) =~= check_arguments_of(
        settings@,
        match plugin {
            Some(plugin) => Some(plugin@),
            None => None,
        },
    ));
    out
}

/// A check while it runs: how many requests came, and whether one of them was an authenticated
/// message.
#[derive(Clone, Copy, Debug, PartialEq, Eq, Structural)]
pub struct ClaudeNativeIngressProbe {
    pub requests: u32,
    pub authenticated: bool,
}

/// What a look at a check shows.
#[derive(Clone, Copy, Debug, PartialEq, Eq, Structural)]
pub enum CheckLook {
    Running { elapsed_ms: u64, printed: u64 },
    Ended { success: bool },
}

impl ClaudeNativeIngressProbe {
    pub open spec fn wf(self) -> bool {
        self.requests <= REQUEST_COUNT_LIMIT
    }

    pub fn start() -> (r: Self)
        ensures
            r.wf(),
            r.requests == 0,
            !r.authenticated,
    {
        ClaudeNativeIngressProbe { requests: 0, authenticated: false }
    }

    /// One more request arrives.
    pub fn on_request(&mut self) -> (r: Result<(), &'static str>)
        requires
            old(self).wf(),
        ensures
            final(self).wf(),
            final(self).authenticated == old(self).authenticated,
            if old(self).requests < REQUEST_COUNT_LIMIT {
                r is Ok && final(self).requests == old(self).requests + 1
            } else {
                r matches Err(context) && context@ == "request bound"@ && *final(self) == *old(self)
            },
    {
        if self.requests >= REQUEST_COUNT_LIMIT {
            return Err("request bound");
        }
        self.requests = self.requests + 1;
        Ok(())
    }

    /// A request was answered; whether it was an authenticated message.
    pub fn on_served(&mut self, message: bool)
        ensures
            final(self).requests == old(self).requests,
            final(self).authenticated == (old(self).authenticated || message),
    {
        self.authenticated = self.authenticated || message;
    }

    /// Judges a look: whether the check is over. It succeeds only with a process that ended well
    /// after an authenticated message, and with its challenge complete.
    pub fn on_look(&self, look: CheckLook, challenge_complete: bool) -> (r: Result<
        bool,
        &'static str,
    >)
        ensures
            match look {
                CheckLook::Ended { success } => if success && self.authenticated
                    && challenge_complete {
                    r matches Ok(over) && over
                } else {
                    r matches Err(context) && context@ == "authenticated native completion"@
                },
                CheckLook::Running { elapsed_ms, printed } => if elapsed_ms > CHECK_DEADLINE_MS {
                    r matches Err(context) && context@ == "deadline"@
                } else if printed > PRINTED_LIMIT {
                    r matches Err(context) && context@ == "output bound"@
                } else {
                    r matches Ok(over) && !over
                },
            },
    {
        match look {
            CheckLook::Ended { success } => {
                if success && self.authenticated && challenge_complete {
                    Ok(true)
                } else {
                    Err("authenticated native completion")
                }
            },
            CheckLook::Running { elapsed_ms, printed } => {
                if elapsed_ms > CHECK_DEADLINE_MS {
                    Err("deadline")
                } else if printed > PRINTED_LIMIT {
                    Err("output bound")
                } else {
                    Ok(false)
                }
            },
        }
    }
}

/// The evidence of a check.
#[derive(Debug)]
pub struct ClaudeIngressEvidence {
    pub binary: CanonicalDigest,
    pub observed_at: u64,
    pub collaboration: bool,
}

/// The first place of a capability in a list.
pub open spec fn first_of(list: Seq<EvidenceView>, capability: AgentCapability) -> Option<int>
    decreases list.len(),
{
    if list.len() == 0 {
        None
    } else {
        match first_of(list.drop_last(), capability) {
            Some(i) => Some(i),
            None => if list.last().capability == capability {
                Some(list.len() - 1)
            } else {
                None
            },
        }
    }
}

proof fn lemma_first_of(list: Seq<EvidenceView>, capability: AgentCapability, k: int)
    requires
        0 <= k <= list.len(),
        first_of(list.take(k), capability) is Some,
    ensures
        first_of(list, capability) == first_of(list.take(k), capability),
    decreases list.len() - k,
{
    if k < list.len() {
        assert(list.take(k + 1).drop_last() == list.take(k));
        lemma_first_of(list, capability, k + 1);
    } else {
        assert(list.take(k) == list);
    }
}

fn find_first(list: &Vec<CapabilityEvidence>, capability: AgentCapability) -> (r: Option<usize>)
    ensures
        match r {
            Some(i) => i < list@.len() && first_of(evidence_view(list@), capability) == Some(
                i as int,
            ),
            None => first_of(evidence_view(list@), capability) is None,
        },
{
    let ghost all = evidence_view(list@);
    let mut i: usize = 0;
    assert(all.take(0) == Seq::<EvidenceView>::empty());
    while i < list.len()
        invariant
            i <= list.len(),
            all == evidence_view(list@),
            first_of(all.take(i as int), capability) is None,
        decreases list.len() - i,
    {
        proof {
            assert(all[i as int] == list@[i as int]@);
            assert(all.take(i + 1).drop_last() == all.take(i as int));
            assert(all.take(i + 1).last() == all[i as int]);
        }
        if list[i].capability == capability {
            proof {
                lemma_first_of(all, capability, i + 1);
            }
            return Some(i);
        }
        i += 1;
    }
    assert(all.take(i as int) == all);
    None
}

/// The identity of an installation with evidence attached.
pub open spec fn attached_identity(digest: Seq<char>, evidence: ClaudeIngressEvidence) -> Seq<char> {
    canonical_digest_of(
        JsonView::Array(
            seq![
                JsonView::Str(contract()),
                JsonView::Str(digest),
                JsonView::Str(evidence.binary@),
                JsonView::Int(evidence.observed_at as int),
            ],
        ),
    )
}

/// Whether evidence proves the capability at a place: authentication at its first place, and in a
/// collaboration also the loading of skills and the running of the command.
pub open spec fn proves(
    evidence: ClaudeIngressEvidence,
    item: EvidenceView,
    i: int,
    first: int,
) -> bool {
    i == first || (evidence.collaboration && (item.capability == AgentCapability::SkillLoading
        || item.capability == AgentCapability::TrustedCliExecution))
}

pub open spec fn attached_item(
    evidence: ClaudeIngressEvidence,
    item: EvidenceView,
    i: int,
    first: int,
    digest: Seq<char>,
) -> EvidenceView {
    if proves(evidence, item, i, first) {
        EvidenceView {
            capability: item.capability,
            state: CapabilityState::Proven,
            reason: None,
            adapter_contract: contract(),
            observed_at_unix_ms: evidence.observed_at,
            dependency_digest: digest,
        }
    } else {
        EvidenceView { dependency_digest: digest, ..item }
    }
}

/// Whether evidence still holds: it is fresh, and the binary is the one that was checked.
pub open spec fn holds(
    evidence: ClaudeIngressEvidence,
    elapsed_ms: u64,
    binary: Option<Seq<char>>,
) -> bool {
    elapsed_ms <= EVIDENCE_LIFETIME_MS && binary == Some(evidence.binary@)
}

/// Whether evidence was attached, or nothing changed.
pub open spec fn is_attached(
    evidence: ClaudeIngressEvidence,
    applies: bool,
    digest: Seq<char>,
    list: Seq<EvidenceView>,
    new_digest: Seq<char>,
    new_list: Seq<EvidenceView>,
) -> bool {
    let first = first_of(list, AgentCapability::IngressAuthentication);
    if !applies || first is None {
        new_digest == digest && new_list == list
    } else {
        &&& new_digest == attached_identity(digest, evidence)
        &&& new_list.len() == list.len()
        &&& forall|i: int|
            0 <= i < list.len() ==> #[trigger] new_list[i] == attached_item(
                evidence,
                list[i],
                i,
                first->0,
                attached_identity(digest, evidence),
            )
    }
}

pub open spec fn binary_view(binary: Option<&CanonicalDigest>) -> Option<Seq<char>> {
    match binary {
        Some(binary) => Some(binary@),
        None => None,
    }
}

impl ClaudeIngressEvidence {
    /// Attaches the evidence to an installation that has its binary still.
    pub fn attach(
        &self,
        elapsed_ms: u64,
        binary: Option<&CanonicalDigest>,
        digest: &mut CanonicalDigest,
        list: &mut Vec<CapabilityEvidence>,
    )
        ensures
            is_attached(
                *self,
                holds(*self, elapsed_ms, binary_view(binary)),
                old(digest)@,
                evidence_view(old(list)@),
                final(digest)@,
                evidence_view(final(list)@),
            ),
    {
        if elapsed_ms > EVIDENCE_LIFETIME_MS {
            return;
        }
        match binary {
            Some(binary) => {
                if !binary.equals(&self.binary) {
                    return;
                }
            },
            None => {
                return;
            },
        }
        let first = match find_first(list, AgentCapability::IngressAuthentication) {
            Some(first) => first,
            None => {
                return;
            },
        };
        let ghost before = evidence_view(list@);
        let mut parts: Vec<Json> = Vec::new();
        parts.push(Json::Str(contract_text()));
        parts.push(Json::Str(digest.as_str().to_owned()));
        parts.push(Json::Str(self.binary.as_str().to_owned()));
        parts.push(Json::Pos(self.observed_at));
        proof {
            lemma_array_view(parts@);
            assert(array_view(parts@) =~= seq![
                JsonView::Str(contract()),
                JsonView::Str(digest@),
                JsonView::Str(self.binary@),
                JsonView::Int(self.observed_at as int),
            ]);
        }
        *digest = canonical_digest(&Json::Array(parts));
        let ghost identity = digest@;
        let mut i: usize = 0;
        while i < list.len()
            invariant
                i <= list.len(),
                list@.len() == before.len(),
                digest@ == identity,
                first < before.len(),
                forall|j: int|
                    0 <= j < i ==> #[trigger] evidence_view(list@)[j] == attached_item(
                        *self,
                        before[j],
                        j,
                        first as int,
                        identity,
                    ),
                forall|j: int|
                    i <= j < before.len() ==> #[trigger] evidence_view(list@)[j] == before[j],
            decreases list.len() - i,
        {
            let ghost start = evidence_view(list@);
            assert(start[i as int] == list@[i as int]@);
            let capability = list[i].capability;
            let proven = i == first || (self.collaboration && (capability
                == AgentCapability::SkillLoading || capability
                == AgentCapability::TrustedCliExecution));
            let item = if proven {
                CapabilityEvidence {
                    capability,
                    state: CapabilityState::Proven,
                    reason: None,
                    adapter_contract: contract_text(),
                    observed_at_unix_ms: self.observed_at,
                    dependency_digest: digest.copied(),
                }
            } else {
                CapabilityEvidence {
                    capability,
                    state: list[i].state,
                    reason: list[i].reason,
                    adapter_contract: list[i].adapter_contract.clone(),
                    observed_at_unix_ms: list[i].observed_at_unix_ms,
                    dependency_digest: digest.copied(),
                }
            };
            let ghost made = item@;
            list.set(i, item);
            proof {
                assert(evidence_view(list@) =~= start.update(i as int, made));
                assert(made == attached_item(
                    *self,
                    before[i as int],
                    i as int,
                    first as int,
                    identity,
                ));
            }
            i += 1;
        }
    }

    /// Attaches evidence of authentication alone: that of a collaboration is for collaborations.
    pub fn attach_authentication(
        &self,
        elapsed_ms: u64,
        binary: Option<&CanonicalDigest>,
        digest: &mut CanonicalDigest,
        list: &mut Vec<CapabilityEvidence>,
    )
        ensures
            is_attached(
                *self,
                !self.collaboration && holds(*self, elapsed_ms, binary_view(binary)),
                old(digest)@,
                evidence_view(old(list)@),
                final(digest)@,
                evidence_view(final(list)@),
            ),
    {
        if !self.collaboration {
            self.attach(elapsed_ms, binary, digest, list);
        }
    }

    /// Attaches evidence of a collaboration.
    pub fn attach_collaboration(
        &self,
        elapsed_ms: u64,
        binary: Option<&CanonicalDigest>,
        digest: &mut CanonicalDigest,
        list: &mut Vec<CapabilityEvidence>,
    )
        ensures
            is_attached(
                *self,
                self.collaboration && holds(*self, elapsed_ms, binary_view(binary)),
                old(digest)@,
                evidence_view(old(list)@),
                final(digest)@,
                evidence_view(final(list)@),
            ),
    {
        if self.collaboration {
            self.attach(elapsed_ms, binary, digest, list);
        }
    }
}

/// Evidence of another binary, or evidence that is too old, proves nothing: what was not proven
/// before is not proven after.
pub proof fn evidence_is_bound_to_its_binary(
    evidence: ClaudeIngressEvidence,
    elapsed_ms: u64,
    binary: Option<Seq<char>>,
    digest: Seq<char>,
    list: Seq<EvidenceView>,
    new_digest: Seq<char>,
    new_list: Seq<EvidenceView>,
)
    requires
        binary != Some(evidence.binary@) || elapsed_ms > EVIDENCE_LIFETIME_MS,
        is_attached(
            evidence,
            holds(evidence, elapsed_ms, binary),
            digest,
            list,
            new_digest,
            new_list,
        ),
    ensures
        new_digest == digest,
        new_list == list,
{
}

/// Evidence of authentication never proves that an agent loads skills or runs the command.
pub proof fn authentication_proves_no_collaboration(
    evidence: ClaudeIngressEvidence,
    applies: bool,
    digest: Seq<char>,
    list: Seq<EvidenceView>,
    new_digest: Seq<char>,
    new_list: Seq<EvidenceView>,
    i: int,
)
    requires
        !evidence.collaboration,
        is_attached(evidence, applies, digest, list, new_digest, new_list),
        0 <= i < list.len(),
        list[i].capability == AgentCapability::SkillLoading || list[i].capability
            == AgentCapability::TrustedCliExecution,
    ensures
        new_list[i].state == list[i].state,
        new_list[i].reason == list[i].reason,
{
    lemma_first_is_found(list, AgentCapability::IngressAuthentication);
}

proof fn lemma_first_is_found(list: Seq<EvidenceView>, capability: AgentCapability)
    ensures
        first_of(list, capability) matches Some(i) ==> 0 <= i < list.len() && list[i].capability
            == capability,
    decreases list.len(),
{
    if list.len() > 0 {
        lemma_first_is_found(list.drop_last(), capability);
    }
}

} // verus!
