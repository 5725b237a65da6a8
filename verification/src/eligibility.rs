//! Which workspaces may be navigated.
//!
//! Agents owns label resolution. This module validates its fresh bulk snapshot and
//! reconciles Beacon history with it. A failed exchange is durable uncertainty,
//! never an empty policy or evidence that work was read.

use vstd::prelude::*;
use crate::error::BeaconError;
use crate::herdr::HerdrClient;
use crate::json::{flag_in, number_in, read_json, show_json, text_in, texts_in, Json, JsonView};
use crate::ledger::{Ledger, Policy};
use crate::model::{AgentObservation, BeaconState};
use crate::socket::normalize_socket;
use crate::text::{before, blank, contains_text, holds_control, same};

verus! {

/// The version of the policy protocol.
pub const POLICY_VERSION: u64 = 1;

/// The most workspaces that a policy can exclude.
pub const MAX_EXCLUDED: usize = 1984;

/// The longest reply, newline included.
pub const MAX_REPLY: usize = 262144;

/// Only a validated, session-bound snapshot may classify an observation. Display
/// visibility is deliberately absent from this interface: it cannot grant access.
#[derive(Clone, Debug)]
pub struct WorkspacePolicy {
    session: String,
    labels: Vec<String>,
    workspaces: Vec<String>,
    excluded: Vec<String>,
}

impl View for WorkspacePolicy {
    type V = Policy;

    closed spec fn view(&self) -> Policy {
        Policy {
            session: self.session@,
            labels: crate::text::texts(self.labels@),
            workspaces: crate::text::texts(self.workspaces@),
            excluded: crate::text::texts(self.excluded@),
        }
    }
}

/// A policy reply as Agents sends it.
pub struct Reply {
    pub ok: bool,
    pub version: u64,
    pub herdr_socket: Seq<char>,
    pub excluded_labels: Seq<Seq<char>>,
    pub workspace_ids: Seq<Seq<char>>,
    pub excluded_workspace_ids: Seq<Seq<char>>,
    pub show_excluded: bool,
}

/// The reply that a JSON value describes.
pub open spec fn reply_at(value: JsonView) -> Option<Reply> {
    let ok = crate::json::flag_at(value.part(0, "ok"@));
    let version = crate::json::number_at(value.part(1, "version"@));
    let herdr_socket = crate::json::text_at(value.part(2, "herdr_socket"@));
    let excluded_labels = crate::json::texts_at(value.part(3, "excluded_labels"@));
    let workspace_ids = crate::json::texts_at(value.part(4, "workspace_ids"@));
    let excluded_workspace_ids = crate::json::texts_at(value.part(5, "excluded_workspace_ids"@));
    let show_excluded = crate::json::flag_at(value.part(6, "show_excluded"@));
    if value.is_record(7, 7) && ok is Some && version is Some && version->0 <= u32::MAX
        && herdr_socket is Some && excluded_labels is Some && workspace_ids is Some
        && excluded_workspace_ids is Some && show_excluded is Some {
        Some(
            Reply {
                ok: ok->0,
                version: version->0,
                herdr_socket: herdr_socket->0,
                excluded_labels: excluded_labels->0,
                workspace_ids: workspace_ids->0,
                excluded_workspace_ids: excluded_workspace_ids->0,
                show_excluded: show_excluded->0,
            },
        )
    } else {
        None
    }
}

/// A set of names on the wire: each has a visible character and no control
/// character, and they ascend.
pub open spec fn is_set(names: Seq<Seq<char>>) -> bool {
    &&& forall|i: int|
        0 <= i < names.len() ==> !crate::text::is_blank(#[trigger] names[i])
            && !crate::text::has_control(names[i])
    &&& forall|i: int, j: int|
        0 <= i < j < names.len() ==> crate::text::precedes(#[trigger] names[i], #[trigger] names[j])
}

/// Every excluded workspace is a known one, and there are not too many.
pub open spec fn is_resolved(excluded: Seq<Seq<char>>, known: Seq<Seq<char>>) -> bool {
    &&& forall|i: int| 0 <= i < excluded.len() ==> known.contains(#[trigger] excluded[i])
    &&& excluded.len() <= MAX_EXCLUDED
}

/// What becomes of a policy reply.
pub enum Ruling {
    /// Agents has no policy to give.
    Unavailable,
    /// The reply is not one of this protocol.
    Malformed,
    /// The session, or the one that the reply names, is no socket path.
    Unnamed,
    /// The reply is for another version or another session.
    Mismatched,
    /// The reply holds something that is not a set.
    Unsorted,
    /// The reply excludes workspaces that it does not know, or too many.
    Unresolved,
    Valid(Policy),
}

/// The ruling on a policy reply for a session.
pub open spec fn ruling(value: JsonView, session: Seq<char>) -> Ruling {
    if crate::json::flag_at(value.field("ok"@)) == Some(false) {
        Ruling::Unavailable
    } else {
        match reply_at(value) {
            None => Ruling::Malformed,
            Some(reply) => if !crate::socket::names_session(session) {
                Ruling::Unnamed
            } else if !reply.ok || reply.version != POLICY_VERSION {
                Ruling::Mismatched
            } else if !crate::socket::names_session(reply.herdr_socket) {
                Ruling::Unnamed
            } else if crate::socket::normalized(reply.herdr_socket) != crate::socket::normalized(
                session,
            ) {
                Ruling::Mismatched
            } else if !is_set(reply.excluded_labels) || !is_set(reply.workspace_ids) || !is_set(
                reply.excluded_workspace_ids,
            ) {
                Ruling::Unsorted
            } else if !is_resolved(reply.excluded_workspace_ids, reply.workspace_ids) {
                Ruling::Unresolved
            } else {
                Ruling::Valid(
                    Policy {
                        session: crate::socket::normalized(session),
                        labels: reply.excluded_labels,
                        workspaces: reply.workspace_ids,
                        excluded: reply.excluded_workspace_ids,
                    },
                )
            },
        }
    }
}

/// The outcome of reading a reply follows the ruling on it.
pub open spec fn follows(
    ruling: Ruling,
    value: JsonView,
    outcome: Result<WorkspacePolicy, BeaconError>,
) -> bool {
    match ruling {
        Ruling::Unavailable => outcome matches Err(BeaconError::PolicyUnavailable(reply)) && reply@
            == value,
        Ruling::Malformed => outcome matches Err(error) && error is InvalidPolicy,
        Ruling::Unnamed => outcome matches Err(error) && error is SocketPath,
        Ruling::Mismatched => outcome matches Err(error) && error is PolicyMismatch,
        Ruling::Unsorted => outcome matches Err(error) && error is PolicySets,
        Ruling::Unresolved => outcome matches Err(error) && error is PolicyUnresolved,
        Ruling::Valid(policy) => outcome matches Ok(valid) && valid@ == policy,
    }
}

impl WorkspacePolicy {
    pub fn eligible(&self, workspace: &str) -> (eligible: bool)
        ensures
            eligible == self@.eligible(workspace@),
    {
        contains_text(&self.workspaces, workspace) && !contains_text(&self.excluded, workspace)
    }

    /// The host session that the policy was issued for.
    pub fn session(&self) -> (session: &String)
        ensures
            session@ == self@.session,
    {
        &self.session
    }

    /// The labels whose workspaces are excluded.
    pub fn labels(&self) -> (labels: &Vec<String>)
        ensures
            crate::text::texts(labels@) == self@.labels,
    {
        &self.labels
    }

    /// The workspaces that are excluded.
    pub fn excluded(&self) -> (excluded: &Vec<String>)
        ensures
            crate::text::texts(excluded@) == self@.excluded,
    {
        &self.excluded
    }

    /// Reads a policy reply. Real and fake adapters enter through identical wire
    /// validation.
    pub fn from_reply(bytes: &[u8], session: &str) -> (policy: Result<Self, BeaconError>)
        ensures
            match crate::json::json_document(bytes@) {
                None => policy matches Err(BeaconError::PolicySyntax(fault)) && fault@
                    == crate::json::json_fault(bytes@),
                Some(value) => follows(ruling(value, session@), value, policy),
            },
    {
        match read_json(bytes) {
            Err(fault) => Err(BeaconError::PolicySyntax(fault)),
            Ok(value) => WorkspacePolicy::from_document(value, session),
        }
    }

    /// Validates a policy reply.
    pub fn from_document(value: Json, session: &str) -> (policy: Result<Self, BeaconError>)
        ensures
            follows(ruling(value@, session@), value@, policy),
    {
        if let Some(false) = flag_in(value.field("ok")) {
            return Err(BeaconError::PolicyUnavailable(value));
        }
        if !value.is_record(7, 7) {
            return Err(BeaconError::InvalidPolicy);
        }
        let ok = flag_in(value.part(0, "ok"));
        let version = number_in(value.part(1, "version"));
        let herdr_socket = text_in(value.part(2, "herdr_socket"));
        let excluded_labels = texts_in(value.part(3, "excluded_labels"));
        let workspace_ids = texts_in(value.part(4, "workspace_ids"));
        let excluded_workspace_ids = texts_in(value.part(5, "excluded_workspace_ids"));
        let show_excluded = flag_in(value.part(6, "show_excluded"));
        match (
            ok,
            version,
            herdr_socket,
            excluded_labels,
            workspace_ids,
            excluded_workspace_ids,
            show_excluded,
        ) {
            (
                Some(ok),
                Some(version),
                Some(herdr_socket),
                Some(labels),
                Some(workspaces),
                Some(excluded),
                Some(_),
            ) => {
                if version > u32::MAX as u64 {
                    return Err(BeaconError::InvalidPolicy);
                }
                let session = match normalize_socket(session) {
                    Ok(session) => session,
                    Err(error) => {
                        return Err(error);
                    },
                };
                if !ok || version != POLICY_VERSION {
                    return Err(BeaconError::PolicyMismatch);
                }
                match normalize_socket(&herdr_socket) {
                    Ok(echoed) => {
                        if !same(&echoed, &session) {
                            return Err(BeaconError::PolicyMismatch);
                        }
                    },
                    Err(error) => {
                        return Err(error);
                    },
                }
                if !names_set(&labels) || !names_set(&workspaces) || !names_set(&excluded) {
                    return Err(BeaconError::PolicySets);
                }
                if !resolves(&excluded, &workspaces) {
                    return Err(BeaconError::PolicyUnresolved);
                }
                Ok(WorkspacePolicy { session, labels, workspaces, excluded })
            },
            _ => Err(BeaconError::InvalidPolicy),
        }
    }
}

/// Whether a list of names is a set on the wire.
fn names_set(names: &Vec<String>) -> (set: bool)
    ensures
        set == is_set(crate::text::texts(names@)),
{
    let ghost all = crate::text::texts(names@);
    let mut i: usize = 0;
    while i < names.len()
        invariant
            i <= names.len(),
            all == crate::text::texts(names@),
            forall|j: int|
                0 <= j < i ==> !crate::text::is_blank(#[trigger] all[j])
                    && !crate::text::has_control(all[j]),
            forall|j: int, k: int|
                0 <= j < k < i ==> crate::text::precedes(#[trigger] all[j], #[trigger] all[k]),
        decreases names.len() - i,
    {
        assert(all[i as int] == names@[i as int]@);
        if blank(&names[i]) || holds_control(&names[i]) {
            return false;
        }
        if i > 0 {
            assert(all[i - 1] == names@[i - 1]@);
            if !before(&names[i - 1], &names[i]) {
                return false;
            }
            assert forall|j: int| 0 <= j < i implies crate::text::precedes(
                #[trigger] all[j],
                all[i as int],
            ) by {
                if j < i - 1 {
                    crate::text::lemma_precedes_transitive(all[j], all[i - 1], all[i as int]);
                }
            }
        }
        i = i + 1;
    }
    true
}

/// Whether every excluded workspace is a known one, and there are not too many.
fn resolves(excluded: &Vec<String>, known: &Vec<String>) -> (resolved: bool)
    ensures
        resolved == is_resolved(crate::text::texts(excluded@), crate::text::texts(known@)),
{
    let ghost all = crate::text::texts(excluded@);
    let mut i: usize = 0;
    while i < excluded.len()
        invariant
            i <= excluded.len(),
            all == crate::text::texts(excluded@),
            forall|j: int|
                0 <= j < i ==> crate::text::texts(known@).contains(#[trigger] all[j]),
        decreases excluded.len() - i,
    {
        assert(all[i as int] == excluded@[i as int]@);
        if !contains_text(known, &excluded[i]) {
            return false;
        }
        i = i + 1;
    }
    excluded.len() <= MAX_EXCLUDED
}

/// What Agents is asked for: the policy of a session, in this version of the protocol.
pub open spec fn request_value(session: Seq<char>) -> JsonView {
    JsonView::Object(
        seq![
            ("cmd"@, JsonView::Text("workspace_policy"@)),
            ("herdr_socket"@, JsonView::Text(session)),
            ("version"@, JsonView::Number(POLICY_VERSION)),
        ],
    )
}

proof fn lemma_request_fits(session: Seq<char>)
    ensures
        request_value(session).fits(crate::json::WRITABLE_LEVELS as nat),
{
    let fields = request_value(session)->Object_0;
    reveal_strlit("cmd");
    reveal_strlit("herdr_socket");
    reveal_strlit("version");
    assert(fields[0].0.len() == 3 && fields[1].0.len() == 12 && fields[2].0.len() == 7);
    assert(crate::json::distinct_fields(fields));
    let deeper = (crate::json::WRITABLE_LEVELS - 1) as nat;
    assert forall|i: int| 0 <= i < fields.len() implies (#[trigger] fields[i]).1.fits(deeper) by {}
}

/// The request for the policy of a session: one line, from which the request is read
/// back.
pub fn policy_request(session: &str) -> (request: String)
    ensures
        request@ == crate::json::json_text(request_value(session@)).push('\n'),
        crate::json::json_document(vstd::utf8::encode_utf8(request@.drop_last())) == Some(
            request_value(session@),
        ),
{
    let fields = vec![
        ("cmd".to_owned(), Json::Text("workspace_policy".to_owned())),
        ("herdr_socket".to_owned(), Json::Text(session.to_owned())),
        ("version".to_owned(), Json::Number(POLICY_VERSION)),
    ];
    proof {
        crate::json::lemma_object(fields);
        assert(crate::json::fields_seen(fields@) =~= request_value(session@)->Object_0);
        lemma_request_fits(session@);
    }
    let text = show_json(&Json::Object(fields));
    let request = framed(&text);
    assert(request@.drop_last() =~= text@);
    request
}

/// A message as it goes over the connection: ended by a newline.
pub fn framed(message: &str) -> (line: String)
    ensures
        line@ == message@.push('\n'),
{
    let mut line = message.to_owned();
    line.push('\n');
    line
}

/// How many bytes of a chunk belong to the reply: all up to the first newline.
pub open spec fn consumed(chunk: Seq<u8>) -> int
    decreases chunk.len(),
{
    if chunk.len() == 0 {
        0
    } else if chunk[0] == 10 {
        1
    } else {
        1 + consumed(chunk.drop_first())
    }
}

/// Whether a chunk ends the reply.
pub open spec fn has_newline(chunk: Seq<u8>) -> bool {
    exists|i: int| 0 <= i < chunk.len() && #[trigger] chunk[i] == 10
}

/// Takes in what was read from the connection. A reply ends with its newline; one
/// that ends otherwise, or grows too long, is refused.
pub fn accept_chunk(reply: &mut Vec<u8>, chunk: &[u8]) -> (complete: Result<bool, BeaconError>)
    requires
        old(reply)@.len() <= MAX_REPLY,
    ensures
        final(reply)@.len() <= MAX_REPLY,
        if chunk@.len() == 0 {
            complete matches Err(error) && error is ReplyWithoutNewline && final(reply)@ == old(
                reply,
            )@
        } else if old(reply)@.len() + consumed(chunk@) > MAX_REPLY {
            complete matches Err(error) && error is ReplyTooLong && final(reply)@ == old(reply)@
        } else {
            complete matches Ok(ended) && ended == has_newline(chunk@) && final(reply)@ == old(
                reply,
            )@ + chunk@.take(consumed(chunk@))
        },
{
    if chunk.len() == 0 {
        return Err(BeaconError::ReplyWithoutNewline);
    }
    let mut count: usize = 0;
    let mut ended = false;
    assert(chunk@.skip(0) =~= chunk@);
    while count < chunk.len() && !ended
        invariant
            count <= chunk@.len(),
            chunk@.len() == chunk.len(),
            forall|i: int| 0 <= i < count && !ended ==> #[trigger] chunk@[i] != 10,
            ended ==> count > 0 && chunk@[count - 1] == 10 && consumed(chunk@) == count,
            !ended ==> consumed(chunk@) == count + consumed(chunk@.skip(count as int)),
        decreases chunk@.len() - count,
    {
        assert(chunk@.skip(count as int).drop_first() =~= chunk@.skip(count + 1));
        assert(chunk@.skip(count as int)[0] == chunk@[count as int]);
        if chunk[count] == 10 {
            ended = true;
        }
        count = count + 1;
    }
    assert(consumed(chunk@) == count);
    if count > MAX_REPLY - reply.len() {
        return Err(BeaconError::ReplyTooLong);
    }
    let ghost start = reply@;
    let mut i: usize = 0;
    assert(reply@ =~= start + chunk@.take(0));
    while i < count
        invariant
            i <= count <= chunk@.len(),
            chunk@.len() == chunk.len(),
            reply@ == start + chunk@.take(i as int),
        decreases count - i,
    {
        reply.push(chunk[i]);
        assert(reply@ =~= start + chunk@.take(i + 1));
        i = i + 1;
    }
    Ok(ended)
}

/// Where Agents keeps its control socket.
#[derive(Clone, Copy, Debug, PartialEq, Eq, Structural)]
pub enum PolicyRoot {
    /// Under the directory that was named for it.
    Named,
    /// Under the user's state directory.
    StateHome,
    /// Under the default state directory of the user's home.
    Home,
    /// There is no home to look in.
    Unknown,
}

/// Chooses where to look for the control socket. A named directory is taken as it
/// is; an empty state directory counts as none.
pub fn policy_root(named: bool, state_home_filled: bool, home: bool) -> (root: PolicyRoot)
    ensures
        root == if named {
            PolicyRoot::Named
        } else if state_home_filled {
            PolicyRoot::StateHome
        } else if home {
            PolicyRoot::Home
        } else {
            PolicyRoot::Unknown
        },
{
    if named {
        PolicyRoot::Named
    } else if state_home_filled {
        PolicyRoot::StateHome
    } else if home {
        PolicyRoot::Home
    } else {
        PolicyRoot::Unknown
    }
}

/// Whether every agent has an address and a terminal of its own.
fn is_unambiguous(agents: &Vec<AgentObservation>) -> (distinct: bool)
    ensures
        distinct == crate::ledger::unambiguous(crate::model::sightings(agents@)),
{
    let ghost all = crate::model::sightings(agents@);
    let mut i: usize = 0;
    while i < agents.len()
        invariant
            i <= agents.len(),
            all == crate::model::sightings(agents@),
            forall|j: int|
                0 <= j < i ==> (#[trigger] all[j]).pane_id.len() > 0 && all[j].terminal_id.len()
                    > 0,
            forall|j: int, k: int|
                0 <= j < k < i ==> (#[trigger] all[j]).pane_id != (#[trigger] all[k]).pane_id
                    && all[j].terminal_id != all[k].terminal_id,
        decreases agents.len() - i,
    {
        assert(all[i as int] == agents@[i as int]@);
        if agents[i].pane_id.as_str().is_empty() || agents[i].terminal_id.as_str().is_empty() {
            return false;
        }
        let mut k: usize = 0;
        while k < i
            invariant
                k <= i < agents.len(),
                all == crate::model::sightings(agents@),
                forall|j: int|
                    0 <= j < k ==> (#[trigger] all[j]).pane_id != all[i as int].pane_id
                        && all[j].terminal_id != all[i as int].terminal_id,
            decreases i - k,
        {
            assert(all[k as int] == agents@[k as int]@);
            assert(all[i as int] == agents@[i as int]@);
            if same(&agents[k].pane_id, &agents[i].pane_id) || same(
                &agents[k].terminal_id,
                &agents[i].terminal_id,
            ) {
                return false;
            }
            k = k + 1;
        }
        i = i + 1;
    }
    true
}

/// What a reconciliation does, given what Agents and Herdr answered. Without both
/// answers, or with an ambiguous snapshot, nothing is observed, and the ledger
/// notes that it has to recover.
pub open spec fn reconciles(
    start: Ledger,
    end: Ledger,
    policy: Result<WorkspacePolicy, BeaconError>,
    agents: Result<Vec<AgentObservation>, BeaconError>,
    hook: Option<Seq<char>>,
    outcome: Result<Vec<AgentObservation>, BeaconError>,
) -> bool {
    match (policy, agents) {
        (Err(failure), _) => end == start.unresolved() && (outcome matches Err(error) && error
            == failure),
        (Ok(_), Err(failure)) => end == start.unresolved() && (outcome matches Err(error) && error
            == failure),
        (Ok(policy), Ok(agents)) => {
            let seen = crate::model::sightings(agents@);
            if crate::ledger::unambiguous(seen) {
                &&& end == start.reconciled(policy@, seen, hook)
                &&& outcome matches Ok(eligible)
                &&& crate::model::sightings(eligible@) == crate::ledger::eligible_only(
                    seen,
                    policy@,
                )
            } else {
                &&& end == start.unresolved()
                &&& outcome matches Err(error)
                &&& error is AmbiguousSnapshot
            }
        },
    }
}

/// Reconciles the ledger with the answers of Agents and Herdr.
pub fn settle_snapshot(
    state: &mut BeaconState,
    policy: Result<WorkspacePolicy, BeaconError>,
    agents: Result<Vec<AgentObservation>, BeaconError>,
    hook: Option<&str>,
) -> (outcome: Result<Vec<AgentObservation>, BeaconError>)
    requires
        old(state).wf(),
    ensures
        final(state).wf(),
        reconciles(
            old(state)@,
            final(state)@,
            policy,
            agents,
            crate::text::given(hook),
            outcome,
        ),
{
    match policy {
        Err(error) => {
            state.policy_unavailable();
            Err(error)
        },
        Ok(policy) => match agents {
            Err(error) => {
                state.policy_unavailable();
                Err(error)
            },
            Ok(agents) => if is_unambiguous(&agents) {
                Ok(state.apply_policy(&policy, agents, hook))
            } else {
                state.policy_unavailable();
                Err(BeaconError::AmbiguousSnapshot)
            },
        },
    }
}

/// Reads a fresh policy and a fresh snapshot, and reconciles the ledger with them.
/// Herdr is not asked for a snapshot unless there is a policy to apply to it.
pub fn reconcile<H: HerdrClient>(
    herdr: &H,
    state: &mut BeaconState,
    hook: Option<&str>,
) -> (outcome: Result<Vec<AgentObservation>, BeaconError>)
    requires
        old(state).wf(),
    ensures
        final(state).wf(),
        exists|
            policy: Result<WorkspacePolicy, BeaconError>,
            agents: Result<Vec<AgentObservation>, BeaconError>,
        | #[trigger]
            answered(herdr, policy, agents) && reconciles(
                old(state)@,
                final(state)@,
                policy,
                agents,
                crate::text::given(hook),
                outcome,
            ),
{
    match herdr.workspace_policy() {
        Ok(policy) => {
            let agents = herdr.agent_list();
            assert(answered(herdr, Ok(policy), agents));
            settle_snapshot(state, Ok(policy), agents, hook)
        },
        Err(error) => {
            let agents: Result<Vec<AgentObservation>, BeaconError> = Ok(Vec::new());
            assert(answered(herdr, Err(error), agents));
            settle_snapshot(state, Err(error), agents, hook)
        },
    }
}

/// The answers that a client gave when it was asked for the policy and, if it had
/// one, for the agents.
pub open spec fn answered<H: HerdrClient>(
    herdr: &H,
    policy: Result<WorkspacePolicy, BeaconError>,
    agents: Result<Vec<AgentObservation>, BeaconError>,
) -> bool {
    &&& call_ensures(H::workspace_policy, (herdr,), policy)
    &&& policy is Ok ==> call_ensures(H::agent_list, (herdr,), agents)
}

/// Showing or hiding excluded rows changes nothing: two replies that differ in that
/// flag alone are ruled on alike.
pub proof fn law_display_grants_nothing(
    a: Seq<(Seq<char>, JsonView)>,
    b: Seq<(Seq<char>, JsonView)>,
    session: Seq<char>,
)
    requires
        forall|name: Seq<char>|
            name != "show_excluded"@ ==> #[trigger] crate::json::lookup(a, name)
                == crate::json::lookup(b, name),
        crate::json::flag_at(crate::json::lookup(a, "show_excluded"@)) is Some,
        crate::json::flag_at(crate::json::lookup(b, "show_excluded"@)) is Some,
    ensures
        ruling(JsonView::Object(a), session) == ruling(JsonView::Object(b), session),
{
    reveal_strlit("show_excluded");
    reveal_strlit("ok");
    reveal_strlit("version");
    reveal_strlit("herdr_socket");
    reveal_strlit("excluded_labels");
    reveal_strlit("workspace_ids");
    reveal_strlit("excluded_workspace_ids");
    assert("workspace_ids"@[0] != "show_excluded"@[0]);
    assert(crate::json::lookup(a, "ok"@) == crate::json::lookup(b, "ok"@));
    assert(crate::json::lookup(a, "version"@) == crate::json::lookup(b, "version"@));
    assert(crate::json::lookup(a, "herdr_socket"@) == crate::json::lookup(b, "herdr_socket"@));
    assert(crate::json::lookup(a, "excluded_labels"@) == crate::json::lookup(
        b,
        "excluded_labels"@,
    ));
    assert(crate::json::lookup(a, "workspace_ids"@) == crate::json::lookup(b, "workspace_ids"@));
    assert(crate::json::lookup(a, "excluded_workspace_ids"@) == crate::json::lookup(
        b,
        "excluded_workspace_ids"@,
    ));
}

/// A valid policy is bound to the session that it was asked for. It consists of
/// sets, and it excludes nothing that it does not know.
pub proof fn law_valid_policy_is_consistent(value: JsonView, session: Seq<char>)
    requires
        ruling(value, session) is Valid,
    ensures
        ({
            let policy = ruling(value, session)->Valid_0;
            &&& policy.session == crate::socket::normalized(session)
            &&& is_set(policy.labels)
            &&& is_set(policy.workspaces)
            &&& is_set(policy.excluded)
            &&& is_resolved(policy.excluded, policy.workspaces)
        }),
{
}

/// A policy that excludes nothing is unrestricted over the workspaces it knows, and
/// over no others.
pub proof fn law_empty_policy_is_unrestricted(policy: Policy, workspace_id: Seq<char>)
    requires
        policy.excluded.len() == 0,
    ensures
        policy.eligible(workspace_id) <==> policy.workspaces.contains(workspace_id),
{
}

proof fn lemma_consumed(chunk: Seq<u8>)
    ensures
        0 <= consumed(chunk) <= chunk.len(),
        !has_newline(chunk) ==> consumed(chunk) == chunk.len(),
    decreases chunk.len(),
{
    if chunk.len() > 0 {
        lemma_consumed(chunk.drop_first());
        if has_newline(chunk.drop_first()) {
            let i = choose|i: int|
                0 <= i < chunk.drop_first().len() && #[trigger] chunk.drop_first()[i] == 10;
            assert(chunk[i + 1] == 10);
        }
        if chunk[0] == 10 {
            assert(has_newline(chunk));
        }
    }
}

proof fn lemma_consumed_after(first: Seq<u8>, second: Seq<u8>)
    requires
        !has_newline(first),
    ensures
        consumed(first + second) == first.len() + consumed(second),
        has_newline(first + second) == has_newline(second),
    decreases first.len(),
{
    let whole = first + second;
    if first.len() == 0 {
        assert(whole =~= second);
    } else {
        assert(first[0] != 10);
        assert(whole[0] == first[0]);
        assert(whole.drop_first() =~= first.drop_first() + second);
        assert(!has_newline(first.drop_first())) by {
            if has_newline(first.drop_first()) {
                let i = choose|i: int|
                    0 <= i < first.drop_first().len() && #[trigger] first.drop_first()[i] == 10;
                assert(first[i + 1] == 10);
            }
        }
        lemma_consumed_after(first.drop_first(), second);
        if has_newline(whole) {
            let i = choose|i: int| 0 <= i < whole.len() && #[trigger] whole[i] == 10;
            assert(i >= first.len());
            assert(second[i - first.len()] == 10);
        }
        if has_newline(second) {
            let i = choose|i: int| 0 <= i < second.len() && #[trigger] second[i] == 10;
            assert(whole[i + first.len()] == 10);
        }
    }
}

/// It does not matter how the connection cuts a reply into chunks: two chunks, of
/// which the first does not end the reply, add what both together add.
pub proof fn law_chunks_can_be_joined(first: Seq<u8>, second: Seq<u8>)
    requires
        !has_newline(first),
    ensures
        first.take(consumed(first)) + second.take(consumed(second)) == (first + second).take(
            consumed(first + second),
        ),
        has_newline(first + second) == has_newline(second),
{
    lemma_consumed(first);
    lemma_consumed(second);
    lemma_consumed_after(first, second);
    assert(first.take(consumed(first)) + second.take(consumed(second)) =~= (first + second).take(
        consumed(first + second),
    ));
}

/// A name that can be seen: it has a character other than white space, and no control
/// character.
pub open spec fn is_visible(name: Seq<char>) -> bool {
    &&& exists|k: int| 0 <= k < name.len() && !crate::text::is_space(#[trigger] name[k])
    &&& forall|k: int| 0 <= k < name.len() ==> !crate::text::is_control(#[trigger] name[k])
}

/// A list of names as a policy may hold it: each can be seen, and each comes after the
/// one before it in text order.
pub open spec fn is_fit(names: Seq<Seq<char>>) -> bool {
    &&& forall|i: int| 0 <= i < names.len() ==> is_visible(#[trigger] names[i])
    &&& forall|i: int, j: int|
        0 <= i < j < names.len() ==> crate::text::precedes(#[trigger] names[i], #[trigger] names[j])
}

proof fn lemma_fit(names: Seq<Seq<char>>)
    ensures
        is_fit(names) <==> is_set(names),
{
    assert forall|i: int| 0 <= i < names.len() implies is_visible(#[trigger] names[i]) == (
    !crate::text::is_blank(names[i]) && !crate::text::has_control(names[i])) by {
        let name = names[i];
        if !crate::text::is_blank(name) && !crate::text::has_control(name) {
            assert forall|k: int| 0 <= k < name.len() implies !crate::text::is_control(
                #[trigger] name[k],
            ) by {}
        }
    }
}

/// A reply grants a policy for a session: it is the reply to the first version of the
/// request, it names the session by an absolute path with the same normal form, its
/// lists are fit, and it excludes at most 1984 workspaces, all of which it knows. It
/// also says whether excluded rows are shown; which of the two it says does not matter.
pub open spec fn grants(value: JsonView, session: Seq<char>, policy: Policy) -> bool {
    &&& crate::json::has(value, "ok"@, JsonView::Bool(true))
    &&& crate::json::has(value, "version"@, JsonView::Number(1))
    &&& exists|socket: Seq<char>|
        {
            &&& #[trigger] crate::json::has(value, "herdr_socket"@, JsonView::Text(socket))
            &&& crate::socket::names_session(socket)
            &&& crate::socket::normalized(socket) == policy.session
        }
    &&& crate::socket::names_session(session)
    &&& crate::socket::normalized(session) == policy.session
    &&& crate::storage::gives_texts(value, "excluded_labels"@, policy.labels)
    &&& crate::storage::gives_texts(value, "workspace_ids"@, policy.workspaces)
    &&& crate::storage::gives_texts(value, "excluded_workspace_ids"@, policy.excluded)
    &&& crate::json::has(value, "show_excluded"@, JsonView::Bool(true)) || crate::json::has(
        value,
        "show_excluded"@,
        JsonView::Bool(false),
    )
    &&& is_fit(policy.labels)
    &&& is_fit(policy.workspaces)
    &&& is_fit(policy.excluded)
    &&& forall|i: int|
        0 <= i < policy.excluded.len() ==> policy.workspaces.contains(
            #[trigger] policy.excluded[i],
        )
    &&& policy.excluded.len() <= 1984
}

/// A reply object is a valid policy for a session exactly if it grants it.
pub proof fn law_valid_policies_are_granted_ones(
    value: JsonView,
    session: Seq<char>,
    policy: Policy,
)
    requires
        value is Object,
    ensures
        ruling(value, session) == Ruling::Valid(policy) <==> grants(value, session, policy),
{
    lemma_fit(policy.labels);
    lemma_fit(policy.workspaces);
    lemma_fit(policy.excluded);
    crate::json::law_field_is_the_first_of_its_name(value, "ok"@, JsonView::Bool(true));
    crate::json::law_field_is_the_first_of_its_name(value, "version"@, JsonView::Number(1));
    crate::json::law_field_is_the_first_of_its_name(
        value,
        "show_excluded"@,
        JsonView::Bool(true),
    );
    crate::json::law_field_is_the_first_of_its_name(
        value,
        "show_excluded"@,
        JsonView::Bool(false),
    );
    crate::storage::lemma_gives_texts(value, "excluded_labels"@, policy.labels);
    crate::storage::lemma_gives_texts(value, "workspace_ids"@, policy.workspaces);
    crate::storage::lemma_gives_texts(value, "excluded_workspace_ids"@, policy.excluded);
    let socket = crate::json::text_at(value.field("herdr_socket"@));
    crate::json::law_field_is_the_first_of_its_name(
        value,
        "herdr_socket"@,
        JsonView::Text(socket->0),
    );
    assert forall|other: Seq<char>| #[trigger]
        crate::json::has(value, "herdr_socket"@, JsonView::Text(other)) implies socket == Some(
        other,
    ) by {
        crate::json::law_field_is_the_first_of_its_name(
            value,
            "herdr_socket"@,
            JsonView::Text(other),
        );
    }
    if ruling(value, session) == Ruling::Valid(policy) {
        assert(crate::json::has(value, "herdr_socket"@, JsonView::Text(socket->0)));
        assert(grants(value, session, policy));
    }
    if grants(value, session, policy) {
        assert(reply_at(value) is Some);
        assert(ruling(value, session) is Valid);
    }
}

/// A reply that says it is not ok is no policy, and is reported as Agents gave it,
/// whatever else it holds.
pub proof fn law_refusals_are_reported_as_given(
    value: JsonView,
    session: Seq<char>,
    outcome: Result<WorkspacePolicy, BeaconError>,
)
    requires
        crate::json::has(value, "ok"@, JsonView::Bool(false)),
        follows(ruling(value, session), value, outcome),
    ensures
        outcome matches Err(BeaconError::PolicyUnavailable(reply)) && reply@ == value,
{
    crate::json::law_field_is_the_first_of_its_name(value, "ok"@, JsonView::Bool(false));
}

/// Which fault of a complete reply is reported, when there are several: the session
/// itself comes first, then the version, the session that the reply names, its lists,
/// and last what it excludes.
pub proof fn law_first_fault_of_a_reply_is_reported(
    value: JsonView,
    session: Seq<char>,
    outcome: Result<WorkspacePolicy, BeaconError>,
)
    requires
        reply_at(value) is Some,
        !crate::json::has(value, "ok"@, JsonView::Bool(false)),
        follows(ruling(value, session), value, outcome),
    ensures
        ({
            let reply = reply_at(value)->0;
            let unnamed = session.len() == 0 || session[0] != '/' || exists|i: int|
                0 <= i < session.len() && crate::text::is_control(#[trigger] session[i]);
            let outdated = !reply.ok || reply.version != 1;
            let astray = !crate::socket::names_session(reply.herdr_socket);
            let foreign = crate::socket::normalized(reply.herdr_socket)
                != crate::socket::normalized(session);
            let unfit = !is_fit(reply.excluded_labels) || !is_fit(reply.workspace_ids) || !is_fit(
                reply.excluded_workspace_ids,
            );
            &&& unnamed ==> (outcome matches Err(BeaconError::SocketPath))
            &&& !unnamed && outdated ==> (outcome matches Err(BeaconError::PolicyMismatch))
            &&& !unnamed && !outdated && astray ==> (outcome matches Err(BeaconError::SocketPath))
            &&& !unnamed && !outdated && !astray && foreign ==> (outcome matches Err(
                BeaconError::PolicyMismatch,
            ))
            &&& !unnamed && !outdated && !astray && !foreign && unfit ==> (outcome matches Err(
                BeaconError::PolicySets,
            ))
            &&& !unnamed && !outdated && !astray && !foreign && !unfit ==> (outcome is Ok || (
            outcome matches Err(BeaconError::PolicyUnresolved)))
        }),
{
    let reply = reply_at(value)->0;
    lemma_fit(reply.excluded_labels);
    lemma_fit(reply.workspace_ids);
    lemma_fit(reply.excluded_workspace_ids);
    crate::json::law_field_is_the_first_of_its_name(value, "ok"@, JsonView::Bool(false));
}

/// The request names the command, the session as it is and the first version, and
/// nothing else.
pub proof fn law_requests_name_the_session(session: Seq<char>)
    ensures
        request_value(session) == JsonView::Object(
            seq![
                ("cmd"@, JsonView::Text("workspace_policy"@)),
                ("herdr_socket"@, JsonView::Text(session)),
                ("version"@, JsonView::Number(1)),
            ],
        ),
{
}

/// A reply ends with its first newline, which still belongs to it; a chunk without one
/// belongs to it as a whole. There is room for 256 KiB.
pub proof fn law_replies_end_with_their_first_newline(chunk: Seq<u8>, i: int)
    requires
        0 <= i <= chunk.len(),
        forall|k: int| 0 <= k < i ==> #[trigger] chunk[k] != 10,
    ensures
        i < chunk.len() && chunk[i] == 10 ==> consumed(chunk) == i + 1 && has_newline(chunk),
        i == chunk.len() ==> consumed(chunk) == i && !has_newline(chunk),
        MAX_REPLY == 256 * 1024,
    decreases chunk.len(),
{
    if chunk.len() > 0 && i > 0 {
        let rest = chunk.drop_first();
        assert forall|k: int| 0 <= k < i - 1 implies #[trigger] rest[k] != 10 by {
            assert(chunk[k + 1] != 10);
        }
        law_replies_end_with_their_first_newline(rest, i - 1);
        assert(chunk[0] != 10);
        if i < chunk.len() && chunk[i] == 10 {
            assert(rest[i - 1] == 10);
        }
    }
}

/// The control socket is looked for under the directory named for it, else under a
/// state directory, else under the home, and nowhere else.
pub proof fn law_named_directory_comes_first(
    named: bool,
    state_home_filled: bool,
    home: bool,
    root: PolicyRoot,
)
    requires
        call_ensures(policy_root, (named, state_home_filled, home), root),
    ensures
        root == PolicyRoot::Named <==> named,
        root == PolicyRoot::StateHome <==> !named && state_home_filled,
        root == PolicyRoot::Home <==> !named && !state_home_filled && home,
        root == PolicyRoot::Unknown <==> !named && !state_home_filled && !home,
{
}

/// A request is one line: the text of the request value and a newline.
pub proof fn law_requests_are_one_line(session: &str, message: &str, request: String, line: String)
    requires
        call_ensures(policy_request, (session,), request),
        call_ensures(framed, (message,), line),
    ensures
        request@.len() > 0,
        request@.last() == '\n',
        crate::json::json_document(vstd::utf8::encode_utf8(request@.drop_last())) == Some(
            JsonView::Object(
                seq![
                    ("cmd"@, JsonView::Text("workspace_policy"@)),
                    ("herdr_socket"@, JsonView::Text(session@)),
                    ("version"@, JsonView::Number(1)),
                ],
            ),
        ),
        line@ == message@ + seq!['\n'],
{
    assert(line@ =~= message@ + seq!['\n']);
}

/// A reply object is complete exactly if it has each of the seven fields in its form;
/// what else it has does not matter.
pub proof fn law_complete_replies_have_seven_fields(value: JsonView, reply: Reply)
    requires
        value is Object,
    ensures
        reply_at(value) == Some(reply) <==> {
            &&& crate::json::has(value, "ok"@, JsonView::Bool(reply.ok))
            &&& crate::json::has(value, "version"@, JsonView::Number(reply.version))
            &&& reply.version < 0x1_0000_0000
            &&& crate::json::has(value, "herdr_socket"@, JsonView::Text(reply.herdr_socket))
            &&& crate::storage::gives_texts(value, "excluded_labels"@, reply.excluded_labels)
            &&& crate::storage::gives_texts(value, "workspace_ids"@, reply.workspace_ids)
            &&& crate::storage::gives_texts(
                value,
                "excluded_workspace_ids"@,
                reply.excluded_workspace_ids,
            )
            &&& crate::json::has(value, "show_excluded"@, JsonView::Bool(reply.show_excluded))
        },
{
    crate::json::law_field_is_the_first_of_its_name(value, "ok"@, JsonView::Bool(reply.ok));
    crate::json::law_field_is_the_first_of_its_name(
        value,
        "version"@,
        JsonView::Number(reply.version),
    );
    crate::json::law_field_is_the_first_of_its_name(
        value,
        "herdr_socket"@,
        JsonView::Text(reply.herdr_socket),
    );
    crate::json::law_field_is_the_first_of_its_name(
        value,
        "show_excluded"@,
        JsonView::Bool(reply.show_excluded),
    );
    crate::storage::lemma_gives_texts(value, "excluded_labels"@, reply.excluded_labels);
    crate::storage::lemma_gives_texts(value, "workspace_ids"@, reply.workspace_ids);
    crate::storage::lemma_gives_texts(
        value,
        "excluded_workspace_ids"@,
        reply.excluded_workspace_ids,
    );
}

/// A reply can also be given as the list of its seven fields.
pub proof fn law_listed_replies_go_by_place(items: Seq<JsonView>, reply: Reply)
    ensures
        reply_at(JsonView::List(items)) == Some(reply) <==> {
            &&& items.len() == 7
            &&& items[0] == JsonView::Bool(reply.ok)
            &&& items[1] == JsonView::Number(reply.version)
            &&& reply.version < 0x1_0000_0000
            &&& items[2] == JsonView::Text(reply.herdr_socket)
            &&& crate::json::texts_at(Some(items[3])) == Some(reply.excluded_labels)
            &&& crate::json::texts_at(Some(items[4])) == Some(reply.workspace_ids)
            &&& crate::json::texts_at(Some(items[5])) == Some(reply.excluded_workspace_ids)
            &&& items[6] == JsonView::Bool(reply.show_excluded)
        },
{
}

/// A reconciliation needs a policy and a snapshot that lists agents apart. With both, the
/// ledger is reconciled and the agents that may be navigated to are handed back, in
/// their order; without, it only notes that it has to recover, and the failure is handed
/// back.
pub proof fn law_reconciliation_needs_both_answers(
    start: Ledger,
    end: Ledger,
    policy: Result<WorkspacePolicy, BeaconError>,
    agents: Result<Vec<AgentObservation>, BeaconError>,
    hook: Option<Seq<char>>,
    outcome: Result<Vec<AgentObservation>, BeaconError>,
)
    requires
        reconciles(start, end, policy, agents, hook, outcome),
    ensures
        outcome is Err ==> end == (Ledger { recovery_needed: true, ..start }),
        policy matches Err(failure) ==> (outcome matches Err(error) && error == failure),
        policy is Ok ==> (agents matches Err(failure) ==> (outcome matches Err(error) && error
            == failure)),
        policy matches Ok(allowed) ==> (agents matches Ok(listed) ==> {
            let seen = crate::model::sightings(listed@);
            let apart = forall|i: int, j: int|
                0 <= i < j < seen.len() ==> (#[trigger] seen[i]).pane_id != (
                #[trigger] seen[j]).pane_id && seen[i].terminal_id != seen[j].terminal_id;
            let named = forall|i: int|
                0 <= i < seen.len() ==> (#[trigger] seen[i]).pane_id.len() > 0
                    && seen[i].terminal_id.len() > 0;
            &&& !(apart && named) ==> (outcome matches Err(BeaconError::AmbiguousSnapshot))
            &&& apart && named ==> end == start.reconciled(allowed@, seen, hook) && (
            outcome matches Ok(eligible) && crate::model::sightings(eligible@) == seen.filter(
                |agent: crate::ledger::Sighting|
                    allowed@.workspaces.contains(agent.workspace_id)
                        && !allowed@.excluded.contains(agent.workspace_id),
            ))
        }),
{
    if let Ok(allowed) = policy {
        if let Ok(listed) = agents {
            crate::outcomes::law_known_and_not_excluded_is_eligible(
                allowed@,
                crate::model::sightings(listed@),
                allowed@.session,
            );
        }
    }
}

/// A reply that is not JSON is refused with the reason, and one that is incomplete, and
/// does not say that it is not ok, is no policy reply.
pub proof fn law_incomplete_replies_are_refused(
    bytes: &[u8],
    session: &str,
    outcome: Result<WorkspacePolicy, BeaconError>,
)
    requires
        call_ensures(WorkspacePolicy::from_reply, (bytes, session), outcome),
    ensures
        crate::json::json_document(bytes@) is None ==> (outcome matches Err(
            BeaconError::PolicySyntax(fault),
        ) && fault@ == crate::json::json_fault(bytes@)),
        crate::json::json_document(bytes@) matches Some(value) ==> (reply_at(value) is None
            && !crate::json::has(value, "ok"@, JsonView::Bool(false)) ==> (outcome matches Err(
            BeaconError::InvalidPolicy,
        ))),
{
    if let Some(value) = crate::json::json_document(bytes@) {
        crate::json::law_field_is_the_first_of_its_name(value, "ok"@, JsonView::Bool(false));
    }
}

/// A policy that was read from a reply is the one that the reply grants for the session.
pub proof fn law_policies_come_from_granting_replies(
    bytes: &[u8],
    session: &str,
    policy: WorkspacePolicy,
    value: JsonView,
)
    requires
        call_ensures(WorkspacePolicy::from_reply, (bytes, session), Ok(policy)),
        crate::json::json_document(bytes@) == Some(value),
        value is Object,
    ensures
        grants(value, session@, policy@),
{
    law_valid_policies_are_granted_ones(value, session@, policy@);
}

} // verus!
