//! Shortcuts: which agent comes next, and how to get there.

use vstd::prelude::*;
use crate::eligibility::{reconcile, WorkspacePolicy};
use crate::error::BeaconError;
use crate::herdr::HerdrClient;
use crate::json::text_in;
use crate::ledger::{Ledger, Sighting};
use crate::model::{is_current, AgentObservation, AgentStatus, BeaconState, ObservationSource};
use crate::record::{find_field, read_part, read_parts, Parts, PartsView};
use crate::text::{before, same};

verus! {

#[derive(Clone, Debug, PartialEq, Eq)]
pub enum JumpOutcome {
    Focused(String),
    Empty,
}

/// Direction within the same newest-first ring, not a second sort order. Keeping
/// ties in one order makes forward then backward return to the same live agent.
#[derive(Clone, Copy, Debug, PartialEq, Eq, Structural)]
pub enum Direction {
    Forward,
    Backward,
}

#[derive(Clone, Copy, Debug, PartialEq, Eq, Structural)]
pub enum Shortcut {
    /// Unread completions are consumed once; blocked requests remain navigable
    /// until resolved. The current agent is kept as the cursor, so that newer
    /// blockers are not repeated before older requests.
    Unread,
    /// Working and blocked agents.
    Working,
    /// All other agents, unread completions among them.
    Recent,
    RecentReverse,
}

/// A turn that is under way or waits for input.
pub open spec fn active(status: AgentStatus) -> bool {
    status is Working || status is Blocked
}

/// Activity order: the latest transition first, ties by pane address.
pub open spec fn ranks_before(a: Sighting, b: Sighting) -> bool {
    ||| a.state_change_seq > b.state_change_seq
    ||| a.state_change_seq == b.state_change_seq && crate::text::precedes(a.pane_id, b.pane_id)
}

/// A ring with one more agent at its place in activity order.
pub open spec fn placed(ring: Seq<Sighting>, seen: Sighting) -> Seq<Sighting>
    decreases ring.len(),
{
    if ring.len() == 0 || !ranks_before(seen, ring.last()) {
        ring.push(seen)
    } else {
        placed(ring.drop_last(), seen).push(ring.last())
    }
}

/// The agents in activity order.
pub open spec fn by_activity(agents: Seq<Sighting>) -> Seq<Sighting>
    decreases agents.len(),
{
    if agents.len() == 0 {
        Seq::empty()
    } else {
        placed(by_activity(agents.drop_last()), agents.last())
    }
}

/// The place of the user's current agent in a ring.
pub open spec fn cursor(ring: Seq<Sighting>, current: Option<Seq<char>>) -> Option<int>
    decreases ring.len(),
{
    if ring.len() == 0 {
        None
    } else if let Some(place) = cursor(ring.drop_last(), current) {
        Some(place)
    } else if crate::ledger::is_current(ring.last(), current) {
        Some(ring.len() - 1)
    } else {
        None
    }
}

/// The place in a ring that comes next.
pub open spec fn next_place(
    ring: Seq<Sighting>,
    current: Option<Seq<char>>,
    direction: Direction,
) -> int {
    match (direction, cursor(ring, current)) {
        (Direction::Forward, Some(place)) => if place + 1 < ring.len() {
            place + 1
        } else {
            0
        },
        (Direction::Forward, None) => 0,
        (Direction::Backward, Some(place)) => if place > 0 {
            place - 1
        } else {
            ring.len() - 1
        },
        (Direction::Backward, None) => ring.len() - 1,
    }
}

impl Shortcut {
    pub open spec fn heading(self) -> Direction {
        if self is RecentReverse {
            Direction::Backward
        } else {
            Direction::Forward
        }
    }

    /// What the user is told when there is nowhere to go.
    pub open spec fn apology(self) -> Seq<char> {
        match self {
            Shortcut::Unread => "No unread agents"@,
            Shortcut::Working => "No working or blocked agents"@,
            Shortcut::Recent | Shortcut::RecentReverse => "No eligible agents"@,
        }
    }

    /// Whether the shortcut can go to an agent.
    pub open spec fn includes(
        self,
        ledger: Ledger,
        seen: Sighting,
        current: Option<Seq<char>>,
    ) -> bool {
        match self {
            Shortcut::Unread => seen.status is Blocked || ledger.entries.contains_key(seen.pane_id)
                || crate::ledger::is_current(seen, current),
            Shortcut::Working => active(seen.status),
            Shortcut::Recent | Shortcut::RecentReverse => !active(seen.status),
        }
    }

    /// The agents that the shortcut goes around, in activity order.
    pub open spec fn ring(
        self,
        ledger: Ledger,
        eligible: Seq<Sighting>,
        current: Option<Seq<char>>,
    ) -> Seq<Sighting> {
        by_activity(eligible.filter(|seen: Sighting| self.includes(ledger, seen, current)))
    }

    /// The agent that the shortcut goes to. An unread jump never goes to where
    /// the user already is.
    pub open spec fn target(
        self,
        ledger: Ledger,
        eligible: Seq<Sighting>,
        current: Option<Seq<char>>,
    ) -> Option<Sighting> {
        let ring = self.ring(ledger, eligible, current);
        if ring.len() == 0 {
            None
        } else {
            let next = ring[next_place(ring, current, self.heading())];
            if self is Unread && crate::ledger::is_current(next, current) {
                None
            } else {
                Some(next)
            }
        }
    }

    /// The ledger that the shortcut selects from. Invoking the unread jump marks
    /// the current agent as read.
    pub open spec fn prepared(
        self,
        ledger: Ledger,
        eligible: Seq<Sighting>,
        current: Option<Seq<char>>,
    ) -> Ledger {
        if self is Unread {
            ledger.acknowledged(eligible, current)
        } else {
            ledger
        }
    }
}

/// Working and blocked turns belong together; the recent-activity shortcuts use
/// the complement.
pub fn is_active_turn(agent: &AgentObservation) -> (turn: bool)
    ensures
        turn == active(agent.status),
{
    matches!(agent.status, AgentStatus::Working | AgentStatus::Blocked)
}

fn ranks_ahead(a: &AgentObservation, b: &AgentObservation) -> (ahead: bool)
    ensures
        ahead == ranks_before(a@, b@),
{
    a.state_change_seq > b.state_change_seq || a.state_change_seq == b.state_change_seq && before(
        &a.pane_id,
        &b.pane_id,
    )
}

/// Where insertion from the end stops is where the agent is placed.
proof fn lemma_placed(ring: Seq<Sighting>, seen: Sighting, k: int)
    requires
        0 <= k <= ring.len(),
        k > 0 ==> !ranks_before(seen, ring[k - 1]),
        forall|i: int| k <= i < ring.len() ==> ranks_before(seen, #[trigger] ring[i]),
    ensures
        placed(ring, seen) == ring.insert(k, seen),
    decreases ring.len(),
{
    if k == ring.len() {
        assert(ring.insert(k, seen) =~= ring.push(seen));
    } else {
        let last = ring.len() - 1;
        assert(ranks_before(seen, ring[last]));
        lemma_placed(ring.drop_last(), seen, k);
        assert(ring.drop_last().insert(k, seen).push(ring.last()) =~= ring.insert(k, seen));
    }
}

/// Puts an agent at its place in activity order.
fn place(ring: &mut Vec<AgentObservation>, agent: AgentObservation)
    ensures
        crate::model::sightings(final(ring)@) == placed(
            crate::model::sightings(old(ring)@),
            agent@,
        ),
{
    let ghost start = crate::model::sightings(ring@);
    let mut k: usize = ring.len();
    while k > 0 && ranks_ahead(&agent, &ring[k - 1])
        invariant
            k <= ring.len(),
            start == crate::model::sightings(ring@),
            forall|i: int| k <= i < start.len() ==> ranks_before(agent@, #[trigger] start[i]),
        decreases k,
    {
        assert(start[k - 1] == ring@[k - 1]@);
        k = k - 1;
    }
    proof {
        if k > 0 {
            assert(start[k - 1] == ring@[k - 1]@);
        }
        lemma_placed(start, agent@, k as int);
    }
    ring.insert(k, agent);
    assert(crate::model::sightings(ring@) =~= start.insert(k as int, agent@));
}

/// Status sequences are supplied by one Herdr server across all workspaces. Pane
/// addresses break ties, also with servers that have no sequence.
pub fn sort_by_activity(agents: &Vec<AgentObservation>) -> (ring: Vec<AgentObservation>)
    ensures
        crate::model::sightings(ring@) == by_activity(crate::model::sightings(agents@)),
{
    let ghost seen = crate::model::sightings(agents@);
    let mut ring: Vec<AgentObservation> = Vec::new();
    let mut i: usize = 0;
    assert(seen.take(0) =~= Seq::<Sighting>::empty());
    assert(crate::model::sightings(ring@) =~= Seq::<Sighting>::empty());
    while i < agents.len()
        invariant
            i <= agents.len(),
            seen == crate::model::sightings(agents@),
            crate::model::sightings(ring@) == by_activity(seen.take(i as int)),
        decreases agents.len() - i,
    {
        assert(seen.take(i + 1).drop_last() =~= seen.take(i as int));
        assert(seen.take(i + 1).last() == agents@[i as int]@);
        place(&mut ring, agents[i].clone());
        i = i + 1;
    }
    assert(seen.take(agents.len() as int) =~= seen);
    ring
}

/// The place of the user's current agent in a ring.
fn find_current(ring: &Vec<AgentObservation>, current_pane: Option<&str>) -> (place: Option<usize>)
    ensures
        match place {
            Some(place) => cursor(
                crate::model::sightings(ring@),
                crate::text::given(current_pane),
            ) == Some(place as int) && place < ring@.len(),
            None => cursor(
                crate::model::sightings(ring@),
                crate::text::given(current_pane),
            ) is None,
        },
{
    let ghost seen = crate::model::sightings(ring@);
    let ghost current = crate::text::given(current_pane);
    let mut found: Option<usize> = None;
    let mut i: usize = 0;
    assert(seen.take(0) =~= Seq::<Sighting>::empty());
    while i < ring.len()
        invariant
            i <= ring.len(),
            seen == crate::model::sightings(ring@),
            current == crate::text::given(current_pane),
            match found {
                Some(place) => cursor(seen.take(i as int), current) == Some(place as int) && place
                    < i,
                None => cursor(seen.take(i as int), current) is None,
            },
        decreases ring.len() - i,
    {
        assert(seen.take(i + 1).drop_last() =~= seen.take(i as int));
        assert(seen.take(i + 1).last() == ring@[i as int]@);
        if found.is_none() && is_current(&ring[i], current_pane) {
            found = Some(i);
        }
        i = i + 1;
    }
    assert(seen.take(ring.len() as int) =~= seen);
    found
}

/// The place in a ring that comes next.
pub fn cycle_index(
    ring: &Vec<AgentObservation>,
    current_pane: Option<&str>,
    direction: Direction,
) -> (index: usize)
    requires
        ring@.len() > 0,
    ensures
        index < ring@.len(),
        index == next_place(
            crate::model::sightings(ring@),
            crate::text::given(current_pane),
            direction,
        ),
{
    match (direction, find_current(ring, current_pane)) {
        (Direction::Forward, Some(place)) => if place < ring.len() - 1 {
            place + 1
        } else {
            0
        },
        (Direction::Forward, None) => 0,
        (Direction::Backward, Some(place)) => if place > 0 {
            place - 1
        } else {
            ring.len() - 1
        },
        (Direction::Backward, None) => ring.len() - 1,
    }
}

/// Whether a shortcut can go to an agent.
fn includes(
    shortcut: Shortcut,
    state: &BeaconState,
    agent: &AgentObservation,
    current_pane: Option<&str>,
) -> (included: bool)
    requires
        state.wf(),
    ensures
        included == shortcut.includes(state@, agent@, crate::text::given(current_pane)),
{
    match shortcut {
        Shortcut::Unread => agent.status == AgentStatus::Blocked || state.entries().contains_key(
            &agent.pane_id,
        ) || is_current(agent, current_pane),
        Shortcut::Working => is_active_turn(agent),
        Shortcut::Recent | Shortcut::RecentReverse => !is_active_turn(agent),
    }
}

/// The agents that a shortcut can go to.
fn candidates(
    shortcut: Shortcut,
    state: &BeaconState,
    eligible: &Vec<AgentObservation>,
    current_pane: Option<&str>,
) -> (chosen: Vec<AgentObservation>)
    requires
        state.wf(),
    ensures
        crate::model::sightings(chosen@) == crate::model::sightings(eligible@).filter(
            |seen: Sighting|
                shortcut.includes(state@, seen, crate::text::given(current_pane)),
        ),
{
    let ghost seen = crate::model::sightings(eligible@);
    let ghost keep = |seen: Sighting|
        shortcut.includes(state@, seen, crate::text::given(current_pane));
    let mut chosen: Vec<AgentObservation> = Vec::new();
    let mut i: usize = 0;
    assert(seen.take(0) =~= Seq::<Sighting>::empty());
    assert(crate::model::sightings(chosen@) =~= seen.take(0).filter(keep)) by {
        reveal(Seq::filter);
    }
    while i < eligible.len()
        invariant
            state.wf(),
            i <= eligible.len(),
            seen == crate::model::sightings(eligible@),
            keep == (|seen: Sighting|
                shortcut.includes(state@, seen, crate::text::given(current_pane))),
            crate::model::sightings(chosen@) == seen.take(i as int).filter(keep),
        decreases eligible.len() - i,
    {
        let ghost earlier = crate::model::sightings(chosen@);
        assert(seen.take(i + 1).drop_last() =~= seen.take(i as int));
        assert(seen.take(i + 1).last() == eligible@[i as int]@);
        proof {
            reveal(Seq::filter);
        }
        if includes(shortcut, state, &eligible[i], current_pane) {
            chosen.push(eligible[i].clone());
            assert(crate::model::sightings(chosen@) =~= earlier.push(eligible@[i as int]@));
        }
        i = i + 1;
    }
    assert(seen.take(eligible.len() as int) =~= seen);
    chosen
}

/// The meaning of an optional agent.
pub open spec fn seen_in(agent: Option<AgentObservation>) -> Option<Sighting> {
    match agent {
        Some(agent) => Some(agent@),
        None => None,
    }
}

/// The agent that a shortcut goes to, among those that may be navigated to.
pub fn choose_target(
    shortcut: Shortcut,
    state: &BeaconState,
    eligible: &Vec<AgentObservation>,
    current_pane: Option<&str>,
) -> (target: Option<AgentObservation>)
    requires
        state.wf(),
    ensures
        seen_in(target) == shortcut.target(
            state@,
            crate::model::sightings(eligible@),
            crate::text::given(current_pane),
        ),
{
    let ring = sort_by_activity(&candidates(shortcut, state, eligible, current_pane));
    if ring.len() == 0 {
        return None;
    }
    let direction = match shortcut {
        Shortcut::RecentReverse => Direction::Backward,
        _ => Direction::Forward,
    };
    let index: usize = cycle_index(&ring, current_pane, direction);
    let next = &ring[index];
    assert(crate::model::sightings(ring@)[index as int] == next@);
    // A single blocker already on screen is not another destination.
    if shortcut == Shortcut::Unread && is_current(next, current_pane) {
        None
    } else {
        Some(next.clone())
    }
}

/// How the first half of a jump ends, given how the reconciliation did.
pub open spec fn selects(
    shortcut: Shortcut,
    middle: Ledger,
    end: Ledger,
    current: Option<Seq<char>>,
    reconciled: Result<Vec<AgentObservation>, BeaconError>,
    selected: Result<Option<AgentObservation>, BeaconError>,
) -> bool {
    match reconciled {
        Err(failure) => end == middle && (selected matches Err(error) && error == failure),
        Ok(eligible) => {
            let seen = crate::model::sightings(eligible@);
            &&& end == shortcut.prepared(middle, seen, current)
            &&& selected matches Ok(target)
            &&& seen_in(target) == shortcut.target(end, seen, current)
        },
    }
}

/// Selects a destination from a reconciled ledger.
pub fn select(
    shortcut: Shortcut,
    state: &mut BeaconState,
    current_pane: Option<&str>,
    reconciled: Result<Vec<AgentObservation>, BeaconError>,
) -> (selected: Result<Option<AgentObservation>, BeaconError>)
    requires
        old(state).wf(),
    ensures
        final(state).wf(),
        selects(
            shortcut,
            old(state)@,
            final(state)@,
            crate::text::given(current_pane),
            reconciled,
            selected,
        ),
{
    match reconciled {
        Err(error) => Err(error),
        Ok(eligible) => {
            if shortcut == Shortcut::Unread {
                state.acknowledge(&eligible, current_pane);
            }
            Ok(choose_target(shortcut, state, &eligible, current_pane))
        },
    }
}

/// What the first half of a jump does, given what Agents and Herdr answered.
pub open spec fn begins(
    shortcut: Shortcut,
    start: Ledger,
    end: Ledger,
    current: Option<Seq<char>>,
    policy: Result<WorkspacePolicy, BeaconError>,
    agents: Result<Vec<AgentObservation>, BeaconError>,
    selected: Result<Option<AgentObservation>, BeaconError>,
) -> bool {
    exists|middle: Ledger, reconciled: Result<Vec<AgentObservation>, BeaconError>| #[trigger]
        crate::eligibility::reconciles(start, middle, policy, agents, None, reconciled) && selects(
            shortcut,
            middle,
            end,
            current,
            reconciled,
            selected,
        )
}

/// Reconciles the ledger and selects a destination. The snapshot is read together
/// with hook reads and ledger writes; otherwise a list fetched before a newer hook
/// could roll its acknowledgement back.
pub fn begin_jump<H: HerdrClient>(
    shortcut: Shortcut,
    herdr: &H,
    state: &mut BeaconState,
    current_pane: Option<&str>,
) -> (selected: Result<Option<AgentObservation>, BeaconError>)
    requires
        old(state).wf(),
    ensures
        final(state).wf(),
        exists|
            policy: Result<WorkspacePolicy, BeaconError>,
            agents: Result<Vec<AgentObservation>, BeaconError>,
        | #[trigger]
            crate::eligibility::answered(herdr, policy, agents) && begins(
                shortcut,
                old(state)@,
                final(state)@,
                crate::text::given(current_pane),
                policy,
                agents,
                selected,
            ),
{
    let ghost start = state@;
    let reconciled = reconcile(herdr, state, None);
    let ghost middle = state@;
    let ghost (policy, agents) = choose|
        policy: Result<WorkspacePolicy, BeaconError>,
        agents: Result<Vec<AgentObservation>, BeaconError>,
    | #[trigger]
        crate::eligibility::answered(herdr, policy, agents) && crate::eligibility::reconciles(
            start,
            middle,
            policy,
            agents,
            None,
            reconciled,
        );
    let selected = select(shortcut, state, current_pane, reconciled);
    assert(crate::eligibility::answered(herdr, policy, agents));
    assert(crate::eligibility::reconciles(start, middle, policy, agents, None, reconciled));
    selected
}

/// How the way to a selected agent ended.
#[derive(Debug)]
pub enum Approach {
    /// Herdr focused the agent.
    Arrived(AgentObservation),
    /// The agent is no longer what was selected, or no longer eligible.
    Refused,
    /// The policy could not be read again.
    Unconfirmed(BeaconError),
    /// Herdr failed.
    Failed(BeaconError),
}

/// A live agent is the selected one if it has its address, terminal and workspace.
pub open spec fn is_same_agent(selected: Sighting, live: Sighting) -> bool {
    live.pane_id == selected.pane_id && live.terminal_id == selected.terminal_id
        && live.workspace_id == selected.workspace_id
}

/// How the way to a selected agent ends, given the answers to the fresh lookup, the
/// fresh policy request and the focus request. Each is made only if the answer
/// before it allows going on.
pub open spec fn approached(
    selected: Sighting,
    live: Result<Option<AgentObservation>, BeaconError>,
    policy: Result<WorkspacePolicy, BeaconError>,
    focused: Result<AgentObservation, BeaconError>,
    approach: Approach,
) -> bool {
    match live {
        Err(failure) => approach matches Approach::Failed(error) && error == failure,
        Ok(None) => approach is Refused,
        Ok(Some(live)) => if !is_same_agent(selected, live@) {
            approach is Refused
        } else {
            match policy {
                Err(failure) => approach matches Approach::Unconfirmed(error) && error == failure,
                Ok(policy) => if !policy@.eligible(selected.workspace_id) {
                    approach is Refused
                } else {
                    match focused {
                        Err(failure) => approach matches Approach::Failed(error) && error
                            == failure,
                        Ok(agent) => approach matches Approach::Arrived(reached) && reached
                            == agent,
                    }
                },
            }
        },
    }
}

/// The answers that a client gave on the way to a selected agent.
pub open spec fn asked<H: HerdrClient>(
    herdr: &H,
    selected: Sighting,
    live: Result<Option<AgentObservation>, BeaconError>,
    policy: Result<WorkspacePolicy, BeaconError>,
    focused: Result<AgentObservation, BeaconError>,
) -> bool {
    &&& exists|pane_id: &str|
        pane_id@ == selected.pane_id && #[trigger] call_ensures(
            H::agent_get,
            (herdr, pane_id),
            live,
        )
    &&& (live matches Ok(Some(agent)) && is_same_agent(selected, agent@)) ==> {
        &&& call_ensures(H::workspace_policy, (herdr,), policy)
        &&& (policy matches Ok(policy) && policy@.eligible(selected.workspace_id)) ==> exists|
            pane_id: &str,
        |
            pane_id@ == selected.pane_id && #[trigger] call_ensures(
                H::focus_agent,
                (herdr, pane_id),
                focused,
            )
    }
}

/// Whether a live agent is still the selected one.
pub fn still_selected(selected: &AgentObservation, live: &AgentObservation) -> (same_agent: bool)
    ensures
        same_agent == is_same_agent(selected@, live@),
{
    same(&live.pane_id, &selected.pane_id) && same(&live.terminal_id, &selected.terminal_id)
        && same(&live.workspace_id, &selected.workspace_id)
}

/// What comes next on the way to a selected agent, once it was looked up again.
#[derive(Clone, Copy, Debug, PartialEq, Eq, Structural)]
pub enum Step {
    /// It is still the selected agent, and a fresh policy has to be read.
    Consult,
    /// It is still the selected agent, and the fresh policy allows its workspace.
    Focus,
    /// It is gone or changed, or the fresh policy does not allow its workspace.
    Refuse,
}

/// The next step on the way to a selected agent, given what the fresh lookup found and
/// the fresh policy, if it was read. Nothing is focused before both were checked.
pub fn next_step(
    selected: &AgentObservation,
    live: Option<&AgentObservation>,
    policy: Option<&WorkspacePolicy>,
) -> (step: Step)
    ensures
        step is Focus <==> (live matches Some(live) && is_same_agent(selected@, live@)) && (
        policy matches Some(policy) && policy@.eligible(selected@.workspace_id)),
        step is Consult <==> (live matches Some(live) && is_same_agent(selected@, live@))
            && policy is None,
        step is Refuse <==> !(live matches Some(live) && is_same_agent(selected@, live@)) || (
        policy matches Some(policy) && !policy@.eligible(selected@.workspace_id)),
{
    match live {
        Some(live) => if !still_selected(selected, live) {
            Step::Refuse
        } else {
            match policy {
                Some(policy) => if policy.eligible(&selected.workspace_id) {
                    Step::Focus
                } else {
                    Step::Refuse
                },
                None => Step::Consult,
            }
        },
        None => Step::Refuse,
    }
}

/// Asks Herdr to focus a selected agent that was looked up again and that a fresh
/// policy allows.
fn focus_checked<H: HerdrClient>(
    herdr: &H,
    selected: &AgentObservation,
    live: &AgentObservation,
    policy: &WorkspacePolicy,
) -> (focused: Result<AgentObservation, BeaconError>)
    requires
        is_same_agent(selected@, live@),
        policy@.eligible(selected@.workspace_id),
    ensures
        exists|pane_id: &str|
            pane_id@ == selected@.pane_id && #[trigger] call_ensures(
                H::focus_agent,
                (herdr, pane_id),
                focused,
            ),
{
    let pane_id: &str = &selected.pane_id;
    let focused = herdr.focus_agent(pane_id);
    assert(call_ensures(H::focus_agent, (herdr, pane_id), focused));
    focused
}

/// Goes to a selected agent, after one fresh lookup of its identity and one fresh
/// policy read. A changed, moved or excluded target is refused. Herdr has no
/// conditional focus, so a change after the last check can still slip through.
pub fn approach<H: HerdrClient>(herdr: &H, selected: &AgentObservation) -> (approach: Approach)
    ensures
        exists|
            live: Result<Option<AgentObservation>, BeaconError>,
            policy: Result<WorkspacePolicy, BeaconError>,
            focused: Result<AgentObservation, BeaconError>,
        | #[trigger]
            asked(herdr, selected@, live, policy, focused) && approached(
                selected@,
                live,
                policy,
                focused,
                approach,
            ),
{
    let pane_id: &str = &selected.pane_id;
    let live = herdr.agent_get(pane_id);
    assert(call_ensures(H::agent_get, (herdr, pane_id), live));
    let ghost unasked = Err::<WorkspacePolicy, BeaconError>(BeaconError::InvalidPolicy);
    let ghost untried = Err::<AgentObservation, BeaconError>(BeaconError::InvalidAgent);
    let found = match live {
        Err(error) => {
            assert(asked(herdr, selected@, live, unasked, untried));
            return Approach::Failed(error);
        },
        Ok(found) => found,
    };
    match (next_step(selected, found.as_ref(), None), &found) {
        (Step::Consult, Some(agent)) => {
            let policy = herdr.workspace_policy();
            match policy {
                Err(error) => {
                    assert(asked(herdr, selected@, live, policy, untried));
                    Approach::Unconfirmed(error)
                },
                Ok(current) => match next_step(selected, Some(agent), Some(&current)) {
                    Step::Focus => {
                        let focused = focus_checked(herdr, selected, agent, &current);
                        assert(asked(herdr, selected@, live, policy, focused));
                        match focused {
                            Err(error) => Approach::Failed(error),
                            Ok(reached) => Approach::Arrived(reached),
                        }
                    },
                    _ => {
                        assert(asked(herdr, selected@, live, policy, untried));
                        Approach::Refused
                    },
                },
            }
        },
        _ => {
            assert(asked(herdr, selected@, live, unasked, untried));
            Approach::Refused
        },
    }
}

impl Ledger {
    /// The ledger after Herdr focused an agent that was selected as `selected`.
    pub open spec fn visited(self, focused: Sighting, selected: Sighting) -> Ledger {
        let next = self.observed(focused, ObservationSource::Focus);
        match next.slot(selected.pane_id).pending {
            Some(entry) => if entry.terminal_id == selected.terminal_id && entry.state_change_seq
                <= selected.state_change_seq {
                next.removed(selected.pane_id)
            } else {
                next
            },
            None => next,
        }
    }
}

/// Marks a selected agent as read once Herdr focused it.
pub fn mark_focus_seen(
    state: &mut BeaconState,
    focused: AgentObservation,
    selected: &AgentObservation,
)
    requires
        old(state).wf(),
    ensures
        final(state).wf(),
        final(state)@ == old(state)@.visited(focused@, selected@),
{
    state.observe(focused, ObservationSource::Focus);
    let left = match state.entries().get(&selected.pane_id) {
        Some(entry) => same(&entry.terminal_id, &selected.terminal_id) && entry.state_change_seq
            <= selected.state_change_seq,
        None => false,
    };
    if left {
        state.remove_pane(&selected.pane_id);
    }
}

/// What the end of a jump does to the ledger. Only a successful navigation marks
/// anything as read. A refused target is withheld until it is seen again; without
/// a policy nothing is known, and the ledger has to recover.
pub open spec fn concludes(
    start: Ledger,
    end: Ledger,
    selected: Sighting,
    approach: Approach,
    outcome: Result<JumpOutcome, BeaconError>,
) -> bool {
    match approach {
        Approach::Arrived(focused) => {
            &&& end == start.visited(focused@, selected)
            &&& outcome matches Ok(JumpOutcome::Focused(pane_id))
            &&& pane_id@ == selected.pane_id
        },
        Approach::Refused => {
            &&& end == start.withheld(selected)
            &&& outcome matches Ok(JumpOutcome::Empty)
        },
        Approach::Unconfirmed(failure) => {
            &&& end == start.unresolved()
            &&& outcome matches Err(error)
            &&& error == failure
        },
        Approach::Failed(failure) => {
            &&& end == start
            &&& outcome matches Err(error)
            &&& error == failure
        },
    }
}

/// Ends a jump.
pub fn conclude_jump(
    state: &mut BeaconState,
    selected: &AgentObservation,
    approach: Approach,
) -> (outcome: Result<JumpOutcome, BeaconError>)
    requires
        old(state).wf(),
    ensures
        final(state).wf(),
        concludes(old(state)@, final(state)@, selected@, approach, outcome),
{
    match approach {
        Approach::Arrived(focused) => {
            mark_focus_seen(state, focused, selected);
            Ok(JumpOutcome::Focused(selected.pane_id.clone()))
        },
        Approach::Refused => {
            state.withhold(selected);
            Ok(JumpOutcome::Empty)
        },
        Approach::Unconfirmed(error) => {
            state.policy_unavailable();
            Err(error)
        },
        Approach::Failed(error) => Err(error),
    }
}

/// The client was asked to tell the user that there is nowhere to go.
pub open spec fn apologized<H: HerdrClient>(
    herdr: &H,
    shortcut: Shortcut,
    outcome: Result<JumpOutcome, BeaconError>,
) -> bool {
    exists|title: &str, told: Result<(), BeaconError>|
        title@ == shortcut.apology() && #[trigger] call_ensures(
            H::notify,
            (herdr, title, None),
            told,
        ) && match told {
            Ok(()) => outcome matches Ok(JumpOutcome::Empty),
            Err(failure) => outcome matches Err(error) && error == failure,
        }
}

/// Tells the user that there is nowhere to go.
pub fn apologize<H: HerdrClient>(shortcut: Shortcut, herdr: &H) -> (outcome: Result<
    JumpOutcome,
    BeaconError,
>)
    ensures
        apologized(herdr, shortcut, outcome),
{
    let title = match shortcut {
        Shortcut::Unread => "No unread agents",
        Shortcut::Working => "No working or blocked agents",
        Shortcut::Recent | Shortcut::RecentReverse => "No eligible agents",
    };
    let told = herdr.notify(title, None);
    assert(call_ensures(H::notify, (herdr, title, None), told));
    match told {
        Ok(()) => Ok(JumpOutcome::Empty),
        Err(error) => Err(error),
    }
}

/// What the second half of a jump does, given what the first half selected.
pub open spec fn finishes<H: HerdrClient>(
    shortcut: Shortcut,
    herdr: &H,
    middle: Ledger,
    end: Ledger,
    selected: Result<Option<AgentObservation>, BeaconError>,
    outcome: Result<JumpOutcome, BeaconError>,
) -> bool {
    match selected {
        Err(failure) => end == middle && (outcome matches Err(error) && error == failure),
        Ok(None) => end == middle && apologized(herdr, shortcut, outcome),
        Ok(Some(target)) => exists|
            live: Result<Option<AgentObservation>, BeaconError>,
            policy: Result<WorkspacePolicy, BeaconError>,
            focused: Result<AgentObservation, BeaconError>,
            approach: Approach,
        |
            #![trigger
                asked(herdr, target@, live, policy, focused),
                concludes(middle, end, target@, approach, outcome)
            ]
            asked(herdr, target@, live, policy, focused) && approached(
                target@,
                live,
                policy,
                focused,
                approach,
            ) && concludes(middle, end, target@, approach, outcome),
    }
}

/// What a jump does: reconcile, select, go there, and keep the ledger in step.
pub open spec fn jumps<H: HerdrClient>(
    shortcut: Shortcut,
    herdr: &H,
    start: Ledger,
    end: Ledger,
    current: Option<Seq<char>>,
    outcome: Result<JumpOutcome, BeaconError>,
) -> bool {
    exists|
        policy: Result<WorkspacePolicy, BeaconError>,
        agents: Result<Vec<AgentObservation>, BeaconError>,
        middle: Ledger,
        selected: Result<Option<AgentObservation>, BeaconError>,
    |
        #![trigger
            crate::eligibility::answered(herdr, policy, agents),
            finishes(shortcut, herdr, middle, end, selected, outcome)
        ]
        crate::eligibility::answered(herdr, policy, agents) && begins(
            shortcut,
            start,
            middle,
            current,
            policy,
            agents,
            selected,
        ) && finishes(shortcut, herdr, middle, end, selected, outcome)
}

/// Goes to the shortcut's next agent.
pub fn jump<H: HerdrClient>(
    shortcut: Shortcut,
    herdr: &H,
    state: &mut BeaconState,
    current_pane: Option<&str>,
) -> (outcome: Result<JumpOutcome, BeaconError>)
    requires
        old(state).wf(),
    ensures
        final(state).wf(),
        jumps(
            shortcut,
            herdr,
            old(state)@,
            final(state)@,
            crate::text::given(current_pane),
            outcome,
        ),
{
    let ghost start = state@;
    let selected = begin_jump(shortcut, herdr, state, current_pane);
    let ghost middle = state@;
    let ghost (policy, agents) = choose|
        policy: Result<WorkspacePolicy, BeaconError>,
        agents: Result<Vec<AgentObservation>, BeaconError>,
    | #[trigger]
        crate::eligibility::answered(herdr, policy, agents) && begins(
            shortcut,
            start,
            middle,
            crate::text::given(current_pane),
            policy,
            agents,
            selected,
        );
    assert(crate::eligibility::answered(herdr, policy, agents));
    let outcome = match selected {
        Err(error) => Err(error),
        Ok(None) => apologize(shortcut, herdr),
        Ok(Some(target)) => {
            let way = approach(herdr, &target);
            let outcome = conclude_jump(state, &target, way);
            assert(concludes(middle, state@, target@, way, outcome));
            outcome
        },
    };
    assert(finishes(shortcut, herdr, middle, state@, selected, outcome));
    outcome
}

/// Goes to the next unread or blocked agent.
pub fn jump_unread<H: HerdrClient>(
    herdr: &H,
    state: &mut BeaconState,
    current_pane: Option<&str>,
) -> (outcome: Result<JumpOutcome, BeaconError>)
    requires
        old(state).wf(),
    ensures
        final(state).wf(),
        jumps(
            Shortcut::Unread,
            herdr,
            old(state)@,
            final(state)@,
            crate::text::given(current_pane),
            outcome,
        ),
{
    jump(Shortcut::Unread, herdr, state, current_pane)
}

/// Goes to the next working or blocked agent. Herdr's status sequence supplies a
/// cross-workspace recency order; the current eligible pane is the cursor, so every
/// active or waiting turn is reachable.
pub fn jump_working<H: HerdrClient>(
    herdr: &H,
    state: &mut BeaconState,
    current_pane: Option<&str>,
) -> (outcome: Result<JumpOutcome, BeaconError>)
    requires
        old(state).wf(),
    ensures
        final(state).wf(),
        jumps(
            Shortcut::Working,
            herdr,
            old(state)@,
            final(state)@,
            crate::text::given(current_pane),
            outcome,
        ),
{
    jump(Shortcut::Working, herdr, state, current_pane)
}

/// Goes to the next idle, done or unknown agent.
pub fn jump_recent<H: HerdrClient>(
    herdr: &H,
    state: &mut BeaconState,
    current_pane: Option<&str>,
) -> (outcome: Result<JumpOutcome, BeaconError>)
    requires
        old(state).wf(),
    ensures
        final(state).wf(),
        jumps(
            Shortcut::Recent,
            herdr,
            old(state)@,
            final(state)@,
            crate::text::given(current_pane),
            outcome,
        ),
{
    jump(Shortcut::Recent, herdr, state, current_pane)
}

/// Walks back toward newer activity in the same filtered ring as `jump_recent`.
/// From a working or blocked pane, or one without an agent, it starts at the oldest.
pub fn jump_recent_reverse<H: HerdrClient>(
    herdr: &H,
    state: &mut BeaconState,
    current_pane: Option<&str>,
) -> (outcome: Result<JumpOutcome, BeaconError>)
    requires
        old(state).wf(),
    ensures
        final(state).wf(),
        jumps(
            Shortcut::RecentReverse,
            herdr,
            old(state)@,
            final(state)@,
            crate::text::given(current_pane),
            outcome,
        ),
{
    jump(Shortcut::RecentReverse, herdr, state, current_pane)
}

/// The pane that an action's context names. A context that names it twice names none;
/// what else it has is skipped.
pub open spec fn pane_in_context(context: Seq<u8>) -> Option<Seq<char>> {
    match crate::record::parts(context) {
        Some(PartsView::Fields(fields)) => if crate::record::uses(fields, "focused_pane_id"@) == 1 {
            match crate::record::text_under(fields, "focused_pane_id"@) {
                Some(text) => crate::json::text_at(crate::record::part_value(text)),
                None => None,
            }
        } else {
            None
        },
        Some(PartsView::Items(items)) => if items.len() == 1 {
            crate::json::text_at(crate::record::part_value(items[0]))
        } else {
            None
        },
        None => None,
    }
}

/// The pane that a shortcut was invoked from: the one that the action's context
/// names or, if it names none, the inherited one.
pub open spec fn invoking_pane(
    named: Option<Seq<char>>,
    inherited: Option<Seq<char>>,
) -> Option<Seq<char>> {
    match filled(named) {
        Some(pane_id) => Some(pane_id),
        None => filled(inherited),
    }
}

/// A text, if it is not empty.
pub open spec fn filled(text: Option<Seq<char>>) -> Option<Seq<char>> {
    match text {
        Some(text) => if text.len() > 0 {
            Some(text)
        } else {
            None
        },
        None => None,
    }
}

/// The meaning of an optional text.
pub open spec fn text_seen(text: Option<String>) -> Option<Seq<char>> {
    match text {
        Some(text) => Some(text@),
        None => None,
    }
}

fn fill(text: Option<&str>) -> (text_or_none: Option<String>)
    ensures
        text_seen(text_or_none) == filled(crate::text::given(text)),
{
    match text {
        Some(text) => if text.is_empty() {
            None
        } else {
            Some(text.to_owned())
        },
        None => None,
    }
}

/// The pane that a shortcut was invoked from, given the one that the action's context
/// names.
pub fn choose_pane(named: Option<String>, inherited: Option<&str>) -> (pane_id: Option<String>)
    ensures
        text_seen(pane_id) == invoking_pane(text_seen(named), crate::text::given(inherited)),
{
    match named {
        Some(pane_id) => if pane_id.as_str().is_empty() {
            fill(inherited)
        } else {
            Some(pane_id)
        },
        None => fill(inherited),
    }
}

/// The text that a part of a record holds.
fn text_of_part(text: &[u8]) -> (held: Option<String>)
    ensures
        text_seen(held) == crate::json::text_at(crate::record::part_value(text@)),
{
    match read_part(text) {
        Some(value) => text_in(Some(&value)),
        None => None,
    }
}

/// The pane that an action's context names.
fn read_context(context: &[u8]) -> (pane_id: Option<String>)
    ensures
        text_seen(pane_id) == pane_in_context(context@),
{
    match read_parts(context) {
        Some(Parts::Fields(fields)) => match find_field(&fields, "focused_pane_id") {
            (1, Some(text)) => text_of_part(text.as_slice()),
            _ => None,
        },
        Some(Parts::Items(items)) => if items.len() == 1 {
            assert(crate::record::items_seen(items@)[0] == items@[0]@);
            text_of_part(items[0].as_slice())
        } else {
            None
        },
        None => None,
    }
}

/// The pane that a shortcut was invoked from. Only action entry points read this
/// context: a hook's pane is the event's target, not the user's cursor.
pub fn invocation_pane(context: Option<&str>, inherited: Option<&str>) -> (pane_id: Option<String>)
    ensures
        text_seen(pane_id) == invoking_pane(
            match context {
                Some(text) => pane_in_context(vstd::utf8::encode_utf8(text@)),
                None => None,
            },
            crate::text::given(inherited),
        ),
{
    let named = match context {
        Some(text) => read_context(text.as_bytes()),
        None => None,
    };
    choose_pane(named, inherited)
}

} // verus!
