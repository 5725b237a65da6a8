//! What always holds of the shortcuts.

use vstd::prelude::*;
use crate::eligibility::WorkspacePolicy;
use crate::error::BeaconError;
use crate::herdr::HerdrClient;
use crate::jump::{Approach, Direction, JumpOutcome, Shortcut};
use crate::ledger::{Ledger, Policy, Sighting};
use crate::model::{AgentObservation, AgentStatus, ObservationSource};

verus! {

/// No two agents share a pane address.
pub open spec fn distinct(agents: Seq<Sighting>) -> bool {
    forall|i: int, j: int|
        0 <= i < j < agents.len() ==> (#[trigger] agents[i]).pane_id != (
        #[trigger] agents[j]).pane_id
}

/// Nobody comes before somebody who ranks before them.
pub open spec fn ordered(ring: Seq<Sighting>) -> bool {
    forall|i: int, j: int|
        0 <= i < j < ring.len() ==> !crate::jump::ranks_before(
            #[trigger] ring[j],
            #[trigger] ring[i],
        )
}

/// The user's place after going around a ring from `current` so many times.
pub open spec fn walked(
    ring: Seq<Sighting>,
    current: Seq<char>,
    direction: Direction,
    presses: nat,
) -> Seq<char>
    decreases presses,
{
    if presses == 0 {
        current
    } else {
        let here = walked(ring, current, direction, (presses - 1) as nat);
        ring[crate::jump::next_place(ring, Some(here), direction)].pane_id
    }
}

proof fn lemma_order(a: Sighting, b: Sighting, c: Sighting)
    ensures
        !(crate::jump::ranks_before(a, b) && crate::jump::ranks_before(b, a)),
        crate::jump::ranks_before(a, b) && !crate::jump::ranks_before(c, b)
            ==> crate::jump::ranks_before(a, c),
{
    crate::text::lemma_precedes_asymmetric(a.pane_id, b.pane_id);
    crate::text::lemma_precedes_total(b.pane_id, c.pane_id);
    if crate::text::precedes(a.pane_id, b.pane_id) && crate::text::precedes(b.pane_id, c.pane_id) {
        crate::text::lemma_precedes_transitive(a.pane_id, b.pane_id, c.pane_id);
    }
}

/// Placing an agent inserts it, behind those that it does not rank before.
proof fn lemma_place(ring: Seq<Sighting>, seen: Sighting) -> (k: int)
    ensures
        0 <= k <= ring.len(),
        crate::jump::placed(ring, seen) == ring.insert(k, seen),
        k > 0 ==> !crate::jump::ranks_before(seen, ring[k - 1]),
        forall|i: int|
            k <= i < ring.len() ==> crate::jump::ranks_before(seen, #[trigger] ring[i]),
    decreases ring.len(),
{
    if ring.len() == 0 || !crate::jump::ranks_before(seen, ring.last()) {
        assert(ring.insert(ring.len() as int, seen) =~= ring.push(seen));
        ring.len() as int
    } else {
        let k = lemma_place(ring.drop_last(), seen);
        assert(ring.drop_last().insert(k, seen).push(ring.last()) =~= ring.insert(k, seen));
        assert forall|i: int| k <= i < ring.len() implies crate::jump::ranks_before(
            seen,
            #[trigger] ring[i],
        ) by {
            if i < ring.len() - 1 {
                assert(ring.drop_last()[i] == ring[i]);
            }
        }
        k
    }
}

/// A ring holds exactly the agents that it was made of.
pub proof fn law_ring_is_a_rearrangement(agents: Seq<Sighting>)
    ensures
        crate::jump::by_activity(agents).to_multiset() == agents.to_multiset(),
        crate::jump::by_activity(agents).len() == agents.len(),
    decreases agents.len(),
{
    broadcast use vstd::seq_lib::group_to_multiset_ensures;

    if agents.len() == 0 {
        assert(agents =~= Seq::<Sighting>::empty());
    } else {
        let rest = agents.drop_last();
        law_ring_is_a_rearrangement(rest);
        let ring = crate::jump::by_activity(rest);
        let k = lemma_place(ring, agents.last());
        vstd::seq_lib::to_multiset_insert(ring, k, agents.last());
        assert(rest.push(agents.last()) =~= agents);
    }
}

/// A ring is in activity order: the latest transition first, ties by pane address.
pub proof fn law_ring_is_ordered(agents: Seq<Sighting>)
    ensures
        ordered(crate::jump::by_activity(agents)),
    decreases agents.len(),
{
    if agents.len() > 0 {
        let rest = agents.drop_last();
        law_ring_is_ordered(rest);
        let ring = crate::jump::by_activity(rest);
        let seen = agents.last();
        let k = lemma_place(ring, seen);
        let longer = ring.insert(k, seen);
        assert forall|i: int, j: int| 0 <= i < j < longer.len() implies !crate::jump::ranks_before(
            #[trigger] longer[j],
            #[trigger] longer[i],
        ) by {
            if j < k {
                assert(longer[i] == ring[i] && longer[j] == ring[j]);
            } else if j == k {
                assert(longer[i] == ring[i]);
                if i < k - 1 {
                    assert(!crate::jump::ranks_before(ring[k - 1], ring[i]));
                    lemma_order(seen, ring[i], ring[k - 1]);
                }
            } else {
                assert(longer[j] == ring[j - 1]);
                if i < k {
                    assert(longer[i] == ring[i]);
                } else if i == k {
                    lemma_order(seen, ring[j - 1], seen);
                } else {
                    assert(longer[i] == ring[i - 1]);
                }
            }
        }
    }
}

proof fn lemma_ring_members(agents: Seq<Sighting>, seen: Sighting)
    ensures
        crate::jump::by_activity(agents).contains(seen) == agents.contains(seen),
{
    broadcast use vstd::seq_lib::group_to_multiset_ensures;

    law_ring_is_a_rearrangement(agents);
    assert(agents.to_multiset().count(seen) > 0 <==> agents.contains(seen));
    assert(crate::jump::by_activity(agents).to_multiset().count(seen) > 0
        <==> crate::jump::by_activity(agents).contains(seen));
}

proof fn lemma_ring_is_distinct(agents: Seq<Sighting>)
    requires
        distinct(agents),
    ensures
        distinct(crate::jump::by_activity(agents)),
    decreases agents.len(),
{
    if agents.len() > 0 {
        let rest = agents.drop_last();
        assert(distinct(rest));
        lemma_ring_is_distinct(rest);
        let ring = crate::jump::by_activity(rest);
        let seen = agents.last();
        let k = lemma_place(ring, seen);
        let longer = ring.insert(k, seen);
        assert forall|m: int| 0 <= m < ring.len() implies (#[trigger] ring[m]).pane_id
            != seen.pane_id by {
            assert(ring.contains(ring[m]));
            lemma_ring_members(rest, ring[m]);
            let i = choose|i: int| 0 <= i < rest.len() && rest[i] == ring[m];
            assert(agents[i].pane_id != agents[agents.len() - 1].pane_id);
        }
        assert forall|i: int, j: int| 0 <= i < j < longer.len() implies (
        #[trigger] longer[i]).pane_id != (#[trigger] longer[j]).pane_id by {
            let a = if i < k {
                i
            } else {
                i - 1
            };
            let b = if j < k {
                j
            } else {
                j - 1
            };
            if i == k {
                assert(longer[j] == ring[b]);
            } else if j == k {
                assert(longer[i] == ring[a]);
            } else {
                assert(longer[i] == ring[a] && longer[j] == ring[b]);
            }
        }
    }
}

proof fn lemma_filter_is_distinct(agents: Seq<Sighting>, keep: spec_fn(Sighting) -> bool)
    requires
        distinct(agents),
    ensures
        distinct(agents.filter(keep)),
{
    let kept = agents.filter(keep);
    assert forall|i: int, j: int| 0 <= i < j < kept.len() implies (#[trigger] kept[i]).pane_id != (
    #[trigger] kept[j]).pane_id by {
        let (a, b) = crate::seqs::lemma_filter_order(agents, keep, i, j);
        assert(agents[a].pane_id != agents[b].pane_id);
    }
}

/// The cursor is the first agent of the ring that is current.
proof fn lemma_cursor(ring: Seq<Sighting>, current: Option<Seq<char>>)
    ensures
        match crate::jump::cursor(ring, current) {
            Some(place) => {
                &&& 0 <= place < ring.len()
                &&& crate::ledger::is_current(ring[place], current)
                &&& forall|i: int|
                    0 <= i < place ==> !crate::ledger::is_current(#[trigger] ring[i], current)
            },
            None => forall|i: int|
                0 <= i < ring.len() ==> !crate::ledger::is_current(#[trigger] ring[i], current),
        },
    decreases ring.len(),
{
    if ring.len() > 0 {
        let rest = ring.drop_last();
        lemma_cursor(rest, current);
        assert forall|i: int| 0 <= i < rest.len() implies #[trigger] ring[i] == rest[i] by {}
    }
}

/// In a ring of distinct agents the cursor is where the pane's agent is.
proof fn lemma_cursor_at(ring: Seq<Sighting>, place: int)
    requires
        distinct(ring),
        0 <= place < ring.len(),
    ensures
        crate::jump::cursor(ring, Some(ring[place].pane_id)) == Some(place),
{
    lemma_cursor(ring, Some(ring[place].pane_id));
    assert(crate::ledger::is_current(ring[place], Some(ring[place].pane_id)));
}

/// There is always a next place, and it is in the ring.
pub proof fn law_next_place_is_in_the_ring(
    ring: Seq<Sighting>,
    current: Option<Seq<char>>,
    direction: Direction,
)
    requires
        ring.len() > 0,
    ensures
        0 <= crate::jump::next_place(ring, current, direction) < ring.len(),
{
    lemma_cursor(ring, current);
}

/// Forward and backward undo each other while the ring is unchanged.
pub proof fn law_directions_undo_each_other(ring: Seq<Sighting>, place: int, direction: Direction)
    requires
        distinct(ring),
        0 <= place < ring.len(),
    ensures
        ({
            let next = crate::jump::next_place(ring, Some(ring[place].pane_id), direction);
            let back = match direction {
                Direction::Forward => Direction::Backward,
                Direction::Backward => Direction::Forward,
            };
            crate::jump::next_place(ring, Some(ring[next].pane_id), back) == place
        }),
{
    lemma_cursor_at(ring, place);
    let next = crate::jump::next_place(ring, Some(ring[place].pane_id), direction);
    lemma_cursor_at(ring, next);
}

/// From outside the ring, going forward starts with the newest agent, and the next
/// presses visit every agent in activity order before the first comes again.
pub proof fn law_forward_visits_everyone(ring: Seq<Sighting>, outside: Seq<char>, presses: nat)
    requires
        distinct(ring),
        crate::jump::cursor(ring, Some(outside)) is None,
        1 <= presses <= ring.len(),
    ensures
        walked(ring, outside, Direction::Forward, presses) == ring[presses - 1].pane_id,
        walked(ring, outside, Direction::Forward, ring.len() + 1) == ring[0].pane_id,
{
    lemma_forward_walk(ring, outside, presses);
    lemma_forward_walk(ring, outside, ring.len());
    lemma_cursor_at(ring, ring.len() - 1);
}

proof fn lemma_forward_walk(ring: Seq<Sighting>, outside: Seq<char>, presses: nat)
    requires
        distinct(ring),
        crate::jump::cursor(ring, Some(outside)) is None,
        1 <= presses <= ring.len(),
    ensures
        walked(ring, outside, Direction::Forward, presses) == ring[presses - 1].pane_id,
    decreases presses,
{
    reveal_with_fuel(walked, 2);
    if presses > 1 {
        lemma_forward_walk(ring, outside, (presses - 1) as nat);
        lemma_cursor_at(ring, presses - 2);
    }
}

/// From outside the ring, going backward starts with the oldest agent, and the next
/// presses visit every agent in the opposite order before the first comes again.
pub proof fn law_backward_visits_everyone(ring: Seq<Sighting>, outside: Seq<char>, presses: nat)
    requires
        distinct(ring),
        crate::jump::cursor(ring, Some(outside)) is None,
        1 <= presses <= ring.len(),
    ensures
        walked(ring, outside, Direction::Backward, presses) == ring[ring.len() - presses].pane_id,
        walked(ring, outside, Direction::Backward, ring.len() + 1) == ring.last().pane_id,
{
    lemma_backward_walk(ring, outside, presses);
    lemma_backward_walk(ring, outside, ring.len());
    lemma_cursor_at(ring, 0);
}

proof fn lemma_backward_walk(ring: Seq<Sighting>, outside: Seq<char>, presses: nat)
    requires
        distinct(ring),
        crate::jump::cursor(ring, Some(outside)) is None,
        1 <= presses <= ring.len(),
    ensures
        walked(ring, outside, Direction::Backward, presses) == ring[ring.len() - presses].pane_id,
    decreases presses,
{
    reveal_with_fuel(walked, 2);
    if presses > 1 {
        lemma_backward_walk(ring, outside, (presses - 1) as nat);
        lemma_cursor_at(ring, ring.len() - presses + 1);
    }
}

/// The agents of a shortcut's ring are the eligible ones that it includes.
pub proof fn law_ring_members(
    shortcut: Shortcut,
    ledger: Ledger,
    eligible: Seq<Sighting>,
    current: Option<Seq<char>>,
    seen: Sighting,
)
    ensures
        shortcut.ring(ledger, eligible, current).contains(seen) <==> eligible.contains(seen)
            && shortcut.includes(ledger, seen, current),
{
    let keep = |seen: Sighting| shortcut.includes(ledger, seen, current);
    lemma_ring_members(eligible.filter(keep), seen);
    crate::seqs::lemma_filter_members(eligible, keep, seen);
}

/// The ring of a shortcut has no pane address twice.
proof fn lemma_shortcut_ring_is_distinct(
    shortcut: Shortcut,
    ledger: Ledger,
    eligible: Seq<Sighting>,
    current: Option<Seq<char>>,
)
    requires
        distinct(eligible),
    ensures
        distinct(shortcut.ring(ledger, eligible, current)),
{
    let keep = |seen: Sighting| shortcut.includes(ledger, seen, current);
    lemma_filter_is_distinct(eligible, keep);
    lemma_ring_is_distinct(eligible.filter(keep));
}

/// Every live agent belongs to the working shortcut or to the recent ones, and
/// never to both.
pub proof fn law_working_and_recent_share_nobody(
    ledger: Ledger,
    eligible: Seq<Sighting>,
    current: Option<Seq<char>>,
    seen: Sighting,
)
    requires
        eligible.contains(seen),
    ensures
        Shortcut::Working.ring(ledger, eligible, current).contains(seen) != Shortcut::Recent.ring(
            ledger,
            eligible,
            current,
        ).contains(seen),
        Shortcut::Recent.ring(ledger, eligible, current) == Shortcut::RecentReverse.ring(
            ledger,
            eligible,
            current,
        ),
{
    law_ring_members(Shortcut::Working, ledger, eligible, current, seen);
    law_ring_members(Shortcut::Recent, ledger, eligible, current, seen);
    let forward = |seen: Sighting| Shortcut::Recent.includes(ledger, seen, current);
    let backward = |seen: Sighting| Shortcut::RecentReverse.includes(ledger, seen, current);
    assert(forward =~= backward);
}

/// A step of the recent shortcut is undone by a step of the reverse one, whatever
/// the ledgers and wherever in the ring the user is.
pub proof fn law_reverse_undoes_recent(
    first: Ledger,
    second: Ledger,
    agents: Seq<Sighting>,
    here: Sighting,
)
    requires
        distinct(agents),
        agents.contains(here),
        !crate::jump::active(here.status),
    ensures
        ({
            let there = Shortcut::Recent.target(first, agents, Some(here.pane_id));
            &&& there is Some
            &&& Shortcut::RecentReverse.target(second, agents, Some(there->0.pane_id)) == Some(
                here,
            )
        }),
        ({
            let there = Shortcut::RecentReverse.target(first, agents, Some(here.pane_id));
            &&& there is Some
            &&& Shortcut::Recent.target(second, agents, Some(there->0.pane_id)) == Some(here)
        }),
{
    let current = Some(here.pane_id);
    let ring = Shortcut::Recent.ring(first, agents, current);
    law_ring_members(Shortcut::Recent, first, agents, current, here);
    let place = choose|i: int| 0 <= i < ring.len() && ring[i] == here;
    lemma_shortcut_ring_is_distinct(Shortcut::Recent, first, agents, current);
    law_directions_undo_each_other(ring, place, Direction::Forward);
    law_directions_undo_each_other(ring, place, Direction::Backward);
    let ahead = ring[crate::jump::next_place(ring, current, Direction::Forward)];
    let behind = ring[crate::jump::next_place(ring, current, Direction::Backward)];
    lemma_recent_ring_is_stable(
        Shortcut::RecentReverse,
        second,
        agents,
        Some(ahead.pane_id),
        first,
        current,
    );
    lemma_recent_ring_is_stable(Shortcut::RecentReverse, first, agents, current, first, current);
    lemma_recent_ring_is_stable(
        Shortcut::Recent,
        second,
        agents,
        Some(behind.pane_id),
        first,
        current,
    );
}

/// The recent rings depend on nothing but the agents.
proof fn lemma_recent_ring_is_stable(
    shortcut: Shortcut,
    ledger: Ledger,
    agents: Seq<Sighting>,
    current: Option<Seq<char>>,
    other: Ledger,
    elsewhere: Option<Seq<char>>,
)
    requires
        shortcut is Recent || shortcut is RecentReverse,
    ensures
        shortcut.ring(ledger, agents, current) == Shortcut::Recent.ring(other, agents, elsewhere),
{
    let here = |seen: Sighting| shortcut.includes(ledger, seen, current);
    let there = |seen: Sighting| Shortcut::Recent.includes(other, seen, elsewhere);
    assert(here =~= there);
}

/// From outside its ring a shortcut starts with the newest agent, the reverse one
/// with the oldest.
pub proof fn law_shortcuts_start_at_the_end_of_the_ring(
    shortcut: Shortcut,
    ledger: Ledger,
    eligible: Seq<Sighting>,
    current: Option<Seq<char>>,
    other: Sighting,
)
    requires
        crate::jump::cursor(shortcut.ring(ledger, eligible, current), current) is None,
        shortcut.ring(ledger, eligible, current).contains(other),
    ensures
        shortcut.target(ledger, eligible, current) matches Some(target) && if shortcut
            is RecentReverse {
            !crate::jump::ranks_before(target, other)
        } else {
            !crate::jump::ranks_before(other, target)
        },
{
    let ring = shortcut.ring(ledger, eligible, current);
    let keep = |seen: Sighting| shortcut.includes(ledger, seen, current);
    law_ring_is_ordered(eligible.filter(keep));
    lemma_cursor(ring, current);
    let place = choose|i: int| 0 <= i < ring.len() && ring[i] == other;
    let start = crate::jump::next_place(ring, current, shortcut.heading());
    assert(!crate::ledger::is_current(ring[start], current));
    lemma_order(other, other, other);
}

/// A shortcut goes only to a live agent of an eligible workspace: what the policy
/// excludes or does not know is omitted from every shortcut.
pub proof fn law_targets_are_eligible(
    shortcut: Shortcut,
    ledger: Ledger,
    agents: Seq<Sighting>,
    policy: Policy,
    current: Option<Seq<char>>,
)
    ensures
        shortcut.target(ledger, crate::ledger::eligible_only(agents, policy), current) matches Some(
            target,
        ) ==> agents.contains(target) && policy.eligible(target.workspace_id),
{
    let eligible = crate::ledger::eligible_only(agents, policy);
    let ring = shortcut.ring(ledger, eligible, current);
    if let Some(target) = shortcut.target(ledger, eligible, current) {
        law_next_place_is_in_the_ring(ring, current, shortcut.heading());
        assert(ring.contains(target));
        law_ring_members(shortcut, ledger, eligible, current, target);
        crate::seqs::lemma_filter_members(
            agents,
            |seen: Sighting| policy.eligible(seen.workspace_id),
            target,
        );
    }
}

/// The unread shortcut goes around every unread completion, every blocked agent,
/// read or not, and the user's own agent, which keeps its place as the cursor.
pub proof fn law_unread_ring_keeps_blockers_and_the_cursor(
    ledger: Ledger,
    eligible: Seq<Sighting>,
    current: Option<Seq<char>>,
    seen: Sighting,
)
    requires
        eligible.contains(seen),
        seen.status is Blocked || ledger.entries.contains_key(seen.pane_id)
            || crate::ledger::is_current(seen, current),
    ensures
        Shortcut::Unread.ring(ledger, eligible, current).contains(seen),
{
    law_ring_members(Shortcut::Unread, ledger, eligible, current, seen);
}

/// The unread shortcut stays only if there is no other destination: then its ring
/// holds nobody but the user's own agents.
pub proof fn law_unread_jump_finds_another_agent(
    ledger: Ledger,
    eligible: Seq<Sighting>,
    pane_id: Seq<char>,
)
    requires
        distinct(eligible),
    ensures
        Shortcut::Unread.target(ledger, eligible, Some(pane_id)) is None
            <==> forall|seen: Sighting| #[trigger]
            Shortcut::Unread.ring(ledger, eligible, Some(pane_id)).contains(seen) ==> seen.pane_id
                == pane_id,
{
    let current = Some(pane_id);
    let ring = Shortcut::Unread.ring(ledger, eligible, current);
    lemma_shortcut_ring_is_distinct(Shortcut::Unread, ledger, eligible, current);
    lemma_cursor(ring, current);
    if ring.len() > 0 {
        let next = crate::jump::next_place(ring, current, Direction::Forward);
        assert(ring.contains(ring[next]));
        assert(ring.contains(ring[0]));
        if ring.len() > 1 {
            assert(ring.contains(ring[1]));
            assert(ring[0].pane_id != ring[1].pane_id);
        }
    }
}

/// Nobody is focused unless the fresh lookup still finds the selected agent and the
/// fresh policy still allows its workspace.
pub proof fn law_arrival_was_checked(
    selected: Sighting,
    live: Result<Option<AgentObservation>, BeaconError>,
    policy: Result<WorkspacePolicy, BeaconError>,
    focused: Result<AgentObservation, BeaconError>,
    approach: Approach,
)
    requires
        crate::jump::approached(selected, live, policy, focused, approach),
        approach is Arrived,
    ensures
        live matches Ok(Some(agent)) && crate::jump::is_same_agent(selected, agent@),
        policy matches Ok(policy) && policy@.eligible(selected.workspace_id),
{
}

/// A successful jump marks what was selected as read: nothing up to the selected
/// sequence stays queued for that terminal at that address.
pub proof fn law_visited_work_is_read(ledger: Ledger, focused: Sighting, selected: Sighting)
    ensures
        ledger.visited(focused, selected).slot(selected.pane_id).pending matches Some(entry) ==> (
        entry.terminal_id != selected.terminal_id || entry.state_change_seq
            > selected.state_change_seq),
{
}

/// Navigation records focus evidence without enrolling new work: nothing is queued
/// that was not queued before.
pub proof fn law_navigation_enrolls_nothing(
    ledger: Ledger,
    focused: Sighting,
    selected: Sighting,
    pane_id: Seq<char>,
)
    ensures
        ledger.visited(focused, selected).entries.contains_key(pane_id)
            ==> ledger.entries.contains_key(pane_id) && ledger.visited(
            focused,
            selected,
        ).entries[pane_id] == ledger.entries[pane_id],
{
    let next = ledger.observed(focused, ObservationSource::Focus);
    assert(next.entries.contains_key(pane_id) ==> ledger.entries.contains_key(pane_id)
        && next.entries[pane_id] == ledger.entries[pane_id]);
}

/// A refused target takes nobody else's work with it: the entries of other
/// terminals at other addresses stay queued.
pub proof fn law_refusal_keeps_other_work(ledger: Ledger, selected: Sighting, pane_id: Seq<char>)
    requires
        ledger.entries.contains_key(pane_id),
        pane_id != selected.pane_id,
        ledger.entries[pane_id].terminal_id != selected.terminal_id,
    ensures
        ledger.withheld(selected).entries.contains_key(pane_id),
        ledger.withheld(selected).entries[pane_id] == ledger.entries[pane_id],
{
}

/// From inside its ring a forward shortcut goes to the next older agent: the user's
/// own agent ranks before the target, and nobody stands between them. Newer agents
/// come again only after the oldest.
pub proof fn law_forward_goes_to_the_next_older(
    shortcut: Shortcut,
    ledger: Ledger,
    eligible: Seq<Sighting>,
    here: Sighting,
    older: Sighting,
)
    requires
        distinct(eligible),
        shortcut !is RecentReverse,
        shortcut.ring(ledger, eligible, Some(here.pane_id)).contains(here),
        shortcut.ring(ledger, eligible, Some(here.pane_id)).contains(older),
        crate::jump::ranks_before(here, older),
    ensures
        shortcut.target(ledger, eligible, Some(here.pane_id)) matches Some(target)
            && crate::jump::ranks_before(here, target) && !crate::jump::ranks_before(older, target),
{
    let current = Some(here.pane_id);
    let ring = shortcut.ring(ledger, eligible, current);
    let keep = |seen: Sighting| shortcut.includes(ledger, seen, current);
    law_ring_is_ordered(eligible.filter(keep));
    lemma_shortcut_ring_is_distinct(shortcut, ledger, eligible, current);
    let place = choose|i: int| 0 <= i < ring.len() && ring[i] == here;
    let later = choose|i: int| 0 <= i < ring.len() && ring[i] == older;
    lemma_cursor_at(ring, place);
    lemma_order(here, older, here);
    assert(place < later);
    let next = ring[place + 1];
    assert(!crate::jump::ranks_before(next, here));
    assert(next.pane_id != here.pane_id);
    crate::text::lemma_precedes_total(here.pane_id, next.pane_id);
    lemma_order(older, next, older);
}

/// Without a policy nothing is selected, and the ledger notes that it has to recover.
pub proof fn law_no_policy_no_navigation(
    shortcut: Shortcut,
    start: Ledger,
    end: Ledger,
    current: Option<Seq<char>>,
    policy: Result<WorkspacePolicy, BeaconError>,
    agents: Result<Vec<AgentObservation>, BeaconError>,
    selected: Result<Option<AgentObservation>, BeaconError>,
)
    requires
        crate::jump::begins(shortcut, start, end, current, policy, agents, selected),
        policy is Err,
    ensures
        selected is Err,
        end == start.unresolved(),
{
}

/// A client whose answers do not change: it always gives this policy and these
/// agents, finds each of them where the list has it, and focuses what it is asked to.
pub open spec fn is_steady<H: HerdrClient>(
    herdr: &H,
    policy: Policy,
    agents: Seq<Sighting>,
) -> bool {
    &&& forall|answer: Result<WorkspacePolicy, BeaconError>| #[trigger]
        call_ensures(H::workspace_policy, (herdr,), answer) ==> (answer matches Ok(given)
            && given@ == policy)
    &&& forall|answer: Result<Vec<AgentObservation>, BeaconError>| #[trigger]
        call_ensures(H::agent_list, (herdr,), answer) ==> (answer matches Ok(listed)
            && crate::model::sightings(listed@) == agents)
    &&& forall|pane_id: &str, answer: Result<Option<AgentObservation>, BeaconError>, i: int|
        #![trigger call_ensures(H::agent_get, (herdr, pane_id), answer), agents[i]]
        call_ensures(H::agent_get, (herdr, pane_id), answer) && 0 <= i < agents.len()
            && agents[i].pane_id == pane_id@ ==> (answer matches Ok(Some(found))
            && crate::jump::is_same_agent(agents[i], found@))
    &&& forall|pane_id: &str, answer: Result<AgentObservation, BeaconError>| #[trigger]
        call_ensures(H::focus_agent, (herdr, pane_id), answer) ==> answer is Ok
}

/// The ring of a shortcut other than the unread one depends on nothing but the agents.
proof fn lemma_ring_is_stable(
    shortcut: Shortcut,
    ledger: Ledger,
    agents: Seq<Sighting>,
    current: Option<Seq<char>>,
    other: Ledger,
    elsewhere: Option<Seq<char>>,
)
    requires
        shortcut !is Unread,
    ensures
        shortcut.ring(ledger, agents, current) == shortcut.ring(other, agents, elsewhere),
{
    let here = |seen: Sighting| shortcut.includes(ledger, seen, current);
    let there = |seen: Sighting| shortcut.includes(other, seen, elsewhere);
    assert(here =~= there);
}

/// With a client whose answers do not change, a shortcut other than the unread one
/// focuses its target.
pub proof fn law_steady_client_is_followed<H: HerdrClient>(
    shortcut: Shortcut,
    herdr: &H,
    policy: Policy,
    agents: Seq<Sighting>,
    start: Ledger,
    end: Ledger,
    current: Option<Seq<char>>,
    outcome: Result<JumpOutcome, BeaconError>,
)
    requires
        shortcut !is Unread,
        is_steady(herdr, policy, agents),
        crate::ledger::unambiguous(agents),
        crate::jump::jumps(shortcut, herdr, start, end, current, outcome),
    ensures
        shortcut.target(start, crate::ledger::eligible_only(agents, policy), current) matches Some(
            target,
        ) ==> (outcome matches Ok(JumpOutcome::Focused(pane_id)) && pane_id@ == target.pane_id),
{
    let eligible = crate::ledger::eligible_only(agents, policy);
    let (given, listed, middle, selected) = choose|
        given: Result<WorkspacePolicy, BeaconError>,
        listed: Result<Vec<AgentObservation>, BeaconError>,
        middle: Ledger,
        selected: Result<Option<AgentObservation>, BeaconError>,
    |
        #![trigger
            crate::eligibility::answered(herdr, given, listed),
            crate::jump::finishes(shortcut, herdr, middle, end, selected, outcome)
        ]
        crate::eligibility::answered(herdr, given, listed) && crate::jump::begins(
            shortcut,
            start,
            middle,
            current,
            given,
            listed,
            selected,
        ) && crate::jump::finishes(shortcut, herdr, middle, end, selected, outcome);
    assert(crate::eligibility::answered(herdr, given, listed));
    assert(given matches Ok(fresh) && fresh@ == policy);
    assert(listed matches Ok(live) && crate::model::sightings(live@) == agents);
    lemma_ring_is_stable(shortcut, start, eligible, current, middle, current);
    assert(selected matches Ok(target) && crate::jump::seen_in(target) == shortcut.target(
        middle,
        eligible,
        current,
    ));
    if let Some(target) = shortcut.target(start, eligible, current) {
        law_targets_are_eligible(shortcut, start, agents, policy, current);
        let i = choose|i: int| 0 <= i < agents.len() && agents[i] == target;
        assert(agents[i].pane_id == target.pane_id);
    }
}

/// With a client whose answers do not change, repeated presses of a forward shortcut
/// visit every agent of its ring once, in activity order, before the first comes
/// again. The first press is made from outside the ring, each later one from where the
/// one before led.
pub proof fn law_repeated_presses_visit_everyone<H: HerdrClient>(
    shortcut: Shortcut,
    herdr: &H,
    policy: Policy,
    agents: Seq<Sighting>,
    ledgers: Seq<Ledger>,
    panes: Seq<Seq<char>>,
    outcomes: Seq<Result<JumpOutcome, BeaconError>>,
)
    requires
        shortcut is Working || shortcut is Recent,
        is_steady(herdr, policy, agents),
        crate::ledger::unambiguous(agents),
        ({
            let ring = shortcut.ring(
                ledgers[0],
                crate::ledger::eligible_only(agents, policy),
                Some(panes[0]),
            );
            &&& ring.len() > 0
            &&& crate::jump::cursor(ring, Some(panes[0])) is None
            &&& outcomes.len() == ring.len() + 1
        }),
        ledgers.len() == outcomes.len() + 1,
        panes.len() == outcomes.len() + 1,
        forall|k: int|
            0 <= k < outcomes.len() ==> {
                &&& crate::jump::jumps(
                    shortcut,
                    herdr,
                    ledgers[k],
                    ledgers[k + 1],
                    Some(panes[k]),
                    #[trigger] outcomes[k],
                )
                &&& outcomes[k] matches Ok(JumpOutcome::Focused(pane_id)) ==> panes[k + 1]
                    == pane_id@
            },
    ensures
        ({
            let ring = shortcut.ring(
                ledgers[0],
                crate::ledger::eligible_only(agents, policy),
                Some(panes[0]),
            );
            &&& distinct(ring)
            &&& ordered(ring)
            &&& forall|seen: Sighting| #[trigger]
                ring.contains(seen) <==> agents.contains(seen) && policy.eligible(seen.workspace_id)
                    && (shortcut is Working <==> crate::jump::active(seen.status))
            &&& forall|k: int|
                0 <= k < ring.len() ==> ((#[trigger] outcomes[k]) matches Ok(
                    JumpOutcome::Focused(pane_id),
                ) && pane_id@ == ring[k].pane_id)
            &&& outcomes[ring.len() as int] matches Ok(JumpOutcome::Focused(pane_id))
            &&& pane_id@ == ring[0].pane_id
        }),
{
    let eligible = crate::ledger::eligible_only(agents, policy);
    let ring = shortcut.ring(ledgers[0], eligible, Some(panes[0]));
    let allowed = |seen: Sighting| policy.eligible(seen.workspace_id);
    assert(distinct(agents));
    lemma_filter_is_distinct(agents, allowed);
    lemma_shortcut_ring_is_distinct(shortcut, ledgers[0], eligible, Some(panes[0]));
    law_ring_is_ordered(
        eligible.filter(
            |seen: Sighting| shortcut.includes(ledgers[0], seen, Some(panes[0])),
        ),
    );
    assert forall|seen: Sighting| #[trigger] ring.contains(seen) <==> agents.contains(seen)
        && policy.eligible(seen.workspace_id) && (shortcut is Working <==> crate::jump::active(
        seen.status,
    )) by {
        law_ring_members(shortcut, ledgers[0], eligible, Some(panes[0]), seen);
        crate::seqs::lemma_filter_members(agents, allowed, seen);
    }
    lemma_presses(shortcut, herdr, policy, agents, ledgers, panes, outcomes, ring, ring.len());
    assert forall|k: int| 0 <= k < ring.len() implies ((#[trigger] outcomes[k]) matches Ok(
        JumpOutcome::Focused(pane_id),
    ) && pane_id@ == ring[k].pane_id) by {
        lemma_presses(shortcut, herdr, policy, agents, ledgers, panes, outcomes, ring, k as nat);
    }
}

/// Where one press of many leads.
proof fn lemma_presses<H: HerdrClient>(
    shortcut: Shortcut,
    herdr: &H,
    policy: Policy,
    agents: Seq<Sighting>,
    ledgers: Seq<Ledger>,
    panes: Seq<Seq<char>>,
    outcomes: Seq<Result<JumpOutcome, BeaconError>>,
    ring: Seq<Sighting>,
    k: nat,
)
    requires
        shortcut is Working || shortcut is Recent,
        is_steady(herdr, policy, agents),
        crate::ledger::unambiguous(agents),
        ring == shortcut.ring(
            ledgers[0],
            crate::ledger::eligible_only(agents, policy),
            Some(panes[0]),
        ),
        ring.len() > 0,
        distinct(ring),
        crate::jump::cursor(ring, Some(panes[0])) is None,
        outcomes.len() == ring.len() + 1,
        forall|k: int|
            0 <= k < outcomes.len() ==> {
                &&& crate::jump::jumps(
                    shortcut,
                    herdr,
                    ledgers[k],
                    ledgers[k + 1],
                    Some(panes[k]),
                    #[trigger] outcomes[k],
                )
                &&& outcomes[k] matches Ok(JumpOutcome::Focused(pane_id)) ==> panes[k + 1]
                    == pane_id@
            },
        k <= ring.len(),
    ensures
        outcomes[k as int] matches Ok(JumpOutcome::Focused(pane_id)) && pane_id@ == ring[if k
            < ring.len() {
            k as int
        } else {
            0
        }].pane_id,
    decreases k,
{
    let eligible = crate::ledger::eligible_only(agents, policy);
    let at = k as int;
    let current = Some(panes[at]);
    if k > 0 {
        lemma_presses(
            shortcut,
            herdr,
            policy,
            agents,
            ledgers,
            panes,
            outcomes,
            ring,
            (k - 1) as nat,
        );
        assert(outcomes[at - 1] matches Ok(JumpOutcome::Focused(pane_id)) && panes[at]
            == pane_id@);
        lemma_cursor_at(ring, at - 1);
    }
    lemma_ring_is_stable(shortcut, ledgers[at], eligible, current, ledgers[0], Some(panes[0]));
    assert(crate::jump::jumps(
        shortcut,
        herdr,
        ledgers[at],
        ledgers[at + 1],
        current,
        outcomes[at],
    ));
    law_steady_client_is_followed(
        shortcut,
        herdr,
        policy,
        agents,
        ledgers[at],
        ledgers[at + 1],
        current,
        outcomes[at],
    );
}

/// With a client whose answers do not change, the two recent shortcuts undo each
/// other: pressing one where the other led goes back to where the user was, at ties
/// and at the ends of the ring too.
pub proof fn law_reverse_press_goes_back<H: HerdrClient>(
    shortcut: Shortcut,
    herdr: &H,
    policy: Policy,
    agents: Seq<Sighting>,
    here: Sighting,
    first: (Ledger, Ledger),
    there: Result<JumpOutcome, BeaconError>,
    second: (Ledger, Ledger),
    back: Result<JumpOutcome, BeaconError>,
)
    requires
        shortcut is Recent || shortcut is RecentReverse,
        is_steady(herdr, policy, agents),
        crate::ledger::unambiguous(agents),
        agents.contains(here),
        policy.eligible(here.workspace_id),
        !crate::jump::active(here.status),
        crate::jump::jumps(shortcut, herdr, first.0, first.1, Some(here.pane_id), there),
        there matches Ok(JumpOutcome::Focused(pane_id)) ==> crate::jump::jumps(
            if shortcut is Recent {
                Shortcut::RecentReverse
            } else {
                Shortcut::Recent
            },
            herdr,
            second.0,
            second.1,
            Some(pane_id@),
            back,
        ),
    ensures
        there matches Ok(JumpOutcome::Focused(_)),
        back matches Ok(JumpOutcome::Focused(pane_id)) && pane_id@ == here.pane_id,
{
    let eligible = crate::ledger::eligible_only(agents, policy);
    let allowed = |seen: Sighting| policy.eligible(seen.workspace_id);
    assert(distinct(agents));
    lemma_filter_is_distinct(agents, allowed);
    crate::seqs::lemma_filter_members(agents, allowed, here);
    law_reverse_undoes_recent(first.0, second.0, eligible, here);
    law_steady_client_is_followed(
        shortcut,
        herdr,
        policy,
        agents,
        first.0,
        first.1,
        Some(here.pane_id),
        there,
    );
    let reverse = if shortcut is Recent {
        Shortcut::RecentReverse
    } else {
        Shortcut::Recent
    };
    let reached = shortcut.target(first.0, eligible, Some(here.pane_id))->0;
    law_steady_client_is_followed(
        reverse,
        herdr,
        policy,
        agents,
        second.0,
        second.1,
        Some(reached.pane_id),
        back,
    );
}

/// The user is at the agent: at its pane, or, when no pane is known, at the agent that
/// the server calls focused.
pub open spec fn is_here(seen: Sighting, current: Option<Seq<char>>) -> bool {
    match current {
        Some(pane_id) => seen.pane_id == pane_id,
        None => seen.focused,
    }
}

/// The unread ring holds nobody but blocked agents, agents with a pending entry at
/// their pane address and the user's own agent, and it holds all of those that are
/// eligible.
pub proof fn law_unread_ring_holds_nobody_else(
    ledger: Ledger,
    eligible: Seq<Sighting>,
    current: Option<Seq<char>>,
    seen: Sighting,
)
    ensures
        Shortcut::Unread.ring(ledger, eligible, current).contains(seen) <==> eligible.contains(seen)
            && (seen.status == AgentStatus::Blocked || ledger.entries.dom().contains(seen.pane_id)
            || match current {
            Some(pane_id) => seen.pane_id == pane_id,
            None => seen.focused,
        }),
{
    law_ring_members(Shortcut::Unread, ledger, eligible, current, seen);
}

/// The working ring holds the eligible agents that work or are blocked, the recent
/// rings those that are idle, done or in no known state, whatever the ledger holds and
/// wherever the user is.
pub proof fn law_status_decides_the_other_rings(
    ledger: Ledger,
    eligible: Seq<Sighting>,
    current: Option<Seq<char>>,
    seen: Sighting,
)
    ensures
        Shortcut::Working.ring(ledger, eligible, current).contains(seen) <==> eligible.contains(
            seen,
        ) && (seen.status == AgentStatus::Working || seen.status == AgentStatus::Blocked),
        Shortcut::Recent.ring(ledger, eligible, current).contains(seen) <==> eligible.contains(seen)
            && (seen.status == AgentStatus::Idle || seen.status == AgentStatus::Done || seen.status
            == AgentStatus::Unknown),
        Shortcut::RecentReverse.ring(ledger, eligible, current).contains(seen)
            <==> eligible.contains(seen) && (seen.status == AgentStatus::Idle || seen.status
            == AgentStatus::Done || seen.status == AgentStatus::Unknown),
{
    law_ring_members(Shortcut::Working, ledger, eligible, current, seen);
    law_ring_members(Shortcut::Recent, ledger, eligible, current, seen);
    law_ring_members(Shortcut::RecentReverse, ledger, eligible, current, seen);
}

/// Every ring goes from the highest sequence to the lowest; agents with the same
/// sequence stand in the text order of their pane addresses.
pub proof fn law_rings_go_from_newest_to_oldest(
    shortcut: Shortcut,
    ledger: Ledger,
    eligible: Seq<Sighting>,
    current: Option<Seq<char>>,
    i: int,
    j: int,
)
    requires
        distinct(eligible),
        0 <= i < j < shortcut.ring(ledger, eligible, current).len(),
    ensures
        ({
            let ring = shortcut.ring(ledger, eligible, current);
            ||| ring[i].state_change_seq > ring[j].state_change_seq
            ||| ring[i].state_change_seq == ring[j].state_change_seq && crate::text::precedes(
                ring[i].pane_id,
                ring[j].pane_id,
            )
        }),
{
    let ring = shortcut.ring(ledger, eligible, current);
    let keep = |seen: Sighting| shortcut.includes(ledger, seen, current);
    law_ring_is_ordered(eligible.filter(keep));
    lemma_shortcut_ring_is_distinct(shortcut, ledger, eligible, current);
    assert(!crate::jump::ranks_before(ring[j], ring[i]));
    assert(ring[i].pane_id != ring[j].pane_id);
    crate::text::lemma_precedes_total(ring[i].pane_id, ring[j].pane_id);
}

/// From inside its ring a shortcut goes to the neighbour: forward to the next place,
/// the reverse one to the place before, around the ends. The unread shortcut alone
/// stays when the neighbour is the user's own agent.
pub proof fn law_target_is_the_neighbour(
    shortcut: Shortcut,
    ledger: Ledger,
    eligible: Seq<Sighting>,
    current: Option<Seq<char>>,
    place: int,
)
    requires
        0 <= place < shortcut.ring(ledger, eligible, current).len(),
        is_here(shortcut.ring(ledger, eligible, current)[place], current),
        forall|i: int|
            0 <= i < place ==> !is_here(
                #[trigger] shortcut.ring(ledger, eligible, current)[i],
                current,
            ),
    ensures
        ({
            let ring = shortcut.ring(ledger, eligible, current);
            let size = ring.len() as int;
            let next = if shortcut == Shortcut::RecentReverse {
                ring[(place + size - 1) % size]
            } else {
                ring[(place + 1) % size]
            };
            shortcut.target(ledger, eligible, current) == if shortcut == Shortcut::Unread
                && is_here(next, current) {
                None
            } else {
                Some(next)
            }
        }),
{
    let ring = shortcut.ring(ledger, eligible, current);
    let size = ring.len() as int;
    lemma_cursor(ring, current);
    assert(crate::ledger::is_current(ring[place], current));
    let at = crate::jump::cursor(ring, current)->0;
    if at < place {
        assert(!is_here(ring[at], current));
    }
    assert(at == place);
    if place + 1 < size {
        vstd::arithmetic::div_mod::lemma_small_mod((place + 1) as nat, size as nat);
    } else {
        vstd::arithmetic::div_mod::lemma_mod_self_0(size);
    }
    if place > 0 {
        vstd::arithmetic::div_mod::lemma_mod_add_multiples_vanish(place - 1, size);
        vstd::arithmetic::div_mod::lemma_small_mod((place - 1) as nat, size as nat);
        assert(size + (place - 1) == place + size - 1);
    } else {
        vstd::arithmetic::div_mod::lemma_small_mod((size - 1) as nat, size as nat);
    }
}

/// From outside its ring a forward shortcut goes to the first agent of the ring and the
/// reverse one to the last. Nobody is a target of an empty ring.
pub proof fn law_target_from_outside_is_an_end(
    shortcut: Shortcut,
    ledger: Ledger,
    eligible: Seq<Sighting>,
    current: Option<Seq<char>>,
)
    requires
        forall|i: int|
            0 <= i < shortcut.ring(ledger, eligible, current).len() ==> !is_here(
                #[trigger] shortcut.ring(ledger, eligible, current)[i],
                current,
            ),
    ensures
        ({
            let ring = shortcut.ring(ledger, eligible, current);
            shortcut.target(ledger, eligible, current) == if ring.len() == 0 {
                None
            } else if shortcut == Shortcut::RecentReverse {
                Some(ring[ring.len() - 1])
            } else {
                Some(ring[0])
            }
        }),
{
    let ring = shortcut.ring(ledger, eligible, current);
    lemma_cursor(ring, current);
    if let Some(at) = crate::jump::cursor(ring, current) {
        assert(!is_here(ring[at], current));
    }
    if ring.len() > 0 {
        assert(!is_here(ring[0], current));
        assert(!is_here(ring[ring.len() - 1], current));
    }
}

/// The live agent is where the selected one was: at its address, in its terminal and in
/// its workspace.
pub open spec fn is_unmoved(selected: Sighting, live: Sighting) -> bool {
    live.pane_id == selected.pane_id && live.terminal_id == selected.terminal_id
        && live.workspace_id == selected.workspace_id
}

/// The policy knows the workspace and does not exclude it.
pub open spec fn is_open(policy: Policy, workspace_id: Seq<char>) -> bool {
    policy.workspaces.contains(workspace_id) && !policy.excluded.contains(workspace_id)
}

/// How the way to a selected agent ends: it is refused exactly if the agent is gone, is
/// no longer where it was, or its workspace is no longer open; it fails with the failure
/// of the lookup or of the focus; without a fresh policy it stays unconfirmed; and it
/// arrives at the agent that Herdr focused in every other case.
pub proof fn law_way_ends_by_the_answers(
    selected: Sighting,
    live: Result<Option<AgentObservation>, BeaconError>,
    policy: Result<WorkspacePolicy, BeaconError>,
    focused: Result<AgentObservation, BeaconError>,
    approach: Approach,
)
    requires
        crate::jump::approached(selected, live, policy, focused, approach),
    ensures
        live matches Err(failure) ==> (approach matches Approach::Failed(error) && error
            == failure),
        (live matches Ok(None)) ==> approach is Refused,
        live matches Ok(Some(agent)) ==> {
            &&& !is_unmoved(selected, agent@) ==> approach is Refused
            &&& is_unmoved(selected, agent@) ==> {
                &&& policy matches Err(failure) ==> (approach matches Approach::Unconfirmed(error)
                    && error == failure)
                &&& policy matches Ok(fresh) ==> {
                    &&& !is_open(fresh@, selected.workspace_id) ==> approach is Refused
                    &&& is_open(fresh@, selected.workspace_id) ==> {
                        &&& focused matches Err(failure) ==> (approach matches Approach::Failed(
                            error,
                        ) && error == failure)
                        &&& focused matches Ok(agent) ==> (approach matches Approach::Arrived(
                            reached,
                        ) && reached == agent)
                    }
                }
            }
        },
{
}

/// The next step is taken from what was found alone: nothing is focused unless the live
/// agent is where the selected one was and a policy that was read opens its workspace.
pub proof fn law_nothing_is_focused_unchecked(
    selected: &AgentObservation,
    live: Option<&AgentObservation>,
    policy: Option<&WorkspacePolicy>,
    step: crate::jump::Step,
)
    requires
        call_ensures(crate::jump::next_step, (selected, live, policy), step),
    ensures
        step is Focus <==> (live matches Some(agent) && is_unmoved(selected@, agent@)) && (
        policy matches Some(fresh) && is_open(fresh@, selected@.workspace_id)),
        step is Consult <==> (live matches Some(agent) && is_unmoved(selected@, agent@))
            && policy is None,
{
}

/// What the end of a jump leaves. A failure leaves the ledger as it was and is handed
/// on; without a policy the ledger only notes that it has to recover; a refused target
/// is forgotten and the user stays; an arrival is at the selected pane.
pub proof fn law_jumps_end_by_their_approach(
    start: Ledger,
    end: Ledger,
    selected: Sighting,
    approach: Approach,
    outcome: Result<JumpOutcome, BeaconError>,
    pane_id: Seq<char>,
)
    requires
        crate::jump::concludes(start, end, selected, approach, outcome),
    ensures
        approach matches Approach::Failed(failure) ==> end == start && (outcome matches Err(error)
            && error == failure),
        approach matches Approach::Unconfirmed(failure) ==> end == (Ledger {
            recovery_needed: true,
            ..start
        }) && (outcome matches Err(error) && error == failure),
        approach is Refused ==> (outcome matches Ok(JumpOutcome::Empty))
            && !end.entries.dom().contains(selected.pane_id) && !crate::outcomes::records(
            end,
            pane_id,
            selected.terminal_id,
        ) && end.suppressed.dom().contains(selected.terminal_id),
        approach is Arrived ==> (outcome matches Ok(JumpOutcome::Focused(reached)) && reached@
            == selected.pane_id),
        approach matches Approach::Arrived(agent) ==> end == start.visited(agent@, selected),
{
    crate::outcomes::law_withholding_forgets_one_terminal(start, selected, pane_id);
}

/// The user is told why there is nowhere to go, in the words of the shortcut, and that
/// the telling failed is handed on.
pub proof fn law_users_are_told_in_the_words_of_the_shortcut<H: HerdrClient>(
    shortcut: Shortcut,
    herdr: &H,
    middle: Ledger,
    end: Ledger,
    outcome: Result<JumpOutcome, BeaconError>,
)
    requires
        crate::jump::finishes(shortcut, herdr, middle, end, Ok(None), outcome),
    ensures
        end == middle,
        exists|title: &str, told: Result<(), BeaconError>|
            {
                &&& #[trigger] call_ensures(H::notify, (herdr, title, None), told)
                &&& shortcut == Shortcut::Unread ==> title@ == "No unread agents"@
                &&& shortcut == Shortcut::Working ==> title@ == "No working or blocked agents"@
                &&& shortcut == Shortcut::Recent || shortcut == Shortcut::RecentReverse ==> title@
                    == "No eligible agents"@
                &&& told is Ok ==> (outcome matches Ok(JumpOutcome::Empty))
                &&& told matches Err(failure) ==> (outcome matches Err(error) && error == failure)
            },
{
    let (title, told) = choose|title: &str, told: Result<(), BeaconError>|
        title@ == shortcut.apology() && #[trigger] call_ensures(
            H::notify,
            (herdr, title, None),
            told,
        ) && match told {
            Ok(()) => outcome matches Ok(JumpOutcome::Empty),
            Err(failure) => outcome matches Err(error) && error == failure,
        };
    assert(call_ensures(H::notify, (herdr, title, None), told));
}

/// What a jump selects from: the unread shortcut counts as being seen at the current
/// agent before it selects, the others select from the ledger as it was reconciled.
pub proof fn law_only_the_unread_shortcut_counts_as_presence(
    shortcut: Shortcut,
    middle: Ledger,
    end: Ledger,
    current: Option<Seq<char>>,
    eligible: Vec<AgentObservation>,
    selected: Result<Option<AgentObservation>, BeaconError>,
)
    requires
        crate::jump::selects(shortcut, middle, end, current, Ok(eligible), selected),
    ensures
        shortcut == Shortcut::Unread ==> end == middle.acknowledged(
            crate::model::sightings(eligible@),
            current,
        ),
        shortcut != Shortcut::Unread ==> end == middle,
        selected is Ok,
        selected matches Ok(Some(target)) ==> Some(target@) == shortcut.target(
            end,
            crate::model::sightings(eligible@),
            current,
        ),
        (selected matches Ok(None)) ==> shortcut.target(
            end,
            crate::model::sightings(eligible@),
            current,
        ) is None,
{
}

/// The pane that a shortcut was invoked from is the one named for it, unless that is
/// missing or empty; then it is the inherited one, under the same condition.
pub proof fn law_named_pane_outweighs_the_inherited(
    named: Option<Seq<char>>,
    inherited: Option<Seq<char>>,
)
    ensures
        ({
            let pane = crate::jump::invoking_pane(named, inherited);
            &&& named matches Some(text) ==> (text.len() > 0 ==> pane == named)
            &&& named is None || named->0.len() == 0 ==> {
                &&& inherited matches Some(text) ==> (text.len() > 0 ==> pane == inherited)
                &&& inherited is None || inherited->0.len() == 0 ==> pane is None
            }
        }),
{
}

/// A context with fields names a pane exactly if it has one `focused_pane_id`, and that
/// is a text. What else it has does not matter.
pub proof fn law_context_names_the_focused_pane(
    context: Seq<u8>,
    fields: Seq<(Seq<char>, Seq<u8>)>,
    pane_id: Seq<char>,
)
    requires
        crate::record::parts(context) == Some(crate::record::PartsView::Fields(fields)),
    ensures
        crate::jump::pane_in_context(context) == Some(pane_id) <==> exists|text: Seq<u8>| #[trigger]
            crate::record::has_once(fields, "focused_pane_id"@, text) && crate::record::part_value(
                text,
            ) == Some(crate::json::JsonView::Text(pane_id)),
{
    if crate::jump::pane_in_context(context) == Some(pane_id) {
        let text = crate::record::text_under(fields, "focused_pane_id"@)->0;
        crate::record::law_single_fields_are_found(fields, "focused_pane_id"@, text);
        assert(crate::record::has_once(fields, "focused_pane_id"@, text));
    }
    assert forall|text: Seq<u8>| #[trigger]
        crate::record::has_once(fields, "focused_pane_id"@, text) && crate::record::part_value(text)
            == Some(crate::json::JsonView::Text(pane_id)) implies crate::jump::pane_in_context(
        context,
    ) == Some(pane_id) by {
        crate::record::law_single_fields_are_found(fields, "focused_pane_id"@, text);
    }
}

/// A context that is a list names a pane exactly if it holds one text and nothing else;
/// a context that is neither object nor list names none.
pub proof fn law_listed_context_holds_one_pane(context: Seq<u8>, pane_id: Seq<char>)
    ensures
        crate::record::parts(context) matches Some(crate::record::PartsView::Items(items)) ==> (
        crate::jump::pane_in_context(context) == Some(pane_id) <==> items.len() == 1
            && crate::record::part_value(items[0]) == Some(crate::json::JsonView::Text(pane_id))),
        crate::record::parts(context) is None ==> crate::jump::pane_in_context(context) is None,
{
}

/// A reconciliation that failed selects nothing, and a jump without a selection changes
/// nothing more: the failure is handed on.
pub proof fn law_failures_are_handed_on<H: HerdrClient>(
    shortcut: Shortcut,
    herdr: &H,
    middle: Ledger,
    end: Ledger,
    current: Option<Seq<char>>,
    failure: BeaconError,
    selected: Result<Option<AgentObservation>, BeaconError>,
    last: Ledger,
    outcome: Result<JumpOutcome, BeaconError>,
)
    requires
        crate::jump::selects(shortcut, middle, end, current, Err(failure), selected),
        crate::jump::finishes(shortcut, herdr, end, last, selected, outcome),
    ensures
        end == middle,
        last == middle,
        selected matches Err(error) && error == failure,
        outcome matches Err(error) && error == failure,
{
}

/// A jump reconciles without the news of any hook before it selects: what it selects from
/// is the reconciled ledger, in which the unread shortcut has marked the current agent.
pub proof fn law_jumps_reconcile_without_a_hook(
    shortcut: Shortcut,
    start: Ledger,
    end: Ledger,
    current: Option<Seq<char>>,
    policy: WorkspacePolicy,
    agents: Vec<AgentObservation>,
    selected: Result<Option<AgentObservation>, BeaconError>,
)
    requires
        crate::jump::begins(shortcut, start, end, current, Ok(policy), Ok(agents), selected),
        crate::ledger::unambiguous(crate::model::sightings(agents@)),
    ensures
        ({
            let seen = crate::model::sightings(agents@);
            let eligible = seen.filter(
                |agent: Sighting| is_open(policy@, agent.workspace_id),
            );
            let reconciled = start.reconciled(policy@, seen, None);
            &&& end == if shortcut == Shortcut::Unread {
                reconciled.acknowledged(eligible, current)
            } else {
                reconciled
            }
            &&& selected matches Ok(target) && crate::jump::seen_in(target) == shortcut.target(
                end,
                eligible,
                current,
            )
        }),
{
    let seen = crate::model::sightings(agents@);
    crate::outcomes::law_known_and_not_excluded_is_eligible(policy@, seen, policy@.session);
    let open = |agent: Sighting| is_open(policy@, agent.workspace_id);
    let told = |agent: Sighting|
        policy@.workspaces.contains(agent.workspace_id) && !policy@.excluded.contains(
            agent.workspace_id,
        );
    assert(open =~= told);
}

} // verus!
