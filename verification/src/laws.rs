//! What always holds of the unread ledger.

use vstd::prelude::*;
use crate::event::HookView;
use crate::ledger::{Ledger, Mark, Pending, Policy, Sighting, Slot};
use crate::model::ObservationSource;

verus! {

/// An observation touches only the pane address that it speaks of.
pub proof fn law_observation_is_local(
    ledger: Ledger,
    seen: Sighting,
    source: ObservationSource,
    other: Seq<char>,
)
    requires
        other != seen.pane_id,
    ensures
        ledger.observed(seen, source).slot(other) == ledger.slot(other),
        ledger.observed(seen, source).suppressed == ledger.suppressed,
        ledger.observed(seen, source).policy == ledger.policy,
        ledger.observed(seen, source).recovery_needed == ledger.recovery_needed,
{
}

/// The server's `focused` flag is no acknowledgement: it never changes what an
/// observation does.
pub proof fn law_server_focus_is_ignored(
    ledger: Ledger,
    seen: Sighting,
    source: ObservationSource,
    focused: bool,
)
    ensures
        ledger.observed(Sighting { focused, ..seen }, source) == ledger.observed(seen, source),
{
}

/// A late hook, one with a lower sequence than what its address already knows of
/// the terminal, changes nothing.
pub proof fn law_late_hook_changes_nothing(
    ledger: Ledger,
    seen: Sighting,
    source: ObservationSource,
)
    requires
        source !is Reconcile,
        ledger.slot(seen.pane_id).known_sequence(seen.terminal_id) matches Some(known)
            && seen.state_change_seq < known,
    ensures
        ledger.observed(seen, source) == ledger,
{
    assert(ledger.with_slot(seen.pane_id, ledger.slot(seen.pane_id)) =~= ledger);
}

/// A sighting that is repeated changes nothing more, whatever it says and whoever
/// reports it.
pub proof fn law_repeated_sighting_changes_nothing(
    ledger: Ledger,
    seen: Sighting,
    source: ObservationSource,
)
    ensures
        ledger.observed(seen, source).observed(seen, source) == ledger.observed(seen, source),
{
    let once = ledger.observed(seen, source);
    let slot = ledger.slot(seen.pane_id);
    let after = slot.observed(seen, source, crate::ledger::successor(ledger.next_ordinal));
    assert(once.slot(seen.pane_id) =~= after);
    assert(!(after.reading(seen, source) is Queued));
    assert(after.observed(seen, source, crate::ledger::successor(once.next_ordinal)) =~= after);
    assert(once.with_slot(seen.pane_id, after) =~= once);
}

/// A fresh snapshot with a lower sequence means that the server restarted: the
/// current state is a baseline, and nothing from before is replayed. An agent at
/// work, or in no known state, clears up to its sequence at once.
pub proof fn law_restart_is_a_baseline(ledger: Ledger, seen: Sighting)
    requires
        ledger.slot(seen.pane_id).known_sequence(seen.terminal_id) matches Some(known)
            && seen.state_change_seq < known,
    ensures
        ({
            let slot = ledger.observed(seen, ObservationSource::Reconcile).slot(seen.pane_id);
            &&& slot.pending is None
            &&& slot.known_sequence(seen.terminal_id) == Some(seen.state_change_seq)
        }),
        ledger.observed(seen, ObservationSource::Reconcile).slot(seen.pane_id).cleared()
            == if crate::ledger::can_need_attention(seen.status) {
            None
        } else {
            Some(seen.state_change_seq)
        },
{
}

/// An agent first met as idle is a baseline, whatever reported it; one first met
/// as blocked is a baseline unless a hook reported it.
pub proof fn law_first_contact_is_a_baseline(
    ledger: Ledger,
    seen: Sighting,
    source: ObservationSource,
)
    requires
        ledger.slot(seen.pane_id).known_sequence(seen.terminal_id) is None,
        seen.status is Idle || (seen.status is Blocked && source is Reconcile),
    ensures
        ledger.observed(seen, source).slot(seen.pane_id).pending is None,
        ledger.observed(seen, source).slot(seen.pane_id).known_sequence(seen.terminal_id) == Some(
            seen.state_change_seq,
        ),
{
}

/// An agent first met as done, or first reported as blocked by a hook, is unread.
pub proof fn law_first_contact_can_seed_the_queue(
    ledger: Ledger,
    seen: Sighting,
    source: ObservationSource,
)
    requires
        source !is Focus,
        ledger.slot(seen.pane_id).known_sequence(seen.terminal_id) is None,
        seen.status is Done || (seen.status is Blocked && source is Event),
    ensures
        ledger.observed(seen, source).slot(seen.pane_id).pending matches Some(entry)
            && entry.terminal_id == seen.terminal_id && entry.state_change_seq
            == seen.state_change_seq,
{
}

/// A transition that needs attention becomes unread as soon as its sequence
/// passes everything that was observed or acknowledged before.
pub proof fn law_newer_transition_is_unread(
    ledger: Ledger,
    seen: Sighting,
    source: ObservationSource,
)
    requires
        source !is Focus,
        crate::ledger::can_need_attention(seen.status),
        ledger.slot(seen.pane_id).known_sequence(seen.terminal_id) matches Some(known) && known
            < seen.state_change_seq,
    ensures
        ledger.observed(seen, source).slot(seen.pane_id).pending matches Some(entry)
            && entry.terminal_id == seen.terminal_id && entry.status == seen.status
            && entry.workspace_id == seen.workspace_id && entry.state_change_seq
            == seen.state_change_seq,
{
}

/// A focus, or an agent that is running or unknown, leaves nothing pending at its
/// address, and says how far the terminal has been read.
pub proof fn law_focus_and_progress_clear(
    ledger: Ledger,
    seen: Sighting,
    source: ObservationSource,
)
    requires
        source is Focus || !crate::ledger::can_need_attention(seen.status),
        match ledger.slot(seen.pane_id).known_sequence(seen.terminal_id) {
            Some(known) => known <= seen.state_change_seq,
            None => true,
        },
    ensures
        ledger.observed(seen, source).slot(seen.pane_id).pending is None,
        ledger.observed(seen, source).slot(seen.pane_id).cleared() == Some(seen.state_change_seq),
{
}

/// The ledger after a series of observations.
pub open spec fn replayed(
    ledger: Ledger,
    events: Seq<(Sighting, ObservationSource)>,
) -> Ledger
    decreases events.len(),
{
    if events.len() == 0 {
        ledger
    } else {
        replayed(ledger, events.drop_last()).observed(events.last().0, events.last().1)
    }
}

/// The address has read the terminal through `sequence`, and nothing is pending.
pub open spec fn is_read(slot: Slot, terminal_id: Seq<char>, sequence: u64) -> bool {
    &&& slot.pending is None
    &&& slot.mark matches Some(mark) && mark.terminal_id == terminal_id && mark.state_change_seq
        == sequence && mark.cleared_through == Some(sequence)
}

/// Once a focus has acknowledged a sequence, no series of hooks and snapshots
/// that repeat it, or hooks that come late, makes it unread again, whatever
/// status they carry.
pub proof fn law_acknowledged_work_stays_read(
    ledger: Ledger,
    focus: Sighting,
    events: Seq<(Sighting, ObservationSource)>,
)
    requires
        match ledger.slot(focus.pane_id).known_sequence(focus.terminal_id) {
            Some(known) => known <= focus.state_change_seq,
            None => true,
        },
        forall|i: int|
            0 <= i < events.len() ==> {
                let (seen, source) = #[trigger] events[i];
                ||| seen.pane_id != focus.pane_id
                ||| seen.terminal_id == focus.terminal_id && (seen.state_change_seq
                    == focus.state_change_seq || seen.state_change_seq < focus.state_change_seq
                    && source !is Reconcile)
            },
    ensures
        is_read(
            replayed(ledger.observed(focus, ObservationSource::Focus), events).slot(focus.pane_id),
            focus.terminal_id,
            focus.state_change_seq,
        ),
    decreases events.len(),
{
    if events.len() > 0 {
        let earlier = events.drop_last();
        assert forall|i: int| 0 <= i < earlier.len() implies {
            let (seen, source) = #[trigger] earlier[i];
            ||| seen.pane_id != focus.pane_id
            ||| seen.terminal_id == focus.terminal_id && (seen.state_change_seq
                == focus.state_change_seq || seen.state_change_seq < focus.state_change_seq
                && source !is Reconcile)
        } by {
            assert(earlier[i] == events[i]);
        }
        law_acknowledged_work_stays_read(ledger, focus, earlier);
        assert(events.last() == events[events.len() - 1]);
    }
}

/// Every operation keeps a valid ledger valid.
pub proof fn law_observation_keeps_validity(
    ledger: Ledger,
    seen: Sighting,
    source: ObservationSource,
)
    requires
        ledger.valid(),
    ensures
        ledger.observed(seen, source).valid(),
{
    let next = ledger.observed(seen, source);
    assert forall|pane_id: Seq<char>| #[trigger] next.entries.contains_key(pane_id) implies
        !next.misfiled(pane_id) && !next.ahead(pane_id) by {
        if pane_id != seen.pane_id {
            assert(ledger.entries.contains_key(pane_id));
        } else if ledger.entries.contains_key(pane_id) {
            assert(!ledger.misfiled(pane_id) && !ledger.ahead(pane_id));
        }
    }
}

pub proof fn law_removal_keeps_validity(ledger: Ledger, pane_id: Seq<char>)
    requires
        ledger.valid(),
    ensures
        ledger.removed(pane_id).valid(),
{
    let next = ledger.removed(pane_id);
    assert forall|other: Seq<char>| #[trigger] next.entries.contains_key(other) implies
        !next.misfiled(other) && !next.ahead(other) by {
        assert(ledger.entries.contains_key(other));
    }
}

pub proof fn law_move_keeps_validity(
    ledger: Ledger,
    previous_pane_id: Seq<char>,
    pane_id: Seq<char>,
    workspace_id: Seq<char>,
    terminal_id: Seq<char>,
)
    requires
        ledger.valid(),
    ensures
        ledger.moved(previous_pane_id, pane_id, workspace_id, terminal_id).valid(),
{
    let next = ledger.moved(previous_pane_id, pane_id, workspace_id, terminal_id);
    assert forall|other: Seq<char>| #[trigger] next.entries.contains_key(other) implies
        !next.misfiled(other) && !next.ahead(other) by {
        assert(ledger.entries.contains_key(previous_pane_id)
            || !ledger.entries.contains_key(previous_pane_id));
        assert(ledger.entries.contains_key(other) || !ledger.entries.contains_key(other));
        if ledger.entries.contains_key(previous_pane_id) {
            assert(!ledger.misfiled(previous_pane_id) && !ledger.ahead(previous_pane_id));
        }
        if ledger.entries.contains_key(other) {
            assert(!ledger.misfiled(other) && !ledger.ahead(other));
        }
    }
}

/// A move carries acknowledgements along, in whichever order the hooks ran: what
/// was read at the old or at the new address does not come back at the new one.
pub proof fn law_move_keeps_acknowledgements(
    ledger: Ledger,
    previous_pane_id: Seq<char>,
    pane_id: Seq<char>,
    workspace_id: Seq<char>,
    terminal_id: Seq<char>,
    through: u64,
)
    requires
        previous_pane_id != pane_id,
        ({
            ||| ledger.slot(previous_pane_id).mark matches Some(mark) && mark.terminal_id
                == terminal_id && mark.cleared_through == Some(through)
            ||| ledger.slot(pane_id).mark matches Some(mark) && mark.terminal_id == terminal_id
                && mark.cleared_through == Some(through)
        }),
    ensures
        ledger.moved(previous_pane_id, pane_id, workspace_id, terminal_id).slot(
            pane_id,
        ).pending matches Some(entry) ==> entry.terminal_id != terminal_id
            || entry.state_change_seq > through,
        ledger.moved(previous_pane_id, pane_id, workspace_id, terminal_id).slot(previous_pane_id)
            == Slot::empty(),
{
}

/// An unread entry follows its terminal to a free address, with its place in the
/// queue.
pub proof fn law_move_keeps_unread_work(
    ledger: Ledger,
    previous_pane_id: Seq<char>,
    pane_id: Seq<char>,
    workspace_id: Seq<char>,
    entry: Pending,
)
    requires
        previous_pane_id != pane_id,
        ledger.slot(previous_pane_id).pending == Some(entry),
        !ledger.slot(previous_pane_id).is_answered(),
        ledger.slot(pane_id) == Slot::empty(),
    ensures
        ledger.moved(previous_pane_id, pane_id, workspace_id, entry.terminal_id).slot(
            pane_id,
        ).pending == Some(entry.at(pane_id, workspace_id)),
{
}

/// An entry that leaves the queue unread does not come back on its own, but
/// nothing claims that it was read.
pub proof fn law_removed_work_is_observed_not_read(
    ledger: Ledger,
    pane_id: Seq<char>,
    entry: Pending,
)
    requires
        ledger.slot(pane_id).pending == Some(entry),
        ledger.slot(pane_id).mark is None,
    ensures
        ledger.removed(pane_id).slot(pane_id).pending is None,
        ledger.removed(pane_id).slot(pane_id).known_sequence(entry.terminal_id) == Some(
            entry.state_change_seq,
        ),
        ledger.removed(pane_id).slot(pane_id).cleared() is None,
{
}

/// A withheld agent leaves no entry and no watermark behind, at any address.
pub proof fn law_withheld_agent_is_untracked(ledger: Ledger, seen: Sighting)
    ensures
        forall|pane_id: Seq<char>| !ledger.withheld(seen).has_entry(seen.terminal_id, pane_id),
        forall|pane_id: Seq<char>| !ledger.withheld(seen).has_mark(seen.terminal_id, pane_id),
        ledger.withheld(seen).slot(seen.pane_id) == Slot::empty(),
        crate::ledger::look(ledger.withheld(seen).suppressed, seen.terminal_id) matches Some(held)
            && held.state_change_seq == seen.state_change_seq,
{
}

/// Records gathered for an agent all speak of its terminal, at its address.
pub proof fn lemma_gathered_is_own(ledger: Ledger, seen: Sighting)
    ensures
        ledger.gathered(seen).pending matches Some(entry) ==> entry.terminal_id
            == seen.terminal_id && entry.pane_id == seen.pane_id && entry.workspace_id
            == seen.workspace_id && exists|pane_id: Seq<char>|
            ledger.entries.contains_key(pane_id) && #[trigger] ledger.entries[pane_id].ordinal
                == entry.ordinal,
        ledger.gathered(seen).mark matches Some(mark) ==> mark.terminal_id == seen.terminal_id,
{
    if exists|pane_id: Seq<char>| ledger.leads(seen.terminal_id, pane_id) {
        let pane_id = choose|pane_id: Seq<char>| ledger.leads(seen.terminal_id, pane_id);
        assert(ledger.leads(seen.terminal_id, pane_id));
        assert(ledger.entries[pane_id].ordinal == ledger.entry_of(seen.terminal_id)->0.ordinal);
    }
    if exists|mark: Mark| ledger.gathers(seen.terminal_id, mark) {
        let mark = choose|mark: Mark| ledger.gathers(seen.terminal_id, mark);
        assert(ledger.gathers(seen.terminal_id, mark));
    }
}

/// Whatever a snapshot says of one agent is filed under that agent.
pub open spec fn is_filed(ledger: Ledger, seen: Sighting, policy: Policy) -> bool {
    if policy.eligible(seen.workspace_id) {
        let slot = ledger.slot(seen.pane_id);
        &&& slot.pending matches Some(entry) ==> entry.terminal_id == seen.terminal_id
            && entry.pane_id == seen.pane_id && entry.workspace_id == seen.workspace_id
            && crate::ledger::can_need_attention(seen.status)
        &&& slot.mark matches Some(mark) ==> mark.terminal_id == seen.terminal_id
        &&& slot.known_sequence(seen.terminal_id) == Some(seen.state_change_seq)
        &&& !ledger.suppressed.contains_key(seen.terminal_id)
    } else {
        &&& forall|pane_id: Seq<char>| !#[trigger] ledger.has_entry(seen.terminal_id, pane_id)
        &&& forall|pane_id: Seq<char>| !#[trigger] ledger.has_mark(seen.terminal_id, pane_id)
        &&& ledger.suppressed.contains_key(seen.terminal_id)
    }
}

proof fn lemma_classified_is_filed(
    ledger: Ledger,
    seen: Sighting,
    policy: Policy,
    hook: Option<Seq<char>>,
    recovering: bool,
    relabeled: bool,
)
    ensures
        is_filed(
            ledger.classified(seen, policy, hook, recovering, relabeled),
            seen,
            policy,
        ),
        policy.eligible(seen.workspace_id) && (recovering || ledger.suppressed.contains_key(
            seen.terminal_id,
        )) ==> is_baseline(
            ledger.classified(seen, policy, hook, recovering, relabeled).slot(seen.pane_id),
            seen,
        ),
        policy.eligible(seen.workspace_id) && relabeled && !is_known(ledger, seen.terminal_id)
            ==> is_baseline(
            ledger.classified(seen, policy, hook, recovering, relabeled).slot(seen.pane_id),
            seen,
        ),
{
    lemma_gathered_is_own(ledger, seen);
    let base = ledger.without_terminal(seen.terminal_id).with_slot(
        seen.pane_id,
        ledger.gathered(seen),
    );
    assert(base.slot(seen.pane_id) =~= ledger.gathered(seen));
    if !is_known(ledger, seen.terminal_id) {
        assert(ledger.gathered(seen) =~= Slot::empty()) by {
            assert forall|pane_id: Seq<char>| !ledger.leads(seen.terminal_id, pane_id) by {
                assert(!ledger.has_entry(seen.terminal_id, pane_id));
            }
            assert forall|mark: Mark| !ledger.gathers(seen.terminal_id, mark) by {
                if ledger.gathers(seen.terminal_id, mark) {
                    let pane_id = choose|pane_id: Seq<char>| #[trigger]
                        ledger.has_mark(seen.terminal_id, pane_id)
                            && ledger.watermarks[pane_id].state_change_seq
                            == mark.state_change_seq;
                    assert(ledger.has_mark(seen.terminal_id, pane_id));
                }
            }
        }
    }
}

/// The ledger holds some record of the terminal.
pub open spec fn is_known(ledger: Ledger, terminal_id: Seq<char>) -> bool {
    ||| exists|pane_id: Seq<char>| ledger.has_entry(terminal_id, pane_id)
    ||| exists|pane_id: Seq<char>| ledger.has_mark(terminal_id, pane_id)
}

/// The address takes the agent's current sequence as its starting point.
pub open spec fn is_baseline(slot: Slot, seen: Sighting) -> bool {
    &&& slot.pending is None
    &&& slot.mark matches Some(mark) && mark.terminal_id == seen.terminal_id
        && mark.state_change_seq == seen.state_change_seq
}

/// One agent of a snapshot does not disturb what is recorded of another.
pub proof fn lemma_classified_elsewhere(
    ledger: Ledger,
    seen: Sighting,
    other: Sighting,
    policy: Policy,
    hook: Option<Seq<char>>,
    recovering: bool,
    relabeled: bool,
)
    requires
        seen.pane_id != other.pane_id,
        seen.terminal_id != other.terminal_id,
    ensures
        ({
            let next = ledger.classified(other, policy, hook, recovering, relabeled);
            &&& forall|pane_id: Seq<char>| #[trigger]
                next.has_entry(seen.terminal_id, pane_id) ==> ledger.has_entry(
                    seen.terminal_id,
                    pane_id,
                )
            &&& forall|pane_id: Seq<char>| #[trigger]
                next.has_mark(seen.terminal_id, pane_id) ==> ledger.has_mark(
                    seen.terminal_id,
                    pane_id,
                )
            &&& crate::ledger::look(next.suppressed, seen.terminal_id) == crate::ledger::look(
                ledger.suppressed,
                seen.terminal_id,
            )
            &&& ledger.has_entry(other.terminal_id, seen.pane_id) || ledger.has_mark(
                other.terminal_id,
                seen.pane_id,
            ) || next.slot(seen.pane_id) == ledger.slot(seen.pane_id)
        }),
{
    lemma_gathered_is_own(ledger, other);
    let base = ledger.without_terminal(other.terminal_id).with_slot(
        other.pane_id,
        ledger.gathered(other),
    );
    assert(base.slot(other.pane_id) =~= ledger.gathered(other));
}

pub proof fn lemma_swept_is_filed(
    ledger: Ledger,
    agents: Seq<Sighting>,
    policy: Policy,
    hook: Option<Seq<char>>,
    recovering: bool,
    relabeled: bool,
    i: int,
)
    requires
        crate::ledger::unambiguous(agents),
        0 <= i < agents.len(),
    ensures
        ({
            let next = ledger.swept(agents, policy, hook, recovering, relabeled);
            &&& is_filed(next, agents[i], policy)
            &&& policy.eligible(agents[i].workspace_id) && (recovering
                || ledger.suppressed.contains_key(agents[i].terminal_id)) ==> is_baseline(
                next.slot(agents[i].pane_id),
                agents[i],
            )
            &&& policy.eligible(agents[i].workspace_id) && relabeled && !is_known(
                ledger,
                agents[i].terminal_id,
            ) ==> is_baseline(next.slot(agents[i].pane_id), agents[i])
        }),
    decreases agents.len(),
{
    let earlier = agents.drop_last();
    let middle = ledger.swept(earlier, policy, hook, recovering, relabeled);
    assert(crate::ledger::unambiguous(earlier)) by {
        assert forall|a: int| 0 <= a < earlier.len() implies (#[trigger] earlier[a]).pane_id.len()
            > 0 && earlier[a].terminal_id.len() > 0 by {
            assert(earlier[a] == agents[a]);
        }
        assert forall|a: int, b: int| 0 <= a < b < earlier.len() implies (
        #[trigger] earlier[a]).pane_id != (#[trigger] earlier[b]).pane_id
            && earlier[a].terminal_id != earlier[b].terminal_id by {
            assert(earlier[a] == agents[a] && earlier[b] == agents[b]);
        }
    }
    if i < earlier.len() {
        assert(earlier[i] == agents[i]);
        lemma_swept_is_filed(ledger, earlier, policy, hook, recovering, relabeled, i);
        lemma_classified_elsewhere(
            middle,
            agents[i],
            agents.last(),
            policy,
            hook,
            recovering,
            relabeled,
        );
        let next = middle.classified(agents.last(), policy, hook, recovering, relabeled);
        assert(agents.last() == agents[agents.len() - 1]);
        if policy.eligible(agents[i].workspace_id) {
            assert(next.slot(agents[i].pane_id) == middle.slot(agents[i].pane_id));
        }
    } else {
        lemma_classified_is_filed(middle, agents.last(), policy, hook, recovering, relabeled);
        lemma_swept_leaves_others(ledger, earlier, policy, hook, recovering, relabeled, agents[i]);
    }
}

/// A snapshot says nothing of a terminal that is not in it.
proof fn lemma_swept_leaves_others(
    ledger: Ledger,
    agents: Seq<Sighting>,
    policy: Policy,
    hook: Option<Seq<char>>,
    recovering: bool,
    relabeled: bool,
    absent: Sighting,
)
    requires
        forall|i: int|
            0 <= i < agents.len() ==> (#[trigger] agents[i]).terminal_id != absent.terminal_id
                && agents[i].pane_id != absent.pane_id,
    ensures
        ({
            let next = ledger.swept(agents, policy, hook, recovering, relabeled);
            &&& crate::ledger::look(next.suppressed, absent.terminal_id) == crate::ledger::look(
                ledger.suppressed,
                absent.terminal_id,
            )
            &&& forall|pane_id: Seq<char>| #[trigger]
                next.has_entry(absent.terminal_id, pane_id) ==> ledger.has_entry(
                    absent.terminal_id,
                    pane_id,
                )
            &&& forall|pane_id: Seq<char>| #[trigger]
                next.has_mark(absent.terminal_id, pane_id) ==> ledger.has_mark(
                    absent.terminal_id,
                    pane_id,
                )
        }),
    decreases agents.len(),
{
    if agents.len() > 0 {
        let earlier = agents.drop_last();
        assert forall|i: int| 0 <= i < earlier.len() implies (#[trigger] earlier[i]).terminal_id
            != absent.terminal_id && earlier[i].pane_id != absent.pane_id by {
            assert(earlier[i] == agents[i]);
        }
        lemma_swept_leaves_others(
            ledger,
            earlier,
            policy,
            hook,
            recovering,
            relabeled,
            absent,
        );
        assert(agents.last() == agents[agents.len() - 1]);
        lemma_classified_elsewhere(
            ledger.swept(earlier, policy, hook, recovering, relabeled),
            absent,
            agents.last(),
            policy,
            hook,
            recovering,
            relabeled,
        );
    }
}

/// An eligible agent of a snapshot, by position.
proof fn lemma_eligible_position(
    agents: Seq<Sighting>,
    policy: Policy,
    pane_id: Seq<char>,
) -> (i: int)
    requires
        crate::ledger::stands_at(crate::ledger::eligible_only(agents, policy), pane_id),
    ensures
        0 <= i < agents.len(),
        agents[i].pane_id == pane_id,
        policy.eligible(agents[i].workspace_id),
{
    let keep = |seen: Sighting| policy.eligible(seen.workspace_id);
    let live = agents.filter(keep);
    let k = choose|k: int| 0 <= k < live.len() && (#[trigger] live[k]).pane_id == pane_id;
    crate::seqs::lemma_filter_source(agents, keep, k)
}

/// After a reconciliation every pending entry is that of a live agent that can need
/// attention, in an eligible workspace, at the address and workspace where it stands
/// now. Missing, running and unknown agents have left the queue.
pub proof fn law_queue_holds_only_eligible_agents(
    ledger: Ledger,
    policy: Policy,
    agents: Seq<Sighting>,
    hook: Option<Seq<char>>,
    pane_id: Seq<char>,
)
    requires
        crate::ledger::unambiguous(agents),
        ledger.reconciled(policy, agents, hook).entries.contains_key(pane_id),
    ensures
        exists|i: int|
            0 <= i < agents.len() && (#[trigger] agents[i]).pane_id == pane_id && ({
                let entry = ledger.reconciled(policy, agents, hook).entries[pane_id];
                &&& entry.pane_id == pane_id
                &&& entry.terminal_id == agents[i].terminal_id
                &&& entry.workspace_id == agents[i].workspace_id
                &&& policy.eligible(entry.workspace_id)
                &&& crate::ledger::can_need_attention(agents[i].status)
            }),
{
    let recovering = ledger.recovers_under(policy);
    let relabeled = ledger.relabeled_under(policy);
    let swept = ledger.swept(agents, policy, hook, recovering, relabeled);
    let i = lemma_eligible_position(agents, policy, pane_id);
    lemma_swept_is_filed(ledger, agents, policy, hook, recovering, relabeled, i);
    assert(swept.slot(pane_id).pending == Some(swept.entries[pane_id]));
}

/// After a reconciliation every eligible agent is known at exactly its live
/// sequence, whatever came before: late hooks and restarts leave no trace.
pub proof fn law_reconciled_agents_are_known_at_their_sequence(
    ledger: Ledger,
    policy: Policy,
    agents: Seq<Sighting>,
    hook: Option<Seq<char>>,
    i: int,
)
    requires
        crate::ledger::unambiguous(agents),
        0 <= i < agents.len(),
        policy.eligible(agents[i].workspace_id),
    ensures
        ledger.reconciled(policy, agents, hook).slot(agents[i].pane_id).known_sequence(
            agents[i].terminal_id,
        ) == Some(agents[i].state_change_seq),
{
    let swept = ledger.swept(
        agents,
        policy,
        hook,
        ledger.recovers_under(policy),
        ledger.relabeled_under(policy),
    );
    lemma_swept_is_filed(
        ledger,
        agents,
        policy,
        hook,
        ledger.recovers_under(policy),
        ledger.relabeled_under(policy),
        i,
    );
    let live = crate::ledger::eligible_only(agents, policy);
    assert(crate::ledger::stands_at(live, agents[i].pane_id)) by {
        crate::seqs::lemma_filter_members(
            agents,
            |seen: Sighting| policy.eligible(seen.workspace_id),
            agents[i],
        );
        let k = choose|k: int| 0 <= k < live.len() && live[k] == agents[i];
        assert(live[k].pane_id == agents[i].pane_id);
    }
    let next = ledger.reconciled(policy, agents, hook);
    assert(next.slot(agents[i].pane_id) =~= swept.slot(agents[i].pane_id));
}

/// An agent in an excluded or unknown workspace is not tracked: after a
/// reconciliation no address holds a record of its terminal.
pub proof fn law_excluded_agents_are_untracked(
    ledger: Ledger,
    policy: Policy,
    agents: Seq<Sighting>,
    hook: Option<Seq<char>>,
    i: int,
)
    requires
        crate::ledger::unambiguous(agents),
        0 <= i < agents.len(),
        !policy.eligible(agents[i].workspace_id),
    ensures
        forall|pane_id: Seq<char>|
            !ledger.reconciled(policy, agents, hook).has_entry(agents[i].terminal_id, pane_id),
        forall|pane_id: Seq<char>|
            !ledger.reconciled(policy, agents, hook).has_mark(agents[i].terminal_id, pane_id),
        ledger.reconciled(policy, agents, hook).suppressed.contains_key(agents[i].terminal_id),
{
    let recovering = ledger.recovers_under(policy);
    let relabeled = ledger.relabeled_under(policy);
    let swept = ledger.swept(agents, policy, hook, recovering, relabeled);
    lemma_swept_is_filed(ledger, agents, policy, hook, recovering, relabeled, i);
    let next = ledger.reconciled(policy, agents, hook);
    assert forall|pane_id: Seq<char>| !next.has_mark(agents[i].terminal_id, pane_id) by {
        assert(!swept.has_mark(agents[i].terminal_id, pane_id));
        assert(!swept.has_entry(agents[i].terminal_id, pane_id));
    }
    assert forall|pane_id: Seq<char>| !next.has_entry(agents[i].terminal_id, pane_id) by {
        assert(!swept.has_entry(agents[i].terminal_id, pane_id));
    }
}

/// Agents that may be navigated to are exactly those in eligible workspaces.
pub proof fn law_only_eligible_agents_are_offered(
    agents: Seq<Sighting>,
    policy: Policy,
    seen: Sighting,
)
    ensures
        crate::ledger::eligible_only(agents, policy).contains(seen) <==> agents.contains(seen)
            && policy.eligible(seen.workspace_id),
{
    crate::seqs::lemma_filter_members(
        agents,
        |seen: Sighting| policy.eligible(seen.workspace_id),
        seen,
    );
}

/// An agent that was withheld comes back as a baseline: its current completion is
/// not unread, and the address remembers its sequence.
pub proof fn law_returning_agent_is_a_baseline(
    ledger: Ledger,
    policy: Policy,
    agents: Seq<Sighting>,
    hook: Option<Seq<char>>,
    i: int,
)
    requires
        crate::ledger::unambiguous(agents),
        0 <= i < agents.len(),
        policy.eligible(agents[i].workspace_id),
        ledger.suppressed.contains_key(agents[i].terminal_id),
    ensures
        is_baseline(
            ledger.reconciled(policy, agents, hook).slot(agents[i].pane_id),
            agents[i],
        ),
        !ledger.reconciled(policy, agents, hook).suppressed.contains_key(agents[i].terminal_id),
{
    let recovering = ledger.recovers_under(policy);
    let relabeled = ledger.relabeled_under(policy);
    lemma_swept_is_filed(ledger, agents, policy, hook, recovering, relabeled, i);
}

/// After an outage, or in another session, nothing is unread: every agent starts
/// from its current sequence.
pub proof fn law_recovery_baselines_everything(
    ledger: Ledger,
    policy: Policy,
    agents: Seq<Sighting>,
    hook: Option<Seq<char>>,
)
    requires
        crate::ledger::unambiguous(agents),
        ledger.recovers_under(policy),
    ensures
        ledger.reconciled(policy, agents, hook).entries == Map::<Seq<char>, Pending>::empty(),
        !ledger.reconciled(policy, agents, hook).recovery_needed,
        forall|i: int|
            0 <= i < agents.len() && policy.eligible((#[trigger] agents[i]).workspace_id)
                ==> is_baseline(
                ledger.reconciled(policy, agents, hook).slot(agents[i].pane_id),
                agents[i],
            ),
{
    let relabeled = ledger.relabeled_under(policy);
    let swept = ledger.swept(agents, policy, hook, true, relabeled);
    let next = ledger.reconciled(policy, agents, hook);
    assert forall|i: int|
        0 <= i < agents.len() && policy.eligible((#[trigger] agents[i]).workspace_id) implies
        is_baseline(next.slot(agents[i].pane_id), agents[i]) by {
        lemma_swept_is_filed(ledger, agents, policy, hook, true, relabeled, i);
    }
    assert forall|pane_id: Seq<char>| !next.entries.contains_key(pane_id) by {
        if next.entries.contains_key(pane_id) {
            let i = lemma_eligible_position(agents, policy, pane_id);
            lemma_swept_is_filed(ledger, agents, policy, hook, true, relabeled, i);
            assert(swept.slot(pane_id).pending is Some);
        }
    }
    assert(next.entries =~= Map::<Seq<char>, Pending>::empty());
}

/// When the excluded labels changed, an agent that the ledger has no record of
/// starts from its current sequence.
pub proof fn law_strangers_after_a_label_change_are_baselines(
    ledger: Ledger,
    policy: Policy,
    agents: Seq<Sighting>,
    hook: Option<Seq<char>>,
    i: int,
)
    requires
        crate::ledger::unambiguous(agents),
        ledger.relabeled_under(policy),
        0 <= i < agents.len(),
        policy.eligible(agents[i].workspace_id),
        !is_known(ledger, agents[i].terminal_id),
    ensures
        is_baseline(
            ledger.reconciled(policy, agents, hook).slot(agents[i].pane_id),
            agents[i],
        ),
{
    lemma_swept_is_filed(
        ledger,
        agents,
        policy,
        hook,
        ledger.recovers_under(policy),
        ledger.relabeled_under(policy),
        i,
    );
}

/// Unread work follows its terminal to a new address without any hook: a snapshot
/// that shows the same completion elsewhere keeps the entry and its place.
pub proof fn law_unread_work_follows_its_terminal(
    ledger: Ledger,
    seen: Sighting,
    entry: Pending,
)
    requires
        ledger.entry_of(seen.terminal_id) == Some(entry),
        ledger.mark_of(seen.terminal_id) is None,
        !ledger.suppressed.contains_key(seen.terminal_id),
        crate::ledger::can_need_attention(seen.status),
        entry.state_change_seq == seen.state_change_seq,
        entry.terminal_id == seen.terminal_id,
    ensures
        ledger.enrolled(seen, ObservationSource::Reconcile, false, false).slot(
            seen.pane_id,
        ).pending == Some(
            (Pending { status: seen.status, ..entry.at(seen.pane_id, seen.workspace_id) }),
        ),
{
    let base = ledger.without_terminal(seen.terminal_id).with_slot(
        seen.pane_id,
        ledger.gathered(seen),
    );
    assert(base.slot(seen.pane_id) =~= ledger.gathered(seen));
}

proof fn lemma_classified_keeps_validity(
    ledger: Ledger,
    seen: Sighting,
    policy: Policy,
    hook: Option<Seq<char>>,
    recovering: bool,
    relabeled: bool,
)
    requires
        ledger.valid(),
    ensures
        ledger.classified(seen, policy, hook, recovering, relabeled).valid(),
{
    lemma_gathered_is_own(ledger, seen);
    let slot = ledger.gathered(seen);
    let base = ledger.without_terminal(seen.terminal_id).with_slot(seen.pane_id, slot);
    assert(base.valid()) by {
        assert forall|pane_id: Seq<char>| #[trigger] base.entries.contains_key(pane_id) implies
            !base.misfiled(pane_id) && !base.ahead(pane_id) by {
            if pane_id != seen.pane_id {
                assert(ledger.entries.contains_key(pane_id));
                assert(!ledger.misfiled(pane_id) && !ledger.ahead(pane_id));
            } else {
                let from = choose|from: Seq<char>|
                    ledger.entries.contains_key(from) && #[trigger] ledger.entries[from].ordinal
                        == slot.pending->0.ordinal;
                assert(!ledger.misfiled(from) && !ledger.ahead(from));
            }
        }
    }
    law_observation_keeps_validity(base, seen, ObservationSource::Event);
    law_observation_keeps_validity(base, seen, ObservationSource::Reconcile);
    let next = ledger.classified(seen, policy, hook, recovering, relabeled);
    assert forall|pane_id: Seq<char>| #[trigger] next.entries.contains_key(pane_id) implies
        !next.misfiled(pane_id) && !next.ahead(pane_id) by {
        assert(base.entries.contains_key(pane_id) || !base.entries.contains_key(pane_id));
        if base.entries.contains_key(pane_id) {
            assert(!base.misfiled(pane_id) && !base.ahead(pane_id));
        }
        if ledger.entries.contains_key(pane_id) {
            assert(!ledger.misfiled(pane_id) && !ledger.ahead(pane_id));
        }
    }
}

proof fn lemma_swept_keeps_validity(
    ledger: Ledger,
    agents: Seq<Sighting>,
    policy: Policy,
    hook: Option<Seq<char>>,
    recovering: bool,
    relabeled: bool,
)
    requires
        ledger.valid(),
    ensures
        ledger.swept(agents, policy, hook, recovering, relabeled).valid(),
    decreases agents.len(),
{
    if agents.len() > 0 {
        lemma_swept_keeps_validity(
            ledger,
            agents.drop_last(),
            policy,
            hook,
            recovering,
            relabeled,
        );
        lemma_classified_keeps_validity(
            ledger.swept(agents.drop_last(), policy, hook, recovering, relabeled),
            agents.last(),
            policy,
            hook,
            recovering,
            relabeled,
        );
    }
}

/// Reconciling a valid ledger gives a valid ledger.
pub proof fn law_reconciliation_keeps_validity(
    ledger: Ledger,
    policy: Policy,
    agents: Seq<Sighting>,
    hook: Option<Seq<char>>,
)
    requires
        ledger.valid(),
    ensures
        ledger.reconciled(policy, agents, hook).valid(),
{
    let swept = ledger.swept(
        agents,
        policy,
        hook,
        ledger.recovers_under(policy),
        ledger.relabeled_under(policy),
    );
    lemma_swept_keeps_validity(
        ledger,
        agents,
        policy,
        hook,
        ledger.recovers_under(policy),
        ledger.relabeled_under(policy),
    );
    let next = ledger.reconciled(policy, agents, hook);
    assert forall|pane_id: Seq<char>| #[trigger] next.entries.contains_key(pane_id) implies
        !next.misfiled(pane_id) && !next.ahead(pane_id) by {
        assert(swept.entries.contains_key(pane_id));
        assert(!swept.misfiled(pane_id) && !swept.ahead(pane_id));
    }
}

/// Withholding an agent keeps a valid ledger valid.
pub proof fn law_withholding_keeps_validity(ledger: Ledger, seen: Sighting)
    requires
        ledger.valid(),
    ensures
        ledger.withheld(seen).valid(),
{
    let next = ledger.withheld(seen);
    assert forall|pane_id: Seq<char>| #[trigger] next.entries.contains_key(pane_id) implies
        !next.misfiled(pane_id) && !next.ahead(pane_id) by {
        assert(ledger.entries.contains_key(pane_id));
        assert(!ledger.misfiled(pane_id) && !ledger.ahead(pane_id));
    }
}

/// What has been read stays read wherever its terminal moves: a snapshot that shows
/// the same sequence, at whatever address and whoever reports it, leaves nothing
/// pending there.
pub proof fn law_read_work_stays_read_across_moves(
    ledger: Ledger,
    seen: Sighting,
    source: ObservationSource,
    recovering: bool,
    relabeled: bool,
    mark: Mark,
)
    requires
        ledger.mark_of(seen.terminal_id) == Some(mark),
        mark.state_change_seq == seen.state_change_seq,
        mark.cleared_through == Some(seen.state_change_seq),
        ledger.entry_of(seen.terminal_id) matches Some(entry) ==> entry.state_change_seq
            <= seen.state_change_seq,
    ensures
        ({
            let slot = ledger.enrolled(seen, source, recovering, relabeled).slot(seen.pane_id);
            &&& slot.pending is None
            &&& slot.known_sequence(seen.terminal_id) == Some(seen.state_change_seq)
            &&& !ledger.suppressed.contains_key(seen.terminal_id) ==> slot.cleared() == Some(
                seen.state_change_seq,
            )
        }),
{
    lemma_gathered_is_own(ledger, seen);
    let slot = ledger.gathered(seen);
    let base = ledger.without_terminal(seen.terminal_id).with_slot(seen.pane_id, slot);
    assert(base.slot(seen.pane_id) =~= slot);
    if exists|mark: Mark| ledger.gathers(seen.terminal_id, mark) {
        let gathered = choose|mark: Mark| ledger.gathers(seen.terminal_id, mark);
        assert(ledger.gathers(seen.terminal_id, gathered));
    }
    if exists|pane_id: Seq<char>| ledger.leads(seen.terminal_id, pane_id) {
        let pane_id = choose|pane_id: Seq<char>| ledger.leads(seen.terminal_id, pane_id);
        assert(ledger.leads(seen.terminal_id, pane_id));
    }
}

/// Being seen at a pane speaks of that pane alone.
proof fn lemma_acknowledged_elsewhere(
    ledger: Ledger,
    agents: Seq<Sighting>,
    current: Seq<char>,
    other: Seq<char>,
)
    requires
        other != current,
    ensures
        ledger.acknowledged(agents, Some(current)).slot(other) == ledger.slot(other),
    decreases agents.len(),
{
    if agents.len() > 0 {
        lemma_acknowledged_elsewhere(ledger, agents.drop_last(), current, other);
        law_observation_is_local(
            ledger.acknowledged(agents.drop_last(), Some(current)),
            Sighting { pane_id: current, ..agents.last() },
            ObservationSource::Focus,
            other,
        );
        if crate::ledger::is_current(agents.last(), Some(current)) {
            assert(agents.last() == Sighting { pane_id: current, ..agents.last() });
        }
    }
}

proof fn lemma_acknowledged_absent(ledger: Ledger, agents: Seq<Sighting>, current: Seq<char>)
    requires
        forall|i: int| 0 <= i < agents.len() ==> (#[trigger] agents[i]).pane_id != current,
    ensures
        ledger.acknowledged(agents, Some(current)) == ledger,
    decreases agents.len(),
{
    if agents.len() > 0 {
        let rest = agents.drop_last();
        assert forall|i: int| 0 <= i < rest.len() implies (#[trigger] rest[i]).pane_id
            != current by {
            assert(rest[i] == agents[i]);
        }
        lemma_acknowledged_absent(ledger, rest, current);
        assert(agents.last() == agents[agents.len() - 1]);
    }
}

/// Being seen at a pane marks its agent as read through its sequence, and touches
/// nobody else's work.
pub proof fn law_current_agent_is_read(
    ledger: Ledger,
    agents: Seq<Sighting>,
    i: int,
    other: Seq<char>,
)
    requires
        crate::ledger::unambiguous(agents),
        0 <= i < agents.len(),
        match ledger.slot(agents[i].pane_id).known_sequence(agents[i].terminal_id) {
            Some(known) => known <= agents[i].state_change_seq,
            None => true,
        },
    ensures
        is_read(
            ledger.acknowledged(agents, Some(agents[i].pane_id)).slot(agents[i].pane_id),
            agents[i].terminal_id,
            agents[i].state_change_seq,
        ),
        other != agents[i].pane_id ==> ledger.acknowledged(
            agents,
            Some(agents[i].pane_id),
        ).slot(other) == ledger.slot(other),
    decreases agents.len(),
{
    let current = agents[i].pane_id;
    if other != current {
        lemma_acknowledged_elsewhere(ledger, agents, current, other);
    }
    let rest = agents.drop_last();
    let last = agents.len() - 1;
    assert(agents.last() == agents[last]);
    if i == last {
        assert forall|k: int| 0 <= k < rest.len() implies (#[trigger] rest[k]).pane_id
            != current by {
            assert(rest[k] == agents[k]);
            assert(agents[k].pane_id != agents[last].pane_id);
        }
        lemma_acknowledged_absent(ledger, rest, current);
    } else {
        assert(crate::ledger::unambiguous(rest)) by {
            assert forall|a: int| 0 <= a < rest.len() implies (#[trigger] rest[a]).pane_id.len() > 0
                && rest[a].terminal_id.len() > 0 by {
                assert(rest[a] == agents[a]);
            }
            assert forall|a: int, b: int| 0 <= a < b < rest.len() implies (
            #[trigger] rest[a]).pane_id != (#[trigger] rest[b]).pane_id && rest[a].terminal_id
                != rest[b].terminal_id by {
                assert(rest[a] == agents[a] && rest[b] == agents[b]);
            }
        }
        assert(rest[i] == agents[i]);
        law_current_agent_is_read(ledger, rest, i, other);
        assert(agents[i].pane_id != agents[last].pane_id);
    }
}

/// The eligible agents of an unambiguous snapshot are unambiguous.
pub proof fn lemma_eligible_unambiguous(agents: Seq<Sighting>, policy: Policy)
    requires
        crate::ledger::unambiguous(agents),
    ensures
        crate::ledger::unambiguous(crate::ledger::eligible_only(agents, policy)),
{
    let keep = |seen: Sighting| policy.eligible(seen.workspace_id);
    let live = agents.filter(keep);
    assert forall|k: int| 0 <= k < live.len() implies (#[trigger] live[k]).pane_id.len() > 0
        && live[k].terminal_id.len() > 0 by {
        let i = crate::seqs::lemma_filter_source(agents, keep, k);
    }
    assert forall|k: int, m: int| 0 <= k < m < live.len() implies (#[trigger] live[k]).pane_id != (
    #[trigger] live[m]).pane_id && live[k].terminal_id != live[m].terminal_id by {
        let (a, b) = crate::seqs::lemma_filter_order(agents, keep, k, m);
        assert(agents[a].pane_id != agents[b].pane_id);
    }
}

/// A focus hook marks the pane's agent as read, whatever the ledger held before.
pub proof fn law_focus_hook_marks_read(
    ledger: Ledger,
    policy: Policy,
    agents: Seq<Sighting>,
    i: int,
)
    requires
        crate::ledger::unambiguous(agents),
        0 <= i < agents.len(),
        policy.eligible(agents[i].workspace_id),
    ensures
        is_read(
            HookView::Focused(agents[i].pane_id).concluded(
                ledger.reconciled(policy, agents, None),
                crate::ledger::eligible_only(agents, policy),
            ).slot(agents[i].pane_id),
            agents[i].terminal_id,
            agents[i].state_change_seq,
        ),
{
    let live = crate::ledger::eligible_only(agents, policy);
    lemma_eligible_unambiguous(agents, policy);
    law_reconciled_agents_are_known_at_their_sequence(ledger, policy, agents, None, i);
    crate::seqs::lemma_filter_members(
        agents,
        |seen: Sighting| policy.eligible(seen.workspace_id),
        agents[i],
    );
    let k = choose|k: int| 0 <= k < live.len() && live[k] == agents[i];
    law_current_agent_is_read(ledger.reconciled(policy, agents, None), live, k, Seq::empty());
}

} // verus!
