//! What each operation leaves in the ledger, told by the ledger's maps.

use vstd::prelude::*;
use crate::error::BeaconError;
use crate::ledger::{Held, Ledger, Mark, Pending, Place, Policy, Sighting, Stamp};
use crate::model::{AgentStatus, ObservationSource};

verus! {

/// A pane address has a pending entry or a watermark of the terminal.
pub open spec fn records(ledger: Ledger, pane_id: Seq<char>, terminal_id: Seq<char>) -> bool {
    ||| ledger.entries.dom().contains(pane_id) && ledger.entries[pane_id].terminal_id
        == terminal_id
    ||| ledger.watermarks.dom().contains(pane_id) && ledger.watermarks[pane_id].terminal_id
        == terminal_id
}

/// A pane address has a record of the terminal with a higher sequence.
pub open spec fn is_past(
    ledger: Ledger,
    pane_id: Seq<char>,
    terminal_id: Seq<char>,
    sequence: u64,
) -> bool {
    ||| ledger.entries.dom().contains(pane_id) && ledger.entries[pane_id].terminal_id
        == terminal_id && ledger.entries[pane_id].state_change_seq > sequence
    ||| ledger.watermarks.dom().contains(pane_id) && ledger.watermarks[pane_id].terminal_id
        == terminal_id && ledger.watermarks[pane_id].state_change_seq > sequence
}

/// Every record of the terminal at a pane address has a lower sequence.
pub open spec fn is_behind(
    ledger: Ledger,
    pane_id: Seq<char>,
    terminal_id: Seq<char>,
    sequence: u64,
) -> bool {
    &&& ledger.entries.dom().contains(pane_id) && ledger.entries[pane_id].terminal_id
        == terminal_id ==> ledger.entries[pane_id].state_change_seq < sequence
    &&& ledger.watermarks.dom().contains(pane_id) && ledger.watermarks[pane_id].terminal_id
        == terminal_id ==> ledger.watermarks[pane_id].state_change_seq < sequence
}

/// Nothing but the entries, the watermarks and the order counter may differ.
pub open spec fn keeps_the_rest(before: Ledger, after: Ledger) -> bool {
    &&& after.version == before.version
    &&& after.policy == before.policy
    &&& after.suppressed == before.suppressed
    &&& after.locations == before.locations
    &&& after.recovery_needed == before.recovery_needed
}

/// An idle, blocked or done agent can ask for attention; a working one and one in no
/// known state cannot.
pub open spec fn may_wait(status: AgentStatus) -> bool {
    status == AgentStatus::Idle || status == AgentStatus::Blocked || status == AgentStatus::Done
}

/// A late hook leaves the ledger as it is.
pub proof fn law_late_hooks_leave_no_trace(
    ledger: Ledger,
    seen: Sighting,
    source: ObservationSource,
)
    requires
        source != ObservationSource::Reconcile,
        is_past(ledger, seen.pane_id, seen.terminal_id, seen.state_change_seq),
    ensures
        ledger.observed(seen, source) == ledger,
{
    let slot = ledger.slot(seen.pane_id);
    assert(ledger.with_slot(seen.pane_id, slot) =~= ledger);
}

/// A focus, and an agent that works or is in no known state, empties its address of
/// pending work and marks the terminal as read through its sequence.
pub proof fn law_focus_and_work_mark_as_read(
    ledger: Ledger,
    seen: Sighting,
    source: ObservationSource,
)
    requires
        source == ObservationSource::Focus || seen.status == AgentStatus::Working || seen.status
            == AgentStatus::Unknown,
        source == ObservationSource::Reconcile || !is_past(
            ledger,
            seen.pane_id,
            seen.terminal_id,
            seen.state_change_seq,
        ),
    ensures
        ({
            let next = ledger.observed(seen, source);
            &&& next.entries == ledger.entries.remove(seen.pane_id)
            &&& next.watermarks == ledger.watermarks.insert(
                seen.pane_id,
                Mark {
                    terminal_id: seen.terminal_id,
                    state_change_seq: seen.state_change_seq,
                    cleared_through: Some(seen.state_change_seq),
                },
            )
            &&& next.next_ordinal == ledger.next_ordinal
            &&& keeps_the_rest(ledger, next)
        }),
{
}

/// A snapshot in which a waiting agent has a lower sequence than before takes that
/// sequence as a new start: nothing is pending, and nothing counts as read.
pub proof fn law_lower_snapshots_start_over(ledger: Ledger, seen: Sighting)
    requires
        may_wait(seen.status),
        is_past(ledger, seen.pane_id, seen.terminal_id, seen.state_change_seq),
    ensures
        ({
            let next = ledger.observed(seen, ObservationSource::Reconcile);
            &&& next.entries == ledger.entries.remove(seen.pane_id)
            &&& next.watermarks == ledger.watermarks.insert(
                seen.pane_id,
                Mark {
                    terminal_id: seen.terminal_id,
                    state_change_seq: seen.state_change_seq,
                    cleared_through: None,
                },
            )
            &&& next.next_ordinal == ledger.next_ordinal
            &&& keeps_the_rest(ledger, next)
        }),
{
}

/// A waiting agent that its address has no record of is queued if it is done, or if a
/// hook reports it as blocked; otherwise its sequence is only noted.
pub proof fn law_first_contact_queues_news_alone(
    ledger: Ledger,
    seen: Sighting,
    source: ObservationSource,
)
    requires
        source != ObservationSource::Focus,
        may_wait(seen.status),
        !records(ledger, seen.pane_id, seen.terminal_id),
    ensures
        ({
            let next = ledger.observed(seen, source);
            let news = seen.status == AgentStatus::Done || seen.status == AgentStatus::Blocked
                && source == ObservationSource::Event;
            &&& keeps_the_rest(ledger, next)
            &&& news ==> is_queued(ledger, next, seen)
            &&& !news ==> {
                &&& next.entries == ledger.entries.remove(seen.pane_id)
                &&& next.watermarks == ledger.watermarks.insert(
                    seen.pane_id,
                    Mark {
                        terminal_id: seen.terminal_id,
                        state_change_seq: seen.state_change_seq,
                        cleared_through: None,
                    },
                )
                &&& next.next_ordinal == ledger.next_ordinal
            }
        }),
{
}

/// The sighting was queued as the latest entry.
pub open spec fn is_queued(before: Ledger, after: Ledger, seen: Sighting) -> bool {
    &&& after.next_ordinal == if before.next_ordinal < u64::MAX {
        before.next_ordinal + 1
    } else {
        u64::MAX as int
    }
    &&& after.entries == before.entries.insert(
        seen.pane_id,
        Pending {
            pane_id: seen.pane_id,
            terminal_id: seen.terminal_id,
            workspace_id: seen.workspace_id,
            status: seen.status,
            state_change_seq: seen.state_change_seq,
            ordinal: after.next_ordinal,
        },
    )
    &&& after.watermarks == before.watermarks.remove(seen.pane_id)
}

/// A waiting agent with a higher sequence than its address has recorded is queued. An
/// entry that a snapshot brings up to date keeps its place in the queue.
pub proof fn law_higher_sequences_are_queued(
    ledger: Ledger,
    seen: Sighting,
    source: ObservationSource,
)
    requires
        source != ObservationSource::Focus,
        may_wait(seen.status),
        records(ledger, seen.pane_id, seen.terminal_id),
        is_behind(ledger, seen.pane_id, seen.terminal_id, seen.state_change_seq),
    ensures
        ({
            let next = ledger.observed(seen, source);
            let waits = ledger.entries.dom().contains(seen.pane_id)
                && ledger.entries[seen.pane_id].terminal_id == seen.terminal_id;
            &&& keeps_the_rest(ledger, next)
            &&& source == ObservationSource::Event || !waits ==> is_queued(ledger, next, seen)
            &&& source == ObservationSource::Reconcile && waits ==> {
                &&& next.entries == ledger.entries.insert(
                    seen.pane_id,
                    Pending {
                        workspace_id: seen.workspace_id,
                        status: seen.status,
                        state_change_seq: seen.state_change_seq,
                        ..ledger.entries[seen.pane_id]
                    },
                )
                &&& next.watermarks == ledger.watermarks.remove(seen.pane_id)
                &&& next.next_ordinal == ledger.next_ordinal
            }
        }),
{
}

/// A waiting agent whose sequence its address has already noted is not queued again: an
/// entry there stays, unless it has been read in the meantime.
pub proof fn law_noted_sequences_are_not_queued_again(
    ledger: Ledger,
    seen: Sighting,
    source: ObservationSource,
)
    requires
        source != ObservationSource::Focus,
        may_wait(seen.status),
        ledger.watermarks.dom().contains(seen.pane_id),
        ledger.watermarks[seen.pane_id].terminal_id == seen.terminal_id,
        ledger.watermarks[seen.pane_id].state_change_seq == seen.state_change_seq,
        !is_past(ledger, seen.pane_id, seen.terminal_id, seen.state_change_seq),
    ensures
        ({
            let next = ledger.observed(seen, source);
            let read = ledger.entries.dom().contains(seen.pane_id)
                && ledger.entries[seen.pane_id].terminal_id == seen.terminal_id && (
            ledger.watermarks[seen.pane_id].cleared_through matches Some(through)
                && ledger.entries[seen.pane_id].state_change_seq <= through);
            &&& keeps_the_rest(ledger, next)
            &&& next.watermarks == ledger.watermarks
            &&& next.next_ordinal == ledger.next_ordinal
            &&& next.entries == if read {
                ledger.entries.remove(seen.pane_id)
            } else {
                ledger.entries
            }
        }),
{
    let next = ledger.observed(seen, source);
    assert(next.watermarks =~= ledger.watermarks);
    if !ledger.entries.dom().contains(seen.pane_id) {
        assert(next.entries =~= ledger.entries);
    } else {
        assert(next.entries =~= ledger.entries || next.entries =~= ledger.entries.remove(
            seen.pane_id,
        ));
    }
}

/// A waiting agent that is already queued with its sequence keeps its entry: a hook
/// changes nothing, a snapshot brings its status and workspace up to date.
pub proof fn law_queued_sequences_keep_their_place(
    ledger: Ledger,
    seen: Sighting,
    source: ObservationSource,
)
    requires
        source != ObservationSource::Focus,
        may_wait(seen.status),
        ledger.entries.dom().contains(seen.pane_id),
        ledger.entries[seen.pane_id].terminal_id == seen.terminal_id,
        ledger.entries[seen.pane_id].state_change_seq == seen.state_change_seq,
        ledger.watermarks.dom().contains(seen.pane_id)
            && ledger.watermarks[seen.pane_id].terminal_id == seen.terminal_id
            ==> ledger.watermarks[seen.pane_id].state_change_seq < seen.state_change_seq,
    ensures
        ({
            let next = ledger.observed(seen, source);
            &&& keeps_the_rest(ledger, next)
            &&& next.next_ordinal == ledger.next_ordinal
            &&& source == ObservationSource::Event ==> next == ledger
            &&& source == ObservationSource::Reconcile ==> {
                &&& next.entries == ledger.entries.insert(
                    seen.pane_id,
                    Pending {
                        workspace_id: seen.workspace_id,
                        status: seen.status,
                        ..ledger.entries[seen.pane_id]
                    },
                )
                &&& next.watermarks == ledger.watermarks.remove(seen.pane_id)
            }
        }),
{
    let slot = ledger.slot(seen.pane_id);
    assert(ledger.with_slot(seen.pane_id, slot) =~= ledger);
}

/// Of all pending entries the newest has the highest sequence, of those the highest
/// local order, and of those the pane address that comes last in text order.
pub proof fn law_newest_has_the_highest_sequence(
    ledger: Ledger,
    pane_id: Seq<char>,
    other: Seq<char>,
)
    requires
        ledger.is_newest(pane_id),
        ledger.entries.dom().contains(other),
        other != pane_id,
        ledger.entries[pane_id].pane_id == pane_id,
        ledger.entries[other].pane_id == other,
    ensures
        ledger.entries.dom().contains(pane_id),
        ({
            let top = ledger.entries[pane_id];
            let low = ledger.entries[other];
            ||| low.state_change_seq < top.state_change_seq
            ||| low.state_change_seq == top.state_change_seq && low.ordinal < top.ordinal
            ||| low.state_change_seq == top.state_change_seq && low.ordinal == top.ordinal
                && crate::text::precedes(other, pane_id)
        }),
{
    assert(ledger.entries.contains_key(other));
    crate::text::lemma_precedes_total(pane_id, other);
}

/// A stored state is usable exactly if it has version 2, every entry stands under its
/// own pane address, and no entry has a local order that was never handed out.
pub proof fn law_usable_states_hold_together(ledger: Ledger)
    ensures
        ledger.valid() <==> ledger.version == 2 && forall|pane_id: Seq<char>| #[trigger]
            ledger.entries.dom().contains(pane_id) ==> ledger.entries[pane_id].pane_id == pane_id
                && ledger.entries[pane_id].ordinal <= ledger.next_ordinal,
{
    if ledger.valid() {
        assert forall|pane_id: Seq<char>| #[trigger]
            ledger.entries.dom().contains(pane_id) implies ledger.entries[pane_id].pane_id
            == pane_id && ledger.entries[pane_id].ordinal <= ledger.next_ordinal by {
            assert(ledger.entries.contains_key(pane_id));
        }
    }
    if ledger.version == 2 && forall|pane_id: Seq<char>| #[trigger]
        ledger.entries.dom().contains(pane_id) ==> ledger.entries[pane_id].pane_id == pane_id
            && ledger.entries[pane_id].ordinal <= ledger.next_ordinal {
        assert forall|pane_id: Seq<char>| #[trigger]
            ledger.entries.contains_key(pane_id) implies !ledger.misfiled(pane_id)
            && !ledger.ahead(pane_id) by {
            assert(ledger.entries.dom().contains(pane_id));
        }
    }
}

/// A state that does not hold together is refused for its first fault: its version, or
/// else the first entry, in the text order of the addresses, that stands under another
/// address or has too high a local order.
pub proof fn law_unusable_states_are_refused_for_their_first_fault(
    ledger: Ledger,
    error: BeaconError,
)
    requires
        crate::model::validates(ledger, Err(error)),
    ensures
        ledger.version != 2 <==> (error matches BeaconError::UnsupportedVersion(_)),
        error matches BeaconError::UnsupportedVersion(version) ==> version == ledger.version,
        ledger.version == 2 ==> exists|pane_id: Seq<char>|
            {
                &&& #[trigger] ledger.entries.dom().contains(pane_id)
                &&& if ledger.entries[pane_id].pane_id != pane_id {
                    error == BeaconError::EntryKeyMismatch
                } else {
                    &&& ledger.entries[pane_id].ordinal > ledger.next_ordinal
                    &&& error == BeaconError::OrdinalAhead
                }
                &&& forall|other: Seq<char>| #[trigger]
                    ledger.entries.dom().contains(other) && crate::text::precedes(other, pane_id)
                        ==> ledger.entries[other].pane_id == other
                        && ledger.entries[other].ordinal <= ledger.next_ordinal
            },
{
    if ledger.version == 2 {
        let pane_id = if error is EntryKeyMismatch {
            choose|pane_id: Seq<char>| #[trigger]
                ledger.misfiled(pane_id) && ledger.sound_before(pane_id)
        } else {
            choose|pane_id: Seq<char>| #[trigger]
                ledger.ahead(pane_id) && !ledger.misfiled(pane_id) && ledger.sound_before(pane_id)
        };
        assert(ledger.entries.dom().contains(pane_id));
        assert forall|other: Seq<char>| #[trigger]
            ledger.entries.dom().contains(other) && crate::text::precedes(other, pane_id) implies
            ledger.entries[other].pane_id == other && ledger.entries[other].ordinal
            <= ledger.next_ordinal by {
            assert(ledger.entries.contains_key(other));
        }
    }
}

/// An entry that leaves the queue unread is noted at its address, as far as it went,
/// and nothing more counts as read than before. Without an entry nothing changes.
pub proof fn law_removed_entries_are_noted(ledger: Ledger, pane_id: Seq<char>)
    ensures
        ({
            let next = ledger.removed(pane_id);
            let entry = ledger.entries[pane_id];
            let mark = ledger.watermarks[pane_id];
            let marked = ledger.watermarks.dom().contains(pane_id) && mark.terminal_id
                == entry.terminal_id;
            &&& keeps_the_rest(ledger, next)
            &&& next.next_ordinal == ledger.next_ordinal
            &&& next.entries == ledger.entries.remove(pane_id)
            &&& next.watermarks == if ledger.entries.dom().contains(pane_id) {
                ledger.watermarks.insert(
                    pane_id,
                    Mark {
                        terminal_id: entry.terminal_id,
                        state_change_seq: if marked && mark.state_change_seq
                            > entry.state_change_seq {
                            mark.state_change_seq
                        } else {
                            entry.state_change_seq
                        },
                        cleared_through: if marked {
                            mark.cleared_through
                        } else {
                            None
                        },
                    },
                )
            } else {
                ledger.watermarks
            }
        }),
{
    let next = ledger.removed(pane_id);
    if !ledger.entries.dom().contains(pane_id) {
        assert(next.entries =~= ledger.entries.remove(pane_id));
        assert(next.watermarks =~= ledger.watermarks);
    }
}

/// A move within one address changes nothing but the workspace of the terminal's entry.
pub proof fn law_moves_in_place_change_the_workspace(
    ledger: Ledger,
    pane_id: Seq<char>,
    workspace_id: Seq<char>,
    terminal_id: Seq<char>,
)
    ensures
        ({
            let next = ledger.moved(pane_id, pane_id, workspace_id, terminal_id);
            &&& keeps_the_rest(ledger, next)
            &&& next.next_ordinal == ledger.next_ordinal
            &&& next.watermarks == ledger.watermarks
            &&& next.entries == if ledger.entries.dom().contains(pane_id)
                && ledger.entries[pane_id].terminal_id == terminal_id {
                ledger.entries.insert(
                    pane_id,
                    Pending { workspace_id, ..ledger.entries[pane_id] },
                )
            } else {
                ledger.entries
            }
        }),
{
}

/// A move to another address empties the old one and leaves all addresses but the two
/// as they are.
pub proof fn law_moves_touch_two_addresses(
    ledger: Ledger,
    from: Seq<char>,
    to: Seq<char>,
    workspace_id: Seq<char>,
    terminal_id: Seq<char>,
    other: Seq<char>,
)
    requires
        from != to,
    ensures
        ({
            let next = ledger.moved(from, to, workspace_id, terminal_id);
            &&& keeps_the_rest(ledger, next)
            &&& next.next_ordinal == ledger.next_ordinal
            &&& !next.entries.dom().contains(from)
            &&& !next.watermarks.dom().contains(from)
            &&& other != from && other != to ==> {
                &&& next.entries.dom().contains(other) == ledger.entries.dom().contains(other)
                &&& next.watermarks.dom().contains(other) == ledger.watermarks.dom().contains(
                    other,
                )
                &&& next.entries[other] == ledger.entries[other]
                &&& next.watermarks[other] == ledger.watermarks[other]
            }
        }),
{
}

/// An entry of the terminal follows a move if the new address has none or an older one,
/// by sequence and then by local order. It changes its address and its workspace, and
/// nothing else of it. What has been read through its sequence at either address is
/// dropped instead.
pub proof fn law_entries_follow_their_terminal(
    ledger: Ledger,
    from: Seq<char>,
    to: Seq<char>,
    workspace_id: Seq<char>,
    terminal_id: Seq<char>,
)
    requires
        from != to,
        ledger.entries.dom().contains(from),
        ledger.entries[from].terminal_id == terminal_id,
        ledger.watermarks.dom().contains(from) && ledger.watermarks[from].terminal_id
            == terminal_id ==> !(ledger.watermarks[from].cleared_through matches Some(through)
            && ledger.entries[from].state_change_seq <= through),
        ledger.watermarks.dom().contains(to) && ledger.watermarks[to].terminal_id == terminal_id
            ==> !(ledger.watermarks[to].cleared_through matches Some(through)
            && ledger.entries[from].state_change_seq <= through),
        !ledger.entries.dom().contains(to) || ledger.entries[to].state_change_seq
            < ledger.entries[from].state_change_seq || ledger.entries[to].state_change_seq
            == ledger.entries[from].state_change_seq && ledger.entries[to].ordinal
            < ledger.entries[from].ordinal,
    ensures
        ({
            let next = ledger.moved(from, to, workspace_id, terminal_id);
            &&& next.entries.dom().contains(to)
            &&& next.entries[to] == (Pending {
                pane_id: to,
                workspace_id,
                ..ledger.entries[from]
            })
        }),
{
}

/// An entry at the new address stays through a move if the one that arrives, if any, is
/// of another terminal or not newer, unless it turns out to have been read.
pub proof fn law_newer_entries_stay_where_they_are(
    ledger: Ledger,
    from: Seq<char>,
    to: Seq<char>,
    workspace_id: Seq<char>,
    terminal_id: Seq<char>,
)
    requires
        from != to,
        ledger.entries.dom().contains(to),
        ledger.entries.dom().contains(from) && ledger.entries[from].terminal_id == terminal_id
            ==> ledger.entries[from].state_change_seq < ledger.entries[to].state_change_seq
            || ledger.entries[from].state_change_seq == ledger.entries[to].state_change_seq
            && ledger.entries[from].ordinal <= ledger.entries[to].ordinal,
        ledger.watermarks.dom().contains(to) && ledger.watermarks[to].terminal_id
            == ledger.entries[to].terminal_id ==> !(
        ledger.watermarks[to].cleared_through matches Some(through)
            && ledger.entries[to].state_change_seq <= through),
        ledger.watermarks.dom().contains(from) && ledger.watermarks[from].terminal_id
            == terminal_id && terminal_id == ledger.entries[to].terminal_id ==> !(
        ledger.watermarks[from].cleared_through matches Some(through)
            && ledger.entries[to].state_change_seq <= through),
    ensures
        ledger.moved(from, to, workspace_id, terminal_id).entries.dom().contains(to),
        ledger.moved(from, to, workspace_id, terminal_id).entries[to] == ledger.entries[to],
{
}

/// The watermark of the terminal follows a move. Where the new address has one of the
/// same terminal, the further sequence and the further reading of the two are kept; one
/// of another terminal is replaced.
pub proof fn law_watermarks_follow_their_terminal(
    ledger: Ledger,
    from: Seq<char>,
    to: Seq<char>,
    workspace_id: Seq<char>,
    terminal_id: Seq<char>,
)
    requires
        from != to,
    ensures
        ({
            let next = ledger.moved(from, to, workspace_id, terminal_id);
            let arrives = ledger.watermarks.dom().contains(from)
                && ledger.watermarks[from].terminal_id == terminal_id;
            let met = ledger.watermarks.dom().contains(to) && ledger.watermarks[to].terminal_id
                == terminal_id;
            let old = ledger.watermarks[to];
            let new = ledger.watermarks[from];
            let mark = next.watermarks[to];
            &&& !arrives ==> next.watermarks.dom().contains(to)
                == ledger.watermarks.dom().contains(to)
            &&& !arrives && ledger.watermarks.dom().contains(to) ==> mark == old
            &&& arrives ==> next.watermarks.dom().contains(to)
            &&& arrives && !met ==> mark == new
            &&& arrives && met ==> {
                &&& mark.terminal_id == terminal_id
                &&& mark.state_change_seq >= old.state_change_seq
                &&& mark.state_change_seq >= new.state_change_seq
                &&& mark.state_change_seq == old.state_change_seq || mark.state_change_seq
                    == new.state_change_seq
                &&& mark.cleared_through == old.cleared_through || mark.cleared_through
                    == new.cleared_through
                &&& old.cleared_through matches Some(through) ==> (
                mark.cleared_through matches Some(end) && through <= end)
                &&& new.cleared_through matches Some(through) ==> (
                mark.cleared_through matches Some(end) && through <= end)
            }
        }),
{
}

/// Without a policy the ledger notes that it has to recover, and changes nothing else.
pub proof fn law_missing_policy_is_only_noted(ledger: Ledger)
    ensures
        ledger.unresolved().recovery_needed,
        ledger.unresolved().entries == ledger.entries,
        ledger.unresolved().watermarks == ledger.watermarks,
        ledger.unresolved().next_ordinal == ledger.next_ordinal,
        ledger.unresolved().version == ledger.version,
        ledger.unresolved().policy == ledger.policy,
        ledger.unresolved().suppressed == ledger.suppressed,
        ledger.unresolved().locations == ledger.locations,
{
}

/// A policy lets agents of a workspace through exactly if it knows the workspace and
/// does not exclude it, and it lets those through in their order.
pub proof fn law_known_and_not_excluded_is_eligible(
    policy: Policy,
    agents: Seq<Sighting>,
    workspace_id: Seq<char>,
)
    ensures
        policy.eligible(workspace_id) <==> policy.workspaces.contains(workspace_id)
            && !policy.excluded.contains(workspace_id),
        crate::ledger::eligible_only(agents, policy) == agents.filter(
            |seen: Sighting|
                policy.workspaces.contains(seen.workspace_id) && !policy.excluded.contains(
                    seen.workspace_id,
                ),
        ),
{
    let given = |seen: Sighting| policy.eligible(seen.workspace_id);
    let told = |seen: Sighting|
        policy.workspaces.contains(seen.workspace_id) && !policy.excluded.contains(
            seen.workspace_id,
        );
    assert(given =~= told);
}

/// Two snapshots say the same of every agent, except whether it is focused.
pub open spec fn differ_in_focus_alone(a: Seq<Sighting>, b: Seq<Sighting>) -> bool {
    &&& a.len() == b.len()
    &&& forall|i: int|
        #![trigger a[i]]
        #![trigger b[i]]
        0 <= i < a.len() ==> {
            &&& a[i].pane_id == b[i].pane_id
            &&& a[i].terminal_id == b[i].terminal_id
            &&& a[i].workspace_id == b[i].workspace_id
            &&& a[i].status == b[i].status
            &&& a[i].state_change_seq == b[i].state_change_seq
        }
}

proof fn lemma_classified_ignores_focus(
    ledger: Ledger,
    seen: Sighting,
    focused: bool,
    policy: Policy,
    hook: Option<Seq<char>>,
    recovering: bool,
    relabeled: bool,
)
    ensures
        ledger.classified(Sighting { focused, ..seen }, policy, hook, recovering, relabeled)
            == ledger.classified(seen, policy, hook, recovering, relabeled),
{
    let other = Sighting { focused, ..seen };
    assert(ledger.gathered(other) == ledger.gathered(seen));
    let base = ledger.without_terminal(seen.terminal_id).with_slot(
        seen.pane_id,
        ledger.gathered(seen),
    );
    assert(base.freshly(other, ObservationSource::Event) == base.freshly(
        seen,
        ObservationSource::Event,
    ));
    assert(base.freshly(other, ObservationSource::Reconcile) == base.freshly(
        seen,
        ObservationSource::Reconcile,
    ));
    crate::laws::law_server_focus_is_ignored(
        base,
        seen,
        base.freshly(seen, ObservationSource::Event),
        focused,
    );
    crate::laws::law_server_focus_is_ignored(
        base,
        seen,
        base.freshly(seen, ObservationSource::Reconcile),
        focused,
    );
}

proof fn lemma_swept_ignores_focus(
    ledger: Ledger,
    a: Seq<Sighting>,
    b: Seq<Sighting>,
    policy: Policy,
    hook: Option<Seq<char>>,
    recovering: bool,
    relabeled: bool,
)
    requires
        differ_in_focus_alone(a, b),
    ensures
        ledger.swept(a, policy, hook, recovering, relabeled) == ledger.swept(
            b,
            policy,
            hook,
            recovering,
            relabeled,
        ),
        crate::ledger::eligible_only(a, policy).len() == crate::ledger::eligible_only(
            b,
            policy,
        ).len(),
        differ_in_focus_alone(
            crate::ledger::eligible_only(a, policy),
            crate::ledger::eligible_only(b, policy),
        ),
    decreases a.len(),
{
    reveal(Seq::filter);
    if a.len() > 0 {
        let first = a.drop_last();
        let second = b.drop_last();
        assert(differ_in_focus_alone(first, second)) by {
            assert forall|i: int|
                #![trigger first[i]]
                #![trigger second[i]]
                0 <= i < first.len() implies {
                &&& first[i].pane_id == second[i].pane_id
                &&& first[i].terminal_id == second[i].terminal_id
                &&& first[i].workspace_id == second[i].workspace_id
                &&& first[i].status == second[i].status
                &&& first[i].state_change_seq == second[i].state_change_seq
            } by {
                assert(first[i] == a[i] && second[i] == b[i]);
            }
        }
        lemma_swept_ignores_focus(ledger, first, second, policy, hook, recovering, relabeled);
        let end = a.len() - 1;
        assert(a[end].pane_id == b[end].pane_id);
        assert(b.last() == Sighting { focused: b.last().focused, ..a.last() });
        lemma_classified_ignores_focus(
            ledger.swept(first, policy, hook, recovering, relabeled),
            a.last(),
            b.last().focused,
            policy,
            hook,
            recovering,
            relabeled,
        );
    }
}

/// Reconciling a snapshot does not depend on the server's focused flags: two snapshots
/// that differ in them alone give the same ledger, whichever pane a hook named.
pub proof fn law_reconciliation_ignores_server_focus(
    ledger: Ledger,
    policy: Policy,
    a: Seq<Sighting>,
    b: Seq<Sighting>,
    hook: Option<Seq<char>>,
)
    requires
        differ_in_focus_alone(a, b),
    ensures
        ledger.reconciled(policy, a, hook) == ledger.reconciled(policy, b, hook),
{
    lemma_swept_ignores_focus(
        ledger,
        a,
        b,
        policy,
        hook,
        ledger.recovers_under(policy),
        ledger.relabeled_under(policy),
    );
    let first = crate::ledger::eligible_only(a, policy);
    let second = crate::ledger::eligible_only(b, policy);
    assert(crate::ledger::places(first) =~= crate::ledger::places(second));
    assert forall|pane_id: Seq<char>| crate::ledger::stands_at(first, pane_id)
        == crate::ledger::stands_at(second, pane_id) by {
        if crate::ledger::stands_at(first, pane_id) {
            let i = choose|i: int| 0 <= i < first.len() && (#[trigger] first[i]).pane_id == pane_id;
            assert(second[i].pane_id == pane_id);
        }
        if crate::ledger::stands_at(second, pane_id) {
            let i = choose|i: int|
                0 <= i < second.len() && (#[trigger] second[i]).pane_id == pane_id;
            assert(first[i].pane_id == pane_id);
        }
    }
    let swept = ledger.swept(
        a,
        policy,
        hook,
        ledger.recovers_under(policy),
        ledger.relabeled_under(policy),
    );
    assert(swept.retired(first) =~= swept.retired(second));
}

/// A later ledger has no other records of the terminal than the earlier one, and
/// nothing new at the address; what the address had of the terminal it still has.
spec fn leaves(
    before: Ledger,
    after: Ledger,
    terminal_id: Seq<char>,
    at: Seq<char>,
) -> bool {
    &&& forall|pane_id: Seq<char>| #[trigger]
        after.has_entry(terminal_id, pane_id) ==> before.has_entry(terminal_id, pane_id)
            && after.entries[pane_id] == before.entries[pane_id]
    &&& forall|pane_id: Seq<char>| #[trigger]
        after.has_mark(terminal_id, pane_id) ==> before.has_mark(terminal_id, pane_id)
            && after.watermarks[pane_id] == before.watermarks[pane_id]
    &&& before.has_entry(terminal_id, at) ==> after.has_entry(terminal_id, at)
    &&& before.has_mark(terminal_id, at) ==> after.has_mark(terminal_id, at)
    &&& after.entries.contains_key(at) ==> before.entries.contains_key(at)
    &&& after.watermarks.contains_key(at) ==> before.watermarks.contains_key(at)
    &&& crate::ledger::look(after.suppressed, terminal_id) == crate::ledger::look(
        before.suppressed,
        terminal_id,
    )
}

/// What one agent of a snapshot leaves of the records of another terminal.
proof fn lemma_classified_keeps(
    ledger: Ledger,
    other: Sighting,
    policy: Policy,
    hook: Option<Seq<char>>,
    recovering: bool,
    relabeled: bool,
    terminal_id: Seq<char>,
    at: Seq<char>,
)
    requires
        at != other.pane_id,
        terminal_id != other.terminal_id,
    ensures
        leaves(
            ledger,
            ledger.classified(other, policy, hook, recovering, relabeled),
            terminal_id,
            at,
        ),
{
    crate::laws::lemma_gathered_is_own(ledger, other);
    let base = ledger.without_terminal(other.terminal_id).with_slot(
        other.pane_id,
        ledger.gathered(other),
    );
    assert(base.slot(other.pane_id) =~= ledger.gathered(other));
}

/// No agent of the snapshot has the terminal or stands at the address.
pub open spec fn is_absent(agents: Seq<Sighting>, terminal_id: Seq<char>, at: Seq<char>) -> bool {
    forall|i: int|
        0 <= i < agents.len() ==> (#[trigger] agents[i]).terminal_id != terminal_id
            && agents[i].pane_id != at
}

proof fn lemma_swept_keeps(
    ledger: Ledger,
    agents: Seq<Sighting>,
    policy: Policy,
    hook: Option<Seq<char>>,
    recovering: bool,
    relabeled: bool,
    terminal_id: Seq<char>,
    at: Seq<char>,
)
    requires
        is_absent(agents, terminal_id, at),
    ensures
        leaves(
            ledger,
            ledger.swept(agents, policy, hook, recovering, relabeled),
            terminal_id,
            at,
        ),
    decreases agents.len(),
{
    if agents.len() > 0 {
        let rest = agents.drop_last();
        assert forall|i: int| 0 <= i < rest.len() implies (#[trigger] rest[i]).terminal_id
            != terminal_id && rest[i].pane_id != at by {
            assert(rest[i] == agents[i]);
        }
        lemma_swept_keeps(
            ledger,
            rest,
            policy,
            hook,
            recovering,
            relabeled,
            terminal_id,
            at,
        );
        assert(agents.last() == agents[agents.len() - 1]);
        lemma_classified_keeps(
            ledger.swept(rest, policy, hook, recovering, relabeled),
            agents.last(),
            policy,
            hook,
            recovering,
            relabeled,
            terminal_id,
            at,
        );
    }
}

proof fn lemma_fewer_unambiguous(agents: Seq<Sighting>)
    requires
        agents.len() > 0,
        crate::ledger::unambiguous(agents),
    ensures
        crate::ledger::unambiguous(agents.drop_last()),
{
    let rest = agents.drop_last();
    assert forall|a: int| 0 <= a < rest.len() implies (#[trigger] rest[a]).pane_id.len() > 0
        && rest[a].terminal_id.len() > 0 by {
        assert(rest[a] == agents[a]);
    }
    assert forall|a: int, b: int| 0 <= a < b < rest.len() implies (#[trigger] rest[a]).pane_id != (
    #[trigger] rest[b]).pane_id && rest[a].terminal_id != rest[b].terminal_id by {
        assert(rest[a] == agents[a] && rest[b] == agents[b]);
    }
}

/// Nobody but the agent stands at the address.
pub open spec fn is_unoccupied(agents: Seq<Sighting>, i: int, at: Seq<char>) -> bool {
    forall|k: int| 0 <= k < agents.len() && k != i ==> (#[trigger] agents[k]).pane_id != at
}

/// What a snapshot leaves at the address of one of its agents is what that agent left.
proof fn lemma_swept_at(
    ledger: Ledger,
    agents: Seq<Sighting>,
    policy: Policy,
    hook: Option<Seq<char>>,
    recovering: bool,
    relabeled: bool,
    i: int,
    at: Seq<char>,
) -> (before: Ledger)
    requires
        crate::ledger::unambiguous(agents),
        0 <= i < agents.len(),
        is_unoccupied(agents, i, at),
        policy.eligible(agents[i].workspace_id),
    ensures
        before == ledger.swept(agents.take(i), policy, hook, recovering, relabeled),
        leaves(ledger, before, agents[i].terminal_id, at),
        ledger.swept(agents, policy, hook, recovering, relabeled).slot(agents[i].pane_id)
            == before.classified(agents[i], policy, hook, recovering, relabeled).slot(
            agents[i].pane_id,
        ),
    decreases agents.len(),
{
    let rest = agents.drop_last();
    let middle = ledger.swept(rest, policy, hook, recovering, relabeled);
    let end = agents.len() - 1;
    assert(agents.last() == agents[end]);
    lemma_fewer_unambiguous(agents);
    if i == end {
        assert forall|k: int| 0 <= k < rest.len() implies (#[trigger] rest[k]).terminal_id
            != agents[i].terminal_id && rest[k].pane_id != at by {
            assert(rest[k] == agents[k]);
            assert(agents[k].pane_id != agents[end].pane_id);
        }
        lemma_swept_keeps(
            ledger,
            rest,
            policy,
            hook,
            recovering,
            relabeled,
            agents[i].terminal_id,
            at,
        );
        assert(agents.take(i) =~= rest);
        middle
    } else {
        assert(agents.take(i) =~= rest.take(i));
        assert(rest[i] == agents[i]);
        assert forall|k: int| 0 <= k < rest.len() && k != i implies (#[trigger] rest[k]).pane_id
            != at by {
            assert(rest[k] == agents[k]);
        }
        let before = lemma_swept_at(
            ledger,
            rest,
            policy,
            hook,
            recovering,
            relabeled,
            i,
            at,
        );
        crate::laws::lemma_swept_is_filed(ledger, rest, policy, hook, recovering, relabeled, i);
        assert(agents[i].pane_id != agents[end].pane_id);
        crate::laws::lemma_classified_elsewhere(
            middle,
            agents[i],
            agents.last(),
            policy,
            hook,
            recovering,
            relabeled,
        );
        before
    }
}

/// An eligible agent of a snapshot stands at its address.
proof fn lemma_stands(agents: Seq<Sighting>, policy: Policy, i: int)
    requires
        0 <= i < agents.len(),
        policy.eligible(agents[i].workspace_id),
    ensures
        crate::ledger::stands_at(
            crate::ledger::eligible_only(agents, policy),
            agents[i].pane_id,
        ),
{
    let keep = |seen: Sighting| policy.eligible(seen.workspace_id);
    let live = agents.filter(keep);
    crate::seqs::lemma_filter_members(agents, keep, agents[i]);
    let k = choose|k: int| 0 <= k < live.len() && live[k] == agents[i];
    assert(live[k].pane_id == agents[i].pane_id);
}

/// The ledger goes on where it stopped: it needs no recovery, and the session is that
/// of last time.
pub open spec fn goes_on(ledger: Ledger, policy: Policy) -> bool {
    &&& !ledger.recovery_needed
    &&& ledger.policy matches Some(stamp) ==> stamp.session == policy.session
}

/// The excluded labels are those of last time.
pub open spec fn keeps_labels(ledger: Ledger, policy: Policy) -> bool {
    ledger.policy matches Some(stamp) ==> stamp.labels == policy.labels
}

/// An agent of a snapshot is observed where it stands, with every record of its terminal
/// gathered there. A hook on its pane counts as an event, unless it comes late.
proof fn lemma_reconciled_at(
    ledger: Ledger,
    policy: Policy,
    agents: Seq<Sighting>,
    hook: Option<Seq<char>>,
    i: int,
    at: Seq<char>,
) -> (found: (Ledger, u64))
    requires
        is_tracked(ledger, policy, agents, i),
        is_unoccupied(agents, i, at),
    ensures
        found.0 == ledger.swept(
            agents.take(i),
            policy,
            hook,
            false,
            ledger.relabeled_under(policy),
        ),
        found.1 == crate::ledger::successor(found.0.next_ordinal),
        leaves(ledger, found.0, agents[i].terminal_id, at),
        ({
            let slot = found.0.gathered(agents[i]);
            let source = if hook == Some(agents[i].pane_id) && !(slot.reading(
                agents[i],
                ObservationSource::Event,
            ) is Stale) {
                ObservationSource::Event
            } else {
                ObservationSource::Reconcile
            };
            keeps_labels(ledger, policy) || slot.pending is Some || slot.mark is Some
                ==> ledger.reconciled(policy, agents, hook).slot(agents[i].pane_id)
                == slot.observed(agents[i], source, found.1)
        }),
        ({
            let slot = found.0.gathered(agents[i]);
            !keeps_labels(ledger, policy) && slot.pending is None && slot.mark is None
                ==> ledger.reconciled(policy, agents, hook).slot(agents[i].pane_id)
                == crate::ledger::Slot::baseline(agents[i], None)
        }),
{
    let seen = agents[i];
    let relabeled = ledger.relabeled_under(policy);
    assert(!ledger.recovers_under(policy));
    assert(relabeled == !keeps_labels(ledger, policy));
    let before = lemma_swept_at(ledger, agents, policy, hook, false, relabeled, i, at);
    assert(crate::ledger::look(ledger.suppressed, seen.terminal_id) is None);
    lemma_stands(agents, policy, i);
    let swept = ledger.swept(agents, policy, hook, false, relabeled);
    let next = ledger.reconciled(policy, agents, hook);
    assert(next.slot(seen.pane_id) =~= swept.slot(seen.pane_id));
    let slot = before.gathered(seen);
    let base = before.without_terminal(seen.terminal_id).with_slot(seen.pane_id, slot);
    assert(base.slot(seen.pane_id) =~= slot);
    let ordinal = crate::ledger::successor(base.next_ordinal);
    let source = if hook == Some(seen.pane_id) {
        ObservationSource::Event
    } else {
        ObservationSource::Reconcile
    };
    let after = base.observed(seen, base.freshly(seen, source));
    assert(after.slot(seen.pane_id) =~= slot.observed(
        seen,
        base.freshly(seen, source),
        ordinal,
    ));
    if slot.pending is None && slot.mark is None {
        assert(slot =~= crate::ledger::Slot::empty());
        let start = crate::ledger::Slot::baseline(seen, slot.cleared());
        assert(base.with_slot(seen.pane_id, start).slot(seen.pane_id) =~= start);
    }
    (before, ordinal)
}

/// Of two entries of a terminal, the one at `first` is the later.
spec fn beats(ledger: Ledger, first: Seq<char>, second: Seq<char>) -> bool {
    ||| ledger.entries[second].older_than(ledger.entries[first])
    ||| !ledger.entries[first].older_than(ledger.entries[second]) && crate::text::precedes(
        second,
        first,
    )
}

/// Finitely many entries have a latest.
proof fn lemma_latest(ledger: Ledger, panes: Set<Seq<char>>) -> (best: Seq<char>)
    requires
        panes.finite(),
        panes.len() > 0,
    ensures
        panes.contains(best),
        forall|other: Seq<char>| #[trigger]
            panes.contains(other) && other != best ==> beats(ledger, best, other),
    decreases panes.len(),
{
    let one = panes.choose();
    let rest = panes.remove(one);
    if rest.len() == 0 {
        assert forall|other: Seq<char>| #[trigger]
            panes.contains(other) && other != one implies beats(ledger, one, other) by {
            assert(rest.contains(other));
        }
        one
    } else {
        let best = lemma_latest(ledger, rest);
        crate::text::lemma_precedes_total(one, best);
        if beats(ledger, one, best) {
            assert forall|other: Seq<char>| #[trigger]
                panes.contains(other) && other != one implies beats(ledger, one, other) by {
                if other != best {
                    assert(rest.contains(other));
                    if crate::text::precedes(other, best) && crate::text::precedes(best, one) {
                        crate::text::lemma_precedes_transitive(other, best, one);
                    }
                }
            }
            one
        } else {
            assert forall|other: Seq<char>| #[trigger]
                panes.contains(other) && other != best implies beats(ledger, best, other) by {
                if other != one {
                    assert(rest.contains(other));
                }
            }
            best
        }
    }
}

/// Finitely many watermarks have a furthest sequence and a furthest reading.
proof fn lemma_furthest(
    ledger: Ledger,
    terminal_id: Seq<char>,
    panes: Set<Seq<char>>,
) -> (mark: Mark)
    requires
        panes.finite(),
        panes.len() > 0,
    ensures
        mark.terminal_id == terminal_id,
        forall|pane_id: Seq<char>| #[trigger]
            panes.contains(pane_id) ==> {
                &&& ledger.watermarks[pane_id].state_change_seq <= mark.state_change_seq
                &&& crate::ledger::later(
                    mark.cleared_through,
                    ledger.watermarks[pane_id].cleared_through,
                ) == mark.cleared_through
            },
        exists|pane_id: Seq<char>| #[trigger]
            panes.contains(pane_id) && ledger.watermarks[pane_id].state_change_seq
                == mark.state_change_seq,
        exists|pane_id: Seq<char>| #[trigger]
            panes.contains(pane_id) && ledger.watermarks[pane_id].cleared_through
                == mark.cleared_through,
    decreases panes.len(),
{
    let one = panes.choose();
    let rest = panes.remove(one);
    let own = ledger.watermarks[one];
    assert(panes.contains(one));
    if rest.len() == 0 {
        assert forall|pane_id: Seq<char>| #[trigger] panes.contains(pane_id) implies pane_id
            == one by {
            if pane_id != one {
                assert(rest.contains(pane_id));
            }
        }
        Mark {
            terminal_id,
            state_change_seq: own.state_change_seq,
            cleared_through: own.cleared_through,
        }
    } else {
        let mark = lemma_furthest(ledger, terminal_id, rest);
        let best = Mark {
            terminal_id,
            state_change_seq: if own.state_change_seq < mark.state_change_seq {
                mark.state_change_seq
            } else {
                own.state_change_seq
            },
            cleared_through: crate::ledger::later(mark.cleared_through, own.cleared_through),
        };
        let a = choose|pane_id: Seq<char>| #[trigger]
            rest.contains(pane_id) && ledger.watermarks[pane_id].state_change_seq
                == mark.state_change_seq;
        let b = choose|pane_id: Seq<char>| #[trigger]
            rest.contains(pane_id) && ledger.watermarks[pane_id].cleared_through
                == mark.cleared_through;
        assert(panes.contains(a) && panes.contains(b));
        assert forall|pane_id: Seq<char>| #[trigger] panes.contains(pane_id) implies {
            &&& ledger.watermarks[pane_id].state_change_seq <= best.state_change_seq
            &&& crate::ledger::later(
                best.cleared_through,
                ledger.watermarks[pane_id].cleared_through,
            ) == best.cleared_through
        } by {
            if pane_id != one {
                assert(rest.contains(pane_id));
            }
        }
        best
    }
}

/// What is gathered of a terminal: nothing, if nothing was recorded; otherwise its
/// latest entry, unless that has been read, and its furthest watermark.
proof fn lemma_gathered(ledger: Ledger, seen: Sighting, source: Ledger, at: Seq<char>)
    requires
        leaves(source, ledger, seen.terminal_id, at),
        source.entries.dom().finite(),
        source.watermarks.dom().finite(),
    ensures
        ledger.gathered(seen).mark matches Some(mark) ==> mark.terminal_id == seen.terminal_id && (
        exists|pane_id: Seq<char>| #[trigger]
            ledger.has_mark(seen.terminal_id, pane_id)
                && ledger.watermarks[pane_id].state_change_seq == mark.state_change_seq),
        ledger.gathered(seen).mark matches Some(mark) ==> (forall|pane_id: Seq<char>| #[trigger]
            ledger.has_mark(seen.terminal_id, pane_id)
                ==> ledger.watermarks[pane_id].state_change_seq <= mark.state_change_seq),
        ledger.gathered(seen).pending matches Some(entry) ==> entry.terminal_id
            == seen.terminal_id && (exists|pane_id: Seq<char>| #[trigger]
            ledger.has_entry(seen.terminal_id, pane_id) && entry == ledger.entries[pane_id].at(
                seen.pane_id,
                seen.workspace_id,
            )),
        (exists|pane_id: Seq<char>| ledger.has_mark(seen.terminal_id, pane_id)) <==> ledger.gathered(
            seen,
        ).mark is Some,
        (exists|pane_id: Seq<char>| ledger.has_entry(seen.terminal_id, pane_id)) && ledger.gathered(
            seen,
        ).mark is None ==> ledger.gathered(seen).pending is Some,
{
    let terminal_id = seen.terminal_id;
    let queued = Set::new(|pane_id: Seq<char>| ledger.has_entry(terminal_id, pane_id));
    let marked = Set::new(|pane_id: Seq<char>| ledger.has_mark(terminal_id, pane_id));
    assert(queued.subset_of(source.entries.dom())) by {
        assert forall|pane_id: Seq<char>| queued.contains(pane_id) implies #[trigger]
            source.entries.dom().contains(pane_id) by {
            assert(ledger.has_entry(terminal_id, pane_id));
        }
    }
    assert(marked.subset_of(source.watermarks.dom())) by {
        assert forall|pane_id: Seq<char>| marked.contains(pane_id) implies #[trigger]
            source.watermarks.dom().contains(pane_id) by {
            assert(ledger.has_mark(terminal_id, pane_id));
        }
    }
    vstd::set_lib::lemma_set_subset_finite(source.entries.dom(), queued);
    vstd::set_lib::lemma_set_subset_finite(source.watermarks.dom(), marked);
    if exists|pane_id: Seq<char>| ledger.has_entry(terminal_id, pane_id) {
        let some = choose|pane_id: Seq<char>| ledger.has_entry(terminal_id, pane_id);
        assert(queued.contains(some));
        assert(queued.len() > 0) by {
            if queued.len() == 0 {
                assert(queued =~= Set::<Seq<char>>::empty());
            }
        }
        let best = lemma_latest(ledger, queued);
        assert(ledger.leads(terminal_id, best)) by {
            assert(queued.contains(best));
            assert forall|other: Seq<char>| #[trigger]
                ledger.has_entry(terminal_id, other) && other != best implies beats(
                ledger,
                best,
                other,
            ) by {
                assert(queued.contains(other));
            }
        }
        crate::ledger::lemma_one_leader(ledger, terminal_id, best);
        assert(ledger.has_entry(terminal_id, best));
    } else {
        assert forall|pane_id: Seq<char>| !ledger.leads(terminal_id, pane_id) by {
            assert(!ledger.has_entry(terminal_id, pane_id));
        }
    }
    if exists|pane_id: Seq<char>| ledger.has_mark(terminal_id, pane_id) {
        let some = choose|pane_id: Seq<char>| ledger.has_mark(terminal_id, pane_id);
        assert(marked.contains(some));
        assert(marked.len() > 0) by {
            if marked.len() == 0 {
                assert(marked =~= Set::<Seq<char>>::empty());
            }
        }
        let mark = lemma_furthest(ledger, terminal_id, marked);
        let a = choose|pane_id: Seq<char>| #[trigger]
            marked.contains(pane_id) && ledger.watermarks[pane_id].state_change_seq
                == mark.state_change_seq;
        let b = choose|pane_id: Seq<char>| #[trigger]
            marked.contains(pane_id) && ledger.watermarks[pane_id].cleared_through
                == mark.cleared_through;
        assert(ledger.gathers(terminal_id, mark)) by {
            assert(ledger.has_mark(terminal_id, a) && ledger.has_mark(terminal_id, b));
            assert forall|pane_id: Seq<char>| #[trigger]
                ledger.has_mark(terminal_id, pane_id) implies {
                &&& ledger.watermarks[pane_id].state_change_seq <= mark.state_change_seq
                &&& crate::ledger::later(
                    mark.cleared_through,
                    ledger.watermarks[pane_id].cleared_through,
                ) == mark.cleared_through
            } by {
                assert(marked.contains(pane_id));
            }
        }
        crate::ledger::lemma_one_gathering(ledger, terminal_id, mark);
        assert(ledger.has_mark(terminal_id, a));
    } else {
        assert forall|mark: Mark| !ledger.gathers(terminal_id, mark) by {
            if ledger.gathers(terminal_id, mark) {
                let pane_id = choose|pane_id: Seq<char>| #[trigger]
                    ledger.has_mark(terminal_id, pane_id)
                        && ledger.watermarks[pane_id].state_change_seq == mark.state_change_seq;
                assert(ledger.has_mark(terminal_id, pane_id));
            }
        }
    }
}

/// The agent is pending at its address, with the sequence it was seen at.
pub open spec fn is_pending(ledger: Ledger, seen: Sighting) -> bool {
    &&& ledger.entries.dom().contains(seen.pane_id)
    &&& ledger.entries[seen.pane_id].pane_id == seen.pane_id
    &&& ledger.entries[seen.pane_id].terminal_id == seen.terminal_id
    &&& ledger.entries[seen.pane_id].workspace_id == seen.workspace_id
    &&& ledger.entries[seen.pane_id].status == seen.status
    &&& ledger.entries[seen.pane_id].state_change_seq == seen.state_change_seq
}

/// Nothing is pending at the agent's address, and the sequence it was seen at is noted
/// there, read as far as given.
pub open spec fn is_noted(ledger: Ledger, seen: Sighting, read: Option<u64>) -> bool {
    &&& !ledger.entries.dom().contains(seen.pane_id)
    &&& ledger.watermarks.dom().contains(seen.pane_id)
    &&& ledger.watermarks[seen.pane_id] == (Mark {
        terminal_id: seen.terminal_id,
        state_change_seq: seen.state_change_seq,
        cleared_through: read,
    })
}

/// A snapshot lists agents apart, and one of them in a workspace that the policy knows
/// and does not exclude; the agent's terminal was not withheld before, and the ledger
/// goes on where it stopped.
pub open spec fn is_tracked(
    ledger: Ledger,
    policy: Policy,
    agents: Seq<Sighting>,
    i: int,
) -> bool {
    &&& crate::ledger::unambiguous(agents)
    &&& 0 <= i < agents.len()
    &&& policy.workspaces.contains(agents[i].workspace_id)
    &&& !policy.excluded.contains(agents[i].workspace_id)
    &&& !ledger.suppressed.dom().contains(agents[i].terminal_id)
    &&& goes_on(ledger, policy)
}

/// What is gathered of a terminal that nothing is recorded of is nothing.
proof fn lemma_nothing_gathered(ledger: Ledger, seen: Sighting, source: Ledger, at: Seq<char>)
    requires
        leaves(source, ledger, seen.terminal_id, at),
        forall|pane_id: Seq<char>| !#[trigger] records(source, pane_id, seen.terminal_id),
    ensures
        ledger.gathered(seen).pending is None,
        ledger.gathered(seen).mark is None,
{
    assert forall|pane_id: Seq<char>| !#[trigger] ledger.has_entry(seen.terminal_id, pane_id) by {
        assert(!records(source, pane_id, seen.terminal_id));
    }
    assert forall|pane_id: Seq<char>| !#[trigger] ledger.has_mark(seen.terminal_id, pane_id) by {
        assert(!records(source, pane_id, seen.terminal_id));
    }
    assert forall|pane_id: Seq<char>| !ledger.leads(seen.terminal_id, pane_id) by {
        assert(!ledger.has_entry(seen.terminal_id, pane_id));
    }
    assert forall|mark: Mark| !ledger.gathers(seen.terminal_id, mark) by {
        if ledger.gathers(seen.terminal_id, mark) {
            let pane_id = choose|pane_id: Seq<char>| #[trigger]
                ledger.has_mark(seen.terminal_id, pane_id)
                    && ledger.watermarks[pane_id].state_change_seq == mark.state_change_seq;
            assert(ledger.has_mark(seen.terminal_id, pane_id));
        }
    }
}

/// An address is the agent's own, in a snapshot that lists agents apart.
proof fn lemma_own_address(agents: Seq<Sighting>, i: int)
    requires
        crate::ledger::unambiguous(agents),
        0 <= i < agents.len(),
    ensures
        is_unoccupied(agents, i, agents[i].pane_id),
{
    assert forall|k: int| 0 <= k < agents.len() && k != i implies (#[trigger] agents[k]).pane_id
        != agents[i].pane_id by {
        if k < i {
            assert(agents[k].pane_id != agents[i].pane_id);
        } else {
            assert(agents[i].pane_id != agents[k].pane_id);
        }
    }
}

/// Reconciling an agent whose terminal the ledger has no record of: one that is done is
/// unread, and so is one that is blocked if a hook named its pane; of any other waiting
/// agent the sequence is only noted. After a change of labels it is only noted in any
/// case.
pub proof fn law_reconciling_first_contact(
    ledger: Ledger,
    policy: Policy,
    agents: Seq<Sighting>,
    hook: Option<Seq<char>>,
    i: int,
)
    requires
        is_tracked(ledger, policy, agents, i),
        may_wait(agents[i].status),
        forall|pane_id: Seq<char>| !#[trigger] records(ledger, pane_id, agents[i].terminal_id),
    ensures
        ({
            let next = ledger.reconciled(policy, agents, hook);
            if keeps_labels(ledger, policy) && (agents[i].status == AgentStatus::Done
                || agents[i].status == AgentStatus::Blocked && hook == Some(agents[i].pane_id)) {
                is_pending(next, agents[i])
            } else {
                is_noted(next, agents[i], None)
            }
        }),
{
    let seen = agents[i];
    lemma_own_address(agents, i);
    let (before, ordinal) = lemma_reconciled_at(
        ledger,
        policy,
        agents,
        hook,
        i,
        seen.pane_id,
    );
    lemma_nothing_gathered(before, seen, ledger, seen.pane_id);
    let next = ledger.reconciled(policy, agents, hook);
    let slot = before.gathered(seen);
    assert(!(slot.reading(seen, ObservationSource::Event) is Stale));
    assert(next.slot(seen.pane_id).pending is Some ==> next.entries.contains_key(seen.pane_id));
    assert(next.slot(seen.pane_id).mark is Some ==> next.watermarks.contains_key(seen.pane_id));
}

/// Reconciling a waiting agent whose sequence is higher than every record of its
/// terminal leaves it unread, whether a hook named its pane or not, and wherever the
/// terminal was recorded, as long as nobody else stands there now.
pub proof fn law_reconciling_a_higher_sequence(
    ledger: Ledger,
    policy: Policy,
    agents: Seq<Sighting>,
    hook: Option<Seq<char>>,
    i: int,
    at: Seq<char>,
)
    requires
        is_tracked(ledger, policy, agents, i),
        ledger.entries.dom().finite(),
        ledger.watermarks.dom().finite(),
        may_wait(agents[i].status),
        is_unoccupied(agents, i, at),
        records(ledger, at, agents[i].terminal_id),
        forall|pane_id: Seq<char>| #[trigger]
            is_behind(ledger, pane_id, agents[i].terminal_id, agents[i].state_change_seq),
    ensures
        is_pending(ledger.reconciled(policy, agents, hook), agents[i]),
{
    let seen = agents[i];
    let (before, ordinal) = lemma_reconciled_at(ledger, policy, agents, hook, i, at);
    lemma_gathered(before, seen, ledger, at);
    let slot = before.gathered(seen);
    assert(before.has_entry(seen.terminal_id, at) || before.has_mark(seen.terminal_id, at)) by {
        assert(ledger.has_entry(seen.terminal_id, at) || ledger.has_mark(seen.terminal_id, at));
    }
    assert(slot.pending is Some || slot.mark is Some);
    if let Some(mark) = slot.mark {
        let there = choose|pane_id: Seq<char>| #[trigger]
            before.has_mark(seen.terminal_id, pane_id)
                && before.watermarks[pane_id].state_change_seq == mark.state_change_seq;
        assert(before.has_mark(seen.terminal_id, there));
        assert(is_behind(ledger, there, seen.terminal_id, seen.state_change_seq));
    }
    if let Some(entry) = slot.pending {
        let there = choose|pane_id: Seq<char>| #[trigger]
            before.has_entry(seen.terminal_id, pane_id) && entry == before.entries[pane_id].at(
                seen.pane_id,
                seen.workspace_id,
            );
        assert(before.has_entry(seen.terminal_id, there));
        assert(is_behind(ledger, there, seen.terminal_id, seen.state_change_seq));
    }
    assert(slot.known_sequence(seen.terminal_id) matches Some(known) && known
        < seen.state_change_seq);
    let next = ledger.reconciled(policy, agents, hook);
    assert(next.slot(seen.pane_id).pending is Some ==> next.entries.contains_key(seen.pane_id));
}

/// A hook on the pane of a tracked agent makes its transition unread: a done or blocked
/// agent that is met for the first time, unless the labels changed, or any waiting one
/// with a higher sequence than everything recorded of its terminal. The server's
/// focused flag plays no part in it.
pub proof fn law_hooked_transitions_are_unread(
    ledger: Ledger,
    policy: Policy,
    agents: Seq<Sighting>,
    i: int,
)
    requires
        is_tracked(ledger, policy, agents, i),
        ({
            ||| {
                &&& agents[i].status == AgentStatus::Done || agents[i].status
                    == AgentStatus::Blocked
                &&& keeps_labels(ledger, policy)
                &&& forall|pane_id: Seq<char>| !#[trigger]
                    records(ledger, pane_id, agents[i].terminal_id)
            }
            ||| {
                &&& may_wait(agents[i].status)
                &&& ledger.entries.dom().finite()
                &&& ledger.watermarks.dom().finite()
                &&& records(ledger, agents[i].pane_id, agents[i].terminal_id)
                &&& forall|pane_id: Seq<char>| #[trigger]
                    is_behind(ledger, pane_id, agents[i].terminal_id, agents[i].state_change_seq)
            }
        }),
    ensures
        is_pending(
            ledger.reconciled(policy, agents, Some(agents[i].pane_id)),
            agents[i],
        ),
{
    let hook = Some(agents[i].pane_id);
    if forall|pane_id: Seq<char>| !#[trigger] records(ledger, pane_id, agents[i].terminal_id) {
        law_reconciling_first_contact(ledger, policy, agents, hook, i);
    } else {
        lemma_own_address(agents, i);
        law_reconciling_a_higher_sequence(
            ledger,
            policy,
            agents,
            hook,
            i,
            agents[i].pane_id,
        );
    }
}

/// Reconciling an agent that works or is in no known state leaves nothing pending at its
/// address and marks its terminal as read through its sequence, whatever was recorded
/// and whoever reports it.
pub proof fn law_reconciling_work_marks_as_read(
    ledger: Ledger,
    policy: Policy,
    agents: Seq<Sighting>,
    hook: Option<Seq<char>>,
    i: int,
)
    requires
        is_tracked(ledger, policy, agents, i),
        keeps_labels(ledger, policy),
        agents[i].status == AgentStatus::Working || agents[i].status == AgentStatus::Unknown,
    ensures
        is_noted(
            ledger.reconciled(policy, agents, hook),
            agents[i],
            Some(agents[i].state_change_seq),
        ),
{
    let seen = agents[i];
    lemma_own_address(agents, i);
    let (before, ordinal) = lemma_reconciled_at(
        ledger,
        policy,
        agents,
        hook,
        i,
        seen.pane_id,
    );
    let next = ledger.reconciled(policy, agents, hook);
    assert(next.slot(seen.pane_id).pending is None);
    assert(next.slot(seen.pane_id).mark is Some ==> next.watermarks.contains_key(seen.pane_id));
}

/// Reconciling a waiting agent whose sequence is lower than one that was noted of its
/// terminal takes its sequence as a new start: the server restarted, and nothing from
/// before is pending or counts as read, whether a hook named its pane or not.
pub proof fn law_reconciling_a_lower_sequence(
    ledger: Ledger,
    policy: Policy,
    agents: Seq<Sighting>,
    hook: Option<Seq<char>>,
    i: int,
    at: Seq<char>,
)
    requires
        is_tracked(ledger, policy, agents, i),
        ledger.entries.dom().finite(),
        ledger.watermarks.dom().finite(),
        may_wait(agents[i].status),
        is_unoccupied(agents, i, at),
        ledger.watermarks.dom().contains(at),
        ledger.watermarks[at].terminal_id == agents[i].terminal_id,
        ledger.watermarks[at].state_change_seq > agents[i].state_change_seq,
    ensures
        is_noted(ledger.reconciled(policy, agents, hook), agents[i], None),
{
    let seen = agents[i];
    let (before, ordinal) = lemma_reconciled_at(ledger, policy, agents, hook, i, at);
    lemma_gathered(before, seen, ledger, at);
    assert(ledger.has_mark(seen.terminal_id, at));
    assert(before.has_mark(seen.terminal_id, at));
    let slot = before.gathered(seen);
    assert(slot.mark matches Some(mark) && mark.state_change_seq > seen.state_change_seq);
    let next = ledger.reconciled(policy, agents, hook);
    assert(next.slot(seen.pane_id).mark is Some ==> next.watermarks.contains_key(seen.pane_id));
    assert(next.slot(seen.pane_id).pending is None);
}

/// Unread work follows its terminal: reconciling a waiting agent that is queued with its
/// sequence, here or at an address where nobody else stands now, keeps the latest of its
/// entries, by sequence and then by local order, with its place in the queue, and moves
/// it to where the agent stands.
pub proof fn law_reconciling_a_queued_sequence(
    ledger: Ledger,
    policy: Policy,
    agents: Seq<Sighting>,
    hook: Option<Seq<char>>,
    i: int,
    at: Seq<char>,
)
    requires
        is_tracked(ledger, policy, agents, i),
        may_wait(agents[i].status),
        is_unoccupied(agents, i, at),
        ledger.entries.dom().contains(at),
        ledger.entries[at].terminal_id == agents[i].terminal_id,
        ledger.entries[at].state_change_seq == agents[i].state_change_seq,
        forall|pane_id: Seq<char>| #[trigger]
            ledger.entries.dom().contains(pane_id) && pane_id != at
                && ledger.entries[pane_id].terminal_id == agents[i].terminal_id
                ==> ledger.entries[pane_id].state_change_seq < ledger.entries[at].state_change_seq
                || ledger.entries[pane_id].state_change_seq == ledger.entries[at].state_change_seq
                && ledger.entries[pane_id].ordinal < ledger.entries[at].ordinal,
        forall|pane_id: Seq<char>| #[trigger]
            ledger.watermarks.dom().contains(pane_id) ==> ledger.watermarks[pane_id].terminal_id
                != agents[i].terminal_id,
    ensures
        ({
            let next = ledger.reconciled(policy, agents, hook);
            let entry = next.entries[agents[i].pane_id];
            &&& next.entries.dom().contains(agents[i].pane_id)
            &&& entry.pane_id == agents[i].pane_id
            &&& entry.workspace_id == agents[i].workspace_id
            &&& entry.terminal_id == agents[i].terminal_id
            &&& entry.state_change_seq == agents[i].state_change_seq
            &&& entry.ordinal == ledger.entries[at].ordinal
            &&& entry.status == if hook == Some(agents[i].pane_id) {
                ledger.entries[at].status
            } else {
                agents[i].status
            }
        }),
{
    let seen = agents[i];
    let (before, ordinal) = lemma_reconciled_at(ledger, policy, agents, hook, i, at);
    let slot = before.gathered(seen);
    assert(ledger.has_entry(seen.terminal_id, at));
    assert(before.has_entry(seen.terminal_id, at));
    assert(before.leads(seen.terminal_id, at)) by {
        assert forall|other: Seq<char>| #[trigger]
            before.has_entry(seen.terminal_id, other) && other != at implies
            before.entries[other].older_than(before.entries[at]) by {
            assert(ledger.entries.dom().contains(other));
        }
    }
    crate::ledger::lemma_one_leader(before, seen.terminal_id, at);
    assert forall|mark: Mark| !before.gathers(seen.terminal_id, mark) by {
        if before.gathers(seen.terminal_id, mark) {
            let there = choose|pane_id: Seq<char>| #[trigger]
                before.has_mark(seen.terminal_id, pane_id)
                    && before.watermarks[pane_id].state_change_seq == mark.state_change_seq;
            assert(before.has_mark(seen.terminal_id, there));
            assert(ledger.watermarks.dom().contains(there));
        }
    }
    assert(slot.mark is None);
    let next = ledger.reconciled(policy, agents, hook);
    assert(next.slot(seen.pane_id).pending is Some ==> next.entries.contains_key(seen.pane_id));
}

/// What has been noted follows its terminal: reconciling a waiting agent whose sequence
/// was noted, here or at an address where nobody else stands now, queues nothing and
/// keeps the furthest watermark, with what it says of reading. Entries that have been
/// read by it, wherever they stand, are dropped.
pub proof fn law_reconciling_a_noted_sequence(
    ledger: Ledger,
    policy: Policy,
    agents: Seq<Sighting>,
    hook: Option<Seq<char>>,
    i: int,
    at: Seq<char>,
)
    requires
        is_tracked(ledger, policy, agents, i),
        may_wait(agents[i].status),
        is_unoccupied(agents, i, at),
        ledger.watermarks.dom().contains(at),
        ledger.watermarks[at].terminal_id == agents[i].terminal_id,
        ledger.watermarks[at].state_change_seq == agents[i].state_change_seq,
        forall|pane_id: Seq<char>| #[trigger]
            ledger.watermarks.dom().contains(pane_id) && ledger.watermarks[pane_id].terminal_id
                == agents[i].terminal_id ==> {
                &&& ledger.watermarks[pane_id].state_change_seq
                    <= ledger.watermarks[at].state_change_seq
                &&& ledger.watermarks[pane_id].cleared_through matches Some(through) ==> (
                ledger.watermarks[at].cleared_through matches Some(end) && through <= end)
            },
        forall|pane_id: Seq<char>| #[trigger]
            ledger.entries.dom().contains(pane_id) && ledger.entries[pane_id].terminal_id
                == agents[i].terminal_id ==> (
            ledger.watermarks[at].cleared_through matches Some(through)
                && ledger.entries[pane_id].state_change_seq <= through),
    ensures
        is_noted(
            ledger.reconciled(policy, agents, hook),
            agents[i],
            ledger.watermarks[at].cleared_through,
        ),
{
    let seen = agents[i];
    let (before, ordinal) = lemma_reconciled_at(ledger, policy, agents, hook, i, at);
    let slot = before.gathered(seen);
    let mark = ledger.watermarks[at];
    assert(ledger.has_mark(seen.terminal_id, at));
    assert(before.has_mark(seen.terminal_id, at));
    assert(before.gathers(seen.terminal_id, mark)) by {
        assert forall|pane_id: Seq<char>| #[trigger]
            before.has_mark(seen.terminal_id, pane_id) implies {
            &&& before.watermarks[pane_id].state_change_seq <= mark.state_change_seq
            &&& crate::ledger::later(
                mark.cleared_through,
                before.watermarks[pane_id].cleared_through,
            ) == mark.cleared_through
        } by {
            assert(ledger.watermarks.dom().contains(pane_id));
        }
    }
    crate::ledger::lemma_one_gathering(before, seen.terminal_id, mark);
    if exists|pane_id: Seq<char>| before.leads(seen.terminal_id, pane_id) {
        let there = choose|pane_id: Seq<char>| before.leads(seen.terminal_id, pane_id);
        assert(before.leads(seen.terminal_id, there));
        assert(before.has_entry(seen.terminal_id, there));
        assert(ledger.entries.dom().contains(there));
    }
    assert(slot.pending is None);
    let next = ledger.reconciled(policy, agents, hook);
    assert(next.slot(seen.pane_id).pending is None);
    assert(next.slot(seen.pane_id).mark is Some ==> next.watermarks.contains_key(seen.pane_id));
}

/// How far the watermark at the address says that the terminal has been read.
pub open spec fn read_at(ledger: Ledger, at: Seq<char>, terminal_id: Seq<char>) -> Option<u64> {
    if ledger.watermarks.dom().contains(at) && ledger.watermarks[at].terminal_id == terminal_id {
        ledger.watermarks[at].cleared_through
    } else {
        None
    }
}

/// How far what was kept of a withheld terminal says that it has been read.
pub open spec fn read_when_withheld(ledger: Ledger, terminal_id: Seq<char>) -> Option<u64> {
    if ledger.suppressed.dom().contains(terminal_id) {
        ledger.suppressed[terminal_id].cleared_through
    } else {
        None
    }
}

/// The further of two readings, unless it goes beyond the sequence: then it belongs to a
/// server that has restarted, and does not count.
pub open spec fn further(a: Option<u64>, b: Option<u64>, sequence: u64) -> Option<u64> {
    let most = match (a, b) {
        (Some(x), Some(y)) => Some(
            if x < y {
                y
            } else {
                x
            },
        ),
        (Some(x), None) => Some(x),
        (None, Some(y)) => Some(y),
        (None, None) => None,
    };
    if most matches Some(through) && through > sequence {
        None
    } else {
        most
    }
}

/// What is gathered of a terminal with one address says how far it was read there.
proof fn lemma_gathered_reading(ledger: Ledger, seen: Sighting, source: Ledger, at: Seq<char>)
    requires
        leaves(source, ledger, seen.terminal_id, at),
        forall|pane_id: Seq<char>| #[trigger]
            records(source, pane_id, seen.terminal_id) ==> pane_id == at,
    ensures
        ledger.gathered(seen).cleared() == read_at(source, at, seen.terminal_id),
{
    assert forall|pane_id: Seq<char>| #[trigger]
        ledger.has_mark(seen.terminal_id, pane_id) implies pane_id == at by {
        assert(records(source, pane_id, seen.terminal_id));
    }
    if source.has_mark(seen.terminal_id, at) {
        let mark = source.watermarks[at];
        assert(ledger.has_mark(seen.terminal_id, at));
        assert(ledger.gathers(seen.terminal_id, mark));
        crate::ledger::lemma_one_gathering(ledger, seen.terminal_id, mark);
    } else {
        assert forall|other: Mark| !ledger.gathers(seen.terminal_id, other) by {
            if ledger.gathers(seen.terminal_id, other) {
                let there = choose|pane_id: Seq<char>| #[trigger]
                    ledger.has_mark(seen.terminal_id, pane_id)
                        && ledger.watermarks[pane_id].state_change_seq == other.state_change_seq;
                assert(ledger.has_mark(seen.terminal_id, there));
                assert(source.has_mark(seen.terminal_id, there));
            }
        }
    }
}

/// An agent that was withheld, and every agent after an outage or under another session,
/// starts over at its sequence, with nothing pending. What has been read up to there
/// still counts, from the watermark of its terminal, if that has one address, and from
/// what was kept while it was withheld.
pub proof fn law_new_starts_keep_what_was_read(
    ledger: Ledger,
    policy: Policy,
    agents: Seq<Sighting>,
    hook: Option<Seq<char>>,
    i: int,
    at: Seq<char>,
)
    requires
        crate::ledger::unambiguous(agents),
        0 <= i < agents.len(),
        policy.workspaces.contains(agents[i].workspace_id),
        !policy.excluded.contains(agents[i].workspace_id),
        ledger.suppressed.dom().contains(agents[i].terminal_id) || !goes_on(ledger, policy),
        is_unoccupied(agents, i, at),
        forall|pane_id: Seq<char>| #[trigger]
            records(ledger, pane_id, agents[i].terminal_id) ==> pane_id == at,
    ensures
        ({
            let next = ledger.reconciled(policy, agents, hook);
            &&& is_noted(
                next,
                agents[i],
                further(
                    read_at(ledger, at, agents[i].terminal_id),
                    read_when_withheld(ledger, agents[i].terminal_id),
                    agents[i].state_change_seq,
                ),
            )
            &&& !next.suppressed.dom().contains(agents[i].terminal_id)
        }),
{
    let seen = agents[i];
    let recovering = ledger.recovers_under(policy);
    let relabeled = ledger.relabeled_under(policy);
    let before = lemma_swept_at(
        ledger,
        agents,
        policy,
        hook,
        recovering,
        relabeled,
        i,
        at,
    );
    lemma_gathered_reading(before, seen, ledger, at);
    lemma_stands(agents, policy, i);
    assert(crate::ledger::look(before.suppressed, seen.terminal_id) == crate::ledger::look(
        ledger.suppressed,
        seen.terminal_id,
    ));
    let swept = ledger.swept(agents, policy, hook, recovering, relabeled);
    let next = ledger.reconciled(policy, agents, hook);
    assert(next.slot(seen.pane_id) =~= swept.slot(seen.pane_id));
    let slot = before.gathered(seen);
    let kept = read_when_withheld(ledger, seen.terminal_id);
    let start = crate::ledger::Slot::baseline(
        seen,
        crate::ledger::later(slot.cleared(), kept),
    );
    let base = before.without_terminal(seen.terminal_id).with_slot(seen.pane_id, slot);
    assert(base.with_slot(seen.pane_id, start).slot(seen.pane_id) =~= start);
    assert(next.slot(seen.pane_id) == start);
    assert(next.slot(seen.pane_id).mark is Some ==> next.watermarks.contains_key(seen.pane_id));
    assert(next.slot(seen.pane_id).pending is None);
    crate::laws::lemma_swept_is_filed(
        ledger,
        agents,
        policy,
        hook,
        recovering,
        relabeled,
        i,
    );
}

/// After an outage, or under another session, nothing at all is pending, and every
/// eligible agent has its sequence noted.
pub proof fn law_recovery_leaves_nothing_pending(
    ledger: Ledger,
    policy: Policy,
    agents: Seq<Sighting>,
    hook: Option<Seq<char>>,
    pane_id: Seq<char>,
    i: int,
)
    requires
        crate::ledger::unambiguous(agents),
        ledger.recovery_needed || (ledger.policy matches Some(stamp) && stamp.session
            != policy.session),
        0 <= i < agents.len(),
        policy.workspaces.contains(agents[i].workspace_id),
        !policy.excluded.contains(agents[i].workspace_id),
    ensures
        ({
            let next = ledger.reconciled(policy, agents, hook);
            &&& !next.entries.dom().contains(pane_id)
            &&& next.watermarks.dom().contains(agents[i].pane_id)
            &&& next.watermarks[agents[i].pane_id].terminal_id == agents[i].terminal_id
            &&& next.watermarks[agents[i].pane_id].state_change_seq == agents[i].state_change_seq
        }),
{
    crate::laws::law_recovery_baselines_everything(ledger, policy, agents, hook);
    let next = ledger.reconciled(policy, agents, hook);
    assert(policy.eligible(agents[i].workspace_id));
    assert(crate::laws::is_baseline(next.slot(agents[i].pane_id), agents[i]));
    assert(next.slot(agents[i].pane_id).mark is Some ==> next.watermarks.contains_key(
        agents[i].pane_id,
    ));
    assert(!next.entries.contains_key(pane_id));
}

/// Nobody that a policy lets through stands at an address where nobody stands.
proof fn lemma_nobody_stands(
    agents: Seq<Sighting>,
    policy: Policy,
    terminal_id: Seq<char>,
    at: Seq<char>,
)
    requires
        is_absent(agents, terminal_id, at),
    ensures
        !crate::ledger::stands_at(crate::ledger::eligible_only(agents, policy), at),
{
    let live = crate::ledger::eligible_only(agents, policy);
    if crate::ledger::stands_at(live, at) {
        let k = choose|k: int| 0 <= k < live.len() && (#[trigger] live[k]).pane_id == at;
        let i = crate::seqs::lemma_filter_source(
            agents,
            |seen: Sighting| policy.eligible(seen.workspace_id),
            k,
        );
        assert(agents[i].pane_id != at);
    }
}

/// A pending entry whose terminal and address are both missing from the snapshot leaves
/// the queue; its sequence is noted, and nothing more counts as read than before.
pub proof fn law_missing_agents_leave_the_queue(
    ledger: Ledger,
    policy: Policy,
    agents: Seq<Sighting>,
    hook: Option<Seq<char>>,
    at: Seq<char>,
)
    requires
        ledger.entries.dom().contains(at),
        ledger.watermarks.dom().contains(at) ==> ledger.watermarks[at].terminal_id
            == ledger.entries[at].terminal_id,
        is_absent(agents, ledger.entries[at].terminal_id, at),
    ensures
        ({
            let next = ledger.reconciled(policy, agents, hook);
            let entry = ledger.entries[at];
            let mark = ledger.watermarks[at];
            let marked = ledger.watermarks.dom().contains(at);
            &&& !next.entries.dom().contains(at)
            &&& next.watermarks.dom().contains(at)
            &&& next.watermarks[at] == (Mark {
                terminal_id: entry.terminal_id,
                state_change_seq: if marked && mark.state_change_seq > entry.state_change_seq {
                    mark.state_change_seq
                } else {
                    entry.state_change_seq
                },
                cleared_through: if marked {
                    mark.cleared_through
                } else {
                    None
                },
            })
        }),
{
    let terminal_id = ledger.entries[at].terminal_id;
    let recovering = ledger.recovers_under(policy);
    let relabeled = ledger.relabeled_under(policy);
    lemma_swept_keeps(
        ledger,
        agents,
        policy,
        hook,
        recovering,
        relabeled,
        terminal_id,
        at,
    );
    lemma_nobody_stands(agents, policy, terminal_id, at);
    let swept = ledger.swept(agents, policy, hook, recovering, relabeled);
    assert(ledger.has_entry(terminal_id, at));
    assert(swept.has_entry(terminal_id, at));
    if ledger.watermarks.dom().contains(at) {
        assert(ledger.has_mark(terminal_id, at));
        assert(swept.has_mark(terminal_id, at));
    } else {
        assert(!swept.watermarks.contains_key(at));
        assert(swept.slot(at).mark is None);
    }
}

/// What was noted of a terminal that is missing from the snapshot stays noted, at an
/// address that is missing too, and one that was withheld stays withheld.
pub proof fn law_missing_agents_stay_noted(
    ledger: Ledger,
    policy: Policy,
    agents: Seq<Sighting>,
    hook: Option<Seq<char>>,
    terminal_id: Seq<char>,
    at: Seq<char>,
)
    requires
        is_absent(agents, terminal_id, at),
        !ledger.entries.dom().contains(at),
    ensures
        ({
            let next = ledger.reconciled(policy, agents, hook);
            &&& !next.entries.dom().contains(at)
            &&& ledger.watermarks.dom().contains(at) && ledger.watermarks[at].terminal_id
                == terminal_id ==> next.watermarks.dom().contains(at) && next.watermarks[at]
                == ledger.watermarks[at]
            &&& next.suppressed.dom().contains(terminal_id) == ledger.suppressed.dom().contains(
                terminal_id,
            )
            &&& ledger.suppressed.dom().contains(terminal_id) ==> next.suppressed[terminal_id]
                == ledger.suppressed[terminal_id]
        }),
{
    let recovering = ledger.recovers_under(policy);
    let relabeled = ledger.relabeled_under(policy);
    lemma_swept_keeps(
        ledger,
        agents,
        policy,
        hook,
        recovering,
        relabeled,
        terminal_id,
        at,
    );
    lemma_nobody_stands(agents, policy, terminal_id, at);
    let swept = ledger.swept(agents, policy, hook, recovering, relabeled);
    assert(crate::ledger::look(swept.suppressed, terminal_id) == crate::ledger::look(
        ledger.suppressed,
        terminal_id,
    ));
    assert(!swept.entries.contains_key(at));
    if ledger.watermarks.dom().contains(at) && ledger.watermarks[at].terminal_id == terminal_id {
        assert(ledger.has_mark(terminal_id, at));
        assert(swept.has_mark(terminal_id, at));
    }
}

/// A reconciliation notes the policy's session, labels and exclusions and where each
/// eligible agent stands, in the order of the snapshot, and ends every recovery.
pub proof fn law_reconciliation_notes_policy_and_places(
    ledger: Ledger,
    policy: Policy,
    agents: Seq<Sighting>,
    hook: Option<Seq<char>>,
)
    ensures
        ({
            let next = ledger.reconciled(policy, agents, hook);
            &&& next.policy == Some(
                Stamp {
                    session: policy.session,
                    labels: policy.labels,
                    excluded: policy.excluded,
                },
            )
            &&& next.locations == agents.filter(
                |seen: Sighting|
                    policy.workspaces.contains(seen.workspace_id) && !policy.excluded.contains(
                        seen.workspace_id,
                    ),
            ).map_values(
                |seen: Sighting|
                    Place {
                        terminal_id: seen.terminal_id,
                        pane_id: seen.pane_id,
                        workspace_id: seen.workspace_id,
                    },
            )
            &&& !next.recovery_needed
        }),
{
    law_known_and_not_excluded_is_eligible(policy, agents, policy.session);
}

/// Withholding an agent leaves no entry and no watermark of its terminal anywhere, and
/// nothing at its address; other addresses keep what they have of other terminals.
pub proof fn law_withholding_forgets_one_terminal(
    ledger: Ledger,
    seen: Sighting,
    pane_id: Seq<char>,
)
    ensures
        ({
            let next = ledger.withheld(seen);
            &&& !records(next, pane_id, seen.terminal_id)
            &&& !next.entries.dom().contains(seen.pane_id)
            &&& !next.watermarks.dom().contains(seen.pane_id)
            &&& pane_id != seen.pane_id && ledger.entries.dom().contains(pane_id)
                && ledger.entries[pane_id].terminal_id != seen.terminal_id
                ==> next.entries.dom().contains(pane_id) && next.entries[pane_id]
                == ledger.entries[pane_id]
            &&& pane_id != seen.pane_id && ledger.watermarks.dom().contains(pane_id)
                && ledger.watermarks[pane_id].terminal_id != seen.terminal_id
                ==> next.watermarks.dom().contains(pane_id) && next.watermarks[pane_id]
                == ledger.watermarks[pane_id]
            &&& next.entries.dom().contains(pane_id) ==> ledger.entries.dom().contains(pane_id)
                && next.entries[pane_id] == ledger.entries[pane_id]
            &&& next.next_ordinal == ledger.next_ordinal
            &&& next.version == ledger.version
            &&& next.policy == ledger.policy
            &&& next.locations == ledger.locations
            &&& next.recovery_needed == ledger.recovery_needed
            &&& next.suppressed.remove(seen.terminal_id) == ledger.suppressed.remove(
                seen.terminal_id,
            )
        }),
{
    let next = ledger.withheld(seen);
    assert(next.suppressed.remove(seen.terminal_id) =~= ledger.suppressed.remove(
        seen.terminal_id,
    ));
}

/// Of a withheld agent the sequence is kept, and how far its terminal has been read up to
/// there: by its watermark, if that has one address, or by what was kept before.
pub proof fn law_withholding_keeps_what_was_read(
    ledger: Ledger,
    seen: Sighting,
    at: Seq<char>,
)
    requires
        forall|pane_id: Seq<char>| #[trigger]
            records(ledger, pane_id, seen.terminal_id) ==> pane_id == at,
    ensures
        ledger.withheld(seen).suppressed.dom().contains(seen.terminal_id),
        ledger.withheld(seen).suppressed[seen.terminal_id] == (Held {
            state_change_seq: seen.state_change_seq,
            cleared_through: further(
                read_at(ledger, at, seen.terminal_id),
                read_when_withheld(ledger, seen.terminal_id),
                seen.state_change_seq,
            ),
        }),
{
    assert(leaves(ledger, ledger, seen.terminal_id, at));
    lemma_gathered_reading(ledger, seen, ledger, at);
}

/// What is kept of a withheld agent of a snapshot is what that agent left.
proof fn lemma_swept_withholds(
    ledger: Ledger,
    agents: Seq<Sighting>,
    policy: Policy,
    hook: Option<Seq<char>>,
    recovering: bool,
    relabeled: bool,
    i: int,
    at: Seq<char>,
) -> (before: Ledger)
    requires
        crate::ledger::unambiguous(agents),
        0 <= i < agents.len(),
        is_unoccupied(agents, i, at),
        !policy.eligible(agents[i].workspace_id),
    ensures
        leaves(ledger, before, agents[i].terminal_id, at),
        crate::ledger::look(
            ledger.swept(agents, policy, hook, recovering, relabeled).suppressed,
            agents[i].terminal_id,
        ) == crate::ledger::look(before.withheld(agents[i]).suppressed, agents[i].terminal_id),
    decreases agents.len(),
{
    let rest = agents.drop_last();
    let middle = ledger.swept(rest, policy, hook, recovering, relabeled);
    let end = agents.len() - 1;
    assert(agents.last() == agents[end]);
    lemma_fewer_unambiguous(agents);
    if i == end {
        assert forall|k: int| 0 <= k < rest.len() implies (#[trigger] rest[k]).terminal_id
            != agents[i].terminal_id && rest[k].pane_id != at by {
            assert(rest[k] == agents[k]);
            assert(agents[k].pane_id != agents[end].pane_id);
        }
        lemma_swept_keeps(
            ledger,
            rest,
            policy,
            hook,
            recovering,
            relabeled,
            agents[i].terminal_id,
            at,
        );
        middle
    } else {
        assert(rest[i] == agents[i]);
        assert forall|k: int| 0 <= k < rest.len() && k != i implies (#[trigger] rest[k]).pane_id
            != at by {
            assert(rest[k] == agents[k]);
        }
        let before = lemma_swept_withholds(
            ledger,
            rest,
            policy,
            hook,
            recovering,
            relabeled,
            i,
            at,
        );
        assert(agents[i].pane_id != agents[end].pane_id);
        lemma_classified_keeps(
            middle,
            agents.last(),
            policy,
            hook,
            recovering,
            relabeled,
            agents[i].terminal_id,
            agents[i].pane_id,
        );
        before
    }
}

/// Reconciling withholds every agent of a workspace that is excluded or unknown: nothing
/// of its terminal stays at any address. Its sequence is kept, and how far it has been
/// read up to there, from its watermark, if that has one address, and from what was kept
/// before.
pub proof fn law_reconciling_an_excluded_agent(
    ledger: Ledger,
    policy: Policy,
    agents: Seq<Sighting>,
    hook: Option<Seq<char>>,
    i: int,
    pane_id: Seq<char>,
    at: Seq<char>,
)
    requires
        crate::ledger::unambiguous(agents),
        0 <= i < agents.len(),
        !policy.workspaces.contains(agents[i].workspace_id) || policy.excluded.contains(
            agents[i].workspace_id,
        ),
    ensures
        ({
            let next = ledger.reconciled(policy, agents, hook);
            &&& !records(next, pane_id, agents[i].terminal_id)
            &&& next.suppressed.dom().contains(agents[i].terminal_id)
            &&& is_unoccupied(agents, i, at) && (forall|other: Seq<char>| #[trigger]
                records(ledger, other, agents[i].terminal_id) ==> other == at)
                ==> next.suppressed[agents[i].terminal_id] == (Held {
                state_change_seq: agents[i].state_change_seq,
                cleared_through: further(
                    read_at(ledger, at, agents[i].terminal_id),
                    read_when_withheld(ledger, agents[i].terminal_id),
                    agents[i].state_change_seq,
                ),
            })
        }),
{
    let seen = agents[i];
    crate::laws::law_excluded_agents_are_untracked(ledger, policy, agents, hook, i);
    let next = ledger.reconciled(policy, agents, hook);
    assert(!next.has_entry(seen.terminal_id, pane_id));
    assert(!next.has_mark(seen.terminal_id, pane_id));
    if is_unoccupied(agents, i, at) && (forall|other: Seq<char>| #[trigger]
        records(ledger, other, seen.terminal_id) ==> other == at) {
        let before = lemma_swept_withholds(
            ledger,
            agents,
            policy,
            hook,
            ledger.recovers_under(policy),
            ledger.relabeled_under(policy),
            i,
            at,
        );
        lemma_gathered_reading(before, seen, ledger, at);
        assert(crate::ledger::look(before.suppressed, seen.terminal_id) == crate::ledger::look(
            ledger.suppressed,
            seen.terminal_id,
        ));
        assert(crate::ledger::look(next.suppressed, seen.terminal_id) == Some(
            next.suppressed[seen.terminal_id],
        ));
    }
}

/// Being seen at an agent marks it as read through its sequence, unless something newer
/// was already recorded there; addresses without a current agent are left alone.
pub proof fn law_presence_marks_the_current_agent(
    ledger: Ledger,
    agents: Seq<Sighting>,
    current: Option<Seq<char>>,
    i: int,
)
    requires
        crate::ledger::unambiguous(agents),
        0 <= i < agents.len(),
        crate::cycles::is_here(agents[i], current),
        !is_past(
            ledger,
            agents[i].pane_id,
            agents[i].terminal_id,
            agents[i].state_change_seq,
        ),
    ensures
        is_noted(
            ledger.acknowledged(agents, current),
            agents[i],
            Some(agents[i].state_change_seq),
        ),
    decreases agents.len(),
{
    let rest = agents.drop_last();
    let end = agents.len() - 1;
    assert(agents.last() == agents[end]);
    lemma_fewer_unambiguous(agents);
    if i == end {
        assert forall|k: int| 0 <= k < rest.len() && (#[trigger] rest[k]).pane_id
            == agents[i].pane_id implies !crate::cycles::is_here(rest[k], current) by {
            assert(rest[k] == agents[k]);
            assert(agents[k].pane_id != agents[end].pane_id);
        }
        law_presence_leaves_other_addresses(ledger, rest, current, agents[i].pane_id);
        let before = ledger.acknowledged(rest, current);
        assert(before.slot(agents[i].pane_id) == ledger.slot(agents[i].pane_id));
        assert(before.entries.contains_key(agents[i].pane_id) == ledger.entries.contains_key(
            agents[i].pane_id,
        ));
        assert(before.watermarks.contains_key(agents[i].pane_id)
            == ledger.watermarks.contains_key(agents[i].pane_id));
        law_focus_and_work_mark_as_read(before, agents[i], ObservationSource::Focus);
    } else {
        assert(rest[i] == agents[i]);
        law_presence_marks_the_current_agent(ledger, rest, current, i);
        assert(agents[i].pane_id != agents[end].pane_id);
        if crate::ledger::is_current(agents[end], current) {
            crate::laws::law_observation_is_local(
                ledger.acknowledged(rest, current),
                agents[end],
                ObservationSource::Focus,
                agents[i].pane_id,
            );
        }
    }
}

/// Being seen somewhere says nothing of an address where no current agent stands.
pub proof fn law_presence_leaves_other_addresses(
    ledger: Ledger,
    agents: Seq<Sighting>,
    current: Option<Seq<char>>,
    pane_id: Seq<char>,
)
    requires
        forall|k: int|
            0 <= k < agents.len() && (#[trigger] agents[k]).pane_id == pane_id
                ==> !crate::cycles::is_here(agents[k], current),
    ensures
        ledger.acknowledged(agents, current).slot(pane_id) == ledger.slot(pane_id),
        keeps_the_rest(ledger, ledger.acknowledged(agents, current)),
        ledger.acknowledged(agents, current).next_ordinal == ledger.next_ordinal,
    decreases agents.len(),
{
    if agents.len() > 0 {
        let rest = agents.drop_last();
        let end = agents.len() - 1;
        assert(agents.last() == agents[end]);
        assert forall|k: int| 0 <= k < rest.len() && (#[trigger] rest[k]).pane_id
            == pane_id implies !crate::cycles::is_here(rest[k], current) by {
            assert(rest[k] == agents[k]);
        }
        law_presence_leaves_other_addresses(ledger, rest, current, pane_id);
        if crate::ledger::is_current(agents[end], current) {
            assert(crate::cycles::is_here(agents[end], current));
            crate::laws::law_observation_is_local(
                ledger.acknowledged(rest, current),
                agents[end],
                ObservationSource::Focus,
                pane_id,
            );
        }
    }
}

/// A jump that arrived marks the agent as read where it was found: through the sequence
/// that Herdr reported, if that is the address's latest, and what was selected is
/// pending no more. Nothing is queued, and other addresses are left alone.
pub proof fn law_arrival_marks_as_read(
    ledger: Ledger,
    focused: Sighting,
    selected: Sighting,
    other: Seq<char>,
)
    requires
        other != focused.pane_id,
        other != selected.pane_id,
    ensures
        ({
            let next = ledger.visited(focused, selected);
            &&& keeps_the_rest(ledger, next)
            &&& next.next_ordinal == ledger.next_ordinal
            &&& next.slot(other) == ledger.slot(other)
            &&& !is_past(ledger, focused.pane_id, focused.terminal_id, focused.state_change_seq)
                ==> is_noted(next, focused, Some(focused.state_change_seq))
            &&& next.entries.dom().contains(selected.pane_id) ==> !(
            next.entries[selected.pane_id].terminal_id == selected.terminal_id
                && next.entries[selected.pane_id].state_change_seq <= selected.state_change_seq)
            &&& ledger.entries.dom().contains(selected.pane_id) && selected.pane_id
                != focused.pane_id && !(ledger.entries[selected.pane_id].terminal_id
                == selected.terminal_id && ledger.entries[selected.pane_id].state_change_seq
                <= selected.state_change_seq) ==> next.entries.dom().contains(selected.pane_id)
                && next.entries[selected.pane_id] == ledger.entries[selected.pane_id]
        }),
{
    let next = ledger.observed(focused, ObservationSource::Focus);
    if !is_past(ledger, focused.pane_id, focused.terminal_id, focused.state_change_seq) {
        law_focus_and_work_mark_as_read(ledger, focused, ObservationSource::Focus);
    } else {
        law_late_hooks_leave_no_trace(ledger, focused, ObservationSource::Focus);
    }
    law_removed_entries_are_noted(next, selected.pane_id);
}

/// A new ledger has the current version, nothing recorded, no policy and nothing to
/// recover from.
pub proof fn law_new_ledgers_are_empty()
    ensures
        Ledger::empty().version == 2,
        Ledger::empty().next_ordinal == 0,
        Ledger::empty().entries == Map::<Seq<char>, Pending>::empty(),
        Ledger::empty().watermarks == Map::<Seq<char>, Mark>::empty(),
        Ledger::empty().policy is None,
        Ledger::empty().suppressed == Map::<Seq<char>, Held>::empty(),
        Ledger::empty().locations == Seq::<Place>::empty(),
        !Ledger::empty().recovery_needed,
{
}

/// The order counter never goes back, and each agent of a snapshot moves it by one at
/// most.
proof fn lemma_counter(
    ledger: Ledger,
    agents: Seq<Sighting>,
    policy: Policy,
    hook: Option<Seq<char>>,
    recovering: bool,
    relabeled: bool,
    k: int,
)
    requires
        0 <= k <= agents.len(),
    ensures
        ledger.swept(agents.take(k), policy, hook, recovering, relabeled).next_ordinal
            <= ledger.swept(agents, policy, hook, recovering, relabeled).next_ordinal,
        ledger.next_ordinal <= ledger.swept(
            agents,
            policy,
            hook,
            recovering,
            relabeled,
        ).next_ordinal <= ledger.next_ordinal + agents.len(),
    decreases agents.len(),
{
    if agents.len() > 0 {
        let rest = agents.drop_last();
        if k < agents.len() {
            assert(agents.take(k) =~= rest.take(k));
            lemma_counter(ledger, rest, policy, hook, recovering, relabeled, k);
        } else {
            assert(agents.take(k) =~= agents);
            lemma_counter(ledger, rest, policy, hook, recovering, relabeled, 0);
        }
    } else {
        assert(agents.take(k) =~= agents);
    }
}

/// Agents that a snapshot queues for the first time are queued behind everything that
/// was ever queued before, and among themselves in the order of the snapshot.
pub proof fn law_snapshot_order_is_queue_order(
    ledger: Ledger,
    policy: Policy,
    agents: Seq<Sighting>,
    hook: Option<Seq<char>>,
    i: int,
    j: int,
)
    requires
        is_tracked(ledger, policy, agents, i),
        is_tracked(ledger, policy, agents, j),
        i < j,
        keeps_labels(ledger, policy),
        agents[i].status == AgentStatus::Done,
        agents[j].status == AgentStatus::Done,
        forall|pane_id: Seq<char>| !#[trigger] records(ledger, pane_id, agents[i].terminal_id),
        forall|pane_id: Seq<char>| !#[trigger] records(ledger, pane_id, agents[j].terminal_id),
        ledger.next_ordinal + agents.len() < u64::MAX,
    ensures
        ({
            let next = ledger.reconciled(policy, agents, hook);
            &&& is_pending(next, agents[i])
            &&& is_pending(next, agents[j])
            &&& ledger.next_ordinal < next.entries[agents[i].pane_id].ordinal
            &&& next.entries[agents[i].pane_id].ordinal < next.entries[agents[j].pane_id].ordinal
            &&& next.entries[agents[j].pane_id].ordinal <= next.next_ordinal
        }),
{
    let relabeled = ledger.relabeled_under(policy);
    let next = ledger.reconciled(policy, agents, hook);
    lemma_own_address(agents, i);
    lemma_own_address(agents, j);
    let (first, earlier) = lemma_reconciled_at(
        ledger,
        policy,
        agents,
        hook,
        i,
        agents[i].pane_id,
    );
    let (second, later) = lemma_reconciled_at(
        ledger,
        policy,
        agents,
        hook,
        j,
        agents[j].pane_id,
    );
    lemma_nothing_gathered(first, agents[i], ledger, agents[i].pane_id);
    lemma_nothing_gathered(second, agents[j], ledger, agents[j].pane_id);
    law_reconciling_first_contact(ledger, policy, agents, hook, i);
    law_reconciling_first_contact(ledger, policy, agents, hook, j);
    assert(next.slot(agents[i].pane_id).pending == Some(next.entries[agents[i].pane_id]));
    assert(next.slot(agents[j].pane_id).pending == Some(next.entries[agents[j].pane_id]));
    let up_to_i = agents.take(i + 1);
    let up_to_j = agents.take(j + 1);
    assert(up_to_i.drop_last() =~= agents.take(i));
    assert(up_to_i.last() == agents[i]);
    assert(up_to_j.drop_last() =~= agents.take(j));
    assert(up_to_j.last() == agents[j]);
    assert(agents.take(j).take(i + 1) =~= up_to_i);
    lemma_counter(ledger, agents.take(i), policy, hook, false, relabeled, 0);
    lemma_counter(ledger, agents.take(j), policy, hook, false, relabeled, i + 1);
    lemma_counter(ledger, agents, policy, hook, false, relabeled, j + 1);
    lemma_queues_one(first, agents[i], policy, hook, relabeled);
    lemma_queues_one(second, agents[j], policy, hook, relabeled);
}

/// A done agent that nothing is gathered of moves the order counter.
proof fn lemma_queues_one(
    ledger: Ledger,
    seen: Sighting,
    policy: Policy,
    hook: Option<Seq<char>>,
    relabeled: bool,
)
    requires
        policy.eligible(seen.workspace_id),
        seen.status == AgentStatus::Done,
        !relabeled,
        !ledger.suppressed.contains_key(seen.terminal_id),
        ledger.gathered(seen).pending is None,
        ledger.gathered(seen).mark is None,
    ensures
        ledger.classified(seen, policy, hook, false, relabeled).next_ordinal
            == crate::ledger::successor(ledger.next_ordinal),
{
    let base = ledger.without_terminal(seen.terminal_id).with_slot(
        seen.pane_id,
        ledger.gathered(seen),
    );
    assert(base.slot(seen.pane_id) =~= ledger.gathered(seen));
}

/// Only the terminal's own records move: an entry or a watermark of another terminal at
/// the old address does not turn up at the new one.
pub proof fn law_strangers_do_not_move(
    ledger: Ledger,
    from: Seq<char>,
    to: Seq<char>,
    workspace_id: Seq<char>,
    terminal_id: Seq<char>,
)
    requires
        from != to,
    ensures
        ({
            let next = ledger.moved(from, to, workspace_id, terminal_id);
            &&& !ledger.entries.dom().contains(to) && (ledger.entries.dom().contains(from)
                ==> ledger.entries[from].terminal_id != terminal_id)
                ==> !next.entries.dom().contains(to)
            &&& !ledger.watermarks.dom().contains(to) && (ledger.watermarks.dom().contains(from)
                ==> ledger.watermarks[from].terminal_id != terminal_id)
                ==> !next.watermarks.dom().contains(to)
        }),
{
}

} // verus!
