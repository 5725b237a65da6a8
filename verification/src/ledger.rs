//! The mathematical model of the unread ledger.
//!
//! A [`Ledger`] is what a [`BeaconState`](crate::model::BeaconState) means. Each
//! rule of the ledger is a function from one ledger to the next; the executable
//! methods are proved to follow these functions.

use vstd::prelude::*;
use crate::model::{AgentStatus, ObservationSource, STATE_VERSION};

verus! {

/// One agent as Herdr reported it.
pub struct Sighting {
    pub pane_id: Seq<char>,
    pub terminal_id: Seq<char>,
    pub workspace_id: Seq<char>,
    pub status: AgentStatus,
    pub focused: bool,
    pub state_change_seq: u64,
}

/// A transition that still waits to be read.
pub struct Pending {
    pub pane_id: Seq<char>,
    pub terminal_id: Seq<char>,
    pub workspace_id: Seq<char>,
    pub status: AgentStatus,
    pub state_change_seq: u64,
    pub ordinal: u64,
}

/// How far a terminal was observed, and how far it is known to have been read.
pub struct Mark {
    pub terminal_id: Seq<char>,
    pub state_change_seq: u64,
    pub cleared_through: Option<u64>,
}

/// What is kept of a terminal that the policy withholds.
pub struct Held {
    pub state_change_seq: u64,
    pub cleared_through: Option<u64>,
}

/// The policy that the ledger was last reconciled with.
pub struct Stamp {
    pub session: Seq<char>,
    pub labels: Seq<Seq<char>>,
    pub excluded: Seq<Seq<char>>,
}

/// Where an eligible terminal was last seen.
pub struct Place {
    pub terminal_id: Seq<char>,
    pub pane_id: Seq<char>,
    pub workspace_id: Seq<char>,
}

/// A validated snapshot of which workspaces may be navigated.
pub struct Policy {
    pub session: Seq<char>,
    pub labels: Seq<Seq<char>>,
    pub workspaces: Seq<Seq<char>>,
    pub excluded: Seq<Seq<char>>,
}

impl Policy {
    /// A workspace that the policy knows and does not exclude.
    pub open spec fn eligible(self, workspace_id: Seq<char>) -> bool {
        self.workspaces.contains(workspace_id) && !self.excluded.contains(workspace_id)
    }

    pub open spec fn stamp(self) -> Stamp {
        Stamp { session: self.session, labels: self.labels, excluded: self.excluded }
    }
}

/// The sightings in eligible workspaces, in their order.
pub open spec fn eligible_only(agents: Seq<Sighting>, policy: Policy) -> Seq<Sighting> {
    agents.filter(|seen: Sighting| policy.eligible(seen.workspace_id))
}

/// Whether one of the agents stands at the pane address.
pub open spec fn stands_at(agents: Seq<Sighting>, pane_id: Seq<char>) -> bool {
    exists|i: int| 0 <= i < agents.len() && (#[trigger] agents[i]).pane_id == pane_id
}

/// Whether an agent is the one that the user is at: the agent of the invoking pane,
/// or the one that the server reports as focused when no pane is known.
pub open spec fn is_current(seen: Sighting, current: Option<Seq<char>>) -> bool {
    match current {
        Some(pane_id) => seen.pane_id == pane_id,
        None => seen.focused,
    }
}

/// Every agent has an address and a terminal of its own.
pub open spec fn unambiguous(agents: Seq<Sighting>) -> bool {
    &&& forall|i: int|
        0 <= i < agents.len() ==> (#[trigger] agents[i]).pane_id.len() > 0
            && agents[i].terminal_id.len() > 0
    &&& forall|i: int, j: int|
        0 <= i < j < agents.len() ==> (#[trigger] agents[i]).pane_id != (
        #[trigger] agents[j]).pane_id && agents[i].terminal_id != agents[j].terminal_id
}

/// Where the agents stand.
pub open spec fn places(agents: Seq<Sighting>) -> Seq<Place> {
    agents.map_values(
        |seen: Sighting|
            Place {
                terminal_id: seen.terminal_id,
                pane_id: seen.pane_id,
                workspace_id: seen.workspace_id,
            },
    )
}

/// What the ledger remembers of one pane address.
#[verifier::ext_equal]
pub struct Slot {
    pub pending: Option<Pending>,
    pub mark: Option<Mark>,
}

/// The meaning of a Beacon state.
#[verifier::ext_equal]
pub struct Ledger {
    pub version: u32,
    pub next_ordinal: u64,
    pub entries: Map<Seq<char>, Pending>,
    pub watermarks: Map<Seq<char>, Mark>,
    pub policy: Option<Stamp>,
    pub suppressed: Map<Seq<char>, Held>,
    pub locations: Seq<Place>,
    pub recovery_needed: bool,
}

/// The value of a key, if it has one.
pub open spec fn look<V>(map: Map<Seq<char>, V>, key: Seq<char>) -> Option<V> {
    if map.contains_key(key) {
        Some(map[key])
    } else {
        None
    }
}

/// The map in which `key` has exactly the given value, or none.
pub open spec fn put<V>(map: Map<Seq<char>, V>, key: Seq<char>, value: Option<V>) -> Map<
    Seq<char>,
    V,
> {
    match value {
        Some(value) => map.insert(key, value),
        None => map.remove(key),
    }
}

/// The larger of two optional numbers; a missing one is the smallest.
pub open spec fn later(a: Option<u64>, b: Option<u64>) -> Option<u64> {
    match (a, b) {
        (Some(x), Some(y)) => if x < y {
            b
        } else {
            a
        },
        (Some(_), None) => a,
        (None, _) => b,
    }
}

/// Clearing evidence that still speaks of sequences up to `sequence`. Evidence
/// beyond it belongs to a server that has since restarted.
pub open spec fn carried(cleared: Option<u64>, sequence: u64) -> Option<u64> {
    match cleared {
        Some(through) => if through <= sequence {
            cleared
        } else {
            None
        },
        None => None,
    }
}

/// `number + 1`, or the largest number when there is no next one.
pub open spec fn successor(number: u64) -> u64 {
    if number < u64::MAX {
        (number + 1) as u64
    } else {
        number
    }
}

/// A lifecycle state that can ask for attention.
pub open spec fn can_need_attention(status: AgentStatus) -> bool {
    status is Idle || status is Blocked || status is Done
}

impl Mark {
    /// Two records of one terminal become the furthest of both; a record of
    /// another terminal replaces the old one.
    pub open spec fn merged_into(self, existing: Option<Mark>) -> Mark {
        match existing {
            Some(mark) => if mark.terminal_id == self.terminal_id {
                Mark {
                    terminal_id: self.terminal_id,
                    state_change_seq: if mark.state_change_seq < self.state_change_seq {
                        self.state_change_seq
                    } else {
                        mark.state_change_seq
                    },
                    cleared_through: later(mark.cleared_through, self.cleared_through),
                }
            } else {
                self
            },
            None => self,
        }
    }
}

impl Pending {
    /// Ledger order of two entries: sequence, then local order.
    pub open spec fn older_than(self, other: Pending) -> bool {
        ||| self.state_change_seq < other.state_change_seq
        ||| self.state_change_seq == other.state_change_seq && self.ordinal < other.ordinal
    }

    /// Attention order: ledger order, with the pane address breaking ties.
    pub open spec fn yields_to(self, other: Pending) -> bool {
        ||| self.older_than(other)
        ||| self.state_change_seq == other.state_change_seq && self.ordinal == other.ordinal
            && crate::text::precedes(self.pane_id, other.pane_id)
    }

    /// The same transition at another address.
    pub open spec fn at(self, pane_id: Seq<char>, workspace_id: Seq<char>) -> Pending {
        Pending { pane_id, workspace_id, ..self }
    }
}

/// How one sighting reads against what its pane address remembers.
pub enum Reading {
    /// A late hook: something newer was already observed.
    Stale,
    /// A fresh snapshot with a lower sequence: the server restarted.
    Restarted,
    /// A focus, or an agent that moved on, restart or not: pending work is done with.
    Cleared,
    /// First contact that is no news.
    Baseline,
    /// Nothing newer than what was already observed.
    Known,
    /// A fresh snapshot of an entry that is already queued.
    Refreshed,
    /// A hook that repeats a queued entry.
    Repeated,
    /// A new transition that needs attention.
    Queued,
}

impl Slot {
    pub open spec fn empty() -> Slot {
        Slot { pending: None, mark: None }
    }

    pub open spec fn pending_sequence(self, terminal_id: Seq<char>) -> Option<u64> {
        match self.pending {
            Some(pending) => if pending.terminal_id == terminal_id {
                Some(pending.state_change_seq)
            } else {
                None
            },
            None => None,
        }
    }

    pub open spec fn mark_sequence(self, terminal_id: Seq<char>) -> Option<u64> {
        match self.mark {
            Some(mark) => if mark.terminal_id == terminal_id {
                Some(mark.state_change_seq)
            } else {
                None
            },
            None => None,
        }
    }

    /// The last sequence that was recorded here for the terminal.
    pub open spec fn known_sequence(self, terminal_id: Seq<char>) -> Option<u64> {
        later(self.pending_sequence(terminal_id), self.mark_sequence(terminal_id))
    }

    /// The confirmed clearing evidence of the address.
    pub open spec fn cleared(self) -> Option<u64> {
        match self.mark {
            Some(mark) => mark.cleared_through,
            None => None,
        }
    }

    /// Whether the pending entry is covered by confirmed clearing evidence.
    pub open spec fn is_answered(self) -> bool {
        match (self.pending, self.mark) {
            (Some(pending), Some(mark)) => {
                &&& pending.terminal_id == mark.terminal_id
                &&& mark.cleared_through matches Some(through) && pending.state_change_seq
                    <= through
            },
            _ => false,
        }
    }

    /// An answered entry is no longer pending.
    pub open spec fn settled(self) -> Slot {
        if self.is_answered() {
            Slot { pending: None, mark: self.mark }
        } else {
            self
        }
    }

    pub open spec fn reading(self, seen: Sighting, source: ObservationSource) -> Reading {
        let known = self.known_sequence(seen.terminal_id);
        let lower = known matches Some(sequence) && seen.state_change_seq < sequence;
        if lower && source !is Reconcile {
            Reading::Stale
        } else if source is Focus || !can_need_attention(seen.status) {
            Reading::Cleared
        } else if lower {
            Reading::Restarted
        } else if known is None && (seen.status is Idle || (seen.status is Blocked
            && source is Reconcile)) {
            Reading::Baseline
        } else if self.mark_sequence(seen.terminal_id) matches Some(sequence)
            && seen.state_change_seq <= sequence {
            Reading::Known
        } else if let Some(sequence) = self.pending_sequence(seen.terminal_id) {
            if source is Reconcile {
                Reading::Refreshed
            } else if seen.state_change_seq <= sequence {
                Reading::Repeated
            } else {
                Reading::Queued
            }
        } else {
            Reading::Queued
        }
    }

    /// A record that takes the current sequence as its starting point.
    pub open spec fn baseline(seen: Sighting, cleared: Option<u64>) -> Slot {
        Slot {
            pending: None,
            mark: Some(
                Mark {
                    terminal_id: seen.terminal_id,
                    state_change_seq: seen.state_change_seq,
                    cleared_through: carried(cleared, seen.state_change_seq),
                },
            ),
        }
    }

    /// What the address remembers after the sighting. A queued entry takes `ordinal`.
    pub open spec fn observed(
        self,
        seen: Sighting,
        source: ObservationSource,
        ordinal: u64,
    ) -> Slot {
        match self.reading(seen, source) {
            Reading::Stale | Reading::Repeated => self,
            Reading::Restarted | Reading::Baseline => Slot::baseline(seen, None),
            Reading::Cleared => Slot::baseline(seen, Some(seen.state_change_seq)),
            Reading::Known => self.settled(),
            Reading::Refreshed => Slot {
                pending: Some(
                    Pending {
                        workspace_id: seen.workspace_id,
                        status: seen.status,
                        state_change_seq: seen.state_change_seq,
                        ..self.pending->0
                    },
                ),
                mark: None,
            },
            Reading::Queued => Slot {
                pending: Some(
                    Pending {
                        pane_id: seen.pane_id,
                        terminal_id: seen.terminal_id,
                        workspace_id: seen.workspace_id,
                        status: seen.status,
                        state_change_seq: seen.state_change_seq,
                        ordinal,
                    },
                ),
                mark: None,
            },
        }
    }

    /// The address after its pending entry left the queue unread.
    pub open spec fn dropped(self) -> Slot {
        match self.pending {
            Some(pending) => Slot {
                pending: None,
                mark: Some(
                    Mark {
                        terminal_id: pending.terminal_id,
                        state_change_seq: pending.state_change_seq,
                        cleared_through: None,
                    }.merged_into(self.mark),
                ),
            },
            None => self,
        }
    }

    /// The address after the records of `terminal_id` at `source` arrived here.
    pub open spec fn received(
        self,
        source: Slot,
        pane_id: Seq<char>,
        workspace_id: Seq<char>,
        terminal_id: Seq<char>,
    ) -> Slot {
        let pending = match source.pending {
            Some(entry) => if entry.terminal_id == terminal_id && (self.pending is None
                || self.pending->0.older_than(entry)) {
                Some(entry.at(pane_id, workspace_id))
            } else {
                self.pending
            },
            None => self.pending,
        };
        let mark = match source.mark {
            Some(mark) => if mark.terminal_id == terminal_id {
                Some(mark.merged_into(self.mark))
            } else {
                self.mark
            },
            None => self.mark,
        };
        Slot { pending, mark }.settled()
    }
}

impl Ledger {
    pub open spec fn empty() -> Ledger {
        Ledger {
            version: STATE_VERSION,
            next_ordinal: 0,
            entries: Map::empty(),
            watermarks: Map::empty(),
            policy: None,
            suppressed: Map::empty(),
            locations: Seq::empty(),
            recovery_needed: false,
        }
    }

    pub open spec fn slot(self, pane_id: Seq<char>) -> Slot {
        Slot { pending: look(self.entries, pane_id), mark: look(self.watermarks, pane_id) }
    }

    pub open spec fn with_slot(self, pane_id: Seq<char>, slot: Slot) -> Ledger {
        Ledger {
            entries: put(self.entries, pane_id, slot.pending),
            watermarks: put(self.watermarks, pane_id, slot.mark),
            ..self
        }
    }

    /// An entry that stands under another address than its own.
    pub open spec fn misfiled(self, pane_id: Seq<char>) -> bool {
        self.entries.contains_key(pane_id) && self.entries[pane_id].pane_id != pane_id
    }

    /// An entry with a local order that was never handed out.
    pub open spec fn ahead(self, pane_id: Seq<char>) -> bool {
        self.entries.contains_key(pane_id) && self.entries[pane_id].ordinal > self.next_ordinal
    }

    /// No entry of an earlier pane address is out of place.
    pub open spec fn sound_before(self, pane_id: Seq<char>) -> bool {
        forall|other: Seq<char>| #[trigger]
            self.entries.contains_key(other) && crate::text::precedes(other, pane_id)
                ==> !self.misfiled(other) && !self.ahead(other)
    }

    /// What a stored state must satisfy to be used.
    pub open spec fn valid(self) -> bool {
        &&& self.version == STATE_VERSION
        &&& forall|pane_id: Seq<char>| #[trigger]
            self.entries.contains_key(pane_id) ==> !self.misfiled(pane_id) && !self.ahead(pane_id)
    }

    /// The ledger after a sighting from the given source.
    pub open spec fn observed(self, seen: Sighting, source: ObservationSource) -> Ledger {
        let slot = self.slot(seen.pane_id);
        let ordinal = successor(self.next_ordinal);
        let next = self.with_slot(seen.pane_id, slot.observed(seen, source, ordinal));
        if slot.reading(seen, source) is Queued {
            Ledger { next_ordinal: ordinal, ..next }
        } else {
            next
        }
    }

    /// The ledger after the entry at a pane address left the queue unread.
    pub open spec fn removed(self, pane_id: Seq<char>) -> Ledger {
        self.with_slot(pane_id, self.slot(pane_id).dropped())
    }

    /// The ledger after a terminal moved from one pane address to another.
    pub open spec fn moved(
        self,
        previous_pane_id: Seq<char>,
        pane_id: Seq<char>,
        workspace_id: Seq<char>,
        terminal_id: Seq<char>,
    ) -> Ledger {
        if previous_pane_id == pane_id {
            match self.slot(pane_id).pending {
                Some(entry) => if entry.terminal_id == terminal_id {
                    Ledger {
                        entries: self.entries.insert(
                            pane_id,
                            Pending { workspace_id, ..entry },
                        ),
                        ..self
                    }
                } else {
                    self
                },
                None => self,
            }
        } else {
            let target = self.slot(pane_id).received(
                self.slot(previous_pane_id),
                pane_id,
                workspace_id,
                terminal_id,
            );
            self.with_slot(previous_pane_id, Slot::empty()).with_slot(pane_id, target)
        }
    }

    /// The pane address holds an entry of the terminal.
    pub open spec fn has_entry(self, terminal_id: Seq<char>, pane_id: Seq<char>) -> bool {
        self.entries.contains_key(pane_id) && self.entries[pane_id].terminal_id == terminal_id
    }

    /// The pane address holds a watermark of the terminal.
    pub open spec fn has_mark(self, terminal_id: Seq<char>, pane_id: Seq<char>) -> bool {
        self.watermarks.contains_key(pane_id) && self.watermarks[pane_id].terminal_id
            == terminal_id
    }

    /// Of all entries of the terminal, the one at `pane_id` is the latest. Entries
    /// that tie are told apart by their address.
    pub open spec fn leads(self, terminal_id: Seq<char>, pane_id: Seq<char>) -> bool {
        &&& self.has_entry(terminal_id, pane_id)
        &&& forall|other: Seq<char>| #[trigger]
            self.has_entry(terminal_id, other) && other != pane_id ==> {
                ||| self.entries[other].older_than(self.entries[pane_id])
                ||| !self.entries[pane_id].older_than(self.entries[other]) && crate::text::precedes(
                    other,
                    pane_id,
                )
            }
    }

    /// The latest entry of a terminal, at whatever address it was recorded.
    pub open spec fn entry_of(self, terminal_id: Seq<char>) -> Option<Pending> {
        if exists|pane_id: Seq<char>| self.leads(terminal_id, pane_id) {
            Some(self.entries[choose|pane_id: Seq<char>| self.leads(terminal_id, pane_id)])
        } else {
            None
        }
    }

    /// `mark` is the furthest of all watermarks of the terminal.
    pub open spec fn gathers(self, terminal_id: Seq<char>, mark: Mark) -> bool {
        &&& mark.terminal_id == terminal_id
        &&& forall|pane_id: Seq<char>| #[trigger]
            self.has_mark(terminal_id, pane_id) ==> {
                &&& self.watermarks[pane_id].state_change_seq <= mark.state_change_seq
                &&& later(mark.cleared_through, self.watermarks[pane_id].cleared_through)
                    == mark.cleared_through
            }
        &&& exists|pane_id: Seq<char>| #[trigger]
            self.has_mark(terminal_id, pane_id) && self.watermarks[pane_id].state_change_seq
                == mark.state_change_seq
        &&& exists|pane_id: Seq<char>| #[trigger]
            self.has_mark(terminal_id, pane_id) && self.watermarks[pane_id].cleared_through
                == mark.cleared_through
    }

    /// The furthest watermark of a terminal over all addresses.
    pub open spec fn mark_of(self, terminal_id: Seq<char>) -> Option<Mark> {
        if exists|mark: Mark| self.gathers(terminal_id, mark) {
            Some(choose|mark: Mark| self.gathers(terminal_id, mark))
        } else {
            None
        }
    }

    /// What one address would remember if every record of the agent's terminal
    /// had been made there.
    pub open spec fn gathered(self, seen: Sighting) -> Slot {
        Slot {
            pending: match self.entry_of(seen.terminal_id) {
                Some(entry) => Some(entry.at(seen.pane_id, seen.workspace_id)),
                None => None,
            },
            mark: self.mark_of(seen.terminal_id),
        }.settled()
    }

    /// The ledger without any record of a terminal.
    pub open spec fn without_terminal(self, terminal_id: Seq<char>) -> Ledger {
        Ledger {
            entries: Map::new(
                |pane_id: Seq<char>|
                    self.entries.contains_key(pane_id) && !self.has_entry(terminal_id, pane_id),
                |pane_id: Seq<char>| self.entries[pane_id],
            ),
            watermarks: Map::new(
                |pane_id: Seq<char>|
                    self.watermarks.contains_key(pane_id) && !self.has_mark(terminal_id, pane_id),
                |pane_id: Seq<char>| self.watermarks[pane_id],
            ),
            ..self
        }
    }

    /// How a sighting of a fresh snapshot counts: a lower sequence in it is no late
    /// hook, but a sign that the server restarted.
    pub open spec fn freshly(self, seen: Sighting, source: ObservationSource) -> ObservationSource {
        if self.slot(seen.pane_id).reading(seen, source) is Stale {
            ObservationSource::Reconcile
        } else {
            source
        }
    }

    /// The ledger after an agent in an eligible workspace was seen. Its records
    /// follow it to where it stands now. One that was withheld, or that turns up
    /// across a gap in what is known, starts from its current sequence.
    pub open spec fn enrolled(
        self,
        seen: Sighting,
        source: ObservationSource,
        recovering: bool,
        relabeled: bool,
    ) -> Ledger {
        let slot = self.gathered(seen);
        let base = self.without_terminal(seen.terminal_id).with_slot(seen.pane_id, slot);
        if self.suppressed.contains_key(seen.terminal_id) {
            let held = self.suppressed[seen.terminal_id];
            Ledger {
                suppressed: self.suppressed.remove(seen.terminal_id),
                ..base.with_slot(
                    seen.pane_id,
                    Slot::baseline(seen, later(slot.cleared(), held.cleared_through)),
                )
            }
        } else if recovering || relabeled && slot == Slot::empty() {
            base.with_slot(seen.pane_id, Slot::baseline(seen, slot.cleared()))
        } else {
            base.observed(seen, base.freshly(seen, source))
        }
    }

    /// The ledger after an agent was withheld: nothing of it can be navigated to,
    /// and only its sequence and the confirmed clearing evidence are kept.
    pub open spec fn withheld(self, seen: Sighting) -> Ledger {
        let cleared = later(
            self.gathered(seen).cleared(),
            match look(self.suppressed, seen.terminal_id) {
                Some(held) => held.cleared_through,
                None => None,
            },
        );
        Ledger {
            suppressed: self.suppressed.insert(
                seen.terminal_id,
                Held {
                    state_change_seq: seen.state_change_seq,
                    cleared_through: carried(cleared, seen.state_change_seq),
                },
            ),
            ..self.without_terminal(seen.terminal_id).with_slot(seen.pane_id, Slot::empty())
        }
    }

    /// The ledger after one agent of a snapshot. The hooked pane, if any, counts
    /// as an event.
    pub open spec fn classified(
        self,
        seen: Sighting,
        policy: Policy,
        hook: Option<Seq<char>>,
        recovering: bool,
        relabeled: bool,
    ) -> Ledger {
        if policy.eligible(seen.workspace_id) {
            let source = if hook == Some(seen.pane_id) {
                ObservationSource::Event
            } else {
                ObservationSource::Reconcile
            };
            self.enrolled(seen, source, recovering, relabeled)
        } else {
            self.withheld(seen)
        }
    }

    /// The ledger after the agents of a snapshot, one after the other.
    pub open spec fn swept(
        self,
        agents: Seq<Sighting>,
        policy: Policy,
        hook: Option<Seq<char>>,
        recovering: bool,
        relabeled: bool,
    ) -> Ledger
        decreases agents.len(),
    {
        if agents.len() == 0 {
            self
        } else {
            self.swept(agents.drop_last(), policy, hook, recovering, relabeled).classified(
                agents.last(),
                policy,
                hook,
                recovering,
                relabeled,
            )
        }
    }

    /// The ledger after the entries of every address without a live agent left
    /// the queue unread.
    pub open spec fn retired(self, live: Seq<Sighting>) -> Ledger {
        Ledger {
            entries: Map::new(
                |pane_id: Seq<char>|
                    self.entries.contains_key(pane_id) && stands_at(live, pane_id),
                |pane_id: Seq<char>| self.entries[pane_id],
            ),
            watermarks: Map::new(
                |pane_id: Seq<char>|
                    self.watermarks.contains_key(pane_id) || self.entries.contains_key(pane_id)
                        && !stands_at(live, pane_id),
                |pane_id: Seq<char>|
                    if self.entries.contains_key(pane_id) && !stands_at(live, pane_id) {
                        self.slot(pane_id).dropped().mark->0
                    } else {
                        self.watermarks[pane_id]
                    },
            ),
            ..self
        }
    }

    /// The last reconciliation was with another session, or could not be made.
    pub open spec fn recovers_under(self, policy: Policy) -> bool {
        self.recovery_needed || (self.policy matches Some(stamp) && stamp.session
            != policy.session)
    }

    /// The excluded labels changed since the last reconciliation.
    pub open spec fn relabeled_under(self, policy: Policy) -> bool {
        self.policy matches Some(stamp) && stamp.labels != policy.labels
    }

    /// The ledger after a whole snapshot was reconciled with a fresh policy.
    pub open spec fn reconciled(
        self,
        policy: Policy,
        agents: Seq<Sighting>,
        hook: Option<Seq<char>>,
    ) -> Ledger {
        let live = eligible_only(agents, policy);
        Ledger {
            policy: Some(policy.stamp()),
            locations: places(live),
            recovery_needed: false,
            ..self.swept(
                agents,
                policy,
                hook,
                self.recovers_under(policy),
                self.relabeled_under(policy),
            ).retired(live)
        }
    }

    /// The ledger after a reconciliation that could not be made: what happens until
    /// one can be made is not news.
    pub open spec fn unresolved(self) -> Ledger {
        Ledger { recovery_needed: true, ..self }
    }

    /// The ledger after the user was seen at their current agent.
    pub open spec fn acknowledged(
        self,
        agents: Seq<Sighting>,
        current: Option<Seq<char>>,
    ) -> Ledger
        decreases agents.len(),
    {
        if agents.len() == 0 {
            self
        } else {
            let rest = self.acknowledged(agents.drop_last(), current);
            if is_current(agents.last(), current) {
                rest.observed(agents.last(), ObservationSource::Focus)
            } else {
                rest
            }
        }
    }

    /// The entry at `pane_id` is the one to attend to first. Entries that tie on
    /// every count are told apart by their place in the queue.
    pub open spec fn is_newest(self, pane_id: Seq<char>) -> bool {
        &&& self.entries.contains_key(pane_id)
        &&& forall|other: Seq<char>| #[trigger]
            self.entries.contains_key(other) && other != pane_id ==> {
                ||| self.entries[other].yields_to(self.entries[pane_id])
                ||| !self.entries[pane_id].yields_to(self.entries[other]) && crate::text::precedes(
                    other,
                    pane_id,
                )
            }
    }
}

/// A terminal has at most one latest entry.
pub proof fn lemma_one_leader(ledger: Ledger, terminal_id: Seq<char>, pane_id: Seq<char>)
    requires
        ledger.leads(terminal_id, pane_id),
    ensures
        ledger.entry_of(terminal_id) == Some(ledger.entries[pane_id]),
{
    let chosen = choose|pane_id: Seq<char>| ledger.leads(terminal_id, pane_id);
    assert(ledger.leads(terminal_id, chosen));
    if chosen != pane_id {
        assert(ledger.has_entry(terminal_id, chosen));
        assert(ledger.has_entry(terminal_id, pane_id));
        crate::text::lemma_precedes_asymmetric(chosen, pane_id);
    }
}

/// A terminal has at most one furthest watermark.
pub proof fn lemma_one_gathering(ledger: Ledger, terminal_id: Seq<char>, mark: Mark)
    requires
        ledger.gathers(terminal_id, mark),
    ensures
        ledger.mark_of(terminal_id) == Some(mark),
{
    let chosen = choose|mark: Mark| ledger.gathers(terminal_id, mark);
    assert(ledger.gathers(terminal_id, chosen));
    let a = choose|pane_id: Seq<char>| #[trigger]
        ledger.has_mark(terminal_id, pane_id) && ledger.watermarks[pane_id].state_change_seq
            == mark.state_change_seq;
    let b = choose|pane_id: Seq<char>| #[trigger]
        ledger.has_mark(terminal_id, pane_id) && ledger.watermarks[pane_id].cleared_through
            == mark.cleared_through;
    let c = choose|pane_id: Seq<char>| #[trigger]
        ledger.has_mark(terminal_id, pane_id) && ledger.watermarks[pane_id].state_change_seq
            == chosen.state_change_seq;
    let d = choose|pane_id: Seq<char>| #[trigger]
        ledger.has_mark(terminal_id, pane_id) && ledger.watermarks[pane_id].cleared_through
            == chosen.cleared_through;
    assert(ledger.has_mark(terminal_id, a) && ledger.has_mark(terminal_id, b));
    assert(ledger.has_mark(terminal_id, c) && ledger.has_mark(terminal_id, d));
    assert(chosen == mark);
}

} // verus!
