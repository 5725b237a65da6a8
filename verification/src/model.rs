//! Beacon's unread ledger: pending transitions and the evidence that answers them.

use vstd::prelude::*;
use crate::error::BeaconError;
use crate::eligibility::WorkspacePolicy;
use crate::ledger::{Held, Ledger, Mark, Pending, Place, Sighting, Slot, Stamp};
use crate::textmap::TextMap;
use crate::text::{before, copy_texts, same, same_texts};

verus! {

pub const STATE_VERSION: u32 = 2;

#[derive(Clone, Copy, Debug, PartialEq, Eq, Structural)]
pub enum AgentStatus {
    Idle,
    Working,
    Blocked,
    Done,
    Unknown,
}

impl AgentStatus {
    /// A lifecycle state that can require attention; the ledger must still check
    /// bootstrap and acknowledgement sequences before treating it as unread.
    pub fn can_need_attention(self) -> (can: bool)
        ensures
            can == crate::ledger::can_need_attention(self),
    {
        matches!(self, AgentStatus::Idle | AgentStatus::Blocked | AgentStatus::Done)
    }
}

#[derive(Clone, Copy, Debug, PartialEq, Eq, Structural)]
pub enum ObservationSource {
    Event,
    Reconcile,
    /// An explicit focus hook or a successful navigation, not API `focused`.
    Focus,
}

#[derive(Debug, PartialEq, Eq)]
pub struct AgentObservation {
    pub pane_id: String,
    pub terminal_id: String,
    pub workspace_id: String,
    pub status: AgentStatus,
    pub focused: bool,
    pub state_change_seq: u64,
}

impl View for AgentObservation {
    type V = Sighting;

    open spec fn view(&self) -> Sighting {
        Sighting {
            pane_id: self.pane_id@,
            terminal_id: self.terminal_id@,
            workspace_id: self.workspace_id@,
            status: self.status,
            focused: self.focused,
            state_change_seq: self.state_change_seq,
        }
    }
}

impl Clone for AgentObservation {
    fn clone(&self) -> (copy: Self)
        ensures
            copy == *self,
    {
        AgentObservation {
            pane_id: self.pane_id.clone(),
            terminal_id: self.terminal_id.clone(),
            workspace_id: self.workspace_id.clone(),
            status: self.status,
            focused: self.focused,
            state_change_seq: self.state_change_seq,
        }
    }
}

#[derive(Debug, PartialEq, Eq)]
pub struct UnreadEntry {
    pub pane_id: String,
    pub terminal_id: String,
    pub workspace_id: String,
    pub status: AgentStatus,
    pub state_change_seq: u64,
    pub ordinal: u64,
}

impl View for UnreadEntry {
    type V = Pending;

    open spec fn view(&self) -> Pending {
        Pending {
            pane_id: self.pane_id@,
            terminal_id: self.terminal_id@,
            workspace_id: self.workspace_id@,
            status: self.status,
            state_change_seq: self.state_change_seq,
            ordinal: self.ordinal,
        }
    }
}

impl Clone for UnreadEntry {
    fn clone(&self) -> (copy: Self)
        ensures
            copy == *self,
    {
        UnreadEntry {
            pane_id: self.pane_id.clone(),
            terminal_id: self.terminal_id.clone(),
            workspace_id: self.workspace_id.clone(),
            status: self.status,
            state_change_seq: self.state_change_seq,
            ordinal: self.ordinal,
        }
    }
}

/// The last observed sequence of a terminal, and the last one known to be read.
#[derive(Clone, Debug, PartialEq, Eq)]
pub struct Watermark {
    pub terminal_id: String,
    pub state_change_seq: u64,
    pub cleared_through: Option<u64>,
}

impl View for Watermark {
    type V = Mark;

    open spec fn view(&self) -> Mark {
        Mark {
            terminal_id: self.terminal_id@,
            state_change_seq: self.state_change_seq,
            cleared_through: self.cleared_through,
        }
    }
}

/// What is kept of a terminal while the policy withholds its workspace.
#[derive(Clone, Debug, PartialEq, Eq)]
pub struct Suppression {
    pub state_change_seq: u64,
    pub cleared_through: Option<u64>,
}

impl View for Suppression {
    type V = Held;

    open spec fn view(&self) -> Held {
        Held { state_change_seq: self.state_change_seq, cleared_through: self.cleared_through }
    }
}

/// Identity of the policy that the ledger was last reconciled with.
#[derive(Clone, Debug, PartialEq, Eq)]
pub struct PolicyStamp {
    pub session: String,
    pub labels: Vec<String>,
    pub excluded: Vec<String>,
}

impl View for PolicyStamp {
    type V = Stamp;

    open spec fn view(&self) -> Stamp {
        Stamp {
            session: self.session@,
            labels: crate::text::texts(self.labels@),
            excluded: crate::text::texts(self.excluded@),
        }
    }
}

/// Where an eligible terminal was last seen.
#[derive(Clone, Debug, PartialEq, Eq)]
pub struct Location {
    pub terminal_id: String,
    pub pane_id: String,
    pub workspace_id: String,
}

impl View for Location {
    type V = Place;

    open spec fn view(&self) -> Place {
        Place {
            terminal_id: self.terminal_id@,
            pane_id: self.pane_id@,
            workspace_id: self.workspace_id@,
        }
    }
}

/// Beacon's unread ledger. Entries are pending transitions; watermarks are the
/// last observed sequence for each terminal identity, with the part that is known
/// to have been read. Herdr's server-side `focused` flag owns neither.
#[derive(Clone, Debug)]
pub struct BeaconState {
    version: u32,
    next_ordinal: u64,
    entries: TextMap<UnreadEntry>,
    watermarks: TextMap<Watermark>,
    policy: Option<PolicyStamp>,
    suppressed: TextMap<Suppression>,
    locations: Vec<Location>,
    recovery_needed: bool,
}

impl View for BeaconState {
    type V = Ledger;

    closed spec fn view(&self) -> Ledger {
        Ledger {
            version: self.version,
            next_ordinal: self.next_ordinal,
            entries: self.entries@,
            watermarks: self.watermarks@,
            policy: stamp_seen(self.policy),
            suppressed: self.suppressed@,
            locations: places_seen(self.locations@),
            recovery_needed: self.recovery_needed,
        }
    }
}

impl Default for BeaconState {
    fn default() -> (state: Self)
        ensures
            state.wf(),
            state@ == Ledger::empty(),
    {
        let state = BeaconState {
            version: STATE_VERSION,
            next_ordinal: 0,
            entries: TextMap::new(),
            watermarks: TextMap::new(),
            policy: None,
            suppressed: TextMap::new(),
            locations: Vec::new(),
            recovery_needed: false,
        };
        assert(state@.locations =~= Seq::<Place>::empty());
        state
    }
}

impl BeaconState {
    /// The tables of the state are in order.
    pub closed spec fn wf(&self) -> bool {
        &&& self.entries.wf()
        &&& self.watermarks.wf()
        &&& self.suppressed.wf()
    }

    /// The entry to attend to first: highest sequence, then latest local order.
    pub fn newest(&self) -> (newest: Option<&UnreadEntry>)
        requires
            self.wf(),
        ensures
            match newest {
                Some(entry) => exists|pane_id: Seq<char>| #[trigger]
                    self@.is_newest(pane_id) && entry@ == self@.entries[pane_id],
                None => self@.entries == Map::<Seq<char>, Pending>::empty(),
            },
    {
        if self.entries.is_empty() {
            assert forall|key: Seq<char>| !self@.entries.contains_key(key) by {
                if self.entries@.contains_key(key) {
                    let i = self.entries.lemma_key(key);
                }
            }
            assert(self@.entries =~= Map::<Seq<char>, Pending>::empty());
            return None;
        }
        let ghost order = self.entries.order();
        let ghost items = self.entries.contents();
        let mut top: usize = 0;
        let mut i: usize = 1;
        while i < self.entries.len()
            invariant
                self.entries.wf(),
                order == self.entries.order(),
                items == self.entries.contents(),
                0 <= top < i <= order.len(),
                forall|j: int|
                    0 <= j < i && j != top ==> {
                        ||| #[trigger] items[j].yields_to(items[top as int])
                        ||| !items[top as int].yields_to(items[j]) && j < top
                    },
            decreases order.len() - i,
        {
            let ghost previous = top;
            if !yields(self.entries.value_at(i), self.entries.value_at(top)) {
                proof {
                    assert forall|j: int| 0 <= j < i + 1 && j != i implies {
                        ||| #[trigger] items[j].yields_to(items[i as int])
                        ||| !items[i as int].yields_to(items[j]) && j < i
                    } by {
                        lemma_attention_order(items[j], items[previous as int], items[i as int]);
                        lemma_attention_order(items[i as int], items[previous as int], items[j]);
                    }
                }
                top = i;
            }
            i = i + 1;
        }
        proof {
            self.entries.lemma_position(top as int);
            assert forall|other: Seq<char>| #[trigger]
                self@.entries.contains_key(other) && other != order[top as int] implies {
                ||| self@.entries[other].yields_to(self@.entries[order[top as int]])
                ||| !self@.entries[order[top as int]].yields_to(self@.entries[other])
                    && crate::text::precedes(other, order[top as int])
            } by {
                let j = self.entries.lemma_key(other);
                assert(items[j].yields_to(items[top as int]) || !items[top as int].yields_to(
                    items[j],
                ) && j < top);
            }
            assert(self@.is_newest(order[top as int]));
        }
        Some(self.entries.value_at(top))
    }

    /// The pending entries by pane address.
    pub fn entries(&self) -> (entries: &TextMap<UnreadEntry>)
        requires
            self.wf(),
        ensures
            entries.wf(),
            entries@ == self@.entries,
    {
        &self.entries
    }

    /// The state with the given parts.
    pub(crate) fn assemble(
        version: u32,
        next_ordinal: u64,
        entries: TextMap<UnreadEntry>,
        watermarks: TextMap<Watermark>,
        policy: Option<PolicyStamp>,
        suppressed: TextMap<Suppression>,
        locations: Vec<Location>,
        recovery_needed: bool,
    ) -> (state: BeaconState)
        requires
            entries.wf(),
            watermarks.wf(),
            suppressed.wf(),
        ensures
            state.wf(),
            state@ == (Ledger {
                version,
                next_ordinal,
                entries: entries@,
                watermarks: watermarks@,
                policy: stamp_seen(policy),
                suppressed: suppressed@,
                locations: places_seen(locations@),
                recovery_needed,
            }),
    {
        BeaconState {
            version,
            next_ordinal,
            entries,
            watermarks,
            policy,
            suppressed,
            locations,
            recovery_needed,
        }
    }

    /// The format version of the state.
    pub fn version(&self) -> (version: u32)
        ensures
            version == self@.version,
    {
        self.version
    }

    /// The last local order that was handed out.
    pub fn next_ordinal(&self) -> (ordinal: u64)
        ensures
            ordinal == self@.next_ordinal,
    {
        self.next_ordinal
    }

    /// The observed and cleared sequences by pane address.
    pub fn watermarks(&self) -> (watermarks: &TextMap<Watermark>)
        requires
            self.wf(),
        ensures
            watermarks.wf(),
            watermarks@ == self@.watermarks,
    {
        &self.watermarks
    }

    /// The policy of the last reconciliation.
    pub fn policy(&self) -> (policy: &Option<PolicyStamp>)
        ensures
            stamp_seen(*policy) == self@.policy,
    {
        &self.policy
    }

    /// What is kept of withheld terminals, by terminal.
    pub fn suppressed(&self) -> (suppressed: &TextMap<Suppression>)
        requires
            self.wf(),
        ensures
            suppressed.wf(),
            suppressed@ == self@.suppressed,
    {
        &self.suppressed
    }

    /// Where the eligible terminals were last seen.
    pub fn locations(&self) -> (locations: &Vec<Location>)
        ensures
            places_seen(locations@) == self@.locations,
    {
        &self.locations
    }

    /// Whether the last reconciliation could not be made.
    pub fn recovery_needed(&self) -> (needed: bool)
        ensures
            needed == self@.recovery_needed,
    {
        self.recovery_needed
    }

    /// Takes the entry of a pane address off the queue. Its sequence stays
    /// observed, but nothing says that it was read.
    pub fn remove_pane(&mut self, pane_id: &str)
        requires
            old(self).wf(),
        ensures
            final(self).wf(),
            final(self)@ == old(self)@.removed(pane_id@),
    {
        let ghost start = self@;
        match self.entries.remove(pane_id) {
            Some(entry) => {
                let mark = Watermark {
                    terminal_id: entry.terminal_id,
                    state_change_seq: entry.state_change_seq,
                    cleared_through: None,
                };
                self.merge_watermark(pane_id, mark);
            },
            None => {},
        }
        assert(self@ =~= start.removed(pane_id@));
    }

    /// Carries the records of a terminal from one pane address to another.
    pub fn move_pane(
        &mut self,
        previous_pane_id: &str,
        pane_id: &str,
        workspace_id: &str,
        terminal_id: &str,
    )
        requires
            old(self).wf(),
        ensures
            final(self).wf(),
            final(self)@ == old(self)@.moved(
                previous_pane_id@,
                pane_id@,
                workspace_id@,
                terminal_id@,
            ),
    {
        let ghost start = self@;
        if same(previous_pane_id, pane_id) {
            let relocated = match self.entries.get(pane_id) {
                Some(entry) => if same(&entry.terminal_id, terminal_id) {
                    Some(
                        UnreadEntry {
                            pane_id: entry.pane_id.clone(),
                            terminal_id: entry.terminal_id.clone(),
                            workspace_id: workspace_id.to_owned(),
                            status: entry.status,
                            state_change_seq: entry.state_change_seq,
                            ordinal: entry.ordinal,
                        },
                    )
                } else {
                    None
                },
                None => None,
            };
            if let Some(entry) = relocated {
                self.entries.insert(pane_id.to_owned(), entry);
            }
            return ;
        }
        if let Some(entry) = self.entries.remove(previous_pane_id) {
            if same(&entry.terminal_id, terminal_id) {
                self.insert_moved_entry(
                    UnreadEntry {
                        pane_id: pane_id.to_owned(),
                        workspace_id: workspace_id.to_owned(),
                        terminal_id: entry.terminal_id,
                        status: entry.status,
                        state_change_seq: entry.state_change_seq,
                        ordinal: entry.ordinal,
                    },
                );
            }
        }
        if let Some(mark) = self.watermarks.remove(previous_pane_id) {
            if same(&mark.terminal_id, terminal_id) {
                self.merge_watermark(pane_id, mark);
            }
        }
        self.settle(pane_id);
        assert(self@ =~= start.moved(previous_pane_id@, pane_id@, workspace_id@, terminal_id@));
    }

    /// Checks that a stored state can be used. The first offending entry in pane
    /// order decides which complaint is made.
    pub fn validate(&self) -> (verdict: Result<(), BeaconError>)
        requires
            self.wf(),
        ensures
            validates(self@, verdict),
    {
        if self.version != STATE_VERSION {
            return Err(BeaconError::UnsupportedVersion(self.version));
        }
        let ghost order = self.entries.order();
        let mut i: usize = 0;
        while i < self.entries.len()
            invariant
                self.wf(),
                self@.version == STATE_VERSION,
                order == self.entries.order(),
                i <= order.len(),
                forall|j: int|
                    0 <= j < i ==> !self@.misfiled(#[trigger] order[j]) && !self@.ahead(order[j]),
            decreases order.len() - i,
        {
            let entry = self.entries.value_at(i);
            let key = self.entries.key_at(i);
            proof {
                self.entries.lemma_position(i as int);
                assert forall|other: Seq<char>| #[trigger]
                    self@.entries.contains_key(other) && crate::text::precedes(
                        other,
                        order[i as int],
                    ) implies !self@.misfiled(other) && !self@.ahead(other) by {
                    let j = self.entries.lemma_key(other);
                    if j >= i {
                        crate::text::lemma_precedes_asymmetric(other, order[i as int]);
                        if j > i {
                            assert(crate::text::precedes(order[i as int], order[j]));
                        }
                    }
                }
            }
            if !same(key, &entry.pane_id) {
                assert(self@.misfiled(order[i as int]) && self@.sound_before(order[i as int]));
                return Err(BeaconError::EntryKeyMismatch);
            }
            if entry.ordinal > self.next_ordinal {
                assert(self@.ahead(order[i as int]) && self@.sound_before(order[i as int]));
                return Err(BeaconError::OrdinalAhead);
            }
            i = i + 1;
        }
        assert forall|pane_id: Seq<char>| #[trigger]
            self@.entries.contains_key(pane_id) implies !self@.misfiled(pane_id) && !self@.ahead(
            pane_id,
        ) by {
            let j = self.entries.lemma_key(pane_id);
        }
        Ok(())
    }

    /// Takes in one agent as Herdr reported it.
    pub fn observe(&mut self, observation: AgentObservation, source: ObservationSource)
        requires
            old(self).wf(),
        ensures
            final(self).wf(),
            final(self)@ == old(self)@.observed(observation@, source),
    {
        let ghost start = self@;
        let ghost slot = self@.slot(observation.pane_id@);
        let reconciled = source == ObservationSource::Reconcile;
        let known = self.known_sequence(&observation);
        let lower = match known {
            Some(sequence) => observation.state_change_seq < sequence,
            None => false,
        };
        if lower && !reconciled {
            assert(start.with_slot(observation.pane_id@, slot) =~= start);
            return ;
        }
        if source == ObservationSource::Focus || !observation.status.can_need_attention() {
            self.clear_observation(&observation, Some(observation.state_change_seq));
            return ;
        }
        if lower {
            // A fresh list is read under the state lock. A lower sequence here means
            // that the server restarted: the current state is a new baseline.
            self.clear_observation(&observation, None);
            return ;
        }
        // Idle and done are the same lifecycle state in the API. Only a newer
        // sequence is a new completion; an idle agent first seen at startup is
        // a baseline, not invented unread work. Existing done remains a useful
        // bootstrap hint, and blocked is bootstrapped only by an actual hook.

        if known.is_none() && (observation.status == AgentStatus::Idle || (observation.status
            == AgentStatus::Blocked && reconciled)) {
            self.clear_observation(&observation, None);
            return ;
        }
        self.record_attention(observation, source);
    }

    /// The last sequence recorded for the terminal at its pane address.
    fn known_sequence(&self, observation: &AgentObservation) -> (known: Option<u64>)
        requires
            self.wf(),
        ensures
            known == self@.slot(observation.pane_id@).known_sequence(observation.terminal_id@),
    {
        let pending = match self.entries.get(&observation.pane_id) {
            Some(entry) => if same(&entry.terminal_id, &observation.terminal_id) {
                Some(entry.state_change_seq)
            } else {
                None
            },
            None => None,
        };
        let marked = match self.watermarks.get(&observation.pane_id) {
            Some(mark) => if same(&mark.terminal_id, &observation.terminal_id) {
                Some(mark.state_change_seq)
            } else {
                None
            },
            None => None,
        };
        later(pending, marked)
    }

    fn record_attention(&mut self, observation: AgentObservation, source: ObservationSource)
        requires
            old(self).wf(),
            old(self)@.slot(observation.pane_id@).reading(observation@, source) is Known || old(
                self,
            )@.slot(observation.pane_id@).reading(observation@, source) is Refreshed || old(
                self,
            )@.slot(observation.pane_id@).reading(observation@, source) is Repeated || old(
                self,
            )@.slot(observation.pane_id@).reading(observation@, source) is Queued,
        ensures
            final(self).wf(),
            final(self)@ == old(self)@.observed(observation@, source),
    {
        let ghost start = self@;
        let ghost pane = observation.pane_id@;
        if let Some(mark) = self.watermarks.get(&observation.pane_id) {
            if same(&mark.terminal_id, &observation.terminal_id) && observation.state_change_seq
                <= mark.state_change_seq {
                self.settle(&observation.pane_id);
                return ;
            }
        }
        if let Some(entry) = self.entries.get(&observation.pane_id) {
            if same(&entry.terminal_id, &observation.terminal_id) {
                if source == ObservationSource::Reconcile {
                    let refreshed = UnreadEntry {
                        pane_id: entry.pane_id.clone(),
                        terminal_id: entry.terminal_id.clone(),
                        workspace_id: observation.workspace_id,
                        status: observation.status,
                        state_change_seq: observation.state_change_seq,
                        ordinal: entry.ordinal,
                    };
                    let _ = self.watermarks.remove(&observation.pane_id);
                    self.entries.insert(observation.pane_id, refreshed);
                    return ;
                }
                if observation.state_change_seq <= entry.state_change_seq {
                    assert(start.with_slot(pane, start.slot(pane)) =~= start);
                    return ;
                }
            }
        }
        let _ = self.watermarks.remove(&observation.pane_id);
        self.next_ordinal = self.next_ordinal.saturating_add(1);
        let entry = UnreadEntry {
            pane_id: observation.pane_id.clone(),
            terminal_id: observation.terminal_id,
            workspace_id: observation.workspace_id,
            status: observation.status,
            state_change_seq: observation.state_change_seq,
            ordinal: self.next_ordinal,
        };
        self.entries.insert(observation.pane_id, entry);
    }

    /// Takes the observed sequence as the address's starting point.
    fn clear_observation(&mut self, observation: &AgentObservation, cleared: Option<u64>)
        requires
            old(self).wf(),
        ensures
            final(self).wf(),
            final(self)@ == old(self)@.with_slot(
                observation.pane_id@,
                Slot::baseline(observation@, cleared),
            ),
    {
        let _ = self.entries.remove(&observation.pane_id);
        self.watermarks.insert(
            observation.pane_id.clone(),
            Watermark {
                terminal_id: observation.terminal_id.clone(),
                state_change_seq: observation.state_change_seq,
                cleared_through: carried(cleared, observation.state_change_seq),
            },
        );
    }

    fn merge_watermark(&mut self, pane_id: &str, mark: Watermark)
        requires
            old(self).wf(),
        ensures
            final(self).wf(),
            final(self).entries == old(self).entries,
            final(self)@ == (Ledger {
                watermarks: old(self)@.watermarks.insert(
                    pane_id@,
                    mark@.merged_into(old(self)@.slot(pane_id@).mark),
                ),
                ..old(self)@
            }),
    {
        let merged = match self.watermarks.get(pane_id) {
            Some(existing) => if same(&existing.terminal_id, &mark.terminal_id) {
                Watermark {
                    terminal_id: mark.terminal_id,
                    state_change_seq: if existing.state_change_seq < mark.state_change_seq {
                        mark.state_change_seq
                    } else {
                        existing.state_change_seq
                    },
                    cleared_through: later(existing.cleared_through, mark.cleared_through),
                }
            } else {
                mark
            },
            None => mark,
        };
        self.watermarks.insert(pane_id.to_owned(), merged);
    }

    fn insert_moved_entry(&mut self, entry: UnreadEntry)
        requires
            old(self).wf(),
        ensures
            final(self).wf(),
            final(self)@ == (Ledger {
                entries: match old(self)@.slot(entry.pane_id@).pending {
                    Some(existing) => if existing.older_than(entry@) {
                        old(self)@.entries.insert(entry.pane_id@, entry@)
                    } else {
                        old(self)@.entries
                    },
                    None => old(self)@.entries.insert(entry.pane_id@, entry@),
                },
                ..old(self)@
            }),
    {
        let newer = match self.entries.get(&entry.pane_id) {
            Some(existing) => existing.state_change_seq < entry.state_change_seq
                || existing.state_change_seq == entry.state_change_seq && existing.ordinal
                < entry.ordinal,
            None => true,
        };
        if newer {
            self.entries.insert(entry.pane_id.clone(), entry);
        }
    }

    /// Drops an entry that confirmed clearing evidence already covers.
    fn settle(&mut self, pane_id: &str)
        requires
            old(self).wf(),
        ensures
            final(self).wf(),
            final(self)@ == old(self)@.with_slot(pane_id@, old(self)@.slot(pane_id@).settled()),
    {
        let ghost start = self@;
        let answered = match (self.entries.get(pane_id), self.watermarks.get(pane_id)) {
            (Some(entry), Some(mark)) => {
                same(&entry.terminal_id, &mark.terminal_id) && match mark.cleared_through {
                    Some(through) => entry.state_change_seq <= through,
                    None => false,
                }
            },
            _ => false,
        };
        if answered {
            let _ = self.entries.remove(pane_id);
        }
        assert(self@ =~= start.with_slot(pane_id@, start.slot(pane_id@).settled()));
    }

    /// The latest entry of a terminal over all pane addresses.
    fn leading_entry(&self, terminal_id: &str) -> (entry: Option<UnreadEntry>)
        requires
            self.wf(),
        ensures
            match entry {
                Some(entry) => self@.entry_of(terminal_id@) == Some(entry@),
                None => self@.entry_of(terminal_id@) is None && forall|pane_id: Seq<char>|
                    !self@.has_entry(terminal_id@, pane_id),
            },
    {
        let ghost order = self.entries.order();
        let ghost items = self.entries.contents();
        let mut top: Option<usize> = None;
        let mut i: usize = 0;
        while i < self.entries.len()
            invariant
                self.entries.wf(),
                order == self.entries.order(),
                items == self.entries.contents(),
                i <= order.len(),
                match top {
                    Some(top) => {
                        &&& top < i
                        &&& items[top as int].terminal_id == terminal_id@
                        &&& forall|j: int|
                            0 <= j < i && j != top && (#[trigger] items[j]).terminal_id
                                == terminal_id@ ==> items[j].older_than(items[top as int])
                                || !items[top as int].older_than(items[j]) && j < top
                    },
                    None => forall|j: int|
                        0 <= j < i ==> (#[trigger] items[j]).terminal_id != terminal_id@,
                },
            decreases order.len() - i,
        {
            let entry = self.entries.value_at(i);
            if same(&entry.terminal_id, terminal_id) {
                match top {
                    Some(best) => {
                        let leader = self.entries.value_at(best);
                        let older = entry.state_change_seq < leader.state_change_seq
                            || entry.state_change_seq == leader.state_change_seq && entry.ordinal
                            < leader.ordinal;
                        if !older {
                            top = Some(i);
                        }
                    },
                    None => {
                        top = Some(i);
                    },
                }
            }
            i = i + 1;
        }
        assert forall|pane_id: Seq<char>| #[trigger]
            self@.has_entry(terminal_id@, pane_id) implies exists|j: int|
            0 <= j < order.len() && order[j] == pane_id && (#[trigger] items[j]).terminal_id
                == terminal_id@ by {
            let j = self.entries.lemma_key(pane_id);
            assert(items[j].terminal_id == terminal_id@);
        }
        match top {
            Some(best) => {
                proof {
                    let leader = order[best as int];
                    self.entries.lemma_position(best as int);
                    assert forall|other: Seq<char>| #[trigger]
                        self@.has_entry(terminal_id@, other) && other != leader implies {
                        ||| self@.entries[other].older_than(self@.entries[leader])
                        ||| !self@.entries[leader].older_than(self@.entries[other])
                            && crate::text::precedes(other, leader)
                    } by {
                        let j = self.entries.lemma_key(other);
                    }
                    assert(self@.leads(terminal_id@, leader));
                    crate::ledger::lemma_one_leader(self@, terminal_id@, leader);
                }
                Some(self.entries.value_at(best).clone())
            },
            None => None,
        }
    }

    /// The furthest watermark of a terminal over all pane addresses.
    fn merged_mark(&self, terminal_id: &str) -> (mark: Option<Watermark>)
        requires
            self.wf(),
        ensures
            match mark {
                Some(mark) => self@.mark_of(terminal_id@) == Some(mark@),
                None => self@.mark_of(terminal_id@) is None && forall|pane_id: Seq<char>|
                    !self@.has_mark(terminal_id@, pane_id),
            },
    {
        let ghost order = self.watermarks.order();
        let ghost items = self.watermarks.contents();
        let mut merged: Option<(u64, Option<u64>)> = None;
        let ghost mut furthest: int = 0;
        let ghost mut clearest: int = 0;
        let mut i: usize = 0;
        while i < self.watermarks.len()
            invariant
                self.watermarks.wf(),
                order == self.watermarks.order(),
                items == self.watermarks.contents(),
                i <= order.len(),
                match merged {
                    Some((sequence, cleared)) => {
                        &&& 0 <= furthest < i
                        &&& 0 <= clearest < i
                        &&& items[furthest].terminal_id == terminal_id@
                        &&& items[furthest].state_change_seq == sequence
                        &&& items[clearest].terminal_id == terminal_id@
                        &&& items[clearest].cleared_through == cleared
                        &&& forall|j: int|
                            0 <= j < i && (#[trigger] items[j]).terminal_id == terminal_id@ ==> {
                                &&& items[j].state_change_seq <= sequence
                                &&& crate::ledger::later(cleared, items[j].cleared_through)
                                    == cleared
                            }
                    },
                    None => forall|j: int|
                        0 <= j < i ==> (#[trigger] items[j]).terminal_id != terminal_id@,
                },
            decreases order.len() - i,
        {
            let mark = self.watermarks.value_at(i);
            if same(&mark.terminal_id, terminal_id) {
                match merged {
                    Some((sequence, cleared)) => {
                        let further = if sequence < mark.state_change_seq {
                            mark.state_change_seq
                        } else {
                            sequence
                        };
                        let clearer = later(cleared, mark.cleared_through);
                        proof {
                            if further != sequence {
                                furthest = i as int;
                            }
                            if clearer != cleared {
                                clearest = i as int;
                            }
                        }
                        merged = Some((further, clearer));
                    },
                    None => {
                        proof {
                            furthest = i as int;
                            clearest = i as int;
                        }
                        merged = Some((mark.state_change_seq, mark.cleared_through));
                    },
                }
            }
            i = i + 1;
        }
        assert forall|pane_id: Seq<char>| #[trigger]
            self@.has_mark(terminal_id@, pane_id) implies exists|j: int|
            0 <= j < order.len() && order[j] == pane_id && (#[trigger] items[j]).terminal_id
                == terminal_id@ by {
            let j = self.watermarks.lemma_key(pane_id);
            assert(items[j].terminal_id == terminal_id@);
        }
        match merged {
            Some((sequence, cleared)) => {
                let mark = Watermark {
                    terminal_id: terminal_id.to_owned(),
                    state_change_seq: sequence,
                    cleared_through: cleared,
                };
                proof {
                    self.watermarks.lemma_position(furthest);
                    self.watermarks.lemma_position(clearest);
                    assert(self@.has_mark(terminal_id@, order[furthest]));
                    assert(self@.has_mark(terminal_id@, order[clearest]));
                    assert forall|pane_id: Seq<char>| #[trigger]
                        self@.has_mark(terminal_id@, pane_id) implies {
                        &&& self@.watermarks[pane_id].state_change_seq <= sequence
                        &&& crate::ledger::later(cleared, self@.watermarks[pane_id].cleared_through)
                            == cleared
                    } by {
                        let j = self.watermarks.lemma_key(pane_id);
                    }
                    assert(self@.gathers(terminal_id@, mark@));
                    crate::ledger::lemma_one_gathering(self@, terminal_id@, mark@);
                }
                Some(mark)
            },
            None => None,
        }
    }

    /// Drops every record of a terminal.
    fn forget_terminal(&mut self, terminal_id: &str)
        requires
            old(self).wf(),
        ensures
            final(self).wf(),
            final(self)@ == old(self)@.without_terminal(terminal_id@),
    {
        let ghost start = self@;
        let mut i: usize = 0;
        while i < self.entries.len()
            invariant
                self.wf(),
                i <= self.entries.order().len(),
                self@ == (Ledger { entries: self@.entries, ..start }),
                forall|pane_id: Seq<char>| #[trigger]
                    self@.entries.contains_key(pane_id) ==> start.entries.contains_key(pane_id)
                        && self@.entries[pane_id] == start.entries[pane_id],
                forall|pane_id: Seq<char>| #[trigger]
                    start.entries.contains_key(pane_id) && !start.has_entry(terminal_id@, pane_id)
                        ==> self@.entries.contains_key(pane_id),
                forall|j: int|
                    0 <= j < i ==> (#[trigger] self.entries.contents()[j]).terminal_id
                        != terminal_id@,
            decreases self.entries.order().len() - i,
        {
            if same(&self.entries.value_at(i).terminal_id, terminal_id) {
                proof {
                    self.entries.lemma_position(i as int);
                }
                let _ = self.entries.remove_at(i);
            } else {
                i = i + 1;
            }
        }
        assert(self@.entries =~= start.without_terminal(terminal_id@).entries) by {
            assert forall|pane_id: Seq<char>| #[trigger]
                self@.entries.contains_key(pane_id) implies !start.has_entry(
                terminal_id@,
                pane_id,
            ) by {
                let j = self.entries.lemma_key(pane_id);
                assert(self.entries.contents()[j].terminal_id != terminal_id@);
            }
        }
        let ghost middle = self@;
        let mut k: usize = 0;
        while k < self.watermarks.len()
            invariant
                self.wf(),
                k <= self.watermarks.order().len(),
                self@ == (Ledger { watermarks: self@.watermarks, ..middle }),
                middle.watermarks == start.watermarks,
                forall|pane_id: Seq<char>| #[trigger]
                    self@.watermarks.contains_key(pane_id) ==> start.watermarks.contains_key(
                        pane_id,
                    ) && self@.watermarks[pane_id] == start.watermarks[pane_id],
                forall|pane_id: Seq<char>| #[trigger]
                    start.watermarks.contains_key(pane_id) && !start.has_mark(
                        terminal_id@,
                        pane_id,
                    ) ==> self@.watermarks.contains_key(pane_id),
                forall|j: int|
                    0 <= j < k ==> (#[trigger] self.watermarks.contents()[j]).terminal_id
                        != terminal_id@,
            decreases self.watermarks.order().len() - k,
        {
            if same(&self.watermarks.value_at(k).terminal_id, terminal_id) {
                proof {
                    self.watermarks.lemma_position(k as int);
                }
                let _ = self.watermarks.remove_at(k);
            } else {
                k = k + 1;
            }
        }
        assert(self@.watermarks =~= start.without_terminal(terminal_id@).watermarks) by {
            assert forall|pane_id: Seq<char>| #[trigger]
                self@.watermarks.contains_key(pane_id) implies !start.has_mark(
                terminal_id@,
                pane_id,
            ) by {
                let j = self.watermarks.lemma_key(pane_id);
                assert(self.watermarks.contents()[j].terminal_id != terminal_id@);
            }
        }
    }

    /// Moves every record of the agent's terminal to the address where it stands,
    /// and drops what another terminal left there.
    fn gather(&mut self, observation: &AgentObservation)
        requires
            old(self).wf(),
        ensures
            final(self).wf(),
            final(self)@ == old(self)@.without_terminal(observation.terminal_id@).with_slot(
                observation.pane_id@,
                old(self)@.gathered(observation@),
            ),
    {
        let ghost start = self@;
        let entry = self.leading_entry(&observation.terminal_id);
        let mark = self.merged_mark(&observation.terminal_id);
        self.forget_terminal(&observation.terminal_id);
        match entry {
            Some(entry) => {
                let moved = UnreadEntry {
                    pane_id: observation.pane_id.clone(),
                    workspace_id: observation.workspace_id.clone(),
                    terminal_id: entry.terminal_id,
                    status: entry.status,
                    state_change_seq: entry.state_change_seq,
                    ordinal: entry.ordinal,
                };
                self.entries.insert(observation.pane_id.clone(), moved);
            },
            None => {
                let _ = self.entries.remove(&observation.pane_id);
            },
        }
        match mark {
            Some(mark) => {
                self.watermarks.insert(observation.pane_id.clone(), mark);
            },
            None => {
                let _ = self.watermarks.remove(&observation.pane_id);
            },
        }
        self.settle(&observation.pane_id);
        assert(self@ =~= start.without_terminal(observation.terminal_id@).with_slot(
            observation.pane_id@,
            start.gathered(observation@),
        ));
    }

    /// The confirmed clearing evidence at a pane address.
    fn cleared_at(&self, pane_id: &str) -> (cleared: Option<u64>)
        requires
            self.wf(),
        ensures
            cleared == self@.slot(pane_id@).cleared(),
    {
        match self.watermarks.get(pane_id) {
            Some(mark) => mark.cleared_through,
            None => None,
        }
    }

    /// Takes in an agent of an eligible workspace.
    fn enroll(
        &mut self,
        observation: &AgentObservation,
        source: ObservationSource,
        recovering: bool,
        relabeled: bool,
    )
        requires
            old(self).wf(),
        ensures
            final(self).wf(),
            final(self)@ == old(self)@.enrolled(observation@, source, recovering, relabeled),
    {
        let ghost start = self@;
        let ghost slot = self@.gathered(observation@);
        self.gather(observation);
        let ghost base = self@;
        assert(base.slot(observation.pane_id@) =~= slot);
        let cleared = self.cleared_at(&observation.pane_id);
        match self.suppressed.remove(&observation.terminal_id) {
            Some(held) => {
                self.clear_observation(observation, later(cleared, held.cleared_through));
            },
            None => {
                assert(self@ =~= base);
                let unknown = self.entries.get(&observation.pane_id).is_none()
                    && self.watermarks.get(&observation.pane_id).is_none();
                if recovering || relabeled && unknown {
                    self.clear_observation(observation, cleared);
                } else {
                    // A fresh snapshot is never late: a lower sequence is a restart.
                    let late = match self.known_sequence(observation) {
                        Some(sequence) => observation.state_change_seq < sequence,
                        None => false,
                    };
                    let source = if late {
                        ObservationSource::Reconcile
                    } else {
                        source
                    };
                    self.observe(observation.clone(), source);
                }
            },
        }
    }

    /// Withholds an agent: nothing of it can be navigated to until an eligible
    /// workspace shows it again.
    pub fn withhold(&mut self, observation: &AgentObservation)
        requires
            old(self).wf(),
        ensures
            final(self).wf(),
            final(self)@ == old(self)@.withheld(observation@),
    {
        let ghost start = self@;
        let ghost slot = self@.gathered(observation@);
        self.gather(observation);
        let ghost base = self@;
        assert(base.slot(observation.pane_id@) =~= slot);
        let cleared = self.cleared_at(&observation.pane_id);
        let held = match self.suppressed.get(&observation.terminal_id) {
            Some(held) => held.cleared_through,
            None => None,
        };
        let _ = self.entries.remove(&observation.pane_id);
        let _ = self.watermarks.remove(&observation.pane_id);
        self.suppressed.insert(
            observation.terminal_id.clone(),
            Suppression {
                state_change_seq: observation.state_change_seq,
                cleared_through: carried(later(cleared, held), observation.state_change_seq),
            },
        );
        assert(self@ =~= start.withheld(observation@));
    }

    /// Takes the entries of every address without a live agent off the queue.
    fn retire(&mut self, live: &Vec<AgentObservation>)
        requires
            old(self).wf(),
        ensures
            final(self).wf(),
            final(self)@ == old(self)@.retired(sightings(live@)),
    {
        let ghost start = self@;
        let ghost seen = sightings(live@);
        let mut i: usize = 0;
        while i < self.entries.len()
            invariant
                self.wf(),
                seen == sightings(live@),
                i <= self.entries.order().len(),
                self@ == (Ledger {
                    entries: self@.entries,
                    watermarks: self@.watermarks,
                    ..start
                }),
                forall|pane_id: Seq<char>|
                    #![trigger self@.entries.contains_key(pane_id)]
                    #![trigger self@.watermarks.contains_key(pane_id)]
                    self@.slot(pane_id) == start.slot(pane_id) || start.entries.contains_key(
                        pane_id,
                    ) && !crate::ledger::stands_at(seen, pane_id) && self@.slot(pane_id)
                        == start.slot(pane_id).dropped(),
                forall|j: int|
                    0 <= j < i ==> crate::ledger::stands_at(
                        seen,
                        #[trigger] self.entries.order()[j],
                    ),
            decreases self.entries.order().len() - i,
        {
            let pane_id = self.entries.key_at(i).clone();
            let ghost previous = self@;
            let ghost place = i as int;
            proof {
                self.entries.lemma_position(i as int);
            }
            if stands_at(live, &pane_id) {
                i = i + 1;
            } else {
                let entry = self.entries.remove_at(i);
                let mark = Watermark {
                    terminal_id: entry.terminal_id,
                    state_change_seq: entry.state_change_seq,
                    cleared_through: None,
                };
                self.merge_watermark(&pane_id, mark);
                assert(self@ =~= previous.removed(pane_id@));
                assert forall|other: Seq<char>|
                    #![trigger self@.entries.contains_key(other)]
                    #![trigger self@.watermarks.contains_key(other)]
                    self@.slot(other) == start.slot(other) || start.entries.contains_key(other)
                        && !crate::ledger::stands_at(seen, other) && self@.slot(other)
                        == start.slot(other).dropped() by {
                    assert(previous.entries.contains_key(other) || !previous.entries.contains_key(
                        other,
                    ));
                    if other != pane_id@ {
                        assert(self@.slot(other) =~= previous.slot(other));
                    } else {
                        assert(previous.slot(other) == start.slot(other));
                        assert(self@.slot(other) =~= previous.slot(other).dropped());
                    }
                }
            }
        }
        assert(self@ =~= start.retired(seen)) by {
            assert forall|pane_id: Seq<char>| self@.slot(pane_id) == start.retired(seen).slot(
                pane_id,
            ) by {
                assert(self@.entries.contains_key(pane_id) || !self@.entries.contains_key(pane_id));
                if self@.entries.contains_key(pane_id) {
                    let j = self.entries.lemma_key(pane_id);
                }
            }
            assert forall|pane_id: Seq<char>|
                self@.entries.contains_key(pane_id) == start.retired(seen).entries.contains_key(
                    pane_id,
                ) && self@.watermarks.contains_key(pane_id) == start.retired(
                    seen,
                ).watermarks.contains_key(pane_id) && self@.slot(pane_id) == start.retired(
                    seen,
                ).slot(pane_id) by {
                assert(self@.slot(pane_id) == start.retired(seen).slot(pane_id));
            }
            assert(self@.entries =~= start.retired(seen).entries) by {
                assert forall|pane_id: Seq<char>| #[trigger]
                    self@.entries.contains_key(pane_id) implies self@.entries[pane_id]
                    == start.retired(seen).entries[pane_id] by {
                    assert(self@.slot(pane_id) == start.retired(seen).slot(pane_id));
                }
            }
            assert(self@.watermarks =~= start.retired(seen).watermarks) by {
                assert forall|pane_id: Seq<char>| #[trigger]
                    self@.watermarks.contains_key(pane_id) implies self@.watermarks[pane_id]
                    == start.retired(seen).watermarks[pane_id] by {
                    assert(self@.slot(pane_id) == start.retired(seen).slot(pane_id));
                }
            }
        }
    }

    /// Reconciles the ledger with a fresh policy and a fresh snapshot, and returns
    /// the agents that may be navigated to. The hooked pane, if any, counts as an
    /// event; every other agent is a passive observation.
    pub fn apply_policy(
        &mut self,
        policy: &WorkspacePolicy,
        agents: Vec<AgentObservation>,
        hook: Option<&str>,
    ) -> (eligible: Vec<AgentObservation>)
        requires
            old(self).wf(),
        ensures
            final(self).wf(),
            sightings(eligible@) == crate::ledger::eligible_only(sightings(agents@), policy@),
            final(self)@ == old(self)@.reconciled(
                policy@,
                sightings(agents@),
                crate::text::given(hook),
            ),
    {
        let ghost start = self@;
        let ghost seen = sightings(agents@);
        let (recovering, relabeled) = match &self.policy {
            Some(stamp) => (
                self.recovery_needed || !same(&stamp.session, policy.session()),
                !same_texts(&stamp.labels, policy.labels()),
            ),
            None => (self.recovery_needed, false),
        };
        let mut eligible: Vec<AgentObservation> = Vec::new();
        let mut i: usize = 0;
        let ghost keep = |seen: Sighting| policy@.eligible(seen.workspace_id);
        assert(seen.take(0) =~= Seq::<Sighting>::empty());
        assert(seen.take(0).filter(keep) =~= Seq::<Sighting>::empty()) by {
            reveal(Seq::filter);
        }
        while i < agents.len()
            invariant
                self.wf(),
                i <= agents.len(),
                seen == sightings(agents@),
                keep == (|seen: Sighting| policy@.eligible(seen.workspace_id)),
                self@ == start.swept(
                    seen.take(i as int),
                    policy@,
                    crate::text::given(hook),
                    recovering,
                    relabeled,
                ),
                sightings(eligible@) == seen.take(i as int).filter(keep),
            decreases agents.len() - i,
        {
            let agent = &agents[i];
            let ghost prefix = seen.take(i as int);
            assert(seen.take(i + 1).drop_last() =~= prefix);
            assert(seen.take(i + 1).last() == agent@);
            assert(seen.take(i + 1) =~= prefix.push(agent@));
            proof {
                reveal(Seq::filter);
            }
            if policy.eligible(&agent.workspace_id) {
                let hooked = match hook {
                    Some(pane_id) => same(pane_id, &agent.pane_id),
                    None => false,
                };
                let source = if hooked {
                    ObservationSource::Event
                } else {
                    ObservationSource::Reconcile
                };
                self.enroll(agent, source, recovering, relabeled);
                let ghost before_push = sightings(eligible@);
                eligible.push(agent.clone());
                assert(sightings(eligible@) =~= before_push.push(agent@));
            } else {
                self.withhold(agent);
            }
            i = i + 1;
        }
        assert(seen.take(agents.len() as int) =~= seen);
        self.retire(&eligible);
        self.policy = Some(
            PolicyStamp {
                session: policy.session().clone(),
                labels: copy_texts(policy.labels()),
                excluded: copy_texts(policy.excluded()),
            },
        );
        self.locations = locations_of(&eligible);
        self.recovery_needed = false;
        eligible
    }

    /// Marks the user's current agent as read.
    pub fn acknowledge(&mut self, agents: &Vec<AgentObservation>, current_pane: Option<&str>)
        requires
            old(self).wf(),
        ensures
            final(self).wf(),
            final(self)@ == old(self)@.acknowledged(
                sightings(agents@),
                crate::text::given(current_pane),
            ),
    {
        let ghost start = self@;
        let ghost seen = sightings(agents@);
        let mut i: usize = 0;
        assert(seen.take(0) =~= Seq::<Sighting>::empty());
        while i < agents.len()
            invariant
                self.wf(),
                i <= agents.len(),
                seen == sightings(agents@),
                self@ == start.acknowledged(seen.take(i as int), crate::text::given(current_pane)),
            decreases agents.len() - i,
        {
            assert(seen.take(i + 1).drop_last() =~= seen.take(i as int));
            assert(seen.take(i + 1).last() == agents@[i as int]@);
            if is_current(&agents[i], current_pane) {
                self.observe(agents[i].clone(), ObservationSource::Focus);
            }
            i = i + 1;
        }
        assert(seen.take(agents.len() as int) =~= seen);
    }

    /// Notes that the policy could not be read: what happens until it can be read
    /// again is not news.
    pub fn policy_unavailable(&mut self)
        requires
            old(self).wf(),
        ensures
            final(self).wf(),
            final(self)@ == old(self)@.unresolved(),
    {
        self.recovery_needed = true;
    }
}

/// How the check of a stored state ends.
pub open spec fn validates(ledger: Ledger, verdict: Result<(), BeaconError>) -> bool {
    &&& verdict is Ok <==> ledger.valid()
    &&& match verdict {
        Ok(()) => true,
        Err(BeaconError::UnsupportedVersion(version)) => version == ledger.version && version
            != STATE_VERSION,
        Err(BeaconError::EntryKeyMismatch) => ledger.version == STATE_VERSION && exists|
            pane_id: Seq<char>,
        | #[trigger]
            ledger.misfiled(pane_id) && ledger.sound_before(pane_id),
        Err(BeaconError::OrdinalAhead) => ledger.version == STATE_VERSION && exists|
            pane_id: Seq<char>,
        | #[trigger]
            ledger.ahead(pane_id) && !ledger.misfiled(pane_id) && ledger.sound_before(pane_id),
        Err(_) => false,
    }
}

/// Whether the agent is the one that the user is at. Without an invoking pane, the
/// server's focus counts.
pub fn is_current(agent: &AgentObservation, current_pane: Option<&str>) -> (current: bool)
    ensures
        current == crate::ledger::is_current(agent@, crate::text::given(current_pane)),
{
    match current_pane {
        Some(pane_id) => same(&agent.pane_id, pane_id),
        None => agent.focused,
    }
}

/// The meaning of an optional policy stamp.
pub open spec fn stamp_seen(stamp: Option<PolicyStamp>) -> Option<Stamp> {
    match stamp {
        Some(stamp) => Some(stamp@),
        None => None,
    }
}

/// The places that a list of locations holds.
pub open spec fn places_seen(locations: Seq<Location>) -> Seq<Place> {
    locations.map_values(|location: Location| location@)
}

/// The sightings that a list of observations holds.
pub open spec fn sightings(agents: Seq<AgentObservation>) -> Seq<Sighting> {
    agents.map_values(|agent: AgentObservation| agent@)
}

/// Whether one of the agents stands at the pane address.
fn stands_at(agents: &Vec<AgentObservation>, pane_id: &str) -> (found: bool)
    ensures
        found == crate::ledger::stands_at(sightings(agents@), pane_id@),
{
    let mut i: usize = 0;
    while i < agents.len()
        invariant
            i <= agents.len(),
            forall|j: int| 0 <= j < i ==> (#[trigger] sightings(agents@)[j]).pane_id != pane_id@,
        decreases agents.len() - i,
    {
        if same(&agents[i].pane_id, pane_id) {
            assert(sightings(agents@)[i as int].pane_id == pane_id@);
            return true;
        }
        i = i + 1;
    }
    false
}

/// Where the agents stand.
fn locations_of(agents: &Vec<AgentObservation>) -> (locations: Vec<Location>)
    ensures
        places_seen(locations@) == crate::ledger::places(sightings(agents@)),
{
    let mut locations: Vec<Location> = Vec::new();
    let mut i: usize = 0;
    while i < agents.len()
        invariant
            i <= agents.len(),
            locations@.len() == i,
            forall|j: int|
                0 <= j < i ==> (#[trigger] locations@[j])@ == crate::ledger::places(
                    sightings(agents@),
                )[j],
        decreases agents.len() - i,
    {
        locations.push(
            Location {
                terminal_id: agents[i].terminal_id.clone(),
                pane_id: agents[i].pane_id.clone(),
                workspace_id: agents[i].workspace_id.clone(),
            },
        );
        i = i + 1;
    }
    locations
}

/// Whether `other` comes before `entry` in attention order.
fn yields(entry: &UnreadEntry, other: &UnreadEntry) -> (later: bool)
    ensures
        later == entry@.yields_to(other@),
{
    entry.state_change_seq < other.state_change_seq || entry.state_change_seq
        == other.state_change_seq && (entry.ordinal < other.ordinal || entry.ordinal
        == other.ordinal && before(&entry.pane_id, &other.pane_id))
}

/// Attention order is a strict order, and entries that tie are interchangeable.
proof fn lemma_attention_order(a: Pending, b: Pending, c: Pending)
    ensures
        a.yields_to(b) && b.yields_to(c) ==> a.yields_to(c),
        !(a.yields_to(b) && b.yields_to(a)),
        a.yields_to(b) && !c.yields_to(b) && !b.yields_to(c) ==> a.yields_to(c),
        !a.yields_to(b) && !b.yields_to(a) && b.yields_to(c) ==> a.yields_to(c),
        !a.yields_to(b) && !b.yields_to(a) && !b.yields_to(c) && !c.yields_to(b)
            ==> !a.yields_to(c),
{
    crate::text::lemma_precedes_asymmetric(a.pane_id, b.pane_id);
    crate::text::lemma_precedes_asymmetric(a.pane_id, c.pane_id);
    crate::text::lemma_precedes_total(a.pane_id, b.pane_id);
    crate::text::lemma_precedes_total(b.pane_id, c.pane_id);
    if crate::text::precedes(a.pane_id, b.pane_id) && crate::text::precedes(b.pane_id, c.pane_id) {
        crate::text::lemma_precedes_transitive(a.pane_id, b.pane_id, c.pane_id);
    }
}

/// The larger of two optional numbers; a missing one is the smallest.
fn later(a: Option<u64>, b: Option<u64>) -> (max: Option<u64>)
    ensures
        max == crate::ledger::later(a, b),
{
    match (a, b) {
        (Some(x), Some(y)) => if x < y {
            b
        } else {
            a
        },
        (Some(_), None) => a,
        (None, _) => b,
    }
}

/// Clearing evidence that still speaks of sequences up to `sequence`.
fn carried(cleared: Option<u64>, sequence: u64) -> (kept: Option<u64>)
    ensures
        kept == crate::ledger::carried(cleared, sequence),
{
    match cleared {
        Some(through) => if through <= sequence {
            cleared
        } else {
            None
        },
        None => None,
    }
}

} // verus!
