//! A staker's history log: a fixed-capacity ring buffer of events in which a
//! new event, once the log is full, takes the place of the oldest.

use vstd::prelude::*;

verus! {

/// The most events that a staker's history keeps.
pub const MAX_HISTORY: usize = 588;

#[derive(Clone, Copy, Debug, PartialEq, Eq, Structural)]
pub enum HistoryAction {
    Stake,
    Unstake,
    Claim,
}

#[derive(Clone, Copy, Debug, PartialEq, Eq, Structural)]
pub struct StakerHistoryEntry {
    pub time: u64,
    pub action: HistoryAction,
    pub amount: u64,
}

/// The log. Until it is full, `entries` holds the events oldest first and
/// `next` is 0; once full, `next` is the slot of the oldest event, where the
/// next one is written.
pub struct History {
    entries: Vec<StakerHistoryEntry>,
    next: usize,
}

/// The log after `e` is recorded: appended, and the oldest event dropped where
/// the log was full.
pub open spec fn recorded(log: Seq<StakerHistoryEntry>, e: StakerHistoryEntry) -> Seq<StakerHistoryEntry> {
    if log.len() < MAX_HISTORY {
        log.push(e)
    } else {
        log.drop_first().push(e)
    }
}

impl View for History {
    type V = Seq<StakerHistoryEntry>;

    /// The events, oldest first.
    closed spec fn view(&self) -> Seq<StakerHistoryEntry> {
        if self.entries@.len() < MAX_HISTORY {
            self.entries@
        } else {
            self.entries@.subrange(self.next as int, self.entries@.len() as int)
                + self.entries@.subrange(0, self.next as int)
        }
    }
}

impl History {
    pub closed spec fn wf(&self) -> bool {
        &&& self.entries@.len() <= MAX_HISTORY
        &&& self.next < MAX_HISTORY
        &&& self.entries@.len() < MAX_HISTORY ==> self.next == 0
    }

    pub fn new() -> (r: History)
        ensures
            r.wf(),
            r@ == Seq::<StakerHistoryEntry>::empty(),
    {
        History { entries: Vec::new(), next: 0 }
    }

    /// A log holding `entries`, oldest first.
    pub fn from_entries(entries: Vec<StakerHistoryEntry>) -> (r: History)
        requires
            entries@.len() <= MAX_HISTORY,
        ensures
            r.wf(),
            r@ == entries@,
    {
        if entries.len() < MAX_HISTORY {
            History { entries, next: 0 }
        } else {
            let r = History { entries, next: 0 };
            proof {
                assert(r.entries@.subrange(0, MAX_HISTORY as int) =~= r.entries@);
                assert(r.entries@.subrange(0, 0) =~= Seq::<StakerHistoryEntry>::empty());
                assert(r@ =~= r.entries@);
            }
            r
        }
    }

    /// The number of events kept.
    pub fn len(&self) -> (r: usize)
        requires
            self.wf(),
        ensures
            r == self@.len(),
    {
        self.entries.len()
    }

    /// Records an event; where the log is full, the oldest event is dropped.
    pub fn add(&mut self, time: u64, action: HistoryAction, amount: u64)
        requires
            old(self).wf(),
        ensures
            final(self).wf(),
            final(self)@ == recorded(old(self)@, StakerHistoryEntry { time, action, amount }),
            final(self)@.len() <= MAX_HISTORY,
    {
        let e = StakerHistoryEntry { time, action, amount };
        if self.entries.len() < MAX_HISTORY {
            self.entries.push(e);
            proof {
                if self.entries@.len() == MAX_HISTORY {
                    assert(self.entries@.subrange(0, MAX_HISTORY as int) =~= self.entries@);
                    assert(self.entries@.subrange(0, 0) =~= Seq::<StakerHistoryEntry>::empty());
                    assert(self@ =~= self.entries@);
                }
            }
        } else {
            let ghost before = self.entries@;
            let ghost n = self.next as int;
            self.entries.set(self.next, e);
            if self.next + 1 == MAX_HISTORY {
                self.next = 0;
            } else {
                self.next = self.next + 1;
            }
            proof {
                let after = self.entries@;
                let old_view = before.subrange(n, MAX_HISTORY as int) + before.subrange(0, n);
                assert(old_view.drop_first() =~= before.subrange(n + 1, MAX_HISTORY as int)
                    + before.subrange(0, n));
                if n + 1 == MAX_HISTORY {
                    assert(after.subrange(0, MAX_HISTORY as int) =~= after);
                    assert(after.subrange(0, 0) =~= Seq::<StakerHistoryEntry>::empty());
                    assert(self@ =~= after);
                    assert(before.subrange(n + 1, MAX_HISTORY as int) =~= Seq::<StakerHistoryEntry>::empty());
                    assert(after =~= before.subrange(0, n).push(e));
                } else {
                    assert(after.subrange(n + 1, MAX_HISTORY as int) =~= before.subrange(n + 1, MAX_HISTORY as int));
                    assert(after.subrange(0, n + 1) =~= before.subrange(0, n).push(e));
                }
                assert(self@ =~= old_view.drop_first().push(e));
            }
        }
    }

    /// The events, oldest first.
    pub fn to_vec(&self) -> (r: Vec<StakerHistoryEntry>)
        requires
            self.wf(),
        ensures
            r@ == self@,
    {
        let len = self.entries.len();
        let mut r: Vec<StakerHistoryEntry> = Vec::new();
        let mut k: usize = 0;
        while k < len
            invariant
                self.wf(),
                len == self.entries@.len(),
                len == self@.len(),
                0 <= k <= len,
                r@ =~= self@.subrange(0, k as int),
            decreases len - k,
        {
            let slot: usize = if len < MAX_HISTORY {
                k
            } else if self.next + k < MAX_HISTORY {
                self.next + k
            } else {
                self.next + k - MAX_HISTORY
            };
            r.push(self.entries[slot]);
            k = k + 1;
        }
        r
    }
}

/// The log never holds more than its capacity, whatever was recorded.
pub proof fn lemma_history_bounded(h: History)
    requires
        h.wf(),
    ensures
        h@.len() <= MAX_HISTORY,
{
}

} // verus!
