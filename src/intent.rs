//! Intents, action plans, and the lifecycle rules that merge and expire them.
use vstd::prelude::*;
use crate::geometry::Vec2;

verus! {

/// How an incoming intent relates to the one already installed.
#[derive(Debug, Clone, Copy, PartialEq, Eq, Structural)]
pub enum IntentStatus {
    /// Replace whatever the player had.
    New,
    /// Keep the installed intent; install this one only where none exists.
    Continue,
    /// Clear the player's intent.
    Idle,
}

/// One of the eight behavioural primitives, with its spatial payload.
#[derive(Debug, Clone, Copy, PartialEq, Eq, Structural)]
pub enum Action {
    AttackSpace { target: Vec2 },
    MarkPlayer { target_id: u32 },
    FindPassOption,
    HoldPosition,
    Press { target: Vec2 },
    MoveToBall,
    ReturnToPosition { position: Vec2 },
    BlockSpace { target: Vec2 },
}

/// A per-player directive with its validity window.
#[derive(Debug, Clone, Copy, PartialEq, Eq, Structural)]
pub struct Intent {
    pub player_id: u32,
    pub status: IntentStatus,
    pub action: Option<Action>,
    pub created_at_ms: u64,
    /// `None`: valid until replaced or cleared.
    pub duration_ms: Option<u64>,
}

/// The time-based expiry rule: expired strictly after `created_at + duration`.
pub open spec fn expired_at(i: Intent, t: int) -> bool {
    match i.duration_ms {
        Some(d) => t > i.created_at_ms + d,
        None => false,
    }
}

impl Intent {
    pub fn new(player_id: u32, status: IntentStatus, action: Option<Action>, created_at_ms: u64) -> (r: Intent)
        ensures
            r == (Intent { player_id, status, action, created_at_ms, duration_ms: None }),
    {
        Intent { player_id, status, action, created_at_ms, duration_ms: None }
    }

    pub fn is_expired(&self, current_time_ms: u64) -> (r: bool)
        ensures
            r == expired_at(*self, current_time_ms as int),
    {
        match self.duration_ms {
            Some(d) => current_time_ms > self.created_at_ms && current_time_ms - self.created_at_ms > d,
            None => false,
        }
    }
}

/// A planner's output: intents in order, with timing metadata.
#[derive(Debug, Clone)]
pub struct ActionPlan {
    pub intents: Vec<Intent>,
    pub generated_at_ms: u64,
    pub latency_ms: u64,
}

/// Index of the first intent for `id` in `s`, if any.
pub open spec fn first_index_for(s: Seq<Intent>, id: u32) -> Option<int>
    decreases s.len(),
{
    if s.len() == 0 {
        None
    } else if s[0].player_id == id {
        Some(0)
    } else {
        match first_index_for(s.drop_first(), id) {
            Some(k) => Some(k + 1),
            None => None,
        }
    }
}

/// The first intent for `id` in `s`, if any.
pub open spec fn intent_for(s: Seq<Intent>, id: u32) -> Option<Intent> {
    match first_index_for(s, id) {
        Some(k) => Some(s[k]),
        None => None,
    }
}

pub open spec fn has_intent_for(s: Seq<Intent>, id: u32) -> bool {
    exists|k: int| 0 <= k < s.len() && #[trigger] s[k].player_id == id
}

proof fn lemma_first_index_for(s: Seq<Intent>, id: u32)
    ensures
        match first_index_for(s, id) {
            Some(k) => 0 <= k < s.len() && s[k].player_id == id
                && forall|j: int| 0 <= j < k ==> s[j].player_id != id,
            None => forall|j: int| 0 <= j < s.len() ==> s[j].player_id != id,
        },
    decreases s.len(),
{
    if s.len() > 0 {
        lemma_first_index_for(s.drop_first(), id);
        assert forall|j: int| 0 < j < s.len() implies #[trigger] s[j] == s.drop_first()[j - 1] by {}
    }
}

impl ActionPlan {
    pub fn new(intents: Vec<Intent>, generated_at_ms: u64, latency_ms: u64) -> (r: ActionPlan)
        ensures
            r.intents@ == intents@,
            r.generated_at_ms == generated_at_ms,
            r.latency_ms == latency_ms,
    {
        ActionPlan { intents, generated_at_ms, latency_ms }
    }

    /// The first intent addressed to `player_id`.
    pub fn get_intent(&self, player_id: u32) -> (r: Option<&Intent>)
        ensures
            match r {
                Some(i) => intent_for(self.intents@, player_id) == Some(*i),
                None => intent_for(self.intents@, player_id) is None,
            },
    {
        proof { lemma_first_index_for(self.intents@, player_id); }
        let mut k: usize = 0;
        while k < self.intents.len()
            invariant
                k <= self.intents.len(),
                forall|j: int| 0 <= j < k ==> self.intents@[j].player_id != player_id,
            decreases self.intents.len() - k,
        {
            if self.intents[k].player_id == player_id {
                proof {
                    lemma_first_index_for(self.intents@, player_id);
                    match first_index_for(self.intents@, player_id) {
                        Some(f) => { assert(f == k); },
                        None => {},
                    }
                }
                return Some(&self.intents[k]);
            }
            k = k + 1;
        }
        proof { lemma_first_index_for(self.intents@, player_id); }
        None
    }
}

/// The first installed intent for `player_id`, if any.
pub fn find_intent(intents: &Vec<Intent>, player_id: u32) -> (r: Option<Intent>)
    ensures
        r == intent_for(intents@, player_id),
{
    let mut k: usize = 0;
    while k < intents.len()
        invariant
            k <= intents.len(),
            forall|j: int| 0 <= j < k ==> intents@[j].player_id != player_id,
        decreases intents.len() - k,
    {
        if intents[k].player_id == player_id {
            proof {
                lemma_first_index_for(intents@, player_id);
                match first_index_for(intents@, player_id) {
                    Some(f) => { assert(f == k); },
                    None => {},
                }
            }
            return Some(intents[k]);
        }
        k = k + 1;
    }
    proof { lemma_first_index_for(intents@, player_id); }
    None
}

/// `s` with every intent for `id` removed, order kept.
pub open spec fn without(s: Seq<Intent>, id: u32) -> Seq<Intent>
    decreases s.len(),
{
    if s.len() == 0 {
        s
    } else if s.last().player_id != id {
        without(s.drop_last(), id).push(s.last())
    } else {
        without(s.drop_last(), id)
    }
}

/// One step of Merge: New replaces, Continue fills a gap, Idle clears.
pub open spec fn merge_one(s: Seq<Intent>, i: Intent) -> Seq<Intent> {
    match i.status {
        IntentStatus::New => without(s, i.player_id).push(i),
        IntentStatus::Continue => if has_intent_for(s, i.player_id) { s } else { s.push(i) },
        IntentStatus::Idle => without(s, i.player_id),
    }
}

/// Merge of a whole batch, applied in batch order.
pub open spec fn merge_all(s: Seq<Intent>, batch: Seq<Intent>) -> Seq<Intent>
    decreases batch.len(),
{
    if batch.len() == 0 {
        s
    } else {
        merge_all(merge_one(s, batch[0]), batch.drop_first())
    }
}

/// The intents of `s` still valid at `t`, order kept.
pub open spec fn live_at(s: Seq<Intent>, t: int) -> Seq<Intent>
    decreases s.len(),
{
    if s.len() == 0 {
        s
    } else if !expired_at(s.last(), t) {
        live_at(s.drop_last(), t).push(s.last())
    } else {
        live_at(s.drop_last(), t)
    }
}

/// No intent for `id` survives its removal; the others keep their order.
pub proof fn lemma_without_clears(s: Seq<Intent>, id: u32)
    ensures
        forall|k: int| 0 <= k < without(s, id).len() ==> #[trigger] without(s, id)[k].player_id != id,
        forall|x: Intent| #[trigger] without(s, id).contains(x) <==> (s.contains(x) && x.player_id != id),
    decreases s.len(),
{
    if s.len() > 0 {
        lemma_without_clears(s.drop_last(), id);
        let r = without(s.drop_last(), id);
        assert forall|x: Intent| #[trigger] without(s, id).contains(x) <==> (s.contains(x) && x.player_id != id) by {
            if s.contains(x) && x.player_id != id {
                let k = choose|k: int| 0 <= k < s.len() && s[k] == x;
                if k < s.len() - 1 {
                    assert(s.drop_last()[k] == x);
                    assert(s.drop_last().contains(x));
                    assert(r.contains(x));
                    let j = choose|j: int| 0 <= j < r.len() && r[j] == x;
                    assert(without(s, id)[j] == x);
                } else {
                    assert(without(s, id).last() == x);
                }
            }
            if without(s, id).contains(x) {
                let k = choose|k: int| 0 <= k < without(s, id).len() && without(s, id)[k] == x;
                if s.last().player_id != id && k == r.len() {
                    assert(s[s.len() - 1] == x);
                } else {
                    assert(r[k] == x);
                    assert(r.contains(x));
                    let j = choose|j: int| 0 <= j < s.drop_last().len() && s.drop_last()[j] == x;
                    assert(s[j] == x);
                }
            }
        }
    }
}

proof fn lemma_merge_single(s: Seq<Intent>, incoming: Intent)
    ensures
        merge_all(s, seq![incoming]) == merge_one(s, incoming),
{
    let b = seq![incoming];
    assert(b[0] == incoming);
    assert(b.drop_first() =~= Seq::<Intent>::empty());
    assert(merge_all(merge_one(s, incoming), b.drop_first()) == merge_one(s, incoming));
}

/// Merging a Continue intent for a player who already has one leaves the
/// installed set exactly as it was.
pub proof fn lemma_continue_keeps_installed(s: Seq<Intent>, incoming: Intent)
    requires
        incoming.status == IntentStatus::Continue,
        has_intent_for(s, incoming.player_id),
    ensures
        merge_one(s, incoming) == s,
        merge_all(s, seq![incoming]) == s,
{
    lemma_merge_single(s, incoming);
}

/// Merging a New intent replaces whatever the player had: afterwards the
/// player's only intent is the incoming one, and every other intent is kept
/// in order.
pub proof fn lemma_new_replaces(s: Seq<Intent>, incoming: Intent)
    requires
        incoming.status == IntentStatus::New,
    ensures
        merge_one(s, incoming).last() == incoming,
        forall|k: int| 0 <= k < merge_one(s, incoming).len() - 1
            ==> #[trigger] merge_one(s, incoming)[k].player_id != incoming.player_id,
        merge_one(s, incoming).drop_last() == without(s, incoming.player_id),
        intent_for(merge_one(s, incoming), incoming.player_id) == Some(incoming),
        merge_all(s, seq![incoming]) == merge_one(s, incoming),
{
    let r = merge_one(s, incoming);
    lemma_without_clears(s, incoming.player_id);
    assert(r.drop_last() == without(s, incoming.player_id));
    assert forall|k: int| 0 <= k < r.len() - 1 implies #[trigger] r[k].player_id != incoming.player_id by {
        assert(r[k] == without(s, incoming.player_id)[k]);
    }
    lemma_first_index_for(r, incoming.player_id);
    lemma_merge_single(s, incoming);
}

/// An empty batch leaves the installed set unchanged.
pub proof fn lemma_empty_batch_keeps(s: Seq<Intent>)
    ensures
        merge_all(s, Seq::<Intent>::empty()) == s,
{
}

/// Expiry is monotonic in time: an intent with a duration is live up to and
/// including `created_at + duration` and expired at every later time; one
/// without a duration never expires.
pub proof fn lemma_expiry_window(i: Intent, t: int)
    ensures
        i.duration_ms is None ==> !expired_at(i, t),
        i.duration_ms is Some && t <= i.created_at_ms + i.duration_ms->0 ==> !expired_at(i, t),
        i.duration_ms is Some && t > i.created_at_ms + i.duration_ms->0 ==> expired_at(i, t),
{
}

/// Expiring at `t` keeps exactly the installed intents still live at `t`.
pub proof fn lemma_live_at_members(s: Seq<Intent>, t: int)
    ensures
        forall|x: Intent| #[trigger] live_at(s, t).contains(x) <==> (s.contains(x) && !expired_at(x, t)),
    decreases s.len(),
{
    if s.len() > 0 {
        lemma_live_at_members(s.drop_last(), t);
        let r = live_at(s.drop_last(), t);
        assert forall|x: Intent| #[trigger] live_at(s, t).contains(x) <==> (s.contains(x) && !expired_at(x, t)) by {
            if s.contains(x) && !expired_at(x, t) {
                let k = choose|k: int| 0 <= k < s.len() && s[k] == x;
                if k < s.len() - 1 {
                    assert(s.drop_last()[k] == x);
                    assert(s.drop_last().contains(x));
                    assert(r.contains(x));
                    let j = choose|j: int| 0 <= j < r.len() && r[j] == x;
                    assert(live_at(s, t)[j] == x);
                } else {
                    assert(live_at(s, t).last() == x);
                }
            }
            if live_at(s, t).contains(x) {
                let k = choose|k: int| 0 <= k < live_at(s, t).len() && live_at(s, t)[k] == x;
                if !expired_at(s.last(), t) && k == r.len() {
                    assert(s[s.len() - 1] == x);
                } else {
                    assert(r[k] == x);
                    assert(r.contains(x));
                    let j = choose|j: int| 0 <= j < s.drop_last().len() && s.drop_last()[j] == x;
                    assert(s[j] == x);
                }
            }
        }
    }
}

/// Removes every intent for `player_id`, keeping the order of the rest.
pub fn remove_player(current: &mut Vec<Intent>, player_id: u32)
    ensures
        final(current)@ == without(old(current)@, player_id),
{
    let ghost s = current@;
    let mut kept: Vec<Intent> = Vec::new();
    let mut k: usize = 0;
    while k < current.len()
        invariant
            current@ == s,
            k <= s.len(),
            kept@ == without(s.subrange(0, k as int), player_id),
        decreases s.len() - k,
    {
        let i = current[k];
        proof {
            let p = s.subrange(0, k + 1);
            assert(p.drop_last() == s.subrange(0, k as int));
            assert(p.last() == i);
            assert(without(p, player_id) == (if i.player_id != player_id {
                without(s.subrange(0, k as int), player_id).push(i)
            } else {
                without(s.subrange(0, k as int), player_id)
            }));
        }
        if i.player_id != player_id {
            kept.push(i);
        }
        k = k + 1;
    }
    proof {
        assert(s.subrange(0, s.len() as int) == s);
    }
    *current = kept;
}

/// Whether any intent in `current` is for `player_id`.
pub fn has_player(current: &Vec<Intent>, player_id: u32) -> (r: bool)
    ensures
        r == has_intent_for(current@, player_id),
{
    let mut k: usize = 0;
    while k < current.len()
        invariant
            k <= current.len(),
            forall|j: int| 0 <= j < k ==> current@[j].player_id != player_id,
        decreases current.len() - k,
    {
        if current[k].player_id == player_id {
            return true;
        }
        k = k + 1;
    }
    false
}

/// Merges a batch of incoming intents into the installed set, in batch order.
pub fn merge_intents(current: &mut Vec<Intent>, batch: Vec<Intent>)
    ensures
        final(current)@ == merge_all(old(current)@, batch@),
{
    let ghost s0 = current@;
    let mut k: usize = 0;
    assert(batch@.subrange(0, batch@.len() as int) == batch@);
    while k < batch.len()
        invariant
            k <= batch.len(),
            merge_all(s0, batch@) == merge_all(current@, batch@.subrange(k as int, batch@.len() as int)),
        decreases batch.len() - k,
    {
        let incoming = batch[k];
        proof {
            let rest = batch@.subrange(k as int, batch@.len() as int);
            assert(rest[0] == incoming);
            assert(rest.drop_first() == batch@.subrange(k + 1, batch@.len() as int));
        }
        match incoming.status {
            IntentStatus::New => {
                remove_player(current, incoming.player_id);
                current.push(incoming);
            },
            IntentStatus::Continue => {
                if !has_player(current, incoming.player_id) {
                    current.push(incoming);
                }
            },
            IntentStatus::Idle => {
                remove_player(current, incoming.player_id);
            },
        }
        k = k + 1;
    }
    proof {
        assert(batch@.subrange(batch@.len() as int, batch@.len() as int).len() == 0);
    }
}

/// Drops every intent expired at `current_time_ms`, keeping the order of the rest.
pub fn expire_intents(current: &mut Vec<Intent>, current_time_ms: u64)
    ensures
        final(current)@ == live_at(old(current)@, current_time_ms as int),
{
    let ghost s = current@;
    let mut kept: Vec<Intent> = Vec::new();
    let mut k: usize = 0;
    while k < current.len()
        invariant
            current@ == s,
            k <= s.len(),
            kept@ == live_at(s.subrange(0, k as int), current_time_ms as int),
        decreases s.len() - k,
    {
        let i = current[k];
        proof {
            let p = s.subrange(0, k + 1);
            assert(p.drop_last() == s.subrange(0, k as int));
            assert(p.last() == i);
            assert(live_at(p, current_time_ms as int) == (if !expired_at(i, current_time_ms as int) {
                live_at(s.subrange(0, k as int), current_time_ms as int).push(i)
            } else {
                live_at(s.subrange(0, k as int), current_time_ms as int)
            }));
        }
        if !i.is_expired(current_time_ms) {
            kept.push(i);
        }
        k = k + 1;
    }
    proof {
        assert(s.subrange(0, s.len() as int) == s);
    }
    *current = kept;
}

} // verus!
