//! Buffers that a worker draws, kept for as long as they are in use.

use std::collections::{HashMap, HashSet};
use vstd::prelude::*;

verus! {

broadcast use vstd::std_specs::hash::group_hash_axioms;

/// For how long a buffer is kept that is not used, in nanoseconds.
pub const BUFFER_TTL: u128 = 5_000_000_000;

/// What is known of the buffers: which are there, and which are being drawn.
pub struct BufferState<B> {
    pub ready: Map<u64, (B, u128)>,
    pub in_flight: Set<u64>,
    pub has_worker: bool,
}

/// A buffer was used lately enough to be kept.
pub open spec fn is_fresh(last_used_at: u128, now: u128) -> bool {
    now <= last_used_at || now - last_used_at <= BUFFER_TTL
}

/// The buffers that are kept.
pub open spec fn fresh<B>(ready: Map<u64, (B, u128)>, now: u128) -> Map<u64, (B, u128)> {
    Map::new(
        |key: u64| ready.dom().contains(key) && is_fresh(ready[key].1, now),
        |key: u64| ready[key],
    )
}

/// What becomes of a request for a buffer.
#[derive(Clone, Copy, Debug, PartialEq, Eq, Structural)]
pub enum BufferRequest {
    /// The buffer is there.
    Ready,
    /// A job goes to the worker.
    Enqueue,
    /// The worker is at it.
    Pending,
    /// There is no worker: the buffer is drawn at once.
    DrawNow,
}

impl<B> BufferState<B> {
    /// What becomes of a request.
    pub open spec fn answer(self, key: u64, now: u128) -> BufferRequest {
        if fresh(self.ready, now).dom().contains(key) {
            BufferRequest::Ready
        } else if !self.has_worker {
            BufferRequest::DrawNow
        } else if self.in_flight.contains(key) {
            BufferRequest::Pending
        } else {
            BufferRequest::Enqueue
        }
    }

    /// The state after a request.
    pub open spec fn requested(self, key: u64, now: u128) -> BufferState<B> {
        let ready = fresh(self.ready, now);
        match self.answer(key, now) {
            BufferRequest::Ready => BufferState {
                ready: ready.insert(key, (ready[key].0, now)),
                ..self
            },
            BufferRequest::Enqueue => BufferState {
                ready,
                in_flight: self.in_flight.insert(key),
                ..self
            },
            _ => BufferState { ready, ..self },
        }
    }

    /// The state after the worker has drawn a buffer.
    pub open spec fn delivered(self, key: u64, buffer: B, now: u128) -> BufferState<B> {
        BufferState {
            ready: self.ready.insert(key, (buffer, now)),
            in_flight: self.in_flight.remove(key),
            ..self
        }
    }

    /// The state after the worker found nothing to draw.
    pub open spec fn missed(self, key: u64) -> BufferState<B> {
        BufferState { in_flight: self.in_flight.remove(key), ..self }
    }
}

/// Buffers that a worker draws. Each is kept with the time of its last use.
pub struct AsyncBuffers<B> {
    ready: HashMap<u64, (B, u128)>,
    in_flight: HashSet<u64>,
    has_worker: bool,
}

impl<B> View for AsyncBuffers<B> {
    type V = BufferState<B>;

    closed spec fn view(&self) -> BufferState<B> {
        BufferState {
            ready: self.ready@,
            in_flight: self.in_flight@,
            has_worker: self.has_worker,
        }
    }
}

impl<B> AsyncBuffers<B> {
    /// No buffers yet.
    pub fn new(has_worker: bool) -> (buffers: AsyncBuffers<B>)
        ensures
            buffers@ == (BufferState::<B> {
                ready: Map::empty(),
                in_flight: Set::empty(),
                has_worker,
            }),
    {
        let buffers = AsyncBuffers { ready: HashMap::new(), in_flight: HashSet::new(), has_worker };
        assert(buffers@.in_flight =~= Set::<u64>::empty());
        buffers
    }

    /// The buffer of a key.
    pub fn get(&self, key: u64) -> (buffer: Option<&B>)
        ensures
            match buffer {
                Some(buffer) => self@.ready.dom().contains(key) && *buffer == self@.ready[key].0,
                None => !self@.ready.dom().contains(key),
            },
    {
        match self.ready.get(&key) {
            Some(entry) => Some(&entry.0),
            None => None,
        }
    }

    /// The keys of the buffers that were not used lately.
    fn stale_keys(&self, now: u128) -> (stale: Vec<u64>)
        ensures
            forall|key: u64|
                #[trigger] stale@.contains(key) <==> self@.ready.dom().contains(key) && !is_fresh(
                    self@.ready[key].1,
                    now,
                ),
    {
        let mut stale: Vec<u64> = Vec::new();
        for key in iter: self.ready.keys()
            invariant
                iter.seq().unref().to_set() == self.ready@.dom(),
                forall|k: u64|
                    #[trigger] stale@.contains(k) ==> self.ready@.dom().contains(k) && !is_fresh(
                        self.ready@[k].1,
                        now,
                    ),
                forall|i: int|
                    0 <= i < iter.index() ==> is_fresh(
                        self.ready@[#[trigger] iter.seq().unref()[i]].1,
                        now,
                    ) || stale@.contains(iter.seq().unref()[i]),
        {
            let ghost keys = iter.seq().unref();
            let ghost at = iter.index();
            let ghost before = stale@;
            assert(keys[at] == *key);
            assert(keys.to_set().contains(*key));
            if let Some(entry) = self.ready.get(key) {
                let last: u128 = entry.1;
                if now > last && now - last > BUFFER_TTL {
                    stale.push(*key);
                    assert(stale@[before.len() as int] == *key);
                    assert forall|k: u64| #[trigger] stale@.contains(k) implies before.contains(k)
                        || k == *key by {
                    }
                    assert forall|k: u64| #[trigger] before.contains(k) implies stale@.contains(
                        k,
                    ) by {
                        let i = choose|i: int| 0 <= i < before.len() && before[i] == k;
                        assert(stale@[i] == k);
                    }
                }
            }
        }
        stale
    }

    /// Forgets the buffers that were not used lately.
    pub fn prune_async_buffers(&mut self, now: u128)
        ensures
            final(self)@ == (BufferState { ready: fresh(old(self)@.ready, now), ..old(self)@ }),
    {
        let stale = self.stale_keys(now);
        let ghost all = self@.ready;
        let mut i: usize = 0;
        assert(self@.ready =~= all.remove_keys(stale@.take(0).to_set()));
        while i < stale.len()
            invariant
                i <= stale@.len(),
                self.in_flight == old(self).in_flight,
                self.has_worker == old(self).has_worker,
                self@.ready == all.remove_keys(stale@.take(i as int).to_set()),
            decreases stale@.len() - i,
        {
            let ghost before = stale@.take(i as int);
            let gone = self.ready.remove(&stale[i]);
            i += 1;
            proof {
                assert(stale@.take(i as int) =~= before.push(stale@[i - 1]));
                assert(stale@.take(i as int).to_set() =~= before.to_set().insert(stale@[i - 1])) by {
                    assert forall|k: u64|
                        #[trigger] stale@.take(i as int).to_set().contains(k)
                            == before.to_set().insert(stale@[i - 1]).contains(k) by {
                        if before.contains(k) {
                            let j = choose|j: int| 0 <= j < before.len() && before[j] == k;
                            assert(stale@.take(i as int)[j] == k);
                        }
                        assert(stale@.take(i as int)[i - 1] == stale@[i - 1]);
                    }
                }
                assert(self@.ready =~= all.remove_keys(stale@.take(i as int).to_set()));
            }
        }
        assert(stale@.take(i as int) =~= stale@);
        assert(self@.ready =~= fresh(all, now)) by {
            assert forall|k: u64| #[trigger] stale@.to_set().contains(k) == stale@.contains(k) by {
            }
        }
    }

    /// Decides what becomes of a request for a buffer.
    pub fn request(&mut self, key: u64, now: u128) -> (answer: BufferRequest)
        ensures
            answer == old(self)@.answer(key, now),
            final(self)@ == old(self)@.requested(key, now),
    {
        self.prune_async_buffers(now);
        let ghost ready = self@.ready;
        match self.ready.remove(&key) {
            Some(entry) => {
                let used = self.ready.insert(key, (entry.0, now));
                assert(self@.ready =~= ready.insert(key, (ready[key].0, now)));
                BufferRequest::Ready
            },
            None => {
                assert(self@.ready =~= ready);
                if !self.has_worker {
                    return BufferRequest::DrawNow;
                }
                if self.in_flight.contains(&key) {
                    assert(self@.in_flight =~= old(self)@.in_flight);
                    BufferRequest::Pending
                } else {
                    let fresh_key = self.in_flight.insert(key);
                    BufferRequest::Enqueue
                }
            },
        }
    }

    /// Takes a buffer that the worker has drawn.
    pub fn handle_async_ready(&mut self, key: u64, buffer: B, now: u128)
        ensures
            final(self)@ == old(self)@.delivered(key, buffer, now),
    {
        let was_in_flight = self.in_flight.remove(&key);
        assert(self.in_flight@ =~= old(self)@.in_flight.remove(key));
        let before = self.ready.insert(key, (buffer, now));
    }

    /// Takes note that the worker found nothing to draw.
    pub fn handle_async_miss(&mut self, key: u64)
        ensures
            final(self)@ == old(self)@.missed(key),
    {
        let was_in_flight = self.in_flight.remove(&key);
        assert(self.in_flight@ =~= old(self)@.in_flight.remove(key));
    }
}

/// While the worker is at a buffer, requests for it send no further job.
pub proof fn law_job_is_sent_once<B>(state: BufferState<B>, key: u64, now: u128, later: u128)
    requires
        state.answer(key, now) == BufferRequest::Enqueue,
    ensures
        state.requested(key, now).answer(key, later) == BufferRequest::Pending,
{
    assert(!fresh(state.requested(key, now).ready, later).dom().contains(key));
}

/// A buffer that the worker has drawn answers requests for as long as the pauses between them are
/// short.
pub proof fn law_delivered_buffer_is_ready<B>(
    state: BufferState<B>,
    key: u64,
    buffer: B,
    now: u128,
    later: u128,
)
    requires
        is_fresh(now, later),
    ensures
        state.delivered(key, buffer, now).answer(key, later) == BufferRequest::Ready,
        state.delivered(key, buffer, now).requested(key, later).ready[key] == (buffer, later),
{
}

/// After the worker found nothing, the next request sends it a job again.
pub proof fn law_miss_is_tried_again<B>(state: BufferState<B>, key: u64, now: u128)
    requires
        state.has_worker,
        !state.ready.dom().contains(key),
    ensures
        state.missed(key).answer(key, now) == BufferRequest::Enqueue,
{
}

/// A request never touches the buffers of other keys that are still kept.
pub proof fn law_request_keeps_others<B>(state: BufferState<B>, key: u64, other: u64, now: u128)
    requires
        key != other,
        state.ready.dom().contains(other),
        is_fresh(state.ready[other].1, now),
    ensures
        state.requested(key, now).ready.dom().contains(other),
        state.requested(key, now).ready[other] == state.ready[other],
{
}

/// A buffer answers requests up to five seconds after it was last used, and no longer.
pub proof fn law_unused_buffers_are_forgotten<B>(
    state: BufferState<B>,
    key: u64,
    buffer: B,
    used: u128,
    now: u128,
)
    requires
        state.ready.dom().contains(key),
        state.ready[key] == (buffer, used),
        used <= now,
    ensures
        now - used <= 5_000_000_000 ==> state.answer(key, now) == BufferRequest::Ready
            && state.requested(key, now).ready[key] == (buffer, now),
        now - used > 5_000_000_000 ==> state.answer(key, now) != BufferRequest::Ready
            && !state.requested(key, now).ready.dom().contains(key),
{
}

/// A buffer that is not there is drawn at once without a worker. With one, a job is sent for it exactly if the worker is not
/// at it, and then the worker is.
pub proof fn law_missing_buffers_are_drawn<B>(state: BufferState<B>, key: u64, now: u128)
    requires
        !state.ready.dom().contains(key),
    ensures
        !state.has_worker ==> state.answer(key, now) == BufferRequest::DrawNow,
        state.has_worker && state.in_flight.contains(key) ==> state.answer(key, now)
            == BufferRequest::Pending,
        state.has_worker && !state.in_flight.contains(key) ==> state.answer(key, now)
            == BufferRequest::Enqueue,
        state.requested(key, now).in_flight.contains(key) <==> state.in_flight.contains(key)
            || state.has_worker,
        state.requested(key, now).has_worker == state.has_worker,
{
}

/// What the worker brings or misses ends the wait for its key, and for no other.
pub proof fn law_worker_ends_the_wait<B>(
    state: BufferState<B>,
    key: u64,
    other: u64,
    buffer: B,
    now: u128,
)
    ensures
        !state.delivered(key, buffer, now).in_flight.contains(key),
        !state.missed(key).in_flight.contains(key),
        other != key ==> state.delivered(key, buffer, now).in_flight.contains(other)
            == state.in_flight.contains(other) && state.missed(key).in_flight.contains(other)
            == state.in_flight.contains(other),
        state.missed(key).ready == state.ready,
        other != key && state.ready.dom().contains(other) ==> state.delivered(
            key,
            buffer,
            now,
        ).ready[other] == state.ready[other],
        state.delivered(key, buffer, now).has_worker == state.has_worker,
{
}

} // verus!
