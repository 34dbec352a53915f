//! Which surfaces are told of a frame.

use vstd::prelude::*;

verus! {

/// The output and the refresh cycle for which a surface last got a frame callback.
#[derive(Clone, Copy, Debug, PartialEq, Eq)]
pub struct SurfaceFrameThrottlingState {
    pub last_sent_at: Option<(u64, u32)>,
}

impl Default for SurfaceFrameThrottlingState {
    fn default() -> (state: SurfaceFrameThrottlingState)
        ensures
            state.last_sent_at is None,
    {
        SurfaceFrameThrottlingState { last_sent_at: None }
    }
}

impl SurfaceFrameThrottlingState {
    /// A surface gets a frame callback for an output: the output is the one on which it is mainly
    /// shown, and it has got none in this refresh cycle yet.
    pub open spec fn sends(
        self,
        output: u64,
        primary_output: Option<u64>,
        sequence: Option<u32>,
    ) -> bool {
        &&& primary_output == Some(output)
        &&& sequence matches Some(sequence) ==> self.last_sent_at != Some((output, sequence))
    }

    /// The state after a frame callback was sent or not.
    pub open spec fn after(
        self,
        output: u64,
        primary_output: Option<u64>,
        sequence: Option<u32>,
    ) -> SurfaceFrameThrottlingState {
        match sequence {
            Some(sequence) if self.sends(output, primary_output, Some(sequence)) => {
                SurfaceFrameThrottlingState { last_sent_at: Some((output, sequence)) }
            },
            _ => self,
        }
    }

    /// Decides whether a surface gets a frame callback for a refresh cycle of an output, and notes
    /// it. Without a sequence number the cycles are not told apart.
    pub fn should_send(
        &mut self,
        output: u64,
        primary_output: Option<u64>,
        sequence: Option<u32>,
    ) -> (send: bool)
        ensures
            send == old(self).sends(output, primary_output, sequence),
            *final(self) == old(self).after(output, primary_output, sequence),
    {
        match primary_output {
            Some(primary) => if primary != output {
                return false;
            },
            None => return false,
        }
        if let Some(sequence) = sequence {
            if let Some((last_output, last_sequence)) = self.last_sent_at {
                if last_output == output && last_sequence == sequence {
                    return false;
                }
            }
            self.last_sent_at = Some((output, sequence));
        }
        true
    }
}

/// In one refresh cycle of an output a surface gets one frame callback, however often it is asked
/// for.
pub proof fn law_one_callback_per_cycle(
    state: SurfaceFrameThrottlingState,
    output: u64,
    primary_output: Option<u64>,
    sequence: u32,
)
    ensures
        !state.after(output, primary_output, Some(sequence)).sends(
            output,
            primary_output,
            Some(sequence),
        ),
{
}

/// The next refresh cycle brings the next frame callback, as long as the surface is shown there.
pub proof fn law_next_cycle_calls_back(
    state: SurfaceFrameThrottlingState,
    output: u64,
    sequence: u32,
    next: u32,
)
    requires
        sequence != next,
        state.sends(output, Some(output), Some(sequence)),
    ensures
        state.after(output, Some(output), Some(sequence)).sends(output, Some(output), Some(next)),
{
}

/// A surface is called back only for the output on which it is mainly shown; there it is for every cycle that it
/// was not called back for, and always where the cycles are not told apart. What it was called back for is noted,
/// and nothing else is.
pub proof fn law_callbacks_go_to_the_main_output(
    state: SurfaceFrameThrottlingState,
    output: u64,
    primary_output: Option<u64>,
    sequence: Option<u32>,
)
    ensures
        primary_output != Some(output) ==> !state.sends(output, primary_output, sequence)
            && state.after(output, primary_output, sequence) == state,
        state.sends(output, Some(output), None),
        state.after(output, primary_output, None) == state,
        sequence is Some && state.last_sent_at != Some((output, sequence->0)) ==> state.sends(
            output,
            Some(output),
            sequence,
        ) && state.after(output, Some(output), sequence).last_sent_at == Some(
            (output, sequence->0),
        ),
        sequence is Some && state.last_sent_at == Some((output, sequence->0)) ==> !state.sends(
            output,
            Some(output),
            sequence,
        ),
{
}

/// No item occurs twice.
pub open spec fn distinct(items: Seq<u64>) -> bool {
    forall|i: int, j: int| 0 <= i < j < items.len() ==> #[trigger] items[i] != #[trigger] items[j]
}

/// The clients of the surfaces that were released, each once, in the order in which they were
/// first met. A pair holds a client and whether a barrier of its surface was signalled.
pub open spec fn released(surfaces: Seq<(u64, bool)>) -> Seq<u64>
    decreases surfaces.len(),
{
    if surfaces.len() == 0 {
        Seq::empty()
    } else {
        let before = released(surfaces.drop_last());
        let (client, signalled) = surfaces.last();
        if signalled && !before.contains(client) {
            before.push(client)
        } else {
            before
        }
    }
}

/// Collects the clients whose blocked commits can go on.
pub fn released_clients(surfaces: &Vec<(u64, bool)>) -> (clients: Vec<u64>)
    ensures
        clients@ == released(surfaces@),
{
    let mut clients: Vec<u64> = Vec::new();
    let mut i: usize = 0;
    while i < surfaces.len()
        invariant
            i <= surfaces@.len(),
            clients@ == released(surfaces@.take(i as int)),
        decreases surfaces@.len() - i,
    {
        assert(surfaces@.take(i + 1).drop_last() =~= surfaces@.take(i as int));
        let (client, signalled) = surfaces[i];
        if signalled {
            let mut known: bool = false;
            let mut k: usize = 0;
            while k < clients.len() && !known
                invariant
                    k <= clients@.len(),
                    known ==> clients@.contains(client),
                    !known ==> forall|j: int| 0 <= j < k ==> #[trigger] clients@[j] != client,
                decreases clients@.len() - k + (if known {
                    0int
                } else {
                    1int
                }),
            {
                if clients[k] == client {
                    known = true;
                } else {
                    k += 1;
                }
            }
            if !known {
                clients.push(client);
            }
        }
        i += 1;
    }
    assert(surfaces@.take(i as int) =~= surfaces@);
    clients
}

/// Every client with a signalled surface goes on, no other one, and none twice.
pub proof fn law_released_clients(surfaces: Seq<(u64, bool)>, client: u64)
    ensures
        distinct(released(surfaces)),
        released(surfaces).contains(client) <==> surfaces.contains((client, true)),
    decreases surfaces.len(),
{
    if surfaces.len() > 0 {
        let head = surfaces.drop_last();
        let last = surfaces.last();
        law_released_clients(head, client);
        let before = released(head);
        let out = released(surfaces);
        assert forall|i: int, j: int| 0 <= i < j < out.len() implies #[trigger] out[i]
            != #[trigger] out[j] by {
            if j < before.len() {
                assert(before[i] != before[j]);
            } else {
                assert(before[i] == out[i]);
                assert(before.contains(out[i]));
            }
        }
        if out.contains(client) && !before.contains(client) {
            let i = choose|i: int| 0 <= i < out.len() && out[i] == client;
            if i < before.len() {
                assert(before[i] == client);
            }
            assert(surfaces[surfaces.len() - 1] == (client, true));
        }
        if before.contains(client) {
            let i = choose|i: int| 0 <= i < before.len() && before[i] == client;
            assert(out[i] == client);
            let k = choose|k: int| 0 <= k < head.len() && head[k] == (client, true);
            assert(surfaces[k] == (client, true));
        }
        if surfaces.contains((client, true)) && !head.contains((client, true)) {
            let k = choose|k: int| 0 <= k < surfaces.len() && surfaces[k] == (client, true);
            if k < head.len() {
                assert(head[k] == (client, true));
            }
            assert(out[out.len() - 1] == client);
        }
    }
}

} // verus!
