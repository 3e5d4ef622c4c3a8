//! Decisions of the probe loop: what a reply or its absence records, and the
//! sequence numbers handed to each tick's probes.
use vstd::prelude::*;
use crate::metrics::{CEILING_US, Sample};
use crate::registry::Target;
use crate::clock::now_millis;

verus! {

pub open spec fn latency_for(rtt_us: Option<u64>) -> u64 {
    match rtt_us {
        Some(t) => if t > CEILING_US { CEILING_US } else { t },
        None => CEILING_US,
    }
}

/// The latency recorded for a probe: the round-trip time clamped to the
/// ceiling, or the ceiling itself when no reply came in time.
pub fn latency_from_reply(rtt_us: Option<u64>) -> (r: u64)
    ensures
        r == latency_for(rtt_us),
{
    match rtt_us {
        Some(t) => if t > CEILING_US { CEILING_US } else { t },
        None => CEILING_US,
    }
}

/// The sample recorded for a probe sent at `ts`.
pub fn probe_sample(ts: i64, rtt_us: Option<u64>) -> (r: Sample)
    ensures
        r == (Sample { ts, latency_us: latency_for(rtt_us) }),
        r.latency_us <= CEILING_US,
{
    Sample { ts, latency_us: latency_from_reply(rtt_us) }
}

/// The moment a probe was sent.
pub struct ProbeStart {
    pub ts: i64,
}

impl ProbeStart {
    /// Takes the current time as the probe's timestamp.
    pub fn now() -> ProbeStart {
        ProbeStart { ts: now_millis() }
    }

    /// The sample for this probe once its outcome is known.
    pub fn finish(&self, rtt_us: Option<u64>) -> (r: Sample)
        ensures
            r == (Sample { ts: self.ts, latency_us: latency_for(rtt_us) }),
    {
        probe_sample(self.ts, rtt_us)
    }
}

pub open spec fn seq_after(s: u16, k: int) -> u16 {
    ((s as int + k) % 0x10000) as u16
}

/// Hands out echo sequence numbers; they wrap around after 65535.
pub struct ProbeScheduler {
    pub sequence: u16,
}

impl ProbeScheduler {
    pub fn new() -> (r: ProbeScheduler)
        ensures
            r.sequence == 0,
    {
        ProbeScheduler { sequence: 0 }
    }

    /// Advances the counter and returns its new value.
    pub fn next_sequence(&mut self) -> (r: u16)
        ensures
            final(self).sequence == seq_after(old(self).sequence, 1),
            r == final(self).sequence,
    {
        self.sequence = self.sequence.wrapping_add(1);
        self.sequence
    }

    /// The sequence numbers for one tick: one per target, in order, each the
    /// next value of the counter.
    pub fn plan_tick(&mut self, targets: &[Target]) -> (r: Vec<u16>)
        ensures
            r@.len() == targets@.len(),
            forall|k: int| 0 <= k < r@.len() ==> r@[k] == seq_after(old(self).sequence, k + 1),
            final(self).sequence == seq_after(old(self).sequence, targets@.len() as int),
    {
        let ghost start = self.sequence;
        let mut r: Vec<u16> = Vec::new();
        let mut i: usize = 0;
        while i < targets.len()
            invariant
                0 <= i <= targets@.len(),
                r@.len() == i,
                forall|k: int| 0 <= k < i ==> r@[k] == seq_after(start, k + 1),
                self.sequence == seq_after(start, i as int),
            decreases targets@.len() - i,
        {
            let s = self.next_sequence();
            proof {
                assert(seq_after(seq_after(start, i as int), 1) == seq_after(start, i + 1));
            }
            r.push(s);
            i = i + 1;
        }
        r
    }
}

} // verus!
