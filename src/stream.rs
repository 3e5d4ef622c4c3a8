//! Retention of a per-target sample stream: every append is followed by a
//! trim that keeps only the most recent entries.
use vstd::prelude::*;
use crate::metrics::Sample;

verus! {

/// Entries kept per stream: one day at one probe every five seconds.
pub const MAX_RETAINED: usize = 17280;

/// The last `m` entries of `s`, or all of them when there are fewer.
pub open spec fn retained(s: Seq<Sample>, m: nat) -> Seq<Sample> {
    if s.len() <= m {
        s
    } else {
        s.subrange(s.len() - m, s.len() as int)
    }
}

/// The entries after appending each of `xs` in turn, trimming after each.
pub open spec fn append_each(s: Seq<Sample>, xs: Seq<Sample>, m: nat) -> Seq<Sample>
    decreases xs.len(),
{
    if xs.len() == 0 {
        s
    } else {
        retained(append_each(s, xs.drop_last(), m).push(xs.last()), m)
    }
}

/// A bounded stream of samples, oldest first.
pub struct SampleStream {
    pub entries: Vec<Sample>,
    pub max_len: usize,
}

impl SampleStream {
    pub open spec fn wf(&self) -> bool {
        self.entries@.len() <= self.max_len
    }

    /// An empty stream that keeps at most `max_len` entries.
    pub fn new(max_len: usize) -> (r: SampleStream)
        ensures
            r.wf(),
            r.entries@.len() == 0,
            r.max_len == max_len,
    {
        SampleStream { entries: Vec::new(), max_len }
    }

    /// Appends `x`, then trims the stream to its maximum length from the head.
    pub fn append(&mut self, x: Sample)
        requires
            old(self).wf(),
        ensures
            final(self).wf(),
            final(self).max_len == old(self).max_len,
            final(self).entries@ == retained(old(self).entries@.push(x), old(self).max_len as nat),
    {
        let ghost pushed = self.entries@.push(x);
        self.entries.push(x);
        if self.entries.len() > self.max_len {
            self.entries.remove(0);
            proof {
                assert(self.entries@ =~= pushed.subrange(pushed.len() - self.max_len, pushed.len() as int));
            }
        }
    }
}

proof fn lemma_retained_push(a: Seq<Sample>, x: Sample, m: nat)
    ensures
        retained(retained(a, m).push(x), m) == retained(a.push(x), m),
{
    if a.len() > m {
        assert(retained(retained(a, m).push(x), m) =~= retained(a.push(x), m));
    }
}

/// Appending samples one at a time to a stream that holds at most `m` leaves
/// exactly the `m` most recent of everything appended, the oldest evicted
/// first.
pub proof fn lemma_appends_keep_most_recent(s: Seq<Sample>, xs: Seq<Sample>, m: nat)
    requires
        s.len() <= m,
    ensures
        append_each(s, xs, m) == retained(s + xs, m),
        append_each(s, xs, m).len() == (if s.len() + xs.len() <= m { (s.len() + xs.len()) as int } else { m as int }),
    decreases xs.len(),
{
    if xs.len() == 0 {
        assert(s + xs =~= s);
    } else {
        lemma_appends_keep_most_recent(s, xs.drop_last(), m);
        lemma_retained_push(s + xs.drop_last(), xs.last(), m);
        assert((s + xs.drop_last()).push(xs.last()) =~= s + xs);
    }
}

} // verus!
