//! The set of monitored targets, replaced whole on every successful sync.
use vstd::prelude::*;

verus! {

/// A monitored endpoint; its identity is `id` within `prefix`.
#[derive(Clone, Debug)]
pub struct Target {
    pub id: String,
    pub address: String,
    pub prefix: String,
}

/// The entries of a fetched list that parsed, in their order.
pub open spec fn parsed_entries(entries: Seq<Option<Target>>) -> Seq<Target>
    decreases entries.len(),
{
    if entries.len() == 0 {
        Seq::empty()
    } else {
        let rest = parsed_entries(entries.drop_last());
        match entries.last() {
            Some(t) => rest.push(t),
            None => rest,
        }
    }
}

/// Keeps the entries that parsed and skips the malformed ones.
pub fn collect_targets(entries: Vec<Option<Target>>) -> (r: Vec<Target>)
    ensures
        r@ == parsed_entries(entries@),
{
    let mut r: Vec<Target> = Vec::new();
    let mut rest = entries;
    let ghost all = rest@;
    while rest.len() > 0
        invariant
            rest@.len() <= all.len(),
            rest@ == all.subrange(all.len() - rest@.len(), all.len() as int),
            r@ == parsed_entries(all.subrange(0, all.len() - rest@.len())),
        decreases rest@.len(),
    {
        let ghost n = all.len() - rest@.len();
        let e = rest.remove(0);
        proof {
            assert(e == all[n]);
            assert(all.subrange(0, n + 1).drop_last() =~= all.subrange(0, n));
            assert(rest@ =~= all.subrange(n + 1, all.len() as int));
        }
        match e {
            Some(t) => r.push(t),
            None => {},
        }
    }
    proof {
        assert(all.subrange(0, all.len() as int) =~= all);
    }
    r
}

/// The shared target set. A pass reads it as one snapshot; a sync replaces it
/// whole, or leaves it as it was when the provider could not be read.
pub struct TargetSet {
    pub targets: Vec<Target>,
}

impl TargetSet {
    pub fn new() -> (r: TargetSet)
        ensures
            r.targets@.len() == 0,
    {
        TargetSet { targets: Vec::new() }
    }

    /// Applies the outcome of one sync: a fetched list replaces the set, a
    /// failed fetch (`None`) keeps the previous one.
    pub fn apply_sync(&mut self, fetched: Option<Vec<Target>>)
        ensures
            final(self).targets@ == (match fetched {
                Some(v) => v@,
                None => old(self).targets@,
            }),
    {
        match fetched {
            Some(v) => {
                self.targets = v;
            },
            None => {},
        }
    }
}

} // verus!
