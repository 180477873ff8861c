//! The occurrence counters of one normalisation call: for each base name
//! seen, how often it has been claimed.

use vstd::prelude::*;

verus! {

/// The map that the first `n` entries make.
pub open spec fn entries_map(names: Seq<String>, counts: Seq<usize>, n: nat) -> Map<
    Seq<char>,
    nat,
>
    decreases n,
{
    if n == 0 {
        Map::empty()
    } else {
        entries_map(names, counts, (n - 1) as nat).insert(
            names[n - 1]@,
            counts[n - 1] as nat,
        )
    }
}

/// A mapping from base name to the number of times it has been claimed.
/// It lives for one batch of columns and is empty at the start of it. The
/// entries are kept in two vectors and searched in order: what vstd states
/// of a hash map holds only for keys with a key model, which it gives to
/// integers and not to strings.
pub struct ColumnNameRegistry {
    names: Vec<String>,
    counts: Vec<usize>,
}

impl View for ColumnNameRegistry {
    type V = Map<Seq<char>, nat>;

    closed spec fn view(&self) -> Map<Seq<char>, nat> {
        entries_map(self.names@, self.counts@, self.names@.len())
    }
}

impl ColumnNameRegistry {
    /// Each name has one counter, no name stands twice, and no counter is 0.
    pub closed spec fn well_formed(&self) -> bool {
        &&& self.names@.len() == self.counts@.len()
        &&& forall|i: int, j: int|
            0 <= i < j < self.names@.len() ==> (#[trigger] self.names@[i])@
                != (#[trigger] self.names@[j])@
        &&& forall|i: int| 0 <= i < self.counts@.len() ==> #[trigger] self.counts@[i] >= 1
    }

    /// How often `base` has been claimed: 0 for a name never seen.
    pub open spec fn count_of(&self, base: Seq<char>) -> nat {
        if self@.dom().contains(base) {
            self@[base]
        } else {
            0
        }
    }

    /// A registry in which no name has been claimed.
    pub fn new() -> (registry: ColumnNameRegistry)
        ensures
            registry.well_formed(),
            registry@ == Map::<Seq<char>, nat>::empty(),
    {
        ColumnNameRegistry { names: Vec::new(), counts: Vec::new() }
    }

    /// Claims `base` once more and tells how often it had been claimed
    /// before.
    pub fn claim(&mut self, base: String) -> (before: usize)
        requires
            old(self).well_formed(),
            old(self).count_of(base@) < usize::MAX,
        ensures
            final(self).well_formed(),
            before == old(self).count_of(base@),
            final(self)@ == old(self)@.insert(base@, (before + 1) as nat),
    {
        let total = self.names.len();
        let mut j: usize = 0;
        while j < total
            invariant
                j <= total == self.names@.len(),
                self.well_formed(),
                *self == *old(self),
                old(self).count_of(base@) < usize::MAX,
                forall|k: int| 0 <= k < j ==> (#[trigger] self.names@[k])@ != base@,
            decreases total - j,
        {
            if self.names[j] == base {
                let before = self.counts[j];
                proof {
                    lemma_entry_found(self.names@, self.counts@, total as nat, j as int);
                }
                self.counts.set(j, before + 1);
                proof {
                    lemma_entry_updated(
                        old(self).names@,
                        old(self).counts@,
                        total as nat,
                        j as int,
                        (before + 1) as usize,
                    );
                }
                return before;
            }
            j += 1;
        }
        proof {
            lemma_entry_absent(self.names@, self.counts@, total as nat, base@);
        }
        self.names.push(base);
        self.counts.push(1);
        proof {
            lemma_entries_extend(
                old(self).names@,
                old(self).counts@,
                self.names@,
                self.counts@,
                total as nat,
            );
        }
        0
    }
}

/// The map of the first `n` entries has exactly their names as its domain.
pub proof fn lemma_entries_dom(names: Seq<String>, counts: Seq<usize>, n: nat, base: Seq<char>)
    requires
        n <= names.len(),
    ensures
        entries_map(names, counts, n).dom().contains(base) <==> exists|k: int|
            0 <= k < n && (#[trigger] names[k])@ == base,
    decreases n,
{
    if n > 0 {
        lemma_entries_dom(names, counts, (n - 1) as nat, base);
        if names[n - 1]@ == base {
            assert(0 <= n - 1 < n && names[n - 1]@ == base);
        }
    }
}

/// A name that no entry holds is not in the map.
pub proof fn lemma_entry_absent(names: Seq<String>, counts: Seq<usize>, n: nat, base: Seq<char>)
    requires
        n <= names.len(),
        forall|k: int| 0 <= k < n ==> (#[trigger] names[k])@ != base,
    ensures
        !entries_map(names, counts, n).dom().contains(base),
{
    lemma_entries_dom(names, counts, n, base);
}

/// Where no name stands twice, the map gives each name its own counter.
pub proof fn lemma_entry_found(names: Seq<String>, counts: Seq<usize>, n: nat, j: int)
    requires
        n <= names.len(),
        0 <= j < n,
        forall|a: int, b: int| 0 <= a < b < n ==> (#[trigger] names[a])@ != (#[trigger] names[b])@,
    ensures
        entries_map(names, counts, n).dom().contains(names[j]@),
        entries_map(names, counts, n)[names[j]@] == counts[j] as nat,
    decreases n,
{
    if j < n - 1 {
        lemma_entry_found(names, counts, (n - 1) as nat, j);
        assert(names[j]@ != names[n - 1]@);
    }
}

/// Changing the counter of one entry changes the map at that name alone.
pub proof fn lemma_entry_updated(
    names: Seq<String>,
    counts: Seq<usize>,
    n: nat,
    j: int,
    value: usize,
)
    requires
        n <= names.len(),
        n <= counts.len(),
        0 <= j < n,
        forall|a: int, b: int| 0 <= a < b < n ==> (#[trigger] names[a])@ != (#[trigger] names[b])@,
    ensures
        entries_map(names, counts.update(j, value), n) == entries_map(names, counts, n).insert(
            names[j]@,
            value as nat,
        ),
    decreases n,
{
    let changed = counts.update(j, value);
    if j == n - 1 {
        lemma_entries_same(names, counts, changed, (n - 1) as nat);
        assert(entries_map(names, changed, n) =~= entries_map(names, counts, n).insert(
            names[j]@,
            value as nat,
        ));
    } else {
        lemma_entry_updated(names, counts, (n - 1) as nat, j, value);
        assert(names[j]@ != names[n - 1]@);
        assert(entries_map(names, changed, n) =~= entries_map(names, counts, n).insert(
            names[j]@,
            value as nat,
        ));
    }
}

/// The map of the first `n` entries depends on those entries alone.
pub proof fn lemma_entries_same(
    names: Seq<String>,
    counts: Seq<usize>,
    other_counts: Seq<usize>,
    n: nat,
)
    requires
        n <= counts.len(),
        n <= other_counts.len(),
        forall|k: int| 0 <= k < n ==> counts[k] == other_counts[k],
    ensures
        entries_map(names, counts, n) == entries_map(names, other_counts, n),
    decreases n,
{
    if n > 0 {
        lemma_entries_same(names, counts, other_counts, (n - 1) as nat);
    }
}

/// Longer sequences that agree on the first `n` entries make the same map of
/// them.
pub proof fn lemma_entries_extend(
    names: Seq<String>,
    counts: Seq<usize>,
    more_names: Seq<String>,
    more_counts: Seq<usize>,
    n: nat,
)
    requires
        n <= names.len() <= more_names.len(),
        n <= counts.len() <= more_counts.len(),
        forall|k: int| 0 <= k < n ==> names[k] == more_names[k] && counts[k] == more_counts[k],
    ensures
        entries_map(names, counts, n) == entries_map(more_names, more_counts, n),
    decreases n,
{
    if n > 0 {
        lemma_entries_extend(names, counts, more_names, more_counts, (n - 1) as nat);
    }
}

} // verus!
