//! Split strategies: the policy that decides where a generated module ends.
use vstd::prelude::*;

verus! {

/// What a split strategy may look at when a resource is registered.
pub struct ResourceInfo {
    /// Logical key of the resource: its path relative to the project root.
    pub path: String,
    /// Size of the resource in bytes.
    pub size: u64,
    /// Modification time, in seconds since the Unix epoch.
    pub modified: u64,
}

/// Defines the split strategie.
///
/// A strategy is described by three spec functions: whether a split is due in
/// a given state, and the state after registering a resource or after a reset.
/// Since `should_split` is stated through `split_due`, asking it again without
/// a `register` or `reset` in between gives the same answer.
pub trait SetSplitStrategie: Sized {
    /// Whether a new module should be started in this state.
    spec fn split_due(&self) -> bool;

    /// The state after `item` has been registered.
    spec fn registered(&self, item: ResourceInfo) -> Self;

    /// The state after a reset.
    spec fn cleared(&self) -> Self;

    /// Register next file from resources.
    fn register(&mut self, item: &ResourceInfo)
        ensures
            *final(self) == old(self).registered(*item),
    ;

    /// Determine, should we split modules now.
    fn should_split(&self) -> (r: bool)
        ensures
            r == self.split_due(),
    ;

    /// Resets internal counters after split.
    fn reset(&mut self)
        ensures
            *final(self) == old(self).cleared(),
    ;
}

/// Split modules by files count.
pub struct SplitByCount {
    current: usize,
    max: usize,
}

impl SplitByCount {
    /// Number of resources registered since the last reset.
    pub closed spec fn current(&self) -> nat {
        self.current as nat
    }

    /// Number of resources after which a split is due.
    pub closed spec fn max(&self) -> nat {
        self.max as nat
    }

    /// A strategy that splits after every `max` resources.
    #[must_use]
    pub fn new(max: usize) -> (r: Self)
        ensures
            r.current() == 0,
            r.max() == max,
    {
        Self { current: 0, max }
    }
}

impl SplitByCount {
    /// How the count-based strategy moves: a split is due once `max`
    /// resources were registered, `register` adds one (short of `usize::MAX`)
    /// and `reset` goes back to zero; `max` never changes.
    pub proof fn lemma_transitions(self, item: ResourceInfo)
        ensures
            self.split_due() == (self.current() >= self.max()),
            self.current() < usize::MAX ==> self.registered(item).current() == self.current() + 1,
            self.current() == usize::MAX ==> self.registered(item).current() == self.current(),
            self.registered(item).max() == self.max(),
            self.cleared().current() == 0,
            self.cleared().max() == self.max(),
            self.current() <= usize::MAX,
            self.max() <= usize::MAX,
    {
    }

    /// A count-based strategy is determined by its counter and its threshold.
    pub proof fn lemma_same_counters(self, other: Self)
        requires
            self.current() == other.current(),
            self.max() == other.max(),
        ensures
            self == other,
    {
    }
}

impl SetSplitStrategie for SplitByCount {
    closed spec fn split_due(&self) -> bool {
        self.current() >= self.max()
    }

    /// The counter saturates at `usize::MAX`; there a split is due whatever
    /// `max` is, so saturation never changes the answer of `should_split`.
    closed spec fn registered(&self, item: ResourceInfo) -> Self {
        SplitByCount {
            current: if self.current < usize::MAX { (self.current + 1) as usize } else { self.current },
            max: self.max,
        }
    }

    closed spec fn cleared(&self) -> Self {
        SplitByCount { current: 0, max: self.max }
    }

    fn register(&mut self, item: &ResourceInfo) {
        if self.current < usize::MAX {
            self.current = self.current + 1;
        }
    }

    fn should_split(&self) -> (r: bool) {
        self.current >= self.max
    }

    fn reset(&mut self) {
        self.current = 0;
    }
}

} // verus!
