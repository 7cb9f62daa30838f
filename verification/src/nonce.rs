//! Watching that the nonce counter does not run ahead of the chain for good.
use vstd::prelude::*;

verus! {

/// How many checks in a row may find the chain without progress before the
/// counter is set back.
pub const STALL_THRESHOLD: u32 = 4;

/// What one check finds: the counter of the bot and the nonce on the chain.
pub struct Check {
    pub local: u64,
    pub chain: u64,
}

/// The watch over the counter: the checks in a row without progress, and the
/// nonce that the last check found on the chain.
pub struct NonceWatch {
    pub stall_count: u32,
    pub last_seen: Option<u64>,
}

impl NonceWatch {
    /// The count stays below the threshold.
    pub open spec fn wf(&self) -> bool {
        self.stall_count < STALL_THRESHOLD
    }

    /// Whether a check finds the counter ahead of a chain that made no progress.
    pub open spec fn stalled(&self, check: Check) -> bool {
        check.local > check.chain && self.last_seen == Some(check.chain)
    }

    /// Whether a check sets the counter back.
    pub open spec fn resets(&self, check: Check) -> bool {
        self.stalled(check) && self.stall_count + 1 >= STALL_THRESHOLD
    }

    /// The watch after a check.
    pub open spec fn after(&self, check: Check) -> NonceWatch {
        NonceWatch {
            stall_count: if self.stalled(check) && !self.resets(check) {
                (self.stall_count + 1) as u32
            } else {
                0
            },
            last_seen: Some(check.chain),
        }
    }

    /// A watch before the first check.
    pub fn new() -> (r: NonceWatch)
        ensures
            r.wf(),
            r.stall_count == 0,
            r.last_seen is None,
    {
        NonceWatch { stall_count: 0, last_seen: None }
    }

    /// Takes in a check. Gives the value that the counter is to be set to, where
    /// it is stuck.
    pub fn observe(&mut self, local_nonce: u64, chain_nonce: u64) -> (r: Option<u64>)
        requires
            old(self).wf(),
        ensures
            final(self).wf(),
            *final(self) == old(self).after((Check { local: local_nonce, chain: chain_nonce })),
            r == (if old(self).resets((Check { local: local_nonce, chain: chain_nonce })) {
                Some(chain_nonce)
            } else {
                None
            }),
    {
        let mut reset: Option<u64> = None;
        if local_nonce <= chain_nonce {
            self.stall_count = 0;
        } else {
            match self.last_seen {
                Some(seen) => {
                    if seen == chain_nonce {
                        self.stall_count = self.stall_count + 1;
                        if self.stall_count >= STALL_THRESHOLD {
                            self.stall_count = 0;
                            reset = Some(chain_nonce);
                        }
                    } else {
                        self.stall_count = 0;
                    }
                },
                None => {
                    self.stall_count = 0;
                },
            }
        }
        self.last_seen = Some(chain_nonce);
        reset
    }
}

/// The watch after a number of checks.
pub open spec fn watched(checks: Seq<Check>) -> NonceWatch
    decreases checks.len(),
{
    if checks.len() == 0 {
        NonceWatch { stall_count: 0, last_seen: None }
    } else {
        watched(checks.drop_last()).after(checks.last())
    }
}

/// Whether the check at place `i` finds the counter ahead of the chain, and the
/// chain where the check before found it.
pub open spec fn no_progress(checks: Seq<Check>, i: int) -> bool {
    0 < i < checks.len() && checks[i].local > checks[i].chain && checks[i - 1].chain
        == checks[i].chain
}

proof fn lemma_watched(checks: Seq<Check>)
    ensures
        watched(checks).wf(),
        checks.len() > 0 ==> watched(checks).last_seen == Some(checks.last().chain),
        checks.len() == 0 ==> watched(checks).last_seen is None,
        forall|i: int|
            checks.len() - watched(checks).stall_count <= i < checks.len()
                ==> #[trigger] no_progress(checks, i),
    decreases checks.len(),
{
    if checks.len() > 0 {
        let rest = checks.drop_last();
        lemma_watched(rest);
        assert forall|i: int|
            checks.len() - watched(checks).stall_count <= i < checks.len() implies #[trigger]
        no_progress(checks, i) by {
            if i < rest.len() {
                assert(no_progress(rest, i));
            }
        }
    }
}

/// The counter is set back only after the threshold's number of checks in a row
/// found it ahead of a chain that stood still.
pub proof fn reset_needs_a_stall(checks: Seq<Check>, i: int)
    requires
        checks.len() > 0,
        watched(checks.drop_last()).resets(checks.last()),
        checks.len() - STALL_THRESHOLD <= i < checks.len(),
    ensures
        no_progress(checks, i),
{
    let rest = checks.drop_last();
    lemma_watched(rest);
    if i < rest.len() {
        assert(no_progress(rest, i));
    }
}

/// A counter that stays ahead of a chain that stands still is set back within
/// the threshold's number of checks.
pub proof fn stall_ends_in_a_reset(checks: Seq<Check>)
    requires
        checks.len() > STALL_THRESHOLD,
        forall|i: int|
            checks.len() - STALL_THRESHOLD <= i < checks.len() ==> #[trigger] no_progress(
                checks,
                i,
            ),
    ensures
        exists|n: int|
            checks.len() - STALL_THRESHOLD < n <= checks.len() && #[trigger] watched(
                checks.take(n - 1),
            ).resets(checks[n - 1]),
{
    let n = checks.len() as int;
    let a = watched(checks.take(n - 4));
    let b = watched(checks.take(n - 3));
    let c = watched(checks.take(n - 2));
    let d = watched(checks.take(n - 1));
    lemma_watched(checks.take(n - 4));
    lemma_watched(checks.take(n - 3));
    lemma_watched(checks.take(n - 2));
    lemma_watched(checks.take(n - 1));
    assert(checks.take(n - 3).drop_last() =~= checks.take(n - 4));
    assert(checks.take(n - 2).drop_last() =~= checks.take(n - 3));
    assert(checks.take(n - 1).drop_last() =~= checks.take(n - 2));
    assert(no_progress(checks, n - 4));
    assert(no_progress(checks, n - 3));
    assert(no_progress(checks, n - 2));
    assert(no_progress(checks, n - 1));
    if a.resets(checks[n - 4]) {
        assert(watched(checks.take((n - 3) - 1)).resets(checks[(n - 3) - 1]));
    } else if b.resets(checks[n - 3]) {
        assert(watched(checks.take((n - 2) - 1)).resets(checks[(n - 2) - 1]));
    } else if c.resets(checks[n - 2]) {
        assert(watched(checks.take((n - 1) - 1)).resets(checks[(n - 1) - 1]));
    } else {
        assert(d.resets(checks[n - 1]));
    }
}

/// The counter is set back by the fourth check in a row that finds it ahead of the same
/// nonce on the chain, and by none of the three before; after that the count starts
/// anew.
pub proof fn fourth_stalled_check_resets(
    watch: NonceWatch,
    chain: u64,
    a: u64,
    b: u64,
    c: u64,
    d: u64,
)
    requires
        watch.last_seen == Some(chain),
        watch.stall_count == 0,
        a > chain,
        b > chain,
        c > chain,
        d > chain,
    ensures
        ({
            let second = watch.after(Check { local: a, chain });
            let third = second.after(Check { local: b, chain });
            let fourth = third.after(Check { local: c, chain });
            &&& !watch.resets(Check { local: a, chain })
            &&& !second.resets(Check { local: b, chain })
            &&& !third.resets(Check { local: c, chain })
            &&& fourth.resets(Check { local: d, chain })
            &&& fourth.after(Check { local: d, chain }) == (NonceWatch {
                stall_count: 0,
                last_seen: Some(chain),
            })
        }),
{
}

/// A check that finds progress on the chain, or the counter not ahead of it, sets
/// nothing back and starts the count anew; so does the first check. Every check
/// remembers the nonce that it found.
pub proof fn progress_starts_the_count_anew(watch: NonceWatch, check: Check)
    ensures
        watch.after(check).last_seen == Some(check.chain),
        check.local <= check.chain ==> !watch.resets(check) && watch.after(check).stall_count == 0,
        watch.last_seen is None ==> !watch.resets(check) && watch.after(check).stall_count == 0,
        watch.last_seen matches Some(seen) && seen != check.chain ==> !watch.resets(check)
            && watch.after(check).stall_count == 0,
{
}

} // verus!
