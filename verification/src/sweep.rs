//! The sweep over one /24 network: which hosts are probed, and which probes
//! are still outstanding.

use crate::address::{
    is_host_suffix, lemma_dotted_quad_injective, ProbeTarget, SubnetPrefix, FIRST_HOST, LAST_HOST,
};
use crate::probe::ProbeOutcome;
use crate::report::{active_line, active_text};
use vstd::prelude::*;
use vstd::set_lib::*;

verus! {

/// Number of hosts that a sweep probes.
pub const HOST_COUNT: usize = 254;

/// The suffixes of all hosts that a sweep probes.
pub open spec fn hosts() -> Set<int> {
    Set::new(|suffix: int| is_host_suffix(suffix))
}

/// A sweep covers `HOST_COUNT` hosts.
pub proof fn lemma_hosts_count()
    ensures
        hosts().finite(),
        hosts().len() == HOST_COUNT,
{
    lemma_int_range(FIRST_HOST as int, LAST_HOST + 1);
    assert(hosts() =~= set_int_range(FIRST_HOST as int, LAST_HOST + 1));
}

/// The candidates of a sweep over `prefix`, in the order in which they are
/// launched: one per host suffix, ascending.
pub open spec fn targets_of(prefix: SubnetPrefix) -> Seq<ProbeTarget> {
    Seq::new(
        HOST_COUNT as nat,
        |i: int| ProbeTarget { prefix, suffix: (i + FIRST_HOST) as u8 },
    )
}

/// Enumerates the candidates of a sweep over `prefix`.
pub fn sweep_targets(prefix: SubnetPrefix) -> (targets: Vec<ProbeTarget>)
    ensures
        targets@ == targets_of(prefix),
{
    let mut targets: Vec<ProbeTarget> = Vec::new();
    let mut suffix: u8 = FIRST_HOST;
    while suffix <= LAST_HOST
        invariant
            FIRST_HOST <= suffix <= LAST_HOST + 1,
            targets@.len() == suffix - FIRST_HOST,
            forall|i: int|
                0 <= i < targets@.len() ==> targets@[i] == (ProbeTarget {
                    prefix,
                    suffix: (i + FIRST_HOST) as u8,
                }),
        decreases LAST_HOST + 1 - suffix,
    {
        targets.push(ProbeTarget { prefix, suffix });
        suffix = suffix + 1;
    }
    assert(targets@ =~= targets_of(prefix));
    targets
}

/// Every host of the subnet is a candidate exactly once: a sweep has
/// `HOST_COUNT` candidates, all in the swept subnet, no two alike, and each
/// host suffix from `FIRST_HOST` to `LAST_HOST` belongs to exactly one of
/// them.
pub proof fn lemma_every_host_once(prefix: SubnetPrefix)
    ensures
        targets_of(prefix).len() == HOST_COUNT,
        targets_of(prefix).no_duplicates(),
        forall|i: int|
            0 <= i < targets_of(prefix).len() ==> {
                &&& (#[trigger] targets_of(prefix)[i]).prefix == prefix
                &&& targets_of(prefix)[i].is_candidate()
            },
        forall|i: int, j: int|
            0 <= i < j < targets_of(prefix).len() ==> (#[trigger] targets_of(prefix)[i]).suffix
                != (#[trigger] targets_of(prefix)[j]).suffix,
        forall|suffix: u8|
            is_host_suffix(suffix as int) ==> #[trigger] targets_of(prefix).contains(
                ProbeTarget { prefix, suffix },
            ),
        targets_of(prefix).map_values(|t: ProbeTarget| t.suffix as int).to_set() == hosts(),
{
    let targets = targets_of(prefix);
    assert forall|suffix: u8| is_host_suffix(suffix as int) implies #[trigger] targets.contains(
        ProbeTarget { prefix, suffix },
    ) by {
        assert(targets[suffix - FIRST_HOST] == (ProbeTarget { prefix, suffix }));
    }
    let suffixes = targets.map_values(|t: ProbeTarget| t.suffix as int);
    assert forall|suffix: int| hosts().contains(suffix) implies suffixes.to_set().contains(
        suffix,
    ) by {
        assert(suffixes[suffix - FIRST_HOST] == suffix);
    }
    assert(suffixes.to_set() =~= hosts());
}

/// No two candidates of a sweep are written alike: each probe is sent to
/// an address of its own.
pub proof fn lemma_candidates_written_apart(prefix: SubnetPrefix, i: int, j: int)
    requires
        0 <= i < targets_of(prefix).len(),
        0 <= j < targets_of(prefix).len(),
        i != j,
    ensures
        targets_of(prefix)[i].text() != targets_of(prefix)[j].text(),
{
    let first = targets_of(prefix)[i];
    let second = targets_of(prefix)[j];
    if first.text() == second.text() {
        lemma_dotted_quad_injective(
            (prefix.a, prefix.b, prefix.c, first.suffix),
            (prefix.a, prefix.b, prefix.c, second.suffix),
        );
    }
}

/// What a sweep is at any moment: the subnet it covers and the suffixes of
/// the hosts whose probes have not finished yet.
pub struct SweepState {
    pub prefix: SubnetPrefix,
    pub pending: Set<int>,
}

impl SweepState {
    /// A sweep over `prefix` that has just been launched: every probe is
    /// outstanding.
    pub open spec fn launched(prefix: SubnetPrefix) -> SweepState {
        SweepState { prefix, pending: hosts() }
    }

    /// Only probes of hosts of the subnet are outstanding.
    pub open spec fn wf(self) -> bool {
        self.pending.subset_of(hosts())
    }

    /// Whether the probe of the host with this suffix is outstanding.
    pub open spec fn awaits(self, suffix: u8) -> bool {
        self.pending.contains(suffix as int)
    }

    /// Whether every probe has finished.
    pub open spec fn is_complete(self) -> bool {
        self.pending == Set::<int>::empty()
    }

    /// The sweep after the probe of the host with this suffix has finished.
    /// A probe that was not outstanding changes nothing.
    pub open spec fn resolve(self, suffix: u8) -> SweepState {
        SweepState { prefix: self.prefix, pending: self.pending.remove(suffix as int) }
    }

    /// The line to print when the probe of the host with this suffix
    /// finishes: the host's report, with the time as `rtt_text` gives it, if
    /// the probe was outstanding and the host answered; nothing otherwise.
    pub open spec fn report(self, suffix: u8, outcome: ProbeOutcome, rtt_text: Seq<char>) -> Option<
        Seq<char>,
    > {
        if self.awaits(suffix) && outcome.is_reply() {
            Some(active_text(ProbeTarget { prefix: self.prefix, suffix }, rtt_text))
        } else {
            None
        }
    }
}

/// The suffixes that a table of flags marks as outstanding: flag `i` stands
/// for the host with suffix `FIRST_HOST + i`.
spec fn flagged(flags: Seq<bool>) -> Set<int> {
    Set::new(|suffix: int| is_host_suffix(suffix) && flags[suffix - FIRST_HOST])
}

/// A table of flags marks hosts only, so finitely many.
proof fn lemma_flagged_finite(flags: Seq<bool>)
    ensures
        flagged(flags).subset_of(hosts()),
        flagged(flags).finite(),
        flagged(flags).len() <= HOST_COUNT,
{
    lemma_hosts_count();
    lemma_len_subset(flagged(flags), hosts());
}

/// A table with every flag set marks every host.
proof fn lemma_flagged_all(flags: Seq<bool>)
    requires
        flags.len() == HOST_COUNT,
        forall|i: int| 0 <= i < flags.len() ==> flags[i],
    ensures
        flagged(flags) == hosts(),
{
    assert(flagged(flags) =~= hosts());
}

/// Clearing a host's flag takes that host, and no other, out of the set.
proof fn lemma_flagged_clear(flags: Seq<bool>, suffix: int)
    requires
        flags.len() == HOST_COUNT,
        is_host_suffix(suffix),
    ensures
        flagged(flags.update(suffix - FIRST_HOST, false)) == flagged(flags).remove(suffix),
{
    assert(flagged(flags.update(suffix - FIRST_HOST, false)) =~= flagged(flags).remove(suffix));
}

/// The progress of a sweep: which probes are still outstanding.
pub struct Sweep {
    /// The subnet that is swept.
    prefix: SubnetPrefix,
    /// One flag per host, in the order of the suffixes; a set flag marks a
    /// probe that is outstanding.
    flags: Vec<bool>,
    /// The number of set flags, kept so that it need not be counted; the
    /// type's invariant ties it to `flags`.
    outstanding: usize,
}

impl View for Sweep {
    type V = SweepState;

    closed spec fn view(&self) -> SweepState {
        SweepState { prefix: self.prefix, pending: flagged(self.flags@) }
    }
}

impl Sweep {
    #[verifier::type_invariant]
    spec fn inv(self) -> bool {
        &&& self.flags@.len() == HOST_COUNT
        &&& self.outstanding == flagged(self.flags@).len()
    }

    /// Starts a sweep over `prefix` with every probe outstanding.
    pub fn new(prefix: SubnetPrefix) -> (sweep: Sweep)
        ensures
            sweep@ == SweepState::launched(prefix),
            sweep@.wf(),
    {
        let mut flags: Vec<bool> = Vec::new();
        while flags.len() < HOST_COUNT
            invariant
                flags@.len() <= HOST_COUNT,
                forall|i: int| 0 <= i < flags@.len() ==> flags@[i],
            decreases HOST_COUNT - flags@.len(),
        {
            flags.push(true);
        }
        proof {
            lemma_flagged_all(flags@);
            lemma_hosts_count();
        }
        Sweep { prefix, flags, outstanding: HOST_COUNT }
    }

    /// The subnet that the sweep covers.
    pub fn prefix(&self) -> (prefix: SubnetPrefix)
        ensures
            prefix == self@.prefix,
    {
        self.prefix
    }

    /// The number of probes that are outstanding.
    pub fn outstanding(&self) -> (count: usize)
        ensures
            self@.wf(),
            self@.pending.finite(),
            count == self@.pending.len(),
            count <= HOST_COUNT,
    {
        proof {
            use_type_invariant(self);
            lemma_flagged_finite(self.flags@);
        }
        self.outstanding
    }

    /// Whether every probe has finished.
    pub fn is_complete(&self) -> (done: bool)
        ensures
            self@.wf(),
            done == self@.is_complete(),
    {
        proof {
            use_type_invariant(self);
            lemma_flagged_finite(self.flags@);
            lemma_set_empty_equivalency_len(flagged(self.flags@));
        }
        self.outstanding == 0
    }

    /// Whether the probe of the host with this suffix is outstanding.
    pub fn awaits(&self, suffix: u8) -> (waiting: bool)
        ensures
            waiting == self@.awaits(suffix),
    {
        proof {
            use_type_invariant(self);
        }
        FIRST_HOST <= suffix && suffix <= LAST_HOST && self.flags[(suffix - FIRST_HOST) as usize]
    }

    /// Records that the probe of the host with this suffix has finished, and
    /// writes the line that reports the host if it answered, with its
    /// round-trip time as `rtt_text` gives it. A probe that was not
    /// outstanding, because it was recorded before or because the suffix is no
    /// host's, changes nothing and reports nothing.
    pub fn resolve(self, suffix: u8, outcome: ProbeOutcome, rtt_text: &str) -> (next: (
        Sweep,
        Option<String>,
    ))
        ensures
            self@.wf(),
            next.0@ == self@.resolve(suffix),
            next.0@.wf(),
            next.1.deep_view() == self@.report(suffix, outcome, rtt_text@),
    {
        proof {
            use_type_invariant(&self);
            lemma_flagged_finite(self.flags@);
        }
        if !self.awaits(suffix) {
            assert(self@.pending.remove(suffix as int) =~= self@.pending);
            return (self, None);
        }
        let ghost before = self.flags@;
        let Sweep { prefix, mut flags, outstanding } = self;
        flags.set((suffix - FIRST_HOST) as usize, false);
        proof {
            lemma_flagged_clear(before, suffix as int);
        }
        let sweep = Sweep { prefix, flags, outstanding: outstanding - 1 };
        let report = if outcome.replied() {
            Some(active_line(&ProbeTarget { prefix, suffix }, rtt_text))
        } else {
            None
        };
        (sweep, report)
    }
}

} // verus!
