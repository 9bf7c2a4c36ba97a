//! The course of a scan, as a machine that is driven by events.
//!
//! The machine does no I/O. Its driver checks the platform, resolves the
//! local address and runs the probes, and tells the machine how each of these
//! ended. The machine answers each event with what to print and what to do
//! next.

use crate::address::{get_subnet, is_host_suffix, subnet_of, LocalAddress, SubnetPrefix};
use crate::probe::ProbeOutcome;
use crate::report::{no_address_line, no_address_text, scanning_line, scanning_text, ScanError};
use crate::sweep::{Sweep, SweepState};
use vstd::prelude::*;

verus! {

/// Something that the driver found out.
#[derive(Clone, Debug)]
pub enum Event {
    /// The platform was examined; `supported` is set when its probe utility
    /// takes the arguments that the probes use.
    PlatformChecked { supported: bool },
    /// The attempt to find the local address ended, with the address or
    /// without one.
    AddressResolved { address: Option<LocalAddress> },
    /// The probe of the host with this suffix ended. `rtt_text` is the
    /// time it took in milliseconds, as it is to be printed; it is read only
    /// when the host answered.
    ProbeFinished { suffix: u8, outcome: ProbeOutcome, rtt_text: String },
}

/// What the driver does next.
#[derive(Clone, Copy, Debug, PartialEq, Eq, Structural)]
pub enum Directive {
    /// Nothing new: report the next event when there is one.
    Wait,
    /// Find the local address and report it.
    ResolveAddress,
    /// Start one probe for every candidate of the subnet, and report each as
    /// it ends.
    Launch { prefix: SubnetPrefix },
    /// End the program successfully.
    Exit,
    /// End the program with a fatal error.
    Abort { error: ScanError },
}

/// The machine's answer to an event.
#[derive(Debug)]
pub struct Reaction {
    /// A line to print, if any.
    pub output: Option<String>,
    /// What to do after printing.
    pub directive: Directive,
}

/// Where a scan stands.
pub enum ScanState {
    /// Nothing is known yet.
    Start,
    /// The platform is supported; the local address is being resolved.
    Resolving,
    /// Probes are in flight.
    Sweeping { sweep: SweepState },
    /// The scan ended without a sweep, for want of a local address.
    NoAddress,
    /// The scan ended after every probe of the sweep had finished.
    Complete,
    /// The scan ended with a fatal error.
    Failed,
}

impl ScanState {
    /// A sweep that is under way is well formed and has a probe outstanding.
    pub open spec fn wf(self) -> bool {
        self matches ScanState::Sweeping { sweep } ==> sweep.wf() && !sweep.is_complete()
    }

    /// Whether the scan has ended.
    pub open spec fn is_terminal(self) -> bool {
        self is NoAddress || self is Complete || self is Failed
    }

    /// Where the scan stands after `event`. An event that does not belong to
    /// the current state changes nothing.
    pub open spec fn next(self, event: Event) -> ScanState {
        match (self, event) {
            (ScanState::Start, Event::PlatformChecked { supported }) => if supported {
                ScanState::Resolving
            } else {
                ScanState::Failed
            },
            (ScanState::Resolving, Event::AddressResolved { address }) => match address {
                Some(local) => ScanState::Sweeping {
                    sweep: SweepState::launched(subnet_of(local)),
                },
                None => ScanState::NoAddress,
            },
            (ScanState::Sweeping { sweep }, Event::ProbeFinished { suffix, .. }) => if sweep.resolve(
                suffix,
            ).is_complete() {
                ScanState::Complete
            } else {
                ScanState::Sweeping { sweep: sweep.resolve(suffix) }
            },
            _ => self,
        }
    }

    /// The line that `event` makes the scan print, if any.
    pub open spec fn output(self, event: Event) -> Option<Seq<char>> {
        match (self, event) {
            (ScanState::Resolving, Event::AddressResolved { address }) => match address {
                Some(local) => Some(scanning_text(local)),
                None => Some(no_address_text()),
            },
            (
                ScanState::Sweeping { sweep },
                Event::ProbeFinished { suffix, outcome, rtt_text },
            ) => sweep.report(suffix, outcome, rtt_text@),
            _ => None,
        }
    }

    /// What the driver is to do after `event`.
    pub open spec fn directive(self, event: Event) -> Directive {
        match (self, event) {
            (ScanState::Start, Event::PlatformChecked { supported }) => if supported {
                Directive::ResolveAddress
            } else {
                Directive::Abort { error: ScanError::UnsupportedPlatform }
            },
            (ScanState::Resolving, Event::AddressResolved { address }) => match address {
                Some(local) => Directive::Launch { prefix: subnet_of(local) },
                None => Directive::Exit,
            },
            (ScanState::Sweeping { sweep }, Event::ProbeFinished { suffix, .. }) => if sweep.resolve(
                suffix,
            ).is_complete() {
                Directive::Exit
            } else {
                Directive::Wait
            },
            _ => Directive::Wait,
        }
    }
}

enum Stage {
    Start,
    Resolving,
    Sweeping(Sweep),
    NoAddress,
    Complete,
    Failed,
}

/// A scan in progress.
pub struct Scanner {
    stage: Stage,
}

impl View for Scanner {
    type V = ScanState;

    closed spec fn view(&self) -> ScanState {
        match self.stage {
            Stage::Start => ScanState::Start,
            Stage::Resolving => ScanState::Resolving,
            Stage::Sweeping(sweep) => ScanState::Sweeping { sweep: sweep@ },
            Stage::NoAddress => ScanState::NoAddress,
            Stage::Complete => ScanState::Complete,
            Stage::Failed => ScanState::Failed,
        }
    }
}

impl Scanner {
    #[verifier::type_invariant]
    spec fn inv(self) -> bool {
        self@.wf()
    }

    /// A scan of which nothing is known yet.
    pub fn new() -> (scanner: Scanner)
        ensures
            scanner@ == ScanState::Start,
    {
        Scanner { stage: Stage::Start }
    }

    /// Whether the scan has ended.
    pub fn is_finished(&self) -> (finished: bool)
        ensures
            self@.wf(),
            finished == self@.is_terminal(),
    {
        proof {
            use_type_invariant(self);
        }
        match self.stage {
            Stage::NoAddress | Stage::Complete | Stage::Failed => true,
            _ => false,
        }
    }

    /// Takes the scan one event further and says what the driver prints and
    /// does next.
    pub fn step(self, event: Event) -> (next: (Scanner, Reaction))
        ensures
            self@.wf(),
            next.0@ == self@.next(event),
            next.0@.wf(),
            next.1.output.deep_view() == self@.output(event),
            next.1.directive == self@.directive(event),
    {
        proof {
            use_type_invariant(&self);
        }
        match (self.stage, event) {
            (Stage::Start, Event::PlatformChecked { supported }) => {
                if supported {
                    (
                        Scanner { stage: Stage::Resolving },
                        Reaction { output: None, directive: Directive::ResolveAddress },
                    )
                } else {
                    (
                        Scanner { stage: Stage::Failed },
                        Reaction {
                            output: None,
                            directive: Directive::Abort { error: ScanError::UnsupportedPlatform },
                        },
                    )
                }
            },
            (Stage::Resolving, Event::AddressResolved { address }) => {
                match address {
                    Some(local) => {
                        let prefix = get_subnet(&local);
                        let sweep = Sweep::new(prefix);
                        proof {
                            assert(sweep@.awaits(1u8));
                        }
                        (
                            Scanner { stage: Stage::Sweeping(sweep) },
                            Reaction {
                                output: Some(scanning_line(&local)),
                                directive: Directive::Launch { prefix },
                            },
                        )
                    },
                    None => (
                        Scanner { stage: Stage::NoAddress },
                        Reaction { output: Some(no_address_line()), directive: Directive::Exit },
                    ),
                }
            },
            (Stage::Sweeping(sweep), Event::ProbeFinished { suffix, outcome, rtt_text }) => {
                let (sweep, output) = sweep.resolve(suffix, outcome, rtt_text.as_str());
                if sweep.is_complete() {
                    (
                        Scanner { stage: Stage::Complete },
                        Reaction { output, directive: Directive::Exit },
                    )
                } else {
                    (
                        Scanner { stage: Stage::Sweeping(sweep) },
                        Reaction { output, directive: Directive::Wait },
                    )
                }
            },
            (stage, _) => (
                Scanner { stage },
                Reaction { output: None, directive: Directive::Wait },
            ),
        }
    }
}

/// Where a scan that stood at `state` stands after `events`, taken in order.
pub open spec fn run(state: ScanState, events: Seq<Event>) -> ScanState
    decreases events.len(),
{
    if events.len() == 0 {
        state
    } else {
        run(state, events.drop_last()).next(events.last())
    }
}

/// What the driver is told to do on the `i`-th of `events`.
pub open spec fn directive_at(state: ScanState, events: Seq<Event>, i: int) -> Directive {
    run(state, events.take(i)).directive(events[i])
}

/// What the scan prints on the `i`-th of `events`.
pub open spec fn output_at(state: ScanState, events: Seq<Event>, i: int) -> Option<Seq<char>> {
    run(state, events.take(i)).output(events[i])
}

/// Whether `event` says that the probe of the host with this suffix ended.
pub open spec fn is_probe_of(event: Event, suffix: int) -> bool {
    event matches Event::ProbeFinished { suffix: finished, .. } && finished == suffix
}

/// A step keeps a scan well formed.
pub proof fn lemma_next_keeps_wf(state: ScanState, event: Event)
    requires
        state.wf(),
    ensures
        state.next(event).wf(),
{
    if state is Resolving {
        if let Event::AddressResolved { address: Some(local) } = event {
            assert(SweepState::launched(subnet_of(local)).awaits(1u8));
        }
    }
}

/// A scan that is well formed stays so, whatever happens.
pub proof fn lemma_run_keeps_wf(state: ScanState, events: Seq<Event>)
    requires
        state.wf(),
    ensures
        run(state, events).wf(),
    decreases events.len(),
{
    if events.len() > 0 {
        lemma_run_keeps_wf(state, events.drop_last());
        lemma_next_keeps_wf(run(state, events.drop_last()), events.last());
    }
}

/// Running over `events` is running over the first `k` of them and then
/// over the rest.
pub proof fn lemma_run_split(state: ScanState, events: Seq<Event>, k: int)
    requires
        0 <= k <= events.len(),
    ensures
        run(state, events) == run(run(state, events.take(k)), events.skip(k)),
    decreases events.len(),
{
    if k == events.len() {
        assert(events.take(k) =~= events);
    } else {
        lemma_run_split(state, events.drop_last(), k);
        assert(events.drop_last().take(k) =~= events.take(k));
        assert(events.drop_last().skip(k) =~= events.skip(k).drop_last());
    }
}

/// The steps of a run, but for the last, are the steps of the run without
/// its last event; the last step starts where that shorter run ends.
proof fn lemma_steps_of_prefix(state: ScanState, events: Seq<Event>)
    requires
        events.len() > 0,
    ensures
        forall|i: int|
            0 <= i < events.len() - 1 ==> #[trigger] directive_at(state, events, i)
                == directive_at(state, events.drop_last(), i),
        forall|i: int|
            0 <= i < events.len() - 1 ==> #[trigger] output_at(state, events, i) == output_at(
                state,
                events.drop_last(),
                i,
            ),
        directive_at(state, events, events.len() - 1) == run(
            state,
            events.drop_last(),
        ).directive(events.last()),
        output_at(state, events, events.len() - 1) == run(state, events.drop_last()).output(
            events.last(),
        ),
{
    assert forall|i: int| 0 <= i < events.len() - 1 implies events.drop_last().take(i)
        == events.take(i) by {
        assert(events.drop_last().take(i) =~= events.take(i));
    }
    assert(events.take(events.len() - 1) =~= events.drop_last());
}

/// A scan that has ended stays as it is: later events change nothing, print
/// nothing and ask for nothing.
pub proof fn lemma_terminal_is_final(state: ScanState, events: Seq<Event>)
    requires
        state.is_terminal(),
    ensures
        run(state, events) == state,
        forall|i: int|
            0 <= i < events.len() ==> #[trigger] directive_at(state, events, i) == Directive::Wait,
        forall|i: int| 0 <= i < events.len() ==> #[trigger] output_at(state, events, i) is None,
    decreases events.len(),
{
    if events.len() > 0 {
        lemma_terminal_is_final(state, events.drop_last());
        lemma_steps_of_prefix(state, events);
    }
}

/// On a platform that is not supported the scan fails at once: the first
/// answer is the fatal error, and the driver is never told to resolve the
/// address or to launch a probe, nor is anything printed.
pub proof fn lemma_unsupported_platform_is_fatal(events: Seq<Event>)
    requires
        events.len() > 0,
        events[0] == (Event::PlatformChecked { supported: false }),
    ensures
        run(ScanState::Start, events) is Failed,
        directive_at(ScanState::Start, events, 0) == (Directive::Abort {
            error: ScanError::UnsupportedPlatform,
        }),
        forall|i: int|
            1 <= i < events.len() ==> #[trigger] directive_at(ScanState::Start, events, i)
                == Directive::Wait,
        forall|i: int|
            0 <= i < events.len() ==> #[trigger] output_at(ScanState::Start, events, i) is None,
{
    let start = ScanState::Start;
    let failed = ScanState::Failed;
    assert(events.take(0) =~= Seq::<Event>::empty());
    assert(events.take(1).drop_last() =~= Seq::<Event>::empty());
    assert(run(start, events.take(1)) == failed);
    lemma_run_split(start, events, 1);
    lemma_terminal_is_final(failed, events.skip(1));
    assert forall|i: int| 1 <= i < events.len() implies run(start, events.take(i)) == failed by {
        lemma_run_split(start, events.take(i), 1);
        assert(events.take(i).take(1) =~= events.take(1));
        lemma_terminal_is_final(failed, events.take(i).skip(1));
    }
}

/// A scan that has failed, or has not left its start, never told the driver
/// to resolve the address or to launch a probe, and printed nothing.
pub proof fn lemma_failed_scan_did_nothing(events: Seq<Event>)
    requires
        run(ScanState::Start, events) is Failed || run(ScanState::Start, events) is Start,
    ensures
        forall|i: int|
            0 <= i < events.len() ==> {
                ||| #[trigger] directive_at(ScanState::Start, events, i) is Wait
                ||| directive_at(ScanState::Start, events, i) is Abort
            },
        forall|i: int|
            0 <= i < events.len() ==> #[trigger] output_at(ScanState::Start, events, i) is None,
    decreases events.len(),
{
    if events.len() > 0 {
        lemma_failed_scan_did_nothing(events.drop_last());
        lemma_steps_of_prefix(ScanState::Start, events);
    }
}

/// Probes are launched only into a sweep: a scan that is neither sweeping
/// nor complete never told the driver to launch one.
pub proof fn lemma_launch_only_into_sweep(events: Seq<Event>)
    requires
        !(run(ScanState::Start, events) is Sweeping),
        !(run(ScanState::Start, events) is Complete),
    ensures
        forall|i: int|
            0 <= i < events.len() ==> !(#[trigger] directive_at(ScanState::Start, events, i)
                is Launch),
    decreases events.len(),
{
    if events.len() > 0 {
        lemma_launch_only_into_sweep(events.drop_last());
        lemma_steps_of_prefix(ScanState::Start, events);
    }
}

/// When the local address cannot be resolved, the scan prints that it could
/// not determine it, tells the driver to exit, and ends; no probe is launched
/// before or after.
pub proof fn lemma_without_address_no_probe(events: Seq<Event>, k: int)
    requires
        0 <= k < events.len(),
        run(ScanState::Start, events.take(k)) is Resolving,
        events[k] == (Event::AddressResolved { address: None }),
    ensures
        output_at(ScanState::Start, events, k) == Some(no_address_text()),
        directive_at(ScanState::Start, events, k) == Directive::Exit,
        run(ScanState::Start, events) is NoAddress,
        forall|i: int|
            0 <= i < events.len() ==> !(#[trigger] directive_at(ScanState::Start, events, i)
                is Launch),
{
    let ended = ScanState::NoAddress;
    assert(events.take(k + 1).drop_last() =~= events.take(k));
    assert(run(ScanState::Start, events.take(k + 1)) == ended);
    lemma_run_split(ScanState::Start, events, k + 1);
    lemma_terminal_is_final(ended, events.skip(k + 1));
    lemma_launch_only_into_sweep(events);
}

/// Whether the `k`-th of `events` made the scan launch its probes.
pub open spec fn launched_at(events: Seq<Event>, k: int) -> bool {
    0 <= k < events.len() && directive_at(ScanState::Start, events, k) is Launch
}

/// Whether one of `events` after the `k`-th says that the probe of the host
/// with this suffix ended.
pub open spec fn probed_after(events: Seq<Event>, k: int, suffix: int) -> bool {
    exists|i: int| k < i < events.len() && is_probe_of(#[trigger] events[i], suffix)
}

/// Whether the probe of the host with this suffix is outstanding.
spec fn outstanding(state: ScanState, suffix: int) -> bool {
    state matches ScanState::Sweeping { sweep } && sweep.pending.contains(suffix)
}

/// The probes were launched by the `k`-th event, and each host's probe has
/// either ended since or is outstanding.
spec fn accounted(events: Seq<Event>, k: int) -> bool {
    &&& launched_at(events, k)
    &&& forall|suffix: int|
        is_host_suffix(suffix) ==> #[trigger] probed_after(events, k, suffix) || outstanding(
            run(ScanState::Start, events),
            suffix,
        )
}

/// From the launch on, no probe is lost sight of.
proof fn lemma_probes_accounted(events: Seq<Event>) -> (k: int)
    requires
        run(ScanState::Start, events) is Sweeping || run(ScanState::Start, events) is Complete,
    ensures
        accounted(events, k),
    decreases events.len(),
{
    let before = events.drop_last();
    let state = run(ScanState::Start, before);
    lemma_steps_of_prefix(ScanState::Start, events);
    if state is Resolving {
        events.len() - 1
    } else {
        let k = lemma_probes_accounted(before);
        assert forall|suffix: int| is_host_suffix(suffix) implies #[trigger] probed_after(
            events,
            k,
            suffix,
        ) || outstanding(run(ScanState::Start, events), suffix) by {
            if probed_after(before, k, suffix) {
                let i = choose|i: int|
                    k < i < before.len() && is_probe_of(#[trigger] before[i], suffix);
                assert(is_probe_of(events[i], suffix));
            } else if !outstanding(run(ScanState::Start, events), suffix) {
                let sweep = state->sweep;
                let finished = events.last()->suffix;
                assert(sweep.pending.contains(suffix));
                assert(!sweep.resolve(finished).pending.contains(suffix));
                assert(is_probe_of(events[events.len() - 1], suffix));
            }
        }
        k
    }
}

/// A scan is complete only after the probe of every host has ended: the
/// probes were launched by some event `k`, and for each host a later event
/// says that its probe ended.
pub proof fn lemma_complete_after_every_probe(events: Seq<Event>) -> (k: int)
    requires
        run(ScanState::Start, events) is Complete,
    ensures
        launched_at(events, k),
        forall|suffix: int| is_host_suffix(suffix) ==> #[trigger] probed_after(events, k, suffix),
{
    lemma_probes_accounted(events)
}

/// The driver is told to exit a sweep only when the probe of every host has
/// ended, however early the hosts that answer are found: up to and with the
/// event that is answered by the exit, each host has its report since the
/// launch.
pub proof fn lemma_exit_after_every_probe(events: Seq<Event>, exit: int) -> (k: int)
    requires
        0 <= exit < events.len(),
        run(ScanState::Start, events.take(exit)) is Sweeping,
        directive_at(ScanState::Start, events, exit) == Directive::Exit,
    ensures
        launched_at(events.take(exit + 1), k),
        forall|suffix: int|
            is_host_suffix(suffix) ==> #[trigger] probed_after(events.take(exit + 1), k, suffix),
{
    assert(events.take(exit + 1).drop_last() =~= events.take(exit));
    lemma_complete_after_every_probe(events.take(exit + 1))
}

/// Once a scan is past the launch, a probe that is not outstanding never
/// becomes so again.
proof fn lemma_resolved_stays_resolved(state: ScanState, events: Seq<Event>, suffix: int)
    requires
        !(state is Start),
        !(state is Resolving),
        !outstanding(state, suffix),
    ensures
        !(run(state, events) is Start),
        !(run(state, events) is Resolving),
        !outstanding(run(state, events), suffix),
    decreases events.len(),
{
    if events.len() > 0 {
        lemma_resolved_stays_resolved(state, events.drop_last(), suffix);
    }
}

/// No host is reported twice: of two events that say that the probe of the
/// same host ended, at most one makes the scan print a line.
pub proof fn lemma_host_reported_once(events: Seq<Event>, i: int, j: int, suffix: int)
    requires
        0 <= i < j < events.len(),
        is_probe_of(events[i], suffix),
        is_probe_of(events[j], suffix),
    ensures
        output_at(ScanState::Start, events, i) is None || output_at(ScanState::Start, events, j)
            is None,
{
    let first = run(ScanState::Start, events.take(i));
    if first is Sweeping {
        let after = first.next(events[i]);
        let between = events.take(j).skip(i + 1);
        assert(events.take(j).take(i + 1).drop_last() =~= events.take(i));
        assert(run(ScanState::Start, events.take(j).take(i + 1)) == after);
        lemma_run_split(ScanState::Start, events.take(j), i + 1);
        lemma_resolved_stays_resolved(after, between, suffix);
    }
}

} // verus!
