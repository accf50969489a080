//! The check-running harness and the host exit signal.
//!
//! The harness runs a fixed, ordered list of self-contained checks,
//! reporting progress over the diagnostic channel and concluding with an
//! exit signal for the host: one fixed code for a run in which every check
//! passed, another for a run aborted by the first failing check. A failing
//! check short-circuits the batch: nothing after it runs or is reported.
//!
//! The harness logic here is a pure state machine from recorded check
//! outcomes to a transcript of events and an exit code; the surrounding
//! application invokes the actual checks, renders each event as a
//! diagnostic line, and writes the exit code to the host's signal port.

use vstd::prelude::*;

verus! {

/// The exit signal handed to the host environment when a run concludes.
#[derive(Debug, Clone, Copy, PartialEq, Eq, Structural)]
pub enum QemuExitCode {
    Success,
    Failed,
}

impl QemuExitCode {
    /// The 32-bit value written to the host's exit port for this signal.
    pub open spec fn code_spec(self) -> u32 {
        match self {
            QemuExitCode::Success => 0x10,
            QemuExitCode::Failed => 0x11,
        }
    }

    /// The 32-bit value written to the host's exit port for this signal.
    #[verifier::when_used_as_spec(code_spec)]
    pub fn code(self) -> (c: u32)
        ensures
            c == self.code_spec(),
    {
        match self {
            QemuExitCode::Success => 0x10,
            QemuExitCode::Failed => 0x11,
        }
    }
}

/// An invocable check: it either returns normally (a pass) or takes the
/// fatal-failure path with a description of what went wrong.
///
/// The application implements this for its concrete checks; the harness
/// logic itself is driven by the recorded [`CheckOutcome`]s.
pub trait Testable {
    /// The identifying name reported before the check runs.
    fn name(&self) -> String;

    /// Invokes the check and reports how it ended.
    fn run(&self) -> CheckOutcome;
}

/// How one check's invocation ended: a normal return, or the fatal-failure
/// path with its failure description.
#[derive(Debug, Clone, PartialEq, Eq)]
pub enum CheckOutcome {
    Passed,
    Aborted(String),
}

/// A named check together with the outcome its invocation produced.
#[derive(Debug, Clone, PartialEq, Eq)]
pub struct Check {
    pub name: String,
    pub outcome: CheckOutcome,
}

/// One entry of the diagnostic transcript of a harness run.
#[derive(Debug, Clone, PartialEq, Eq)]
pub enum HarnessEvent {
    /// The header reporting how many checks the run will attempt.
    RunningCount(usize),
    /// A check is about to run, under this name.
    TestStarted(String),
    /// The check that last started returned normally.
    TestOk,
    /// The check that last started took the fatal-failure path, with this
    /// description; the run stops here.
    TestAborted(String),
    /// Every check returned normally.
    AllPassed,
}

/// The abstract form of a transcript entry.
pub enum EventModel {
    RunningCount(int),
    TestStarted(Seq<char>),
    TestOk,
    TestAborted(Seq<char>),
    AllPassed,
}

impl View for HarnessEvent {
    type V = EventModel;

    open spec fn view(&self) -> EventModel {
        match self {
            HarnessEvent::RunningCount(n) => EventModel::RunningCount(*n as int),
            HarnessEvent::TestStarted(s) => EventModel::TestStarted(s@),
            HarnessEvent::TestOk => EventModel::TestOk,
            HarnessEvent::TestAborted(s) => EventModel::TestAborted(s@),
            HarnessEvent::AllPassed => EventModel::AllPassed,
        }
    }
}

/// Whether this check's invocation returned normally.
pub open spec fn check_passed(c: Check) -> bool {
    c.outcome is Passed
}

/// The failure description of an aborted outcome.
pub open spec fn outcome_details(o: CheckOutcome) -> Seq<char> {
    match o {
        CheckOutcome::Aborted(d) => d@,
        CheckOutcome::Passed => Seq::empty(),
    }
}

/// The failure description of an aborted check.
pub open spec fn abort_details(c: Check) -> Seq<char> {
    outcome_details(c.outcome)
}

/// Whether every check in the sequence passes.
pub open spec fn all_pass(cs: Seq<Check>) -> bool {
    forall|i: int| 0 <= i < cs.len() ==> check_passed(#[trigger] cs[i])
}

/// The transcript entries for a run of checks all of which pass: each
/// check's start marker followed by its OK marker, in order.
pub open spec fn ok_events(cs: Seq<Check>) -> Seq<EventModel>
    decreases cs.len(),
{
    if cs.len() == 0 {
        Seq::empty()
    } else {
        seq![EventModel::TestStarted(cs[0].name@), EventModel::TestOk] + ok_events(
            cs.drop_first(),
        )
    }
}

/// The transcript entries after the header: checks run in order until the
/// first failure, whose abort marker ends the run; if none fails, a final
/// success marker follows.
pub open spec fn run_events(cs: Seq<Check>) -> Seq<EventModel>
    decreases cs.len(),
{
    if cs.len() == 0 {
        seq![EventModel::AllPassed]
    } else if check_passed(cs[0]) {
        seq![EventModel::TestStarted(cs[0].name@), EventModel::TestOk] + run_events(
            cs.drop_first(),
        )
    } else {
        seq![
            EventModel::TestStarted(cs[0].name@),
            EventModel::TestAborted(abort_details(cs[0])),
        ]
    }
}

/// The whole transcript of a run: the header with the check count, then
/// the per-check entries.
pub open spec fn transcript(cs: Seq<Check>) -> Seq<EventModel> {
    seq![EventModel::RunningCount(cs.len() as int)] + run_events(cs)
}

/// The exit signal of a run: success exactly when every check passes.
pub open spec fn exit_of(cs: Seq<Check>) -> QemuExitCode {
    if all_pass(cs) {
        QemuExitCode::Success
    } else {
        QemuExitCode::Failed
    }
}

/// The abstract entries of a sequence of transcript events.
pub open spec fn views_of(es: Seq<HarnessEvent>) -> Seq<EventModel> {
    es.map_values(|e: HarnessEvent| e@)
}

/// How many start markers a transcript holds.
pub open spec fn count_started(es: Seq<EventModel>) -> int
    decreases es.len(),
{
    if es.len() == 0 {
        0
    } else {
        (if es[0] is TestStarted {
            1int
        } else {
            0int
        }) + count_started(es.drop_first())
    }
}

/// How many OK markers a transcript holds.
pub open spec fn count_oks(es: Seq<EventModel>) -> int
    decreases es.len(),
{
    if es.len() == 0 {
        0
    } else {
        (if es[0] is TestOk {
            1int
        } else {
            0int
        }) + count_oks(es.drop_first())
    }
}

/// Appending one event appends its abstract entry.
proof fn lemma_views_push(es: Seq<HarnessEvent>, e: HarnessEvent)
    ensures
        views_of(es.push(e)) == views_of(es).push(e@),
{
    assert(views_of(es.push(e)) =~= views_of(es).push(e@));
}

/// Both counters distribute over concatenation.
proof fn lemma_counts_concat(a: Seq<EventModel>, b: Seq<EventModel>)
    ensures
        count_started(a + b) == count_started(a) + count_started(b),
        count_oks(a + b) == count_oks(a) + count_oks(b),
    decreases a.len(),
{
    if a.len() == 0 {
        assert(a + b =~= b);
    } else {
        assert((a + b)[0] == a[0]);
        assert((a + b).drop_first() =~= a.drop_first() + b);
        assert(count_started(a) == (if a[0] is TestStarted {
            1int
        } else {
            0int
        }) + count_started(a.drop_first()));
        assert(count_oks(a) == (if a[0] is TestOk {
            1int
        } else {
            0int
        }) + count_oks(a.drop_first()));
        lemma_counts_concat(a.drop_first(), b);
    }
}

/// A run of passing checks reports exactly one start and one OK marker per
/// check.
proof fn lemma_ok_events_counts(cs: Seq<Check>)
    ensures
        count_started(ok_events(cs)) == cs.len(),
        count_oks(ok_events(cs)) == cs.len(),
    decreases cs.len(),
{
    if cs.len() > 0 {
        let pair = seq![EventModel::TestStarted(cs[0].name@), EventModel::TestOk];
        reveal_with_fuel(count_started, 3);
        reveal_with_fuel(count_oks, 3);
        assert(pair.drop_first() =~= seq![EventModel::TestOk]);
        assert(seq![EventModel::TestOk].drop_first() =~= Seq::<EventModel>::empty());
        assert(count_started(pair) == 1);
        assert(count_oks(pair) == 1);
        lemma_ok_events_counts(cs.drop_first());
        lemma_counts_concat(pair, ok_events(cs.drop_first()));
    }
}

/// Appending one passing check to a passing run appends its two markers.
proof fn lemma_ok_events_snoc(cs: Seq<Check>, c: Check)
    requires
        check_passed(c),
    ensures
        ok_events(cs.push(c)) == ok_events(cs) + seq![
            EventModel::TestStarted(c.name@),
            EventModel::TestOk,
        ],
    decreases cs.len(),
{
    let pair = seq![EventModel::TestStarted(c.name@), EventModel::TestOk];
    if cs.len() == 0 {
        assert(cs.push(c)[0] == c);
        assert(cs.push(c).drop_first() =~= cs);
        assert(ok_events(cs) =~= Seq::<EventModel>::empty());
        assert(ok_events(cs.push(c)) =~= ok_events(cs) + pair);
    } else {
        assert(cs.push(c)[0] == cs[0]);
        assert(cs.push(c).drop_first() =~= cs.drop_first().push(c));
        lemma_ok_events_snoc(cs.drop_first(), c);
        let head = seq![EventModel::TestStarted(cs[0].name@), EventModel::TestOk];
        assert(ok_events(cs.push(c)) == head + (ok_events(cs.drop_first()) + pair));
        assert(head + (ok_events(cs.drop_first()) + pair) =~= (head + ok_events(cs.drop_first()))
            + pair);
        assert(ok_events(cs) == head + ok_events(cs.drop_first()));
    }
}

/// If the first `k` checks pass and check `k` fails, the run's entries are
/// the `k` passing pairs followed by check `k`'s start and abort markers.
proof fn lemma_run_events_split(cs: Seq<Check>, k: int)
    requires
        0 <= k < cs.len(),
        all_pass(cs.take(k)),
        !check_passed(cs[k]),
    ensures
        run_events(cs) == ok_events(cs.take(k)) + seq![
            EventModel::TestStarted(cs[k].name@),
            EventModel::TestAborted(abort_details(cs[k])),
        ],
    decreases k,
{
    let tail = seq![
        EventModel::TestStarted(cs[k].name@),
        EventModel::TestAborted(abort_details(cs[k])),
    ];
    if k == 0 {
        assert(cs.take(0) =~= Seq::<Check>::empty());
        assert(run_events(cs) =~= ok_events(cs.take(0)) + tail);
    } else {
        assert(check_passed(cs[0])) by {
            assert(cs.take(k)[0] == cs[0]);
        }
        let rest = cs.drop_first();
        assert(all_pass(rest.take(k - 1))) by {
            assert forall|i: int| 0 <= i < k - 1 implies check_passed(#[trigger] rest.take(
                k - 1,
            )[i]) by {
                assert(rest.take(k - 1)[i] == cs[i + 1]);
                assert(cs.take(k)[i + 1] == cs[i + 1]);
            }
        }
        assert(rest[k - 1] == cs[k]);
        lemma_run_events_split(rest, k - 1);
        let head = seq![EventModel::TestStarted(cs[0].name@), EventModel::TestOk];
        assert(run_events(cs) == head + (ok_events(rest.take(k - 1)) + tail));
        assert(cs.take(k)[0] == cs[0]);
        assert(cs.take(k).drop_first() =~= rest.take(k - 1));
        assert(ok_events(cs.take(k)) == head + ok_events(rest.take(k - 1)));
        assert(head + (ok_events(rest.take(k - 1)) + tail) =~= (head + ok_events(rest.take(k - 1)))
            + tail);
    }
}

/// If every check passes, the run's entries are the passing pairs followed
/// by the final success marker.
proof fn lemma_run_events_all_pass(cs: Seq<Check>)
    requires
        all_pass(cs),
    ensures
        run_events(cs) == ok_events(cs) + seq![EventModel::AllPassed],
    decreases cs.len(),
{
    if cs.len() == 0 {
        assert(run_events(cs) =~= ok_events(cs) + seq![EventModel::AllPassed]);
    } else {
        let rest = cs.drop_first();
        assert(all_pass(rest)) by {
            assert forall|i: int| 0 <= i < rest.len() implies check_passed(
                #[trigger] rest[i],
            ) by {
                assert(rest[i] == cs[i + 1]);
            }
        }
        lemma_run_events_all_pass(rest);
        let head = seq![EventModel::TestStarted(cs[0].name@), EventModel::TestOk];
        assert(run_events(cs) == head + (ok_events(rest) + seq![EventModel::AllPassed]));
        assert(head + (ok_events(rest) + seq![EventModel::AllPassed]) =~= (head + ok_events(rest))
            + seq![EventModel::AllPassed]);
        assert(ok_events(cs) == head + ok_events(rest));
    }
}

/// Runs the recorded checks in order: reports the total count, then each
/// check's start marker and outcome, stopping at the first failure; the
/// transcript and the exit signal for the host come back to the caller,
/// who renders and sends them.
pub fn test_runner(checks: &Vec<Check>) -> (r: (Vec<HarnessEvent>, QemuExitCode))
    ensures
        views_of(r.0@) == transcript(checks@),
        r.1 == exit_of(checks@),
{
    let ghost cs = checks@;
    let mut events: Vec<HarnessEvent> = Vec::new();
    let ghost header = seq![EventModel::RunningCount(cs.len() as int)];
    proof {
        lemma_views_push(Seq::<HarnessEvent>::empty(), HarnessEvent::RunningCount(checks.len()));
        assert(views_of(Seq::<HarnessEvent>::empty()) =~= Seq::<EventModel>::empty());
    }
    events.push(HarnessEvent::RunningCount(checks.len()));
    proof {
        assert(views_of(events@) =~= header);
    }
    let n = checks.len();
    let mut i: usize = 0;
    while i < n
        invariant
            n == cs.len(),
            cs == checks@,
            i <= n,
            header == seq![EventModel::RunningCount(cs.len() as int)],
            all_pass(cs.take(i as int)),
            views_of(events@) == header + ok_events(cs.take(i as int)),
        decreases n - i,
    {
        let name = checks[i].name.clone();
        let ghost before = events@;
        events.push(HarnessEvent::TestStarted(name));
        proof {
            lemma_views_push(before, HarnessEvent::TestStarted(name));
        }
        match &checks[i].outcome {
            CheckOutcome::Passed => {
                let ghost mid = events@;
                events.push(HarnessEvent::TestOk);
                proof {
                    lemma_views_push(mid, HarnessEvent::TestOk);
                    lemma_ok_events_snoc(cs.take(i as int), cs[i as int]);
                    assert(cs.take(i as int).push(cs[i as int]) =~= cs.take(i + 1));
                    assert(views_of(events@) =~= header + ok_events(cs.take(i + 1)));
                    assert(all_pass(cs.take(i + 1))) by {
                        assert forall|j: int| 0 <= j < i + 1 implies check_passed(
                            #[trigger] cs.take(i + 1)[j],
                        ) by {
                            if j < i {
                                assert(cs.take(i as int)[j] == cs.take(i + 1)[j]);
                            }
                        }
                    }
                }
            },
            CheckOutcome::Aborted(d) => {
                let details = d.clone();
                let ghost mid = events@;
                events.push(HarnessEvent::TestAborted(details));
                proof {
                    lemma_views_push(mid, HarnessEvent::TestAborted(details));
                    lemma_run_events_split(cs, i as int);
                    assert(views_of(events@) =~= header + run_events(cs));
                    assert(views_of(events@) =~= transcript(cs));
                    assert(!all_pass(cs)) by {
                        assert(!check_passed(cs[i as int]));
                    }
                }
                return (events, QemuExitCode::Failed);
            },
        }
        i = i + 1;
    }
    let ghost before_done = events@;
    events.push(HarnessEvent::AllPassed);
    proof {
        lemma_views_push(before_done, HarnessEvent::AllPassed);
        assert(cs.take(n as int) =~= cs);
        lemma_run_events_all_pass(cs);
        assert(views_of(events@) =~= header + run_events(cs));
        assert(views_of(events@) =~= transcript(cs));
    }
    (events, QemuExitCode::Success)
}

/// A run whose first failure is check `k` reports exactly checks 0..=k as
/// started, OK markers for exactly the first `k`, ends on check `k`'s
/// abort marker, and signals the failure code; no later check appears in
/// the transcript.
pub proof fn lemma_failing_run(cs: Seq<Check>, k: int)
    requires
        0 <= k < cs.len(),
        all_pass(cs.take(k)),
        !check_passed(cs[k]),
    ensures
        transcript(cs) == seq![EventModel::RunningCount(cs.len() as int)] + ok_events(cs.take(k))
            + seq![
            EventModel::TestStarted(cs[k].name@),
            EventModel::TestAborted(abort_details(cs[k])),
        ],
        count_started(transcript(cs)) == k + 1,
        count_oks(transcript(cs)) == k,
        transcript(cs).last() == EventModel::TestAborted(abort_details(cs[k])),
        exit_of(cs) == QemuExitCode::Failed,
{
    let header = seq![EventModel::RunningCount(cs.len() as int)];
    let tail = seq![
        EventModel::TestStarted(cs[k].name@),
        EventModel::TestAborted(abort_details(cs[k])),
    ];
    lemma_run_events_split(cs, k);
    assert(transcript(cs) =~= header + ok_events(cs.take(k)) + tail);
    reveal_with_fuel(count_started, 3);
    reveal_with_fuel(count_oks, 3);
    assert(tail.drop_first() =~= seq![EventModel::TestAborted(abort_details(cs[k]))]);
    assert(seq![EventModel::TestAborted(abort_details(cs[k]))].drop_first() =~= Seq::<
        EventModel,
    >::empty());
    assert(count_started(tail) == 1);
    assert(count_oks(tail) == 0);
    assert(header.drop_first() =~= Seq::<EventModel>::empty());
    assert(count_started(header) == 0);
    assert(count_oks(header) == 0);
    lemma_ok_events_counts(cs.take(k));
    lemma_counts_concat(header, ok_events(cs.take(k)) + tail);
    lemma_counts_concat(ok_events(cs.take(k)), tail);
    assert(header + ok_events(cs.take(k)) + tail =~= header + (ok_events(cs.take(k)) + tail));
    assert(transcript(cs).last() == tail[1]);
    assert(!all_pass(cs)) by {
        assert(!check_passed(cs[k]));
    }
}

/// A run in which every check passes reports exactly one start and one OK
/// marker per check, ends on the success marker, and signals the success
/// code.
pub proof fn lemma_passing_run(cs: Seq<Check>)
    requires
        all_pass(cs),
    ensures
        transcript(cs) == seq![EventModel::RunningCount(cs.len() as int)] + ok_events(cs) + seq![
            EventModel::AllPassed,
        ],
        count_started(transcript(cs)) == cs.len(),
        count_oks(transcript(cs)) == cs.len(),
        transcript(cs).last() == EventModel::AllPassed,
        exit_of(cs) == QemuExitCode::Success,
{
    let header = seq![EventModel::RunningCount(cs.len() as int)];
    let tail = seq![EventModel::AllPassed];
    lemma_run_events_all_pass(cs);
    assert(transcript(cs) =~= header + ok_events(cs) + tail);
    reveal_with_fuel(count_started, 2);
    reveal_with_fuel(count_oks, 2);
    assert(tail.drop_first() =~= Seq::<EventModel>::empty());
    assert(count_started(tail) == 0);
    assert(count_oks(tail) == 0);
    assert(header.drop_first() =~= Seq::<EventModel>::empty());
    assert(count_started(header) == 0);
    assert(count_oks(header) == 0);
    lemma_ok_events_counts(cs);
    lemma_counts_concat(header, ok_events(cs) + tail);
    lemma_counts_concat(ok_events(cs), tail);
    assert(header + ok_events(cs) + tail =~= header + (ok_events(cs) + tail));
    assert(transcript(cs).last() == tail[0]);
}

/// The transcript never depends on checks after the first failure: for any
/// intended list, it equals the header plus the entries of the prefix that
/// ends at the failing check. Whatever stands after that prefix is never
/// consulted — no check after the failing one contributes to the run.
pub proof fn lemma_transcript_stops_at_failure(cs: Seq<Check>, k: int)
    requires
        0 <= k < cs.len(),
        all_pass(cs.take(k)),
        !check_passed(cs[k]),
    ensures
        transcript(cs) == seq![EventModel::RunningCount(cs.len() as int)] + run_events(
            cs.take(k + 1),
        ),
{
    lemma_run_events_split(cs, k);
    let pre = cs.take(k + 1);
    assert(pre.take(k) =~= cs.take(k));
    assert(pre[k] == cs[k]);
    lemma_run_events_split(pre, k);
}

/// The check-running harness as a stepping state machine.
///
/// The application drives one check at a time: [`Harness::begin`] hands out
/// the header, [`Harness::start`] the check's start marker (to emit before
/// the check is invoked), [`Harness::finish`] the outcome marker (and, on a
/// failure, the `Failed` signal — the harness is then terminal and
/// [`Harness::start`] can never be called again, so no later check may
/// run), and [`Harness::conclude`] the success marker and signal once every
/// check has passed. The events handed out so far always equal the header
/// plus the run entries of the checks seen, so a run that stops at any
/// point has reported exactly what the transcript of its prefix says.
pub struct Harness {
    total: usize,
    started: usize,
    pending: Option<String>,
    failed: bool,
    seen: Ghost<Seq<Check>>,
    emitted: Ghost<Seq<EventModel>>,
}

impl Harness {
    /// The number of checks announced at the start of the run.
    pub closed spec fn total_count(&self) -> int {
        self.total as int
    }

    /// How many checks may still be started.
    pub closed spec fn remaining(&self) -> int {
        self.total as int - self.started as int
    }

    /// Whether a failing check has made the run terminal.
    pub closed spec fn done(&self) -> bool {
        self.failed
    }

    /// Whether a check has been started whose outcome is still owed.
    pub closed spec fn awaiting_outcome(&self) -> bool {
        self.pending is Some
    }

    /// The name of the check started but not yet finished.
    pub closed spec fn pending_name(&self) -> Seq<char> {
        match self.pending {
            Some(name) => name@,
            None => Seq::empty(),
        }
    }

    /// The checks whose outcomes have been recorded so far, in order.
    pub closed spec fn seen(&self) -> Seq<Check> {
        self.seen@
    }

    /// The events handed out so far, in order.
    pub closed spec fn emitted(&self) -> Seq<EventModel> {
        self.emitted@
    }

    /// The harness invariant: counters consistent, every recorded check
    /// before a failure passing, and the events handed out so far equal to
    /// the header plus the entries for the checks seen.
    pub closed spec fn inv(&self) -> bool {
        &&& self.started <= self.total
        &&& self.failed ==> self.pending is None
        &&& self.seen@.len() == self.started as int - (if self.pending is Some {
            1int
        } else {
            0int
        })
        &&& !self.failed ==> all_pass(self.seen@)
        &&& self.failed ==> self.seen@.len() > 0 && all_pass(self.seen@.drop_last())
            && !check_passed(self.seen@.last())
        &&& self.emitted@ == seq![EventModel::RunningCount(self.total as int)] + (
        if self.pending is Some {
            ok_events(self.seen@) + seq![EventModel::TestStarted(self.pending_name())]
        } else if self.failed {
            run_events(self.seen@)
        } else {
            ok_events(self.seen@)
        })
    }

    /// Whether the run is terminal, for callers that must test it.
    pub fn is_done(&self) -> (r: bool)
        ensures
            r == self.done(),
    {
        self.failed
    }

    /// How many checks may still be started, for callers that must test it.
    pub fn remaining_count(&self) -> (r: usize)
        requires
            self.inv(),
        ensures
            r == self.remaining(),
    {
        self.total - self.started
    }

    /// Opens a run of `n` checks; the returned header event reports the
    /// count and is emitted before any check is invoked.
    pub fn begin(n: usize) -> (r: (Harness, HarnessEvent))
        ensures
            r.0.inv(),
            r.0.total_count() == n,
            r.0.remaining() == n,
            !r.0.done(),
            !r.0.awaiting_outcome(),
            r.0.seen() == Seq::<Check>::empty(),
            r.0.emitted() == seq![EventModel::RunningCount(n as int)],
            r.1@ == EventModel::RunningCount(n as int),
    {
        let ghost first = seq![EventModel::RunningCount(n as int)];
        let h = Harness {
            total: n,
            started: 0,
            pending: None,
            failed: false,
            seen: Ghost(Seq::empty()),
            emitted: Ghost(first),
        };
        proof {
            assert(ok_events(h.seen@) =~= Seq::<EventModel>::empty());
            assert(h.emitted@ =~= seq![EventModel::RunningCount(n as int)] + ok_events(h.seen@));
        }
        (h, HarnessEvent::RunningCount(n))
    }

    /// Starts the next check: the returned start marker carries its name
    /// and is emitted before the check is invoked. A terminal harness
    /// refuses this call — after a failure no further check may start.
    pub fn start(&mut self, name: String) -> (e: HarnessEvent)
        requires
            old(self).inv(),
            !old(self).done(),
            !old(self).awaiting_outcome(),
            old(self).remaining() > 0,
        ensures
            final(self).inv(),
            e@ == EventModel::TestStarted(name@),
            final(self).awaiting_outcome(),
            !final(self).done(),
            final(self).pending_name() == name@,
            final(self).seen() == old(self).seen(),
            final(self).total_count() == old(self).total_count(),
            final(self).remaining() == old(self).remaining() - 1,
            final(self).emitted() == old(self).emitted().push(EventModel::TestStarted(name@)),
    {
        let ghost ev = EventModel::TestStarted(name@);
        let e = HarnessEvent::TestStarted(name.clone());
        self.pending = Some(name);
        self.started = self.started + 1;
        self.emitted = Ghost(self.emitted@.push(ev));
        proof {
            assert(self.emitted@ =~= seq![EventModel::RunningCount(self.total as int)] + (
            ok_events(self.seen@) + seq![EventModel::TestStarted(self.pending_name())]));
        }
        e
    }

    /// Records the outcome of the check that last started. A pass yields
    /// the OK marker; a failure yields the abort marker together with the
    /// `Failed` signal and makes the harness terminal.
    pub fn finish(&mut self, outcome: CheckOutcome) -> (r: (HarnessEvent, Option<QemuExitCode>))
        requires
            old(self).inv(),
            old(self).awaiting_outcome(),
        ensures
            final(self).inv(),
            !final(self).awaiting_outcome(),
            final(self).total_count() == old(self).total_count(),
            final(self).remaining() == old(self).remaining(),
            final(self).seen().len() == old(self).seen().len() + 1,
            final(self).seen().drop_last() == old(self).seen(),
            final(self).seen().last().name@ == old(self).pending_name(),
            final(self).seen().last().outcome == outcome,
            outcome is Passed ==> r.0@ == EventModel::TestOk && r.1 is None
                && !final(self).done(),
            outcome is Aborted ==> r.0@ == EventModel::TestAborted(outcome_details(outcome))
                && r.1 == Some(QemuExitCode::Failed) && final(self).done(),
            final(self).emitted() == old(self).emitted().push(r.0@),
            final(self).done() ==> final(self).emitted() == seq![
                EventModel::RunningCount(final(self).total_count()),
            ] + run_events(final(self).seen()),
    {
        let taken = self.pending.take();
        let name = match taken {
            Some(name) => name,
            None => vstd::pervasive::unreached(),
        };
        let check = Check { name, outcome };
        let (event, exit) = match &check.outcome {
            CheckOutcome::Passed => (HarnessEvent::TestOk, None),
            CheckOutcome::Aborted(details) => (
                HarnessEvent::TestAborted(details.clone()),
                Some(QemuExitCode::Failed),
            ),
        };
        if exit.is_some() {
            self.failed = true;
        }
        let ghost seen_before = self.seen@;
        self.seen = Ghost(self.seen@.push(check));
        self.emitted = Ghost(self.emitted@.push(event@));
        proof {
            assert(self.seen@.drop_last() =~= seen_before);
            assert(self.seen@.last() == check);
            if check_passed(check) {
                lemma_ok_events_snoc(seen_before, check);
                assert(all_pass(self.seen@)) by {
                    assert forall|i: int| 0 <= i < self.seen@.len() implies check_passed(
                        #[trigger] self.seen@[i],
                    ) by {
                        if i < seen_before.len() {
                            assert(self.seen@[i] == seen_before[i]);
                        }
                    }
                }
                assert(self.emitted@ =~= seq![EventModel::RunningCount(self.total as int)]
                    + ok_events(self.seen@));
            } else {
                let k = seen_before.len() as int;
                assert(self.seen@.take(k) =~= seen_before);
                lemma_run_events_split(self.seen@, k);
                assert(self.emitted@ =~= seq![EventModel::RunningCount(self.total as int)]
                    + run_events(self.seen@));
            }
        }
        (event, exit)
    }

    /// Closes a run in which every announced check has passed: the success
    /// marker and the `Success` signal. The events handed out, together
    /// with this marker, are exactly the transcript of the checks seen.
    pub fn conclude(self) -> (r: (HarnessEvent, QemuExitCode))
        requires
            self.inv(),
            !self.done(),
            !self.awaiting_outcome(),
            self.remaining() == 0,
        ensures
            r.0@ == EventModel::AllPassed,
            r.1 == QemuExitCode::Success,
            all_pass(self.seen()),
            self.seen().len() == self.total_count(),
            self.emitted().push(EventModel::AllPassed) == transcript(self.seen()),
            r.1 == exit_of(self.seen()),
    {
        proof {
            lemma_run_events_all_pass(self.seen@);
            assert(self.emitted@.push(EventModel::AllPassed) =~= seq![
                EventModel::RunningCount(self.total as int),
            ] + (ok_events(self.seen@) + seq![EventModel::AllPassed]));
            assert(transcript(self.seen@) =~= seq![
                EventModel::RunningCount(self.total as int),
            ] + (ok_events(self.seen@) + seq![EventModel::AllPassed]));
        }
        (HarnessEvent::AllPassed, QemuExitCode::Success)
    }
}

} // verus!
