//! The decisions of the long passes (transcription, then chaptrs) over a
//! project's recordings. The passes themselves run elsewhere: they call out
//! to whisper and a language model and report as they go.
use vstd::prelude::*;

use std::sync::atomic::Ordering;
use std::sync::Arc;
use std::sync::atomic::AtomicBool;

use crate::json::opt_text;
use crate::text::{decimal, owned, push_decimal, push_str, same_text, views};

verus! {

/// A flag that another thread raises to stop a running pass. What it holds
/// is up to every thread that shares it, so nothing is claimed of the value
/// `hit` reads.
#[derive(Default)]
pub struct Cancel(pub Arc<AtomicBool>);

impl Cancel {
    /// Lowers the flag before a new pass.
    pub fn reset(&self) {
        self.0.store(false, Ordering::SeqCst);
    }

    /// Raises the flag.
    pub fn request(&self) {
        self.0.store(true, Ordering::SeqCst);
    }

    /// Whether the flag is raised right now.
    pub fn hit(&self) -> bool {
        self.0.load(Ordering::SeqCst)
    }
}

/// Which pass holds the GPU. Only one runs at a time: both stages want the
/// whole GPU. Each start is numbered, so a report from an earlier run is
/// never taken for one from the current run.
pub struct JobSlot {
    running: bool,
    run: u64,
}

/// A job slot as the rules see it: whether a pass is running, and the
/// number of the latest start.
pub struct SlotView {
    pub running: bool,
    pub run: u64,
}

impl View for JobSlot {
    type V = SlotView;

    closed spec fn view(&self) -> SlotView {
        SlotView { running: self.running, run: self.run }
    }
}

/// A start is refused while a pass runs; otherwise the slot is taken and
/// the run number moves on (modulo 2^64).
pub open spec fn spec_start(s: SlotView) -> (SlotView, bool) {
    if s.running {
        (s, false)
    } else {
        (SlotView { running: true, run: if s.run == u64::MAX { 0 } else { (s.run + 1) as u64 } }, true)
    }
}

/// The reason a second pass is refused.
pub open spec fn busy_text() -> Seq<char> {
    "a job is already running"@
}

impl JobSlot {
    /// No pass has run yet.
    pub fn new() -> (s: JobSlot)
        ensures
            !s@.running,
            s@.run == 0,
    {
        JobSlot { running: false, run: 0 }
    }

    /// Takes the slot for a new pass and returns its number, or says why
    /// not.
    pub fn start(&mut self) -> (r: Result<u64, String>)
        ensures
            final(self)@ == spec_start(old(self)@).0,
            r is Ok <==> spec_start(old(self)@).1,
            r matches Ok(n) ==> n == final(self)@.run,
            r matches Err(e) ==> e@ == busy_text(),
    {
        if self.running {
            return Err(owned("a job is already running"));
        }
        self.running = true;
        self.run = self.run.wrapping_add(1);
        Ok(self.run)
    }

    /// Frees the slot once a pass has ended, however it ended.
    pub fn finish(&mut self)
        ensures
            !final(self)@.running,
            final(self)@.run == old(self)@.run,
    {
        self.running = false;
    }

    pub fn running(&self) -> (b: bool)
        ensures
            b == self@.running,
    {
        self.running
    }

    /// The number of the latest start.
    pub fn run(&self) -> (n: u64)
        ensures
            n == self@.run,
    {
        self.run
    }
}

/// Only one pass runs at a time: once a start succeeds, every further
/// start is refused until the pass finishes, and the run number stays put.
pub proof fn law_one_job_at_a_time(s: SlotView)
    ensures
        spec_start(s).1 ==> !spec_start(spec_start(s).0).1,
        spec_start(s).1 ==> spec_start(spec_start(s).0).0 == spec_start(s).0,
        !s.running ==> spec_start(s).1,
{
}

/// The positions `i` where `done[i] == want`, in order.
pub open spec fn positions(done: Seq<bool>, want: bool) -> Seq<usize>
    decreases done.len(),
{
    if done.len() == 0 {
        seq![]
    } else if done.last() == want {
        positions(done.drop_last(), want).push((done.len() - 1) as usize)
    } else {
        positions(done.drop_last(), want)
    }
}

/// The recordings a pass works on: transcription takes those without a
/// transcript (`want` false), so an interrupted run resumes rather than
/// starting over; the chaptr pass takes those with one (`want` true).
pub fn todo(transcribed: &Vec<bool>, want: bool) -> (r: Vec<usize>)
    ensures
        r@ == positions(transcribed@, want),
{
    let mut r: Vec<usize> = Vec::new();
    let mut i: usize = 0;
    while i < transcribed.len()
        invariant
            i <= transcribed@.len(),
            r@ == positions(transcribed@.take(i as int), want),
        decreases transcribed@.len() - i,
    {
        proof {
            let t = transcribed@.take(i + 1);
            assert(t.drop_last() == transcribed@.take(i as int));
        }
        if transcribed[i] == want {
            r.push(i);
        }
        i = i + 1;
    }
    assert(transcribed@.take(transcribed@.len() as int) == transcribed@);
    r
}

proof fn lemma_positions(done: Seq<bool>, want: bool)
    requires
        done.len() <= usize::MAX,
    ensures
        forall|k: int| 0 <= k < positions(done, want).len() ==> #[trigger] positions(done, want)[k] < done.len(),
        forall|k: int|
            0 <= k < positions(done, want).len() ==> done[#[trigger] positions(done, want)[k] as int] == want,
        forall|a: int, b: int|
            0 <= a < b < positions(done, want).len() ==> positions(done, want)[a] < positions(done, want)[b],
        forall|i: int| 0 <= i < done.len() && done[i] == want ==> positions(done, want).contains(i as usize),
    decreases done.len(),
{
    if done.len() > 0 {
        let rest = done.drop_last();
        lemma_positions(rest, want);
        let p = positions(done, want);
        let q = positions(rest, want);
        let last = (done.len() - 1) as usize;
        assert(last as int == done.len() - 1);
        assert forall|k: int| 0 <= k < q.len() implies done[q[k] as int] == rest[q[k] as int] by {}
        assert forall|i: int| 0 <= i < done.len() && done[i] == want implies p.contains(i as usize) by {
            if i < done.len() - 1 {
                assert(rest[i] == done[i]);
                assert(q.contains(i as usize));
                let k = choose|k: int| 0 <= k < q.len() && q[k] == i as usize;
                if done.last() == want {
                    assert(p[k] == q[k]);
                }
            } else {
                assert(p[p.len() - 1] == last);
            }
        }
    }
}

/// Every stage resumes: a pass works on exactly the recordings in the state
/// it looks for (without a transcript, for transcription), each once, in
/// library order; once every recording is done, a transcription pass has
/// nothing left.
pub proof fn law_resume(done: Seq<bool>, want: bool)
    requires
        done.len() <= usize::MAX,
    ensures
        forall|i: int| 0 <= i < done.len() ==> (positions(done, want).contains(i as usize) <==> done[i] == want),
        forall|k: int| 0 <= k < positions(done, want).len() ==> #[trigger] positions(done, want)[k] < done.len(),
        forall|a: int, b: int|
            0 <= a < b < positions(done, want).len() ==> positions(done, want)[a] < positions(done, want)[b],
        (forall|i: int| 0 <= i < done.len() ==> done[i]) ==> positions(done, false).len() == 0,
{
    lemma_positions(done, want);
    lemma_positions(done, false);
    assert forall|i: int| 0 <= i < done.len() implies (positions(done, want).contains(i as usize) <==> done[i] == want) by {
        if positions(done, want).contains(i as usize) {
            let k = choose|k: int| 0 <= k < positions(done, want).len() && positions(done, want)[k] == i as usize;
            assert(done[positions(done, want)[k] as int] == want);
        }
    }
    if forall|i: int| 0 <= i < done.len() ==> done[i] {
        if positions(done, false).len() > 0 {
            let x = positions(done, false)[0];
            assert(done[x as int] == false);
        }
    }
}

/// Why a transcription pass cannot start: no recording layout has track
/// roles yet.
pub open spec fn no_roles_text() -> Seq<char> {
    "no track roles yet \u{2014} open Tracks and detect them first"@
}

/// A transcription pass needs track roles; without any it stops with the
/// reason.
pub fn transcribe_gate(has_roles: bool) -> (r: Result<(), String>)
    ensures
        r is Ok <==> has_roles,
        r matches Err(e) ==> e@ == no_roles_text(),
{
    if has_roles {
        Ok(())
    } else {
        Err(owned("no track roles yet \u{2014} open Tracks and detect them first"))
    }
}

/// Why a chaptr pass cannot start: nothing is transcribed.
pub open spec fn nothing_transcribed_text() -> Seq<char> {
    "nothing transcribed yet \u{2014} run Transcribe first"@
}

/// A chaptr pass needs at least one transcript.
pub fn chaptrs_gate(todo: &Vec<usize>) -> (r: Result<(), String>)
    ensures
        r is Ok <==> todo@.len() > 0,
        r matches Err(e) ==> e@ == nothing_transcribed_text(),
{
    if todo.len() > 0 {
        Ok(())
    } else {
        Err(owned("nothing transcribed yet \u{2014} run Transcribe first"))
    }
}

/// The closing message of a transcription pass that had work to do.
pub open spec fn transcribed_text(count: nat) -> Seq<char> {
    "transcribed "@ + decimal(count) + " recordings"@
}

/// The message a finished transcription pass shows.
pub fn transcribed_message(count: u64) -> (s: String)
    ensures
        s@ == transcribed_text(count as nat),
{
    let mut s = owned("transcribed ");
    push_decimal(&mut s, count);
    push_str(&mut s, " recordings");
    s
}

/// The message a finished chaptr pass shows.
pub open spec fn chaptrs_text(count: nat) -> Seq<char> {
    decimal(count) + " chaptrs"@
}

/// The message a finished chaptr pass shows.
pub fn chaptrs_message(count: u64) -> (s: String)
    ensures
        s@ == chaptrs_text(count as nat),
{
    let mut s = String::new();
    push_decimal(&mut s, count);
    push_str(&mut s, " chaptrs");
    s
}

/// A failure on one recording, which the pass reports and then moves past.
pub fn failure_message(name: &str, error: &str) -> (s: String)
    ensures
        s@ == name@ + ": "@ + error@,
{
    let mut s = owned(name);
    push_str(&mut s, ": ");
    push_str(&mut s, error);
    s
}

/// How many entries of `ids` are `id`.
pub open spec fn count_of(ids: Seq<Seq<char>>, id: Seq<char>) -> nat
    decreases ids.len(),
{
    if ids.len() == 0 {
        0
    } else {
        count_of(ids.drop_last(), id) + if ids.last() == id { 1nat } else { 0nat }
    }
}

/// How many chaptrs belong to recording `id`, given the recording of each.
pub fn chaptrs_for(recording_ids: &Vec<String>, id: &str) -> (n: usize)
    ensures
        n == count_of(views(recording_ids@), id@),
{
    let mut n: usize = 0;
    let mut i: usize = 0;
    while i < recording_ids.len()
        invariant
            i <= recording_ids@.len(),
            n == count_of(views(recording_ids@).take(i as int), id@),
            n <= i,
        decreases recording_ids@.len() - i,
    {
        proof {
            let t = views(recording_ids@).take(i + 1);
            assert(t.drop_last() == views(recording_ids@).take(i as int));
            assert(t.last() == recording_ids@[i as int]@);
        }
        if same_text(recording_ids[i].as_str(), id) {
            n = n + 1;
        }
        i = i + 1;
    }
    assert(views(recording_ids@).take(recording_ids@.len() as int) == views(recording_ids@));
    n
}

// ---- the passes themselves ----

/// Which pass runs over the recordings.
#[derive(Debug, Clone, Copy, PartialEq, Eq, Structural)]
pub enum PassKind {
    /// Transcription, over the recordings without a transcript.
    Transcribe,
    /// The chaptr pass, over the recordings with one.
    Chaptrs,
}

/// Where a pass stands: the position, in its list, of the recording in hand
/// (the list's length once the pass has ended), what it has produced so far
/// (transcripts, or chaptrs), and whether it has ended.
#[derive(Debug, Clone, Copy, PartialEq, Eq, Structural)]
pub struct PassState {
    pub kind: PassKind,
    pub next: usize,
    pub produced: u64,
    pub over: bool,
}

/// What happened since the last step of a pass.
#[derive(Debug)]
pub enum PassEvent {
    /// The pass begins.
    Start,
    /// The recording in hand was done, producing this many results.
    Done { produced: u64 },
    /// The recording in hand had nothing to work on and was passed over.
    Skipped,
    /// The recording in hand failed, with this error.
    Failed { name: String, error: String },
    /// Cancel was found raised before the recording in hand was begun.
    Cancelled,
}

/// What the pass does next.
#[derive(Debug)]
pub enum PassAction {
    /// Report the failure, if any, then work on library recording
    /// `recording`, shown as number `index` of the list.
    Work { recording: usize, index: usize, report: Option<String> },
    /// Report the failure, if any, then end: save what was produced (and
    /// mark the project unsaved) when `save`, clear the scratch directory
    /// when `clear_scratch`, and close with `message`.
    Finish { cancelled: bool, save: bool, clear_scratch: bool, message: String, report: Option<String> },
    /// Nothing: the pass has already ended.
    Idle,
}

/// A pass event with its texts as sequences.
pub enum EventView {
    Start,
    Done { produced: u64 },
    Skipped,
    Failed { name: Seq<char>, error: Seq<char> },
    Cancelled,
}

/// A pass action with its texts as sequences.
pub enum ActionView {
    Work { recording: usize, index: usize, report: Option<Seq<char>> },
    Finish { cancelled: bool, save: bool, clear_scratch: bool, message: Seq<char>, report: Option<Seq<char>> },
    Idle,
}

impl View for PassEvent {
    type V = EventView;

    open spec fn view(&self) -> EventView {
        match self {
            PassEvent::Start => EventView::Start,
            PassEvent::Done { produced } => EventView::Done { produced: *produced },
            PassEvent::Skipped => EventView::Skipped,
            PassEvent::Failed { name, error } => EventView::Failed { name: name@, error: error@ },
            PassEvent::Cancelled => EventView::Cancelled,
        }
    }
}

impl View for PassAction {
    type V = ActionView;

    open spec fn view(&self) -> ActionView {
        match self {
            PassAction::Work { recording, index, report } => ActionView::Work {
                recording: *recording,
                index: *index,
                report: opt_text(*report),
            },
            PassAction::Finish { cancelled, save, clear_scratch, message, report } => ActionView::Finish {
                cancelled: *cancelled,
                save: *save,
                clear_scratch: *clear_scratch,
                message: message@,
                report: opt_text(*report),
            },
            PassAction::Idle => ActionView::Idle,
        }
    }
}

/// What a transcription pass with nothing to do says.
pub open spec fn all_transcribed_text() -> Seq<char> {
    "every recording is already transcribed"@
}

/// How a pass that ran to the end closes.
pub open spec fn closing_text(kind: PassKind, produced: u64, total: nat) -> Seq<char> {
    match kind {
        PassKind::Transcribe => if total == 0 {
            all_transcribed_text()
        } else {
            transcribed_text(produced as nat)
        },
        PassKind::Chaptrs => chaptrs_text(produced as nat),
    }
}

/// A count that stops at the top rather than wrapping.
pub open spec fn plus(a: u64, b: u64) -> u64 {
    if a + b > u64::MAX {
        u64::MAX
    } else {
        (a + b) as u64
    }
}

/// The pass moves to position `at` of its list: it works on the recording
/// there, or, past the end, finishes. A transcription pass that ran clears
/// the scratch directory; a finished pass saves, unless it was a
/// transcription pass with nothing to do.
pub open spec fn spec_advance(
    kind: PassKind,
    at: int,
    produced: u64,
    todo: Seq<usize>,
    report: Option<Seq<char>>,
) -> (PassState, ActionView) {
    if at < todo.len() {
        (
            PassState { kind, next: at as usize, produced, over: false },
            ActionView::Work { recording: todo[at], index: (at + 1) as usize, report },
        )
    } else {
        (
            PassState { kind, next: todo.len() as usize, produced, over: true },
            ActionView::Finish {
                cancelled: false,
                save: kind == PassKind::Chaptrs || todo.len() > 0,
                clear_scratch: kind == PassKind::Transcribe && todo.len() > 0,
                message: closing_text(kind, produced, todo.len()),
                report,
            },
        )
    }
}

/// One step of a pass over `todo`. A start begins at the first recording.
/// A recording done, passed over or failed moves on to the next, a failure
/// being reported on the way. Cancel ends the pass at once and keeps what
/// was produced: it is saved when there is any. An ended pass does nothing
/// more until it is started again.
pub open spec fn spec_pass_step(s: PassState, todo: Seq<usize>, e: EventView) -> (PassState, ActionView) {
    if e is Start {
        spec_advance(s.kind, 0, 0, todo, None)
    } else if s.over || s.next >= todo.len() {
        (s, ActionView::Idle)
    } else {
        match e {
            EventView::Done { produced } => spec_advance(s.kind, s.next + 1, plus(s.produced, produced), todo, None),
            EventView::Failed { name, error } => spec_advance(
                s.kind,
                s.next + 1,
                s.produced,
                todo,
                Some(name + ": "@ + error),
            ),
            EventView::Cancelled => (
                PassState { kind: s.kind, next: s.next, produced: s.produced, over: true },
                ActionView::Finish {
                    cancelled: true,
                    save: s.produced > 0,
                    clear_scratch: false,
                    message: seq![],
                    report: None,
                },
            ),
            _ => spec_advance(s.kind, s.next + 1, s.produced, todo, None),
        }
    }
}

fn advance(kind: PassKind, at: usize, produced: u64, todo: &Vec<usize>, report: Option<String>) -> (r: (
    PassState,
    PassAction,
))
    requires
        at <= todo@.len(),
    ensures
        r.0 == spec_advance(kind, at as int, produced, todo@, opt_text(report)).0,
        r.1@ == spec_advance(kind, at as int, produced, todo@, opt_text(report)).1,
{
    if at < todo.len() {
        (PassState { kind, next: at, produced, over: false }, PassAction::Work { recording: todo[at], index: at + 1, report })
    } else {
        let message = match kind {
            PassKind::Transcribe => if todo.len() == 0 {
                owned("every recording is already transcribed")
            } else {
                transcribed_message(produced)
            },
            PassKind::Chaptrs => chaptrs_message(produced),
        };
        let chaptrs = matches!(kind, PassKind::Chaptrs);
        (
            PassState { kind, next: todo.len(), produced, over: true },
            PassAction::Finish {
                cancelled: false,
                save: chaptrs || todo.len() > 0,
                clear_scratch: !chaptrs && todo.len() > 0,
                message,
                report,
            },
        )
    }
}

/// The next state and action of a pass over `todo` (library positions, in
/// order) after `event`. The caller performs the action and reports back.
pub fn pass_step(state: &PassState, todo: &Vec<usize>, event: PassEvent) -> (r: (PassState, PassAction))
    ensures
        r.0 == spec_pass_step(*state, todo@, event@).0,
        r.1@ == spec_pass_step(*state, todo@, event@).1,
{
    if let PassEvent::Start = event {
        return advance(state.kind, 0, 0, todo, None);
    }
    if state.over || state.next >= todo.len() {
        return (*state, PassAction::Idle);
    }
    match event {
        PassEvent::Done { produced } => advance(state.kind, state.next + 1, state.produced.saturating_add(produced), todo, None),
        PassEvent::Failed { name, error } => {
            let report = failure_message(name.as_str(), error.as_str());
            advance(state.kind, state.next + 1, state.produced, todo, Some(report))
        },
        PassEvent::Cancelled => (
            PassState { kind: state.kind, next: state.next, produced: state.produced, over: true },
            PassAction::Finish {
                cancelled: true,
                save: state.produced > 0,
                clear_scratch: false,
                message: String::new(),
                report: None,
            },
        ),
        _ => advance(state.kind, state.next + 1, state.produced, todo, None),
    }
}

/// A pass ends once: after it has finished or been cancelled, every event
/// but a new start leaves it as it is and asks for nothing.
pub proof fn law_pass_ends_once(s: PassState, todo: Seq<usize>, e: EventView)
    requires
        s.over,
        !(e is Start),
    ensures
        spec_pass_step(s, todo, e) == (s, ActionView::Idle),
{
}

/// Stopping partway costs nothing: a cancelled pass ends at once, without
/// clearing the scratch directory, and saves exactly when it had produced
/// something, so a later pass resumes where this one stopped.
pub proof fn law_cancel_keeps_work(s: PassState, todo: Seq<usize>)
    requires
        !s.over,
        s.next < todo.len(),
    ensures
        spec_pass_step(s, todo, EventView::Cancelled).0.over,
        spec_pass_step(s, todo, EventView::Cancelled).0.produced == s.produced,
        spec_pass_step(s, todo, EventView::Cancelled).1 matches ActionView::Finish { cancelled, save, clear_scratch, .. }
            && cancelled && save == (s.produced > 0) && !clear_scratch,
{
}

/// A pass after a start and then `k` recordings done, one result each.
pub open spec fn after_done(kind: PassKind, todo: Seq<usize>, k: nat) -> (PassState, ActionView)
    decreases k,
{
    if k == 0 {
        spec_pass_step(PassState { kind, next: 0, produced: 0, over: false }, todo, EventView::Start)
    } else {
        spec_pass_step(after_done(kind, todo, (k - 1) as nat).0, todo, EventView::Done { produced: 1 })
    }
}

/// A pass works on each recording of its list once, in list order: after a
/// start and `k` recordings done it works on the next one, shown as number
/// `k + 1`, having produced `k`; after the last it finishes, uncancelled,
/// and closes with the count.
pub proof fn law_pass_in_order(kind: PassKind, todo: Seq<usize>, k: nat)
    requires
        todo.len() <= usize::MAX,
        k <= todo.len(),
    ensures
        after_done(kind, todo, k).0.kind == kind,
        after_done(kind, todo, k).0.produced == k,
        k < todo.len() ==> after_done(kind, todo, k).0.next == k && !after_done(kind, todo, k).0.over,
        k < todo.len() ==> after_done(kind, todo, k).1 == (ActionView::Work {
            recording: todo[k as int],
            index: (k + 1) as usize,
            report: None,
        }),
        k == todo.len() ==> after_done(kind, todo, k).0.over,
        k == todo.len() ==> (after_done(kind, todo, k).1 matches ActionView::Finish { cancelled, message, .. }
            && !cancelled && message == closing_text(kind, k as u64, todo.len())),
    decreases k,
{
    if k > 0 {
        law_pass_in_order(kind, todo, (k - 1) as nat);
    }
}

/// A recording that fails, is done or is passed over does not end the pass
/// while others remain: the pass reports a failure as "name: error" and
/// goes on to the next recording of its list, shown as the next number; a
/// recording done adds its results to the count, the others leave it.
pub proof fn law_pass_moves_on(s: PassState, todo: Seq<usize>, e: EventView)
    requires
        !s.over,
        s.next + 1 < todo.len(),
        !(e is Start),
        !(e is Cancelled),
    ensures
        spec_pass_step(s, todo, e).0 == (PassState {
            kind: s.kind,
            next: (s.next + 1) as usize,
            produced: match e {
                EventView::Done { produced } => plus(s.produced, produced),
                _ => s.produced,
            },
            over: false,
        }),
        spec_pass_step(s, todo, e).1 == (ActionView::Work {
            recording: todo[s.next + 1],
            index: (s.next + 2) as usize,
            report: match e {
                EventView::Failed { name, error } => Some(name + ": "@ + error),
                _ => None,
            },
        }),
{
}

/// When the last recording of the list fails, the pass still finishes as
/// a completed pass: not cancelled, closing with its count, and with the
/// failure reported.
pub proof fn law_last_failure_finishes(s: PassState, todo: Seq<usize>, name: Seq<char>, error: Seq<char>)
    requires
        !s.over,
        s.next + 1 == todo.len(),
    ensures
        spec_pass_step(s, todo, EventView::Failed { name, error }).0.over,
        spec_pass_step(s, todo, EventView::Failed { name, error }).0.produced == s.produced,
        spec_pass_step(s, todo, EventView::Failed { name, error }).1 == (ActionView::Finish {
            cancelled: false,
            save: s.kind == PassKind::Chaptrs || todo.len() > 0,
            clear_scratch: s.kind == PassKind::Transcribe,
            message: closing_text(s.kind, s.produced, todo.len()),
            report: Some(name + ": "@ + error),
        }),
{
}

} // verus!
