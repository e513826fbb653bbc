//! Group commit: which bytes a log's writer writes, which files it syncs, and
//! when it answers.
//!
//! One writer owns the files of one or more logs. It takes every append that
//! is waiting as one batch, writes them all, syncs each file that it wrote to
//! once, and then gives every append of the batch the same answer. A burst of
//! appends so costs one sync per file, and an append is still answered only
//! once its own bytes are on disk. With an interval, bytes are written as
//! they come, and syncs and answers wait for a timer.
//!
//! The types here decide; whoever owns the files performs each step and
//! reports how it went.

use crate::text::show;
use vstd::prelude::*;
use vstd::string::StringExecFns;

verus! {

/// Which file ids have a file.
pub struct FileSlots {
    open: Vec<bool>,
}

/// Whether a file id has a file.
pub open spec fn is_open(slots: Seq<bool>, id: int) -> bool {
    0 <= id < slots.len() && slots[id]
}

impl View for FileSlots {
    type V = Seq<bool>;

    closed spec fn view(&self) -> Seq<bool> {
        self.open@
    }
}

impl FileSlots {
    pub fn new() -> (s: Self)
        ensures
            s@.len() == 0,
    {
        FileSlots { open: Vec::new() }
    }

    /// Takes in the file of an id, with room for the ids below it.
    pub fn register(&mut self, id: usize)
        requires
            id < usize::MAX,
        ensures
            final(self)@ == mark(old(self)@, id as nat),
    {
        set_mark(&mut self.open, id);
    }

    /// Whether an id lies beyond every id taken in so far.
    pub fn is_beyond(&self, id: usize) -> (r: bool)
        ensures
            r == (id >= self@.len()),
    {
        id >= self.open.len()
    }

    pub fn has(&self, id: usize) -> (r: bool)
        ensures
            r == is_open(self@, id as int),
    {
        id < self.open.len() && self.open[id]
    }
}

pub open spec fn unknown_file_text(id: usize) -> Seq<char> {
    "unknown log file id "@ + crate::text::decimal(id as nat)
}

/// The answer to an append for a file that nobody registered.
pub fn unknown_file(id: usize) -> (s: String)
    ensures
        s@ == unknown_file_text(id),
{
    "unknown log file id ".to_owned().concat(show(id as u128).as_str())
}

/// What the writer does next for a batch.
#[derive(Debug)]
pub enum CommitStep {
    /// Take in files that were registered meanwhile.
    Refresh,
    /// Write the frame of one request to its file.
    Write { request: usize, file: usize },
    /// Sync a file.
    Sync { file: usize },
    /// Give every request of the batch this answer.
    Reply(Result<(), String>),
}

/// A step by its contents.
pub ghost enum Step {
    Refresh,
    Write { request: nat, file: usize },
    Sync { file: nat },
    Reply(Option<Seq<char>>),
}

impl View for CommitStep {
    type V = Step;

    open spec fn view(&self) -> Step {
        match self {
            CommitStep::Refresh => Step::Refresh,
            CommitStep::Write { request, file } => Step::Write {
                request: *request as nat,
                file: *file,
            },
            CommitStep::Sync { file } => Step::Sync { file: *file as nat },
            CommitStep::Reply(Ok(())) => Step::Reply(None),
            CommitStep::Reply(Err(e)) => Step::Reply(Some(e@)),
        }
    }
}

/// One batch of a group commit.
pub struct GroupCommit {
    targets: Vec<usize>,
    written: usize,
    refreshed: bool,
    failed: Option<String>,
    touched: Vec<bool>,
    cursor: usize,
}

/// A batch by its contents.
pub ghost struct Batch {
    /// The file of each request, in the order of the requests.
    pub targets: Seq<usize>,
    /// How many requests are written.
    pub written: nat,
    /// Whether new files were looked for since the last write.
    pub refreshed: bool,
    /// The first write or sync that failed.
    pub failed: Option<Seq<char>>,
    /// Which files were written to.
    pub touched: Seq<bool>,
    /// Every file below this is synced where it was written to.
    pub cursor: nat,
}

/// The written files from `from` on, in increasing order.
pub open spec fn touched_from(touched: Seq<bool>, from: nat) -> Seq<nat>
    decreases touched.len() - from,
{
    if from >= touched.len() {
        Seq::empty()
    } else if touched[from as int] {
        seq![from] + touched_from(touched, from + 1)
    } else {
        touched_from(touched, from + 1)
    }
}

impl Batch {
    /// What stays true of a batch: the files written to are those of the
    /// written requests.
    pub open spec fn wf(self) -> bool {
        &&& self.written <= self.targets.len()
        &&& forall|f: int|
            #![trigger is_open(self.touched, f)]
            is_open(self.touched, f) <==> exists|r: int|
                0 <= r < self.written && #[trigger] self.targets[r] == f
    }

    /// The files that still have to be synced.
    pub open spec fn unsynced(self) -> Seq<nat> {
        touched_from(self.touched, self.cursor)
    }

    /// What to do next.
    pub open spec fn step(self, slots: Seq<bool>) -> Step {
        if self.failed is Some {
            Step::Reply(self.failed)
        } else if self.written < self.targets.len() {
            let file = self.targets[self.written as int];
            if file >= slots.len() && !self.refreshed {
                Step::Refresh
            } else if is_open(slots, file as int) {
                Step::Write { request: self.written, file }
            } else {
                Step::Reply(Some(unknown_file_text(file)))
            }
        } else if self.unsynced().len() > 0 {
            Step::Sync { file: self.unsynced()[0] }
        } else {
            Step::Reply(None)
        }
    }

    /// The batch after its next request was written.
    pub open spec fn wrote(self) -> Batch {
        let file = self.targets[self.written as int];
        Batch {
            written: self.written + 1,
            refreshed: false,
            touched: mark(self.touched, file as nat),
            ..self
        }
    }
}

/// The flags with one set, and as many more as that takes.
pub open spec fn mark(flags: Seq<bool>, id: nat) -> Seq<bool> {
    Seq::new(
        if id < flags.len() {
            flags.len()
        } else {
            id + 1
        },
        |i: int| i == id || (i < flags.len() && flags[i]),
    )
}

fn set_mark(flags: &mut Vec<bool>, id: usize)
    requires
        id < usize::MAX,
    ensures
        final(flags)@ == mark(old(flags)@, id as nat),
{
    let ghost before = flags@;
    while flags.len() <= id
        invariant
            id < usize::MAX,
            flags@.len() >= before.len(),
            flags@.len() > before.len() ==> flags@.len() <= id + 1,
            forall|i: int|
                0 <= i < flags@.len() ==> #[trigger] flags@[i] == (i < before.len() && before[i]),
        decreases id + 1 - flags.len(),
    {
        flags.push(false);
    }
    flags.set(id, true);
    assert(flags@ =~= mark(before, id as nat));
}

proof fn lemma_mark(flags: Seq<bool>, id: nat, f: int)
    ensures
        is_open(mark(flags, id), f) <==> f == id || is_open(flags, f),
{
}

impl View for GroupCommit {
    type V = Batch;

    closed spec fn view(&self) -> Batch {
        Batch {
            targets: self.targets@,
            written: self.written as nat,
            refreshed: self.refreshed,
            failed: match self.failed {
                Some(e) => Some(e@),
                None => None,
            },
            touched: self.touched@,
            cursor: self.cursor as nat,
        }
    }
}

impl GroupCommit {
    /// A new batch of requests for the given files.
    pub fn new(targets: Vec<usize>) -> (b: Self)
        ensures
            b@ == (Batch {
                targets: targets@,
                written: 0,
                refreshed: false,
                failed: None,
                touched: Seq::empty(),
                cursor: 0,
            }),
            b@.wf(),
    {
        let b = GroupCommit {
            targets,
            written: 0,
            refreshed: false,
            failed: None,
            touched: Vec::new(),
            cursor: 0,
        };
        assert(b.touched@ =~= Seq::empty());
        b
    }

    /// The next file to sync at or after the cursor.
    fn next_unsynced(&self) -> (r: Option<usize>)
        ensures
            match r {
                Some(f) => self@.unsynced().len() > 0 && self@.unsynced()[0] == f && f
                    < self.touched@.len(),
                None => self@.unsynced().len() == 0,
            },
    {
        let mut i: usize = self.cursor;
        while i < self.touched.len()
            invariant
                self@.unsynced() == touched_from(self.touched@, i as nat),
            decreases self.touched.len() - i,
        {
            if self.touched[i] {
                return Some(i);
            }
            i = i + 1;
        }
        None
    }

    /// What to do next, given the files there are.
    pub fn step(&self, slots: &FileSlots) -> (s: CommitStep)
        requires
            self@.wf(),
        ensures
            s@ == self@.step(slots@),
    {
        match &self.failed {
            Some(e) => {
                return CommitStep::Reply(Err(e.clone()));
            },
            None => {},
        }
        if self.written < self.targets.len() {
            let file: usize = self.targets[self.written];
            if slots.is_beyond(file) && !self.refreshed {
                CommitStep::Refresh
            } else if slots.has(file) {
                CommitStep::Write { request: self.written, file }
            } else {
                CommitStep::Reply(Err(unknown_file(file)))
            }
        } else {
            match self.next_unsynced() {
                Some(file) => CommitStep::Sync { file },
                None => CommitStep::Reply(Ok(())),
            }
        }
    }

    /// New files were taken in.
    pub fn refreshed(&mut self)
        ensures
            final(self)@ == (Batch { refreshed: true, ..old(self)@ }),
    {
        self.refreshed = true;
    }

    /// The next request was written, or could not be.
    pub fn write_done(&mut self, outcome: Result<(), String>)
        requires
            old(self)@.wf(),
            old(self)@.written < old(self)@.targets.len(),
            old(self)@.targets[old(self)@.written as int] < usize::MAX,
        ensures
            final(self)@ == match outcome {
                Ok(()) => old(self)@.wrote(),
                Err(e) => Batch { failed: Some(e@), ..old(self)@ },
            },
            final(self)@.wf(),
    {
        match outcome {
            Ok(()) => {
                let file: usize = self.targets[self.written];
                let count: usize = self.targets.len();
                assert(self.written < count);
                proof {
                    law_write_keeps_wf(self@);
                }
                set_mark(&mut self.touched, file);
                self.written = self.written + 1;
                self.refreshed = false;
            },
            Err(e) => {
                self.failed = Some(e);
            },
        }
    }

    /// The next file was synced, or could not be.
    pub fn sync_done(&mut self, file: usize, outcome: Result<(), String>)
        requires
            file < usize::MAX,
        ensures
            final(self)@ == match outcome {
                Ok(()) => Batch { cursor: (file + 1) as nat, ..old(self)@ },
                Err(e) => Batch { failed: Some(e@), ..old(self)@ },
            },
    {
        match outcome {
            Ok(()) => {
                self.cursor = file + 1;
            },
            Err(e) => {
                self.failed = Some(e);
            },
        }
    }
}

/// Writing a request keeps the record of the written files right.
pub proof fn law_write_keeps_wf(b: Batch)
    requires
        b.wf(),
        b.written < b.targets.len(),
    ensures
        b.wrote().wf(),
{
    let after = b.wrote();
    let file = b.targets[b.written as int];
    assert forall|f: int|
        #![trigger is_open(after.touched, f)]
        is_open(after.touched, f) <==> exists|r: int|
            0 <= r < after.written && #[trigger] after.targets[r] == f by {
        lemma_mark(b.touched, file as nat, f);
        if is_open(b.touched, f) {
            let r = choose|r: int| 0 <= r < b.written && #[trigger] b.targets[r] == f;
            assert(after.targets[r] == f);
        }
        if f == file {
            assert(after.targets[b.written as int] == f);
        }
        if exists|r: int| 0 <= r < after.written && #[trigger] after.targets[r] == f {
            let r = choose|r: int| 0 <= r < after.written && #[trigger] after.targets[r] == f;
            if r < b.written {
                assert(b.targets[r] == f);
            }
        }
    }
}

proof fn lemma_touched_from(touched: Seq<bool>, from: nat)
    ensures
        forall|i: int|
            0 <= i < touched_from(touched, from).len() ==> {
                let f = #[trigger] touched_from(touched, from)[i];
                from <= f < touched.len() && touched[f as int]
            },
        forall|f: int|
            from <= f < touched.len() && #[trigger] touched[f] ==> touched_from(
                touched,
                from,
            ).contains(f as nat),
    decreases touched.len() - from,
{
    if from < touched.len() {
        lemma_touched_from(touched, from + 1);
        let t = touched_from(touched, from);
        let u = touched_from(touched, from + 1);
        assert forall|f: int| from <= f < touched.len() && #[trigger] touched[f] implies t.contains(
            f as nat,
        ) by {
            if f == from {
                assert(t[0] == from);
            } else {
                let k = u.index_of(f as nat);
                if touched[from as int] {
                    assert(t[k + 1] == u[k]);
                } else {
                    assert(t[k] == u[k]);
                }
            }
        }
    }
}

/// A successful sync takes exactly the file it was for off the files that are
/// still to be synced; so each written file is synced once.
pub proof fn law_each_file_synced_once(b: Batch, file: nat)
    requires
        b.unsynced().len() > 0,
        file == b.unsynced()[0],
    ensures
        (Batch { cursor: file + 1, ..b }).unsynced() == b.unsynced().drop_first(),
        !(Batch { cursor: file + 1, ..b }).unsynced().contains(file),
{
    lemma_first_unsynced(b.touched, b.cursor);
    lemma_touched_from(b.touched, file + 1);
    let after = touched_from(b.touched, file + 1);
    if after.contains(file) {
        let k = after.index_of(file);
        assert(after[k] >= file + 1);
    }
}

proof fn lemma_first_unsynced(touched: Seq<bool>, from: nat)
    requires
        touched_from(touched, from).len() > 0,
    ensures
        touched_from(touched, touched_from(touched, from)[0] + 1) == touched_from(
            touched,
            from,
        ).drop_first(),
    decreases touched.len() - from,
{
    let t = touched_from(touched, from);
    if touched[from as int] {
        assert(t.drop_first() =~= touched_from(touched, from + 1));
    } else {
        lemma_first_unsynced(touched, from + 1);
    }
}

/// A batch is answered with success only when every request is written and
/// the syncs have passed every file of theirs.
pub proof fn law_success_means_durable(b: Batch, slots: Seq<bool>, r: int)
    requires
        b.wf(),
        b.step(slots) == Step::Reply(None),
        0 <= r < b.targets.len(),
    ensures
        b.written == b.targets.len(),
        is_open(b.touched, b.targets[r] as int),
        b.targets[r] < b.cursor,
{
    let f = b.targets[r] as int;
    assert(b.targets[r] == f);
    assert(is_open(b.touched, f));
    lemma_touched_from(b.touched, b.cursor);
    if f >= b.cursor {
        assert(b.touched[f]);
        assert(b.unsynced().contains(f as nat));
    }
}

/// After a write or a sync failed, every request of the batch is answered
/// with that failure.
pub proof fn law_failure_answers_all(b: Batch, slots: Seq<bool>, e: Seq<char>)
    requires
        b.failed == Some(e),
    ensures
        b.step(slots) == Step::Reply(Some(e)),
{
}

/// A writer that syncs on a timer.
pub struct IntervalCommit {
    dirty: Vec<bool>,
    pending: Vec<u64>,
    next_sync: u128,
}

/// An interval writer by its contents.
pub ghost struct Interval {
    /// Which files were written to since the last sync.
    pub dirty: Seq<bool>,
    /// The appends whose bytes are written and which wait for an answer.
    pub pending: Seq<u64>,
    /// When the timer is due, in nanoseconds.
    pub next_sync: u128,
}

impl View for IntervalCommit {
    type V = Interval;

    closed spec fn view(&self) -> Interval {
        Interval { dirty: self.dirty@, pending: self.pending@, next_sync: self.next_sync }
    }
}

pub open spec fn interval_nanos(interval_ms: u64) -> int {
    interval_ms * 1_000_000
}

/// The failure that a round of syncs leaves: the last one.
pub open spec fn last_failure(outcomes: Seq<Result<(), String>>) -> Option<Seq<char>>
    decreases outcomes.len(),
{
    if outcomes.len() == 0 {
        None
    } else {
        match outcomes.last() {
            Err(e) => Some(e@),
            Ok(()) => last_failure(outcomes.drop_last()),
        }
    }
}

impl Interval {
    /// The files to sync when the timer is due: those written to, where any
    /// append waits.
    pub open spec fn to_sync(self) -> Seq<nat> {
        if self.pending.len() == 0 {
            Seq::empty()
        } else {
            touched_from(self.dirty, 0)
        }
    }

    pub open spec fn due(self, now: u128) -> bool {
        now >= self.next_sync
    }
}

impl IntervalCommit {
    /// A writer whose timer starts at `now` (nanoseconds of a monotonic
    /// clock).
    pub fn new(now: u128, interval_ms: u64) -> (c: Self)
        requires
            now + interval_nanos(interval_ms) <= u128::MAX,
        ensures
            c@ == (Interval {
                dirty: Seq::empty(),
                pending: Seq::empty(),
                next_sync: (now + interval_nanos(interval_ms)) as u128,
            }),
    {
        let c = IntervalCommit {
            dirty: Vec::new(),
            pending: Vec::new(),
            next_sync: now + interval_ms as u128 * 1_000_000,
        };
        assert(c.dirty@ =~= Seq::empty());
        assert(c.pending@ =~= Seq::empty());
        c
    }

    /// How long to wait for an append before the timer is due.
    pub fn wait(&self, now: u128) -> (n: u128)
        ensures
            n == if self@.due(now) {
                0
            } else {
                self@.next_sync - now
            },
    {
        if now >= self.next_sync {
            0
        } else {
            self.next_sync - now
        }
    }

    /// The append `ticket` was written to `file`; its answer waits.
    pub fn written(&mut self, file: usize, ticket: u64)
        requires
            file < usize::MAX,
        ensures
            final(self)@ == (Interval {
                dirty: mark(old(self)@.dirty, file as nat),
                pending: old(self)@.pending.push(ticket),
                ..old(self)@
            }),
    {
        set_mark(&mut self.dirty, file);
        self.pending.push(ticket);
    }

    /// Whether it is time to sync.
    pub fn is_due(&self, now: u128) -> (r: bool)
        ensures
            r == self@.due(now),
    {
        now >= self.next_sync
    }

    /// The files to sync now.
    pub fn to_sync(&self) -> (out: Vec<usize>)
        ensures
            out@.map_values(|f: usize| f as nat) == self@.to_sync(),
    {
        let mut out: Vec<usize> = Vec::new();
        if self.pending.len() == 0 {
            assert(out@.map_values(|f: usize| f as nat) =~= self@.to_sync());
            return out;
        }
        let mut i: usize = 0;
        assert(out@.map_values(|f: usize| f as nat) + touched_from(self.dirty@, 0)
            =~= touched_from(self.dirty@, 0));
        while i < self.dirty.len()
            invariant
                i <= self.dirty.len(),
                out@.map_values(|f: usize| f as nat) + touched_from(self.dirty@, i as nat)
                    == touched_from(self.dirty@, 0),
            decreases self.dirty.len() - i,
        {
            if self.dirty[i] {
                let ghost before = out@;
                out.push(i);
                assert(out@.map_values(|f: usize| f as nat) + touched_from(
                    self.dirty@,
                    i as nat + 1,
                ) =~= before.map_values(|f: usize| f as nat) + touched_from(self.dirty@, i as nat));
            }
            i = i + 1;
        }
        assert(out@.map_values(|f: usize| f as nat) =~= touched_from(self.dirty@, 0));
        out
    }

    /// The files were synced with these outcomes. Returns the appends to
    /// answer, all with the same answer; nothing happens where none waits.
    pub fn flushed(&mut self, outcomes: &Vec<Result<(), String>>) -> (r: (
        Vec<u64>,
        Result<(), String>,
    ))
        ensures
            r.0@ == old(self)@.pending,
            match r.1 {
                Ok(()) => old(self)@.pending.len() == 0 || last_failure(outcomes@) is None,
                Err(e) => old(self)@.pending.len() > 0 && last_failure(outcomes@) == Some(e@),
            },
            final(self)@ == if old(self)@.pending.len() == 0 {
                old(self)@
            } else {
                Interval {
                    dirty: Seq::new(old(self)@.dirty.len(), |i: int| false),
                    pending: Seq::empty(),
                    ..old(self)@
                }
            },
    {
        if self.pending.len() == 0 {
            return (Vec::new(), Ok(()));
        }
        let mut n: usize = outcomes.len();
        let mut result: Result<(), String> = Ok(());
        assert(outcomes@.take(n as int) =~= outcomes@);
        while n > 0
            invariant_except_break
                n <= outcomes.len(),
                result is Ok,
                last_failure(outcomes@) == last_failure(outcomes@.take(n as int)),
            ensures
                match result {
                    Ok(()) => last_failure(outcomes@) is None,
                    Err(e) => last_failure(outcomes@) == Some(e@),
                },
            decreases n,
        {
            assert(outcomes@.take(n as int).drop_last() =~= outcomes@.take(n - 1));
            match &outcomes[n - 1] {
                Err(e) => {
                    result = Err(e.clone());
                    break;
                },
                Ok(()) => {},
            }
            n = n - 1;
        }
        let mut i: usize = 0;
        let ghost before = self.dirty@;
        while i < self.dirty.len()
            invariant
                i <= self.dirty.len(),
                self.dirty@.len() == before.len(),
                self.pending@ == old(self)@.pending,
                self.next_sync == old(self)@.next_sync,
                forall|j: int| 0 <= j < i ==> !(#[trigger] self.dirty@[j]),
            decreases self.dirty.len() - i,
        {
            self.dirty.set(i, false);
            i = i + 1;
        }
        assert(self.dirty@ =~= Seq::new(before.len(), |i: int| false));
        let mut answered: Vec<u64> = Vec::new();
        answered.append(&mut self.pending);
        assert(answered@ =~= old(self)@.pending);
        assert(self.pending@ =~= Seq::empty());
        (answered, result)
    }

    /// Starts the timer again.
    pub fn rearm(&mut self, now: u128, interval_ms: u64)
        requires
            now + interval_nanos(interval_ms) <= u128::MAX,
        ensures
            final(self)@ == (Interval {
                next_sync: (now + interval_nanos(interval_ms)) as u128,
                ..old(self)@
            }),
    {
        self.next_sync = now + interval_ms as u128 * 1_000_000;
    }
}

/// An append that was written waits for an answer, and its file is among the
/// files of the next sync.
pub proof fn law_written_is_synced_before_answer(c: Interval, file: usize, ticket: u64)
    ensures
        ({
            let after = Interval {
                dirty: mark(c.dirty, file as nat),
                pending: c.pending.push(ticket),
                ..c
            };
            after.pending.contains(ticket) && after.to_sync().contains(file as nat)
        }),
{
    let after = Interval {
        dirty: mark(c.dirty, file as nat),
        pending: c.pending.push(ticket),
        ..c
    };
    assert(after.pending[c.pending.len() as int] == ticket);
    lemma_touched_from(after.dirty, 0);
    assert(after.dirty[file as int]);
}

/// The writer that several logs share.
pub struct SharedWriter {
    next_file_id: usize,
    interval_ms: u64,
}

impl SharedWriter {
    /// The id of the next file.
    pub closed spec fn next_id(&self) -> usize {
        self.next_file_id
    }

    /// Milliseconds between syncs; 0 syncs every batch.
    pub closed spec fn interval(&self) -> u64 {
        self.interval_ms
    }

    /// A writer that syncs every batch.
    pub fn new() -> (w: Self)
        ensures
            w.next_id() == 0,
            w.interval() == 0,
    {
        SharedWriter::with_fsync_interval(0)
    }

    /// A writer that syncs on a timer, or every batch where `interval_ms` is
    /// 0.
    pub fn with_fsync_interval(interval_ms: u64) -> (w: Self)
        ensures
            w.next_id() == 0,
            w.interval() == interval_ms,
    {
        SharedWriter { next_file_id: 0, interval_ms }
    }

    /// Gives an id to a log's file.
    pub fn register_file(&mut self) -> (id: usize)
        requires
            old(self).next_id() < usize::MAX,
        ensures
            id == old(self).next_id(),
            final(self).next_id() == old(self).next_id() + 1,
            final(self).interval() == old(self).interval(),
    {
        let id: usize = self.next_file_id;
        self.next_file_id = id + 1;
        id
    }

    pub fn interval_ms(&self) -> (ms: u64)
        ensures
            ms == self.interval(),
    {
        self.interval_ms
    }
}

impl Default for SharedWriter {
    fn default() -> (w: Self)
        ensures
            w.next_id() == 0,
            w.interval() == 0,
    {
        SharedWriter::new()
    }
}

/// A mark is set at its place, and every other place keeps what it had.
pub proof fn law_mark_sets_its_place(flags: Seq<bool>, id: nat, f: int)
    ensures
        is_open(mark(flags, id), f) <==> f == id || is_open(flags, f),
        is_open(flags, f) <==> 0 <= f < flags.len() && flags[f],
{
}

/// The files that are still to be synced are all that were touched from the
/// given place on, each once and in order.
pub proof fn law_every_touched_file_is_synced(touched: Seq<bool>, from: nat)
    ensures
        forall|f: nat| #[trigger]
            touched_from(touched, from).contains(f) <==> from <= f < touched.len() && touched[f as int],
        forall|i: int, j: int|
            0 <= i < j < touched_from(touched, from).len() ==> #[trigger] touched_from(
                touched,
                from,
            )[i] < #[trigger] touched_from(touched, from)[j],
    decreases touched.len() - from,
{
    if from < touched.len() {
        law_every_touched_file_is_synced(touched, from + 1);
        let all = touched_from(touched, from);
        let rest = touched_from(touched, from + 1);
        if touched[from as int] {
            assert(all == seq![from] + rest);
            assert forall|f: nat| #[trigger] all.contains(f) <==> from <= f < touched.len()
                && touched[f as int] by {
                if f == from {
                    assert(all[0] == f);
                }
                if rest.contains(f) {
                    let k = rest.index_of(f);
                    assert(all[k + 1] == f);
                }
                if all.contains(f) {
                    let k = all.index_of(f);
                    if k > 0 {
                        assert(rest[k - 1] == f);
                    }
                }
            }
            assert forall|i: int, j: int| 0 <= i < j < all.len() implies #[trigger] all[i]
                < #[trigger] all[j] by {
                assert(all[j] == rest[j - 1]);
                assert(rest.contains(rest[j - 1]));
                if i > 0 {
                    assert(all[i] == rest[i - 1]);
                }
            }
        }
    }
}

/// A batch writes its requests in order, each to its own file, then syncs what
/// it wrote, and only then answers. It looks once for new files before it
/// gives up on one that it does not know.
pub proof fn law_batch_writes_then_syncs_then_answers(b: Batch, slots: Seq<bool>)
    requires
        b.failed is None,
        b.written <= b.targets.len(),
    ensures
        b.written < b.targets.len() ==> {
            let file = b.targets[b.written as int];
            &&& file < slots.len() && slots[file as int] ==> b.step(slots) == (Step::Write {
                request: b.written,
                file,
            })
            &&& file >= slots.len() && !b.refreshed ==> b.step(slots) is Refresh
            &&& file >= slots.len() && b.refreshed ==> b.step(slots) == Step::Reply(
                Some("unknown log file id "@ + crate::text::decimal(file as nat)),
            )
            &&& file < slots.len() && !slots[file as int] ==> b.step(slots) == Step::Reply(
                Some("unknown log file id "@ + crate::text::decimal(file as nat)),
            )
        },
        b.written == b.targets.len() && (exists|f: int|
            b.cursor <= f < b.touched.len() && #[trigger] b.touched[f]) ==> b.step(slots) is Sync,
        b.written == b.targets.len() && b.step(slots) is Sync ==> {
            let f = b.step(slots)->Sync_file;
            b.cursor <= f < b.touched.len() && b.touched[f as int] && forall|g: int|
                b.cursor <= g < f ==> !#[trigger] b.touched[g]
        },
        b.written == b.targets.len() && (forall|f: int|
            b.cursor <= f < b.touched.len() ==> !#[trigger] b.touched[f]) ==> b.step(slots)
            == Step::Reply(None),
{
    law_every_touched_file_is_synced(b.touched, b.cursor);
    let todo = b.unsynced();
    if exists|f: int| b.cursor <= f < b.touched.len() && #[trigger] b.touched[f] {
        let f = choose|f: int| b.cursor <= f < b.touched.len() && #[trigger] b.touched[f];
        assert(todo.contains(f as nat));
    }
    if todo.len() > 0 {
        assert(todo.contains(todo[0]));
        assert forall|g: int| b.cursor <= g < todo[0] implies !#[trigger] b.touched[g] by {
            if b.touched[g] {
                assert(todo.contains(g as nat));
                let k = todo.index_of(g as nat);
                if k > 0 {
                    assert(todo[0] < todo[k]);
                }
            }
        }
    }
}

/// A write that went well counts its request as written and its file as
/// touched, and nothing else changes.
pub proof fn law_write_touches_its_file(b: Batch, f: int)
    requires
        b.written < b.targets.len(),
    ensures
        b.wrote().written == b.written + 1,
        !b.wrote().refreshed,
        b.wrote().targets == b.targets && b.wrote().failed == b.failed && b.wrote().cursor
            == b.cursor,
        is_open(b.wrote().touched, f) <==> f == b.targets[b.written as int] || is_open(b.touched, f),
{
}

/// A flush fails with the words of the last file that could not be synced, and
/// only where there is one.
pub proof fn law_flush_fails_with_the_last_failure(outcomes: Seq<Result<(), String>>)
    ensures
        last_failure(outcomes) is None <==> forall|i: int|
            0 <= i < outcomes.len() ==> (#[trigger] outcomes[i]) is Ok,
        last_failure(outcomes) matches Some(e) ==> exists|i: int|
            0 <= i < outcomes.len() && ((#[trigger] outcomes[i]) matches Err(m) && m@ == e)
                && forall|j: int| i < j < outcomes.len() ==> (#[trigger] outcomes[j]) is Ok,
    decreases outcomes.len(),
{
    if outcomes.len() > 0 {
        let front = outcomes.drop_last();
        law_flush_fails_with_the_last_failure(front);
        let n = outcomes.len() - 1;
        if outcomes[n] is Ok {
            if last_failure(front) is None {
                assert forall|i: int| 0 <= i < outcomes.len() implies (#[trigger] outcomes[i])
                    is Ok by {
                    if i < front.len() {
                        assert(front[i] is Ok);
                    }
                }
            } else {
                let e = last_failure(front)->0;
                let i = choose|i: int|
                    0 <= i < front.len() && ((#[trigger] front[i]) matches Err(m) && m@ == e)
                        && forall|j: int| i < j < front.len() ==> (#[trigger] front[j]) is Ok;
                assert(outcomes[i] == front[i]);
                assert forall|j: int| i < j < outcomes.len() implies (#[trigger] outcomes[j])
                    is Ok by {
                    if j < front.len() {
                        assert(front[j] is Ok);
                    }
                }
            }
        } else {
            assert(outcomes[n] is Err);
        }
    }
}

/// The interval between syncs is in milliseconds; a sync is due once it has
/// passed; and where somebody waits, every file that was written is synced.
pub proof fn law_interval_sync(c: Interval, now: u128, interval_ms: u64, f: nat)
    ensures
        interval_nanos(interval_ms) == 1000000 * interval_ms,
        c.due(now) <==> now >= c.next_sync,
        c.pending.len() > 0 ==> (c.to_sync().contains(f) <==> f < c.dirty.len() && c.dirty[f as int]),
        c.pending.len() == 0 ==> c.to_sync().len() == 0,
{
    law_every_touched_file_is_synced(c.dirty, 0);
}

/// A step by its contents is what it holds.
pub proof fn law_step_is_what_it_holds(s: CommitStep, id: usize)
    ensures
        match s {
            CommitStep::Refresh => s@ is Refresh,
            CommitStep::Write { request, file } => s@ == (Step::Write { request: request as nat, file }),
            CommitStep::Sync { file } => s@ == (Step::Sync { file: file as nat }),
            CommitStep::Reply(Ok(())) => s@ == Step::Reply(None),
            CommitStep::Reply(Err(e)) => s@ == Step::Reply(Some(e@)),
        },
        unknown_file_text(id) == "unknown log file id "@ + crate::text::decimal(id as nat),
{
}

} // verus!
