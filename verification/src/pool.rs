//! The two-stage pool: a worker pool that executes submitted jobs, and a
//! watcher pool that post-processes the results the workers produce.
//!
//! The pool here is a sequential model of the concurrent design: the queues
//! are explicit, one step processes one queued item, and the shutdown
//! protocol — signal the workers, drain their queue, join them, and only then
//! signal, drain and join the watchers — is an ordinary function whose
//! contract states exactly what reaches the watchers: every result that was
//! produced, each exactly once, none dropped.

use vstd::prelude::*;

verus! {

/// What executing one job produces: a descriptor of the request it served
/// and of the response it gave.
pub struct JobResult {
    pub request: String,
    pub response: String,
}

impl JobResult {
    pub fn new(request: String, response: String) -> (r: JobResult)
        ensures
            r.request == request,
            r.response == response,
    {
        JobResult { request, response }
    }
}

/// A one-shot unit of work: executing it consumes it and yields the result
/// its specification names.
pub trait Job: Sized {
    /// The result this job's execution produces.
    spec fn result_spec(&self) -> JobResult;

    fn run(self) -> (r: JobResult)
        ensures
            r == self.result_spec(),
    ;
}

/// A job that yields a result fixed at construction time.
pub struct FixedJob {
    pub request: String,
    pub response: String,
}

impl FixedJob {
    pub fn new(request: String, response: String) -> (r: FixedJob)
        ensures
            r.request == request,
            r.response == response,
    {
        FixedJob { request, response }
    }
}

impl Job for FixedJob {
    open spec fn result_spec(&self) -> JobResult {
        JobResult { request: self.request, response: self.response }
    }

    fn run(self) -> (r: JobResult) {
        JobResult { request: self.request, response: self.response }
    }
}

/// A message on the work queue: a job to execute, or the order to stop.
pub enum WorkItem<J> {
    Execute(J),
    Shutdown,
}

/// A message on the result queue: a result to post-process, or the order to
/// stop.
pub enum ResultItem {
    Deliver(JobResult),
    Shutdown,
}

/// One pool thread's record: its identifier, whether its loop has stopped,
/// and whether it has been joined.  A record is joined at most once, and only
/// once stopped.
#[derive(Clone, Copy)]
pub struct ThreadRecord {
    pub id: usize,
    pub stopped: bool,
    pub joined: bool,
}

/// The jobs a work queue holds, in queue order.
pub open spec fn jobs_of<J>(q: Seq<WorkItem<J>>) -> Seq<J>
    decreases q.len(),
{
    if q.len() == 0 {
        Seq::empty()
    } else {
        (match q[0] {
            WorkItem::Execute(j) => seq![j],
            WorkItem::Shutdown => Seq::empty(),
        }) + jobs_of(q.drop_first())
    }
}

/// How many shutdown orders a work queue holds.
pub open spec fn work_shutdowns<J>(q: Seq<WorkItem<J>>) -> nat
    decreases q.len(),
{
    if q.len() == 0 {
        0
    } else {
        (match q[0] {
            WorkItem::Execute(j) => 0nat,
            WorkItem::Shutdown => 1nat,
        }) + work_shutdowns(q.drop_first())
    }
}

/// The results a result queue holds, in queue order.
pub open spec fn delivers_of(q: Seq<ResultItem>) -> Seq<JobResult>
    decreases q.len(),
{
    if q.len() == 0 {
        Seq::empty()
    } else {
        (match q[0] {
            ResultItem::Deliver(r) => seq![r],
            ResultItem::Shutdown => Seq::empty(),
        }) + delivers_of(q.drop_first())
    }
}

/// How many shutdown orders a result queue holds.
pub open spec fn result_shutdowns(q: Seq<ResultItem>) -> nat
    decreases q.len(),
{
    if q.len() == 0 {
        0
    } else {
        (match q[0] {
            ResultItem::Deliver(r) => 0nat,
            ResultItem::Shutdown => 1nat,
        }) + result_shutdowns(q.drop_first())
    }
}

/// The result-queue messages that executing the given jobs produces, in
/// order: one delivery per job.
pub open spec fn deliver_items<J: Job>(jobs: Seq<J>) -> Seq<ResultItem> {
    jobs.map_values(|j: J| ResultItem::Deliver(j.result_spec()))
}

/// A queue of nothing but shutdown orders, one per thread to stop.
pub open spec fn shutdown_items<J>(n: nat) -> Seq<WorkItem<J>> {
    Seq::new(n, |i: int| WorkItem::Shutdown)
}

/// A result queue of nothing but shutdown orders.
pub open spec fn result_shutdown_items(n: nat) -> Seq<ResultItem> {
    Seq::new(n, |i: int| ResultItem::Shutdown)
}

/// How many records have not stopped yet.
pub open spec fn running_count(ts: Seq<ThreadRecord>) -> nat
    decreases ts.len(),
{
    if ts.len() == 0 {
        0
    } else {
        (if ts[0].stopped {
            0nat
        } else {
            1nat
        }) + running_count(ts.drop_first())
    }
}

/// Every record's loop has stopped.
pub open spec fn all_stopped(ts: Seq<ThreadRecord>) -> bool {
    forall|i: int| 0 <= i < ts.len() ==> ts[i].stopped
}

/// Every record has been joined.
pub open spec fn all_joined(ts: Seq<ThreadRecord>) -> bool {
    forall|i: int| 0 <= i < ts.len() ==> ts[i].joined
}

/// The records as a fresh pool of `n` threads constructs them.
pub open spec fn fresh_records(ts: Seq<ThreadRecord>, n: nat) -> bool {
    &&& ts.len() == n
    &&& forall|i: int|
        0 <= i < ts.len() ==> ts[i] == (ThreadRecord { id: i as usize, stopped: false, joined: false })
}

/// The record sequence once one shutdown order has been consumed: exactly
/// the first still-running record stops; with none running, nothing changes.
pub open spec fn stop_first_running(ts: Seq<ThreadRecord>) -> Seq<ThreadRecord>
    decreases ts.len(),
{
    if ts.len() == 0 {
        ts
    } else if !ts[0].stopped {
        ts.update(0, ThreadRecord { id: ts[0].id, stopped: true, joined: ts[0].joined })
    } else {
        seq![ts[0]] + stop_first_running(ts.drop_first())
    }
}

/// The record sequence once `n` shutdown orders have been consumed.
pub open spec fn stop_n(ts: Seq<ThreadRecord>, n: nat) -> Seq<ThreadRecord>
    decreases n,
{
    if n == 0 {
        ts
    } else {
        stop_first_running(stop_n(ts, (n - 1) as nat))
    }
}

/// The record sequence once every stopped record has been joined.
pub open spec fn join_stopped(ts: Seq<ThreadRecord>) -> Seq<ThreadRecord> {
    ts.map_values(
        |t: ThreadRecord| ThreadRecord { id: t.id, stopped: t.stopped, joined: t.joined || t.stopped },
    )
}

/// The queue contents behave additively under concatenation: what two queue
/// segments hold together is what each holds, in order.
pub proof fn lemma_jobs_of_concat<J>(a: Seq<WorkItem<J>>, b: Seq<WorkItem<J>>)
    ensures
        jobs_of(a + b) == jobs_of(a) + jobs_of(b),
        work_shutdowns(a + b) == work_shutdowns(a) + work_shutdowns(b),
    decreases a.len(),
{
    if a.len() == 0 {
        assert(a + b =~= b);
        assert(jobs_of(a) + jobs_of(b) =~= jobs_of(b));
    } else {
        assert((a + b).drop_first() =~= a.drop_first() + b);
        lemma_jobs_of_concat(a.drop_first(), b);
        assert((a + b)[0] == a[0]);
        match a[0] {
            WorkItem::Execute(j) => {
                assert(jobs_of(a + b) =~= jobs_of(a) + jobs_of(b));
            },
            WorkItem::Shutdown => {
                assert(jobs_of(a + b) =~= jobs_of(a) + jobs_of(b));
            },
        }
    }
}

/// As `lemma_jobs_of_concat`, for the result queue.
pub proof fn lemma_delivers_of_concat(a: Seq<ResultItem>, b: Seq<ResultItem>)
    ensures
        delivers_of(a + b) == delivers_of(a) + delivers_of(b),
        result_shutdowns(a + b) == result_shutdowns(a) + result_shutdowns(b),
    decreases a.len(),
{
    if a.len() == 0 {
        assert(a + b =~= b);
        assert(delivers_of(a) + delivers_of(b) =~= delivers_of(b));
    } else {
        assert((a + b).drop_first() =~= a.drop_first() + b);
        lemma_delivers_of_concat(a.drop_first(), b);
        assert((a + b)[0] == a[0]);
        match a[0] {
            ResultItem::Deliver(r) => {
                assert(delivers_of(a + b) =~= delivers_of(a) + delivers_of(b));
            },
            ResultItem::Shutdown => {
                assert(delivers_of(a + b) =~= delivers_of(a) + delivers_of(b));
            },
        }
    }
}

/// A queue of shutdown orders holds no job and one shutdown per order.
pub proof fn lemma_shutdown_items<J>(n: nat)
    ensures
        jobs_of(shutdown_items::<J>(n)) == Seq::<J>::empty(),
        work_shutdowns(shutdown_items::<J>(n)) == n,
    decreases n,
{
    if n > 0 {
        let q = shutdown_items::<J>(n);
        assert(q.drop_first() =~= shutdown_items::<J>((n - 1) as nat));
        lemma_shutdown_items::<J>((n - 1) as nat);
        assert(jobs_of(q) =~= Seq::<J>::empty());
    }
}

/// As `lemma_shutdown_items`, for the result queue.
pub proof fn lemma_result_shutdown_items(n: nat)
    ensures
        delivers_of(result_shutdown_items(n)) == Seq::<JobResult>::empty(),
        result_shutdowns(result_shutdown_items(n)) == n,
    decreases n,
{
    if n > 0 {
        let q = result_shutdown_items(n);
        assert(q.drop_first() =~= result_shutdown_items((n - 1) as nat));
        lemma_result_shutdown_items((n - 1) as nat);
        assert(delivers_of(q) =~= Seq::<JobResult>::empty());
    }
}

/// No more records run than there are records.
pub proof fn lemma_running_count_le_len(ts: Seq<ThreadRecord>)
    ensures
        running_count(ts) <= ts.len(),
    decreases ts.len(),
{
    if ts.len() > 0 {
        lemma_running_count_le_len(ts.drop_first());
    }
}

/// Every record has stopped exactly when none still runs.
pub proof fn lemma_all_stopped_running_count(ts: Seq<ThreadRecord>)
    ensures
        all_stopped(ts) <==> running_count(ts) == 0,
    decreases ts.len(),
{
    if ts.len() > 0 {
        lemma_all_stopped_running_count(ts.drop_first());
        if all_stopped(ts.drop_first()) && ts[0].stopped {
            assert forall|i: int| 0 <= i < ts.len() implies ts[i].stopped by {
                if i > 0 {
                    assert(ts.drop_first()[i - 1] == ts[i]);
                    assert(ts.drop_first()[i - 1].stopped);
                }
            }
        }
        if all_stopped(ts) {
            assert forall|i: int|
                0 <= i < ts.drop_first().len() implies ts.drop_first()[i].stopped by {
                assert(ts.drop_first()[i] == ts[i + 1]);
            }
        }
    }
}

/// Consuming one shutdown order stops exactly one running record — none if
/// none runs — and touches no identifier and no join flag.
pub proof fn lemma_stop_first_running(ts: Seq<ThreadRecord>)
    ensures
        stop_first_running(ts).len() == ts.len(),
        forall|i: int|
            0 <= i < ts.len() ==> {
                &&& (#[trigger] stop_first_running(ts)[i]).id == ts[i].id
                &&& stop_first_running(ts)[i].joined == ts[i].joined
                &&& (ts[i].stopped ==> stop_first_running(ts)[i].stopped)
            },
        running_count(ts) == 0 ==> stop_first_running(ts) == ts,
        running_count(ts) > 0 ==> running_count(stop_first_running(ts)) == running_count(ts) - 1,
    decreases ts.len(),
{
    if ts.len() == 0 {
    } else if !ts[0].stopped {
        let t = stop_first_running(ts);
        assert(t.drop_first() =~= ts.drop_first());
    } else {
        lemma_stop_first_running(ts.drop_first());
        let t = seq![ts[0]] + stop_first_running(ts.drop_first());
        assert(t.drop_first() =~= stop_first_running(ts.drop_first()));
        assert(forall|i: int|
            0 <= i < ts.drop_first().len() ==> ts.drop_first()[i] == ts[i + 1]);
        if running_count(ts) == 0 {
            assert(t =~= ts);
        }
    }
}

/// Consuming `n` shutdown orders stops `n` running records, or all of them
/// when fewer than `n` still ran; identifiers and join flags are untouched.
pub proof fn lemma_stop_n(ts: Seq<ThreadRecord>, n: nat)
    ensures
        stop_n(ts, n).len() == ts.len(),
        forall|i: int|
            0 <= i < ts.len() ==> {
                &&& (#[trigger] stop_n(ts, n)[i]).id == ts[i].id
                &&& stop_n(ts, n)[i].joined == ts[i].joined
                &&& (ts[i].stopped ==> stop_n(ts, n)[i].stopped)
            },
        running_count(stop_n(ts, n)) == (if n >= running_count(ts) {
            0nat
        } else {
            (running_count(ts) - n) as nat
        }),
        n >= running_count(ts) ==> all_stopped(stop_n(ts, n)),
    decreases n,
{
    if n == 0 {
        lemma_all_stopped_running_count(ts);
    } else {
        lemma_stop_n(ts, (n - 1) as nat);
        lemma_stop_first_running(stop_n(ts, (n - 1) as nat));
        lemma_all_stopped_running_count(stop_n(ts, n));
    }
}

/// The record sequence an in-order scan stopping the first running record
/// produces.
proof fn lemma_stop_first_running_at(ts: Seq<ThreadRecord>, k: int)
    requires
        0 <= k < ts.len(),
        forall|j: int| 0 <= j < k ==> ts[j].stopped,
        !ts[k].stopped,
    ensures
        stop_first_running(ts) =~= ts.update(
            k,
            ThreadRecord { id: ts[k].id, stopped: true, joined: ts[k].joined },
        ),
    decreases k,
{
    if k > 0 {
        assert(ts.drop_first()[k - 1] == ts[k]);
        assert(forall|j: int| 0 <= j < k - 1 ==> ts.drop_first()[j] == ts[j + 1]);
        lemma_stop_first_running_at(ts.drop_first(), k - 1);
        assert((seq![ts[0]] + ts.drop_first().update(
            k - 1,
            ThreadRecord { id: ts[k].id, stopped: true, joined: ts[k].joined },
        )) =~= ts.update(k, ThreadRecord { id: ts[k].id, stopped: true, joined: ts[k].joined }));
    }
}

/// Consume one shutdown order: stop the first record that still runs.
fn stop_one_record(records: &mut Vec<ThreadRecord>)
    ensures
        final(records)@ == stop_first_running(old(records)@),
{
    let ghost ts = records@;
    let n = records.len();
    let mut k: usize = 0;
    while k < n
        invariant
            k <= n,
            n == records@.len(),
            records@ == ts,
            ts == old(records)@,
            forall|j: int| 0 <= j < k ==> ts[j].stopped,
        decreases n - k,
    {
        if !records[k].stopped {
            let w = &mut records[k];
            w.stopped = true;
            proof {
                lemma_stop_first_running_at(ts, k as int);
            }
            return ;
        }
        k += 1;
    }
    proof {
        lemma_all_stopped_running_count(ts);
        lemma_stop_first_running(ts);
    }
}

/// Join every record whose loop has stopped; a record is joined at most
/// once, and a running record is left alone.
fn join_stopped_records(records: &mut Vec<ThreadRecord>)
    ensures
        final(records)@ == join_stopped(old(records)@),
{
    let ghost ts = records@;
    let n = records.len();
    let mut k: usize = 0;
    while k < n
        invariant
            k <= n,
            n == ts.len(),
            records@.len() == ts.len(),
            ts == old(records)@,
            forall|i: int| 0 <= i < k ==> records@[i] == join_stopped(ts)[i],
            forall|i: int| k <= i < ts.len() ==> records@[i] == ts[i],
        decreases n - k,
    {
        if records[k].stopped {
            let w = &mut records[k];
            w.joined = true;
        }
        k += 1;
    }
    proof {
        assert(records@ =~= join_stopped(ts));
    }
}

/// What executing jobs feeds the result queue is exactly one delivery per
/// job, in order, and no shutdown order.
pub proof fn lemma_deliver_items<J: Job>(jobs: Seq<J>)
    ensures
        delivers_of(deliver_items(jobs)) =~= jobs.map_values(|j: J| j.result_spec()),
        result_shutdowns(deliver_items(jobs)) == 0,
    decreases jobs.len(),
{
    if jobs.len() > 0 {
        assert(deliver_items(jobs).drop_first() =~= deliver_items(jobs.drop_first()));
        lemma_deliver_items(jobs.drop_first());
        assert(delivers_of(deliver_items(jobs)) =~= jobs.map_values(|j: J| j.result_spec()));
    }
}


/// The worker pool: its thread records and the shared work queue.
pub struct WorkerPool<J: Job> {
    pub workers: Vec<ThreadRecord>,
    pub queue: Vec<WorkItem<J>>,
}

/// A pool asked for `requested` threads gets at least one.
pub open spec fn spec_pool_size(requested: usize) -> usize {
    if requested == 0 {
        1usize
    } else {
        requested
    }
}

/// How many threads a pool asked for `requested` threads actually gets:
/// at least one.
pub fn effective_pool_size(requested: usize) -> (r: usize)
    ensures
        r == spec_pool_size(requested),
        r >= 1,
{
    if requested == 0 {
        1
    } else {
        requested
    }
}

/// Build the records of a fresh pool of `n` threads, with identifiers
/// `0` to `n - 1`.
fn fresh_record_vec(n: usize) -> (r: Vec<ThreadRecord>)
    ensures
        fresh_records(r@, n as nat),
{
    let mut records: Vec<ThreadRecord> = Vec::new();
    let mut id: usize = 0;
    while id < n
        invariant
            id <= n,
            records@.len() == id,
            forall|i: int|
                0 <= i < id ==> records@[i] == (ThreadRecord {
                    id: i as usize,
                    stopped: false,
                    joined: false,
                }),
        decreases n - id,
    {
        records.push(ThreadRecord { id, stopped: false, joined: false });
        id += 1;
    }
    records
}

impl<J: Job> WorkerPool<J> {
    /// A fresh pool of `max(1, size)` workers sharing an empty work queue.
    pub fn new(size: usize) -> (r: WorkerPool<J>)
        ensures
            fresh_records(r.workers@, spec_pool_size(size) as nat),
            r.queue@ == Seq::<WorkItem<J>>::empty(),
    {
        let n = if size == 0 {
            1
        } else {
            size
        };
        WorkerPool { workers: fresh_record_vec(n), queue: Vec::new() }
    }

    /// Enqueue one job; nothing else moves.
    pub fn submit(&mut self, job: J)
        ensures
            final(self).queue@ == old(self).queue@.push(WorkItem::Execute(job)),
            final(self).workers@ == old(self).workers@,
    {
        self.queue.push(WorkItem::Execute(job));
    }

    /// Enqueue one shutdown order per worker record.
    pub fn signal_shutdown(&mut self)
        ensures
            final(self).queue@ == old(self).queue@ + shutdown_items::<J>(
                old(self).workers@.len() as nat,
            ),
            final(self).workers@ == old(self).workers@,
    {
        let ghost q0 = self.queue@;
        let n = self.workers.len();
        let mut k: usize = 0;
        while k < n
            invariant
                k <= n,
                self.workers@ == old(self).workers@,
                n == self.workers@.len(),
                self.queue@ == q0 + shutdown_items::<J>(k as nat),
                q0 == old(self).queue@,
            decreases n - k,
        {
            self.queue.push(WorkItem::Shutdown);
            proof {
                assert(shutdown_items::<J>((k + 1) as nat) =~= shutdown_items::<J>(
                    k as nat,
                ).push(WorkItem::Shutdown));
                assert((q0 + shutdown_items::<J>(k as nat)).push(WorkItem::Shutdown) =~= q0
                    + shutdown_items::<J>((k + 1) as nat));
            }
            k += 1;
        }
        proof {
            assert(self.queue@ =~= q0 + shutdown_items::<J>(n as nat));
        }
    }

    /// Dequeue the item at the head of the work queue, if any; exactly one
    /// taker receives any given item.
    pub fn take_item(&mut self) -> (r: Option<WorkItem<J>>)
        ensures
            final(self).workers@ == old(self).workers@,
            old(self).queue@.len() == 0 ==> r is None && final(self).queue@ == old(self).queue@,
            old(self).queue@.len() > 0 ==> r == Some(old(self).queue@[0]) && final(self).queue@
                == old(self).queue@.drop_first(),
    {
        if self.queue.len() == 0 {
            None
        } else {
            let item = self.queue.remove(0);
            proof {
                assert(old(self).queue@.remove(0) =~= old(self).queue@.drop_first());
            }
            Some(item)
        }
    }

    /// Consume one shutdown order: the first worker that still runs stops.
    pub fn stop_one(&mut self)
        ensures
            final(self).workers@ == stop_first_running(old(self).workers@),
            final(self).queue@ == old(self).queue@,
    {
        stop_one_record(&mut self.workers);
    }

    /// Join every stopped worker; each record is joined at most once.
    pub fn join_all(&mut self)
        ensures
            final(self).workers@ == join_stopped(old(self).workers@),
            final(self).queue@ == old(self).queue@,
    {
        join_stopped_records(&mut self.workers);
    }
}

/// The watcher pool: its thread records, the shared result queue, the record
/// of every result post-processed so far, and the configurable artificial
/// delay (in milliseconds, default zero) before each result is processed.
pub struct WatcherPool {
    pub watchers: Vec<ThreadRecord>,
    pub queue: Vec<ResultItem>,
    pub observed: Vec<JobResult>,
    pub delay_millis: u64,
}

impl WatcherPool {
    /// A fresh pool of `max(1, size)` watchers sharing an empty result
    /// queue, having observed nothing, with no artificial delay.
    pub fn new(size: usize) -> (r: WatcherPool)
        ensures
            fresh_records(r.watchers@, spec_pool_size(size) as nat),
            r.queue@ == Seq::<ResultItem>::empty(),
            r.observed@ == Seq::<JobResult>::empty(),
            r.delay_millis == 0,
    {
        let n = if size == 0 {
            1
        } else {
            size
        };
        WatcherPool {
            watchers: fresh_record_vec(n),
            queue: Vec::new(),
            observed: Vec::new(),
            delay_millis: 0,
        }
    }

    /// Hand one produced result to the watchers; nothing else moves.
    pub fn deliver(&mut self, result: JobResult)
        ensures
            final(self).queue@ == old(self).queue@.push(ResultItem::Deliver(result)),
            final(self).watchers@ == old(self).watchers@,
            final(self).observed@ == old(self).observed@,
            final(self).delay_millis == old(self).delay_millis,
    {
        self.queue.push(ResultItem::Deliver(result));
    }

    /// Enqueue one shutdown order per watcher record.
    pub fn signal_shutdown(&mut self)
        ensures
            final(self).queue@ == old(self).queue@ + result_shutdown_items(
                old(self).watchers@.len() as nat,
            ),
            final(self).watchers@ == old(self).watchers@,
            final(self).observed@ == old(self).observed@,
            final(self).delay_millis == old(self).delay_millis,
    {
        let ghost q0 = self.queue@;
        let n = self.watchers.len();
        let mut k: usize = 0;
        while k < n
            invariant
                k <= n,
                self.watchers@ == old(self).watchers@,
                self.observed@ == old(self).observed@,
                self.delay_millis == old(self).delay_millis,
                n == self.watchers@.len(),
                self.queue@ == q0 + result_shutdown_items(k as nat),
                q0 == old(self).queue@,
            decreases n - k,
        {
            self.queue.push(ResultItem::Shutdown);
            proof {
                assert(result_shutdown_items((k + 1) as nat) =~= result_shutdown_items(
                    k as nat,
                ).push(ResultItem::Shutdown));
                assert((q0 + result_shutdown_items(k as nat)).push(ResultItem::Shutdown) =~= q0
                    + result_shutdown_items((k + 1) as nat));
            }
            k += 1;
        }
        proof {
            assert(self.queue@ =~= q0 + result_shutdown_items(n as nat));
        }
    }

    /// Process the item at the head of the result queue, if any: exactly one
    /// watcher observes a delivered result; a shutdown order stops the first
    /// watcher that still runs.
    pub fn step(&mut self) -> (progressed: bool)
        ensures
            final(self).delay_millis == old(self).delay_millis,
            old(self).queue@.len() == 0 ==> !progressed && *final(self) == *old(self),
            old(self).queue@.len() > 0 ==> {
                &&& progressed
                &&& final(self).queue@ == old(self).queue@.drop_first()
                &&& match old(self).queue@[0] {
                    ResultItem::Deliver(r) => final(self).observed@ == old(self).observed@.push(r)
                        && final(self).watchers@ == old(self).watchers@,
                    ResultItem::Shutdown => final(self).watchers@ == stop_first_running(
                        old(self).watchers@,
                    ) && final(self).observed@ == old(self).observed@,
                }
            },
    {
        if self.queue.len() == 0 {
            return false;
        }
        let item = self.queue.remove(0);
        proof {
            assert(old(self).queue@.remove(0) =~= old(self).queue@.drop_first());
        }
        match item {
            ResultItem::Deliver(result) => {
                self.observed.push(result);
            },
            ResultItem::Shutdown => {
                stop_one_record(&mut self.watchers);
            },
        }
        true
    }

    /// Process result-queue items in order until the queue is empty: every
    /// delivered result is observed exactly once, and every shutdown order
    /// stops one watcher.
    pub fn drain(&mut self)
        ensures
            final(self).queue@.len() == 0,
            final(self).observed@ == old(self).observed@ + delivers_of(old(self).queue@),
            final(self).watchers@ == stop_n(
                old(self).watchers@,
                result_shutdowns(old(self).queue@),
            ),
            final(self).delay_millis == old(self).delay_millis,
    {
        let ghost q0 = self.queue@;
        let ghost w0 = self.watchers@;
        let ghost obs0 = self.observed@;
        let ghost mut done: Seq<ResultItem> = Seq::empty();
        proof {
            assert(q0 =~= done + self.queue@);
            assert(self.observed@ =~= obs0 + delivers_of(done));
        }
        while self.queue.len() > 0
            invariant
                q0 == done + self.queue@,
                self.observed@ == obs0 + delivers_of(done),
                self.watchers@ == stop_n(w0, result_shutdowns(done)),
                self.delay_millis == old(self).delay_millis,
                q0 == old(self).queue@,
                w0 == old(self).watchers@,
                obs0 == old(self).observed@,
            decreases self.queue@.len(),
        {
            let ghost pending = self.queue@;
            let ghost done_pre = done;
            let _progressed = self.step();
            proof {
                let item = pending[0];
                lemma_delivers_of_concat(done_pre, seq![item]);
                done = done_pre.push(item);
                assert(done =~= done_pre + seq![item]);
                assert(seq![item].drop_first() =~= Seq::<ResultItem>::empty());
                assert(seq![item].len() == 1);
                assert(seq![item][0] == item);
                assert(delivers_of(Seq::<ResultItem>::empty()) =~= Seq::<JobResult>::empty());
                assert(result_shutdowns(Seq::<ResultItem>::empty()) == 0);
                match item {
                    ResultItem::Deliver(r) => {
                        assert(delivers_of(seq![item]) =~= seq![r]);
                        assert(result_shutdowns(seq![item]) == 0);
                        assert(self.observed@ =~= obs0 + delivers_of(done));
                        assert(result_shutdowns(done) == result_shutdowns(done_pre));
                    },
                    ResultItem::Shutdown => {
                        assert(delivers_of(seq![item]) =~= Seq::<JobResult>::empty());
                        assert(result_shutdowns(seq![item]) == 1);
                        assert(delivers_of(done) =~= delivers_of(done_pre));
                        assert(self.observed@ =~= obs0 + delivers_of(done));
                        assert(result_shutdowns(done) == result_shutdowns(done_pre) + 1);
                        assert(stop_n(w0, result_shutdowns(done)) == stop_first_running(
                            stop_n(w0, result_shutdowns(done_pre)),
                        ));
                    },
                }
                assert(q0 =~= done + self.queue@);
            }
        }
        proof {
            assert(done =~= q0);
        }
    }

    /// Join every stopped watcher; each record is joined at most once.
    pub fn join_all(&mut self)
        ensures
            final(self).watchers@ == join_stopped(old(self).watchers@),
            final(self).queue@ == old(self).queue@,
            final(self).observed@ == old(self).observed@,
            final(self).delay_millis == old(self).delay_millis,
    {
        join_stopped_records(&mut self.watchers);
    }

    /// Configure the artificial delay before each result is processed.
    pub fn set_delay_millis(&mut self, millis: u64)
        ensures
            final(self).delay_millis == millis,
            final(self).watchers@ == old(self).watchers@,
            final(self).queue@ == old(self).queue@,
            final(self).observed@ == old(self).observed@,
    {
        self.delay_millis = millis;
    }
}



/// The user-facing pool: a worker pool and a watcher pool of equal size,
/// wired so that every executed job's result is handed to the watchers.
pub struct ThreadPool<J: Job> {
    pub worker_pool: WorkerPool<J>,
    pub watcher_pool: WatcherPool,
}

impl<J: Job> ThreadPool<J> {
    /// A fresh pool with `max(1, size)` workers and as many watchers; in
    /// this sequential model no thread is spawned, so construction always
    /// succeeds.
    pub fn new(size: usize) -> (r: Result<ThreadPool<J>, String>)
        ensures
            r matches Ok(p) && {
                &&& fresh_records(p.worker_pool.workers@, spec_pool_size(size) as nat)
                &&& fresh_records(p.watcher_pool.watchers@, spec_pool_size(size) as nat)
                &&& p.worker_pool.queue@ == Seq::<WorkItem<J>>::empty()
                &&& p.watcher_pool.queue@ == Seq::<ResultItem>::empty()
                &&& p.watcher_pool.observed@ == Seq::<JobResult>::empty()
                &&& p.watcher_pool.delay_millis == 0
            },
    {
        Ok(ThreadPool { worker_pool: WorkerPool::new(size), watcher_pool: WatcherPool::new(size) })
    }

    /// Submit one job: it enters the work queue exactly once, at the back,
    /// and nothing else moves.
    pub fn execute(&mut self, job: J)
        ensures
            final(self).worker_pool.queue@ == old(self).worker_pool.queue@.push(
                WorkItem::Execute(job),
            ),
            final(self).worker_pool.workers@ == old(self).worker_pool.workers@,
            final(self).watcher_pool == old(self).watcher_pool,
    {
        self.worker_pool.submit(job);
    }

    /// One worker iteration: take the item at the head of the work queue;
    /// execute a job and hand its result to the watchers, or consume a
    /// shutdown order and stop.  Returns whether an item was processed.
    pub fn step_worker(&mut self) -> (progressed: bool)
        ensures
            old(self).worker_pool.queue@.len() == 0 ==> !progressed && *final(self) == *old(self),
            old(self).worker_pool.queue@.len() > 0 ==> {
                &&& progressed
                &&& final(self).worker_pool.queue@ == old(self).worker_pool.queue@.drop_first()
                &&& final(self).watcher_pool.observed@ == old(self).watcher_pool.observed@
                &&& final(self).watcher_pool.watchers@ == old(self).watcher_pool.watchers@
                &&& final(self).watcher_pool.delay_millis == old(self).watcher_pool.delay_millis
                &&& match old(self).worker_pool.queue@[0] {
                    WorkItem::Execute(j) => final(self).worker_pool.workers@ == old(self).worker_pool.workers@ && final(self).watcher_pool.queue@ == old(self).watcher_pool.queue@.push(ResultItem::Deliver(j.result_spec())),
                    WorkItem::Shutdown => final(self).worker_pool.workers@ == stop_first_running(
                        old(self).worker_pool.workers@,
                    ) && final(self).watcher_pool.queue@ == old(self).watcher_pool.queue@,
                }
            },
    {
        if self.worker_pool.queue.len() == 0 {
            return false;
        }
        let item = self.worker_pool.take_item();
        match item {
            None => false,
            Some(WorkItem::Execute(job)) => {
                let result = job.run();
                self.watcher_pool.deliver(result);
                true
            },
            Some(WorkItem::Shutdown) => {
                self.worker_pool.stop_one();
                true
            },
        }
    }

    /// Work the queue dry: every queued job is executed exactly once, in
    /// queue order, its result handed to the watchers; every queued shutdown
    /// order stops one worker.
    pub fn run_pending_work(&mut self)
        ensures
            final(self).worker_pool.queue@.len() == 0,
            final(self).worker_pool.workers@ == stop_n(
                old(self).worker_pool.workers@,
                work_shutdowns(old(self).worker_pool.queue@),
            ),
            final(self).watcher_pool.queue@ == old(self).watcher_pool.queue@ + deliver_items(
                jobs_of(old(self).worker_pool.queue@),
            ),
            final(self).watcher_pool.watchers@ == old(self).watcher_pool.watchers@,
            final(self).watcher_pool.observed@ == old(self).watcher_pool.observed@,
            final(self).watcher_pool.delay_millis == old(self).watcher_pool.delay_millis,
    {
        let ghost q0 = self.worker_pool.queue@;
        let ghost w0 = self.worker_pool.workers@;
        let ghost r0 = self.watcher_pool.queue@;
        let ghost mut done: Seq<WorkItem<J>> = Seq::empty();
        proof {
            assert(q0 =~= done + self.worker_pool.queue@);
            assert(self.watcher_pool.queue@ =~= r0 + deliver_items(jobs_of(done)));
        }
        while self.worker_pool.queue.len() > 0
            invariant
                q0 == done + self.worker_pool.queue@,
                self.worker_pool.workers@ == stop_n(w0, work_shutdowns(done)),
                self.watcher_pool.queue@ == r0 + deliver_items(jobs_of(done)),
                self.watcher_pool.watchers@ == old(self).watcher_pool.watchers@,
                self.watcher_pool.observed@ == old(self).watcher_pool.observed@,
                self.watcher_pool.delay_millis == old(self).watcher_pool.delay_millis,
                q0 == old(self).worker_pool.queue@,
                w0 == old(self).worker_pool.workers@,
                r0 == old(self).watcher_pool.queue@,
            decreases self.worker_pool.queue@.len(),
        {
            let ghost pending = self.worker_pool.queue@;
            let ghost done_pre = done;
            let _progressed = self.step_worker();
            proof {
                let item = pending[0];
                lemma_jobs_of_concat(done_pre, seq![item]);
                done = done_pre.push(item);
                assert(done =~= done_pre + seq![item]);
                assert(seq![item].drop_first() =~= Seq::<WorkItem<J>>::empty());
                assert(seq![item].len() == 1);
                assert(seq![item][0] == item);
                assert(jobs_of(Seq::<WorkItem<J>>::empty()) =~= Seq::<J>::empty());
                assert(work_shutdowns(Seq::<WorkItem<J>>::empty()) == 0);
                match item {
                    WorkItem::Execute(j) => {
                        assert(jobs_of(seq![item]) =~= seq![j]);
                        assert(work_shutdowns(seq![item]) == 0);
                        assert(jobs_of(done) =~= jobs_of(done_pre).push(j));
                        assert(deliver_items(jobs_of(done)) =~= deliver_items(
                            jobs_of(done_pre),
                        ).push(ResultItem::Deliver(j.result_spec())));
                        assert(self.watcher_pool.queue@ =~= r0 + deliver_items(jobs_of(done)));
                        assert(work_shutdowns(done) == work_shutdowns(done_pre));
                    },
                    WorkItem::Shutdown => {
                        assert(jobs_of(seq![item]) =~= Seq::<J>::empty());
                        assert(work_shutdowns(seq![item]) == 1);
                        assert(jobs_of(done) =~= jobs_of(done_pre));
                        assert(self.watcher_pool.queue@ =~= r0 + deliver_items(jobs_of(done)));
                        assert(work_shutdowns(done) == work_shutdowns(done_pre) + 1);
                        assert(stop_n(w0, work_shutdowns(done)) == stop_first_running(
                            stop_n(w0, work_shutdowns(done_pre)),
                        ));
                    },
                }
                assert(q0 =~= done + self.worker_pool.queue@);
            }
        }
        proof {
            assert(done =~= q0);
        }
    }

    /// One watcher iteration on the result queue.
    pub fn step_watcher(&mut self) -> (progressed: bool)
        ensures
            final(self).worker_pool == old(self).worker_pool,
            final(self).watcher_pool.delay_millis == old(self).watcher_pool.delay_millis,
            old(self).watcher_pool.queue@.len() == 0 ==> !progressed && *final(self) == *old(self),
            old(self).watcher_pool.queue@.len() > 0 ==> {
                &&& progressed
                &&& final(self).watcher_pool.queue@ == old(self).watcher_pool.queue@.drop_first()
                &&& match old(self).watcher_pool.queue@[0] {
                    ResultItem::Deliver(r) => final(self).watcher_pool.observed@ == old(self).watcher_pool.observed@.push(r) && final(self).watcher_pool.watchers@ == old(self).watcher_pool.watchers@,
                    ResultItem::Shutdown => final(self).watcher_pool.watchers@
                        == stop_first_running(old(self).watcher_pool.watchers@) && final(self).watcher_pool.observed@ == old(self).watcher_pool.observed@,
                }
            },
    {
        self.watcher_pool.step()
    }

    /// Drain the result queue: every delivered result is observed exactly
    /// once, in delivery order.
    pub fn drain_results(&mut self)
        ensures
            final(self).worker_pool == old(self).worker_pool,
            final(self).watcher_pool.queue@.len() == 0,
            final(self).watcher_pool.observed@ == old(self).watcher_pool.observed@ + delivers_of(
                old(self).watcher_pool.queue@,
            ),
            final(self).watcher_pool.watchers@ == stop_n(
                old(self).watcher_pool.watchers@,
                result_shutdowns(old(self).watcher_pool.queue@),
            ),
            final(self).watcher_pool.delay_millis == old(self).watcher_pool.delay_millis,
    {
        self.watcher_pool.drain();
    }

    /// The coordinated shutdown protocol: signal every worker, work the job
    /// queue dry, join the workers; only then signal every watcher, drain
    /// the result queue, join the watchers.  Every job still queued is
    /// executed, and every result — pending or just produced — is observed
    /// before shutdown returns: none is dropped.  On a pool already shut
    /// down it changes nothing.
    pub fn shutdown(&mut self)
        ensures
            final(self).worker_pool.queue@.len() == 0,
            final(self).watcher_pool.queue@.len() == 0,
            all_stopped(final(self).worker_pool.workers@),
            all_joined(final(self).worker_pool.workers@),
            all_stopped(final(self).watcher_pool.watchers@),
            all_joined(final(self).watcher_pool.watchers@),
            final(self).worker_pool.workers@.len() == old(self).worker_pool.workers@.len(),
            final(self).watcher_pool.watchers@.len() == old(self).watcher_pool.watchers@.len(),
            forall|i: int|
                0 <= i < old(self).worker_pool.workers@.len()
                    ==> (#[trigger] final(self).worker_pool.workers@[i]).id
                    == old(self).worker_pool.workers@[i].id,
            forall|i: int|
                0 <= i < old(self).watcher_pool.watchers@.len()
                    ==> (#[trigger] final(self).watcher_pool.watchers@[i]).id
                    == old(self).watcher_pool.watchers@[i].id,
            final(self).watcher_pool.observed@ == old(self).watcher_pool.observed@ + delivers_of(
                old(self).watcher_pool.queue@,
            ) + jobs_of(old(self).worker_pool.queue@).map_values(|j: J| j.result_spec()),
            final(self).watcher_pool.delay_millis == old(self).watcher_pool.delay_millis,
    {
        let ghost wq0 = self.worker_pool.queue@;
        let ghost w0 = self.worker_pool.workers@;
        let ghost rq0 = self.watcher_pool.queue@;
        let ghost obs0 = self.watcher_pool.observed@;
        let ghost v0 = self.watcher_pool.watchers@;

        self.worker_pool.signal_shutdown();
        proof {
            lemma_jobs_of_concat(wq0, shutdown_items::<J>(w0.len()));
            lemma_shutdown_items::<J>(w0.len());
            assert(jobs_of(self.worker_pool.queue@) =~= jobs_of(wq0));
        }
        self.run_pending_work();
        proof {
            let stops = work_shutdowns(wq0) + w0.len();
            lemma_stop_n(w0, stops);
            lemma_running_count_le_len(w0);
            assert(all_stopped(self.worker_pool.workers@));
        }
        self.worker_pool.join_all();
        proof {
            let ws = self.worker_pool.workers@;
            assert(all_stopped(ws) && all_joined(ws));
        }
        let ghost rq1 = self.watcher_pool.queue@;
        self.watcher_pool.signal_shutdown();
        proof {
            lemma_delivers_of_concat(rq1, result_shutdown_items(v0.len()));
            lemma_result_shutdown_items(v0.len());
            lemma_delivers_of_concat(rq0, deliver_items(jobs_of(wq0)));
            lemma_deliver_items(jobs_of(wq0));
            assert(delivers_of(self.watcher_pool.queue@) =~= delivers_of(rq0) + jobs_of(
                wq0,
            ).map_values(|j: J| j.result_spec()));
        }
        self.watcher_pool.drain();
        proof {
            let stops = result_shutdowns(rq1) + v0.len();
            lemma_stop_n(v0, stops);
            lemma_running_count_le_len(v0);
            assert(all_stopped(self.watcher_pool.watchers@));
            assert(self.watcher_pool.observed@ =~= obs0 + delivers_of(rq0) + jobs_of(
                wq0,
            ).map_values(|j: J| j.result_spec()));
        }
        self.watcher_pool.join_all();
        proof {
            let vs = self.watcher_pool.watchers@;
            assert(all_stopped(vs) && all_joined(vs));
        }
    }

    /// How many worker threads the pool has.
    pub fn worker_count(&self) -> (r: usize)
        ensures
            r == self.worker_pool.workers@.len(),
    {
        self.worker_pool.workers.len()
    }

    /// How many watcher threads the pool has.
    pub fn watcher_count(&self) -> (r: usize)
        ensures
            r == self.watcher_pool.watchers@.len(),
    {
        self.watcher_pool.watchers.len()
    }

    /// How many items sit on the work queue.
    pub fn pending_work_count(&self) -> (r: usize)
        ensures
            r == self.worker_pool.queue@.len(),
    {
        self.worker_pool.queue.len()
    }

    /// How many items sit on the result queue.
    pub fn pending_result_count(&self) -> (r: usize)
        ensures
            r == self.watcher_pool.queue@.len(),
    {
        self.watcher_pool.queue.len()
    }

    /// Every result the watchers have post-processed, in processing order.
    pub fn observed_results(&self) -> (r: &Vec<JobResult>)
        ensures
            r@ == self.watcher_pool.observed@,
    {
        &self.watcher_pool.observed
    }

    /// Configure the watchers' artificial delay before each result.
    pub fn set_watcher_delay_millis(&mut self, millis: u64)
        ensures
            final(self).watcher_pool.delay_millis == millis,
            final(self).watcher_pool.watchers@ == old(self).watcher_pool.watchers@,
            final(self).watcher_pool.queue@ == old(self).watcher_pool.queue@,
            final(self).watcher_pool.observed@ == old(self).watcher_pool.observed@,
            final(self).worker_pool == old(self).worker_pool,
    {
        self.watcher_pool.set_delay_millis(millis);
    }
}

/// Submitting a job adds exactly one execution of it to the work queue — no
/// duplication, no loss — and no shutdown order.
pub proof fn lemma_submission_exactly_once<J: Job>(q: Seq<WorkItem<J>>, job: J)
    ensures
        jobs_of(q.push(WorkItem::Execute(job))) == jobs_of(q).push(job),
        work_shutdowns(q.push(WorkItem::Execute(job))) == work_shutdowns(q),
{
    let item = WorkItem::Execute(job);
    lemma_jobs_of_concat(q, seq![item]);
    assert(q.push(item) =~= q + seq![item]);
    assert(seq![item].drop_first() =~= Seq::<WorkItem<J>>::empty());
    assert(seq![item].len() == 1);
    assert(seq![item][0] == item);
    assert(jobs_of(Seq::<WorkItem<J>>::empty()) =~= Seq::<J>::empty());
    assert(work_shutdowns(Seq::<WorkItem<J>>::empty()) == 0);
    assert(jobs_of(seq![item]) =~= seq![job]);
    assert(work_shutdowns(seq![item]) == 0);
    assert(jobs_of(q) + seq![job] =~= jobs_of(q).push(job));
}

/// Forwarding a produced result adds exactly one delivery of it to the
/// result queue — no duplication, no loss — and no shutdown order.
pub proof fn lemma_delivery_exactly_once(q: Seq<ResultItem>, result: JobResult)
    ensures
        delivers_of(q.push(ResultItem::Deliver(result))) == delivers_of(q).push(result),
        result_shutdowns(q.push(ResultItem::Deliver(result))) == result_shutdowns(q),
{
    let item = ResultItem::Deliver(result);
    lemma_delivers_of_concat(q, seq![item]);
    assert(q.push(item) =~= q + seq![item]);
    assert(seq![item].drop_first() =~= Seq::<ResultItem>::empty());
    assert(seq![item].len() == 1);
    assert(seq![item][0] == item);
    assert(delivers_of(Seq::<ResultItem>::empty()) =~= Seq::<JobResult>::empty());
    assert(result_shutdowns(Seq::<ResultItem>::empty()) == 0);
    assert(delivers_of(seq![item]) =~= seq![result]);
    assert(result_shutdowns(seq![item]) == 0);
    assert(delivers_of(q) + seq![result] =~= delivers_of(q).push(result));
}

/// One shutdown order per thread record stops every thread: none is
/// stranded, and no order stops two.  Identifiers and join flags are
/// untouched.
pub proof fn lemma_one_shutdown_per_thread(ts: Seq<ThreadRecord>)
    ensures
        all_stopped(stop_n(ts, ts.len())),
        stop_n(ts, ts.len()).len() == ts.len(),
        forall|i: int|
            0 <= i < ts.len() ==> (#[trigger] stop_n(ts, ts.len())[i]).id == ts[i].id && stop_n(
                ts,
                ts.len(),
            )[i].joined == ts[i].joined,
{
    lemma_running_count_le_len(ts);
    lemma_stop_n(ts, ts.len());
}

/// Joining a pool whose threads have all stopped joins every record, each
/// exactly once: a record already joined is left as it is, and none is left
/// unjoined.
pub proof fn lemma_join_after_stop(ts: Seq<ThreadRecord>)
    requires
        all_stopped(ts),
    ensures
        all_joined(join_stopped(ts)),
        all_stopped(join_stopped(ts)),
        join_stopped(ts).len() == ts.len(),
        forall|i: int|
            0 <= i < ts.len() ==> (#[trigger] join_stopped(ts)[i]).id == ts[i].id,
{
}




} // verus!
