//! The single-resource fetcher and the run's aggregate verdict.
//!
//! One fetch streams an HTTP response body into a staging file
//! (`<destination>.part`, in the destination's own directory so the final
//! rename stays on one filesystem) and only then renames it onto the
//! destination — a partially transferred file is never observable under its
//! final name. A destination that already exists is always skipped unless
//! the run forces a re-download: its freshness against upstream is
//! deliberately not consulted. The network and filesystem work is done by the
//! caller, one driver per descriptor, all running concurrently: each driver
//! holds a [`FetchState`], performs what the state asks, and feeds the
//! observed [`FetchEvent`] back through [`FetchState::step`]. A run's
//! verdict aggregates the drivers' outcomes: it fails if any fetch failed,
//! but no failure aborts or rolls back the sibling fetches.

use vstd::prelude::*;

use crate::manifest::Descriptor;

verus! {

/// How many redirect hops the run's shared HTTP client follows.
pub const REDIRECT_LIMIT: usize = 16;

/// The shared HTTP client's connect timeout, in seconds.
pub const CONNECT_TIMEOUT_SECS: u64 = 32;

/// The identifying user agent of the shared HTTP client: `<name>/<version>`.
pub fn user_agent(name: &str, version: &str) -> (r: String)
    ensures
        r@ == name@ + "/"@ + version@,
{
    let mut r = name.to_owned();
    r.append("/");
    r.append(version);
    r
}

/// Why one fetch failed. A failure is recorded for its descriptor and never
/// aborts the sibling fetches.
#[derive(Debug, Clone)]
pub enum FetchFailure {
    /// The server answered with a non-success status.
    HttpStatus(u16),
    /// The request, the transfer, or the local filesystem failed.
    Io(String),
}

/// How one fetch ended.
#[derive(Debug, Clone)]
pub enum FetchOutcome {
    /// New content was written and renamed onto the destination.
    Materialized,
    /// The destination was already present and the run did not force a
    /// re-download; nothing was fetched.
    SkippedExisting,
    /// The fetch failed; it put nothing under the destination's final name.
    Failed(FetchFailure),
}

/// What the driver of one fetch must do next, or has finished with.
#[derive(Debug)]
pub enum FetchState {
    /// The GET is sent; await the response status.
    AwaitResponse,
    /// Ask whether the destination file already exists.
    CheckDestination,
    /// Create the staging file.
    OpenStaging,
    /// Await the next body chunk and write it to the staging file.
    Streaming,
    /// Flush the staging file and rename it onto the destination.
    Promote,
    /// Remove the staging file left behind by a failure.
    CleanupStaging { reason: FetchFailure },
    /// The fetch is over.
    Finished { outcome: FetchOutcome },
}

/// What the driver of one fetch observed.
#[derive(Debug)]
pub enum FetchEvent {
    /// The response arrived with this status code.
    Status { code: u16 },
    /// The request could not be sent, or no response came.
    RequestFailed { message: String },
    /// Whether the destination file already exists.
    Destination { exists: bool },
    /// The staging file is created and open.
    StagingOpen,
    /// One body chunk arrived and was written to the staging file.
    ChunkWritten,
    /// The body is complete and the staging file is flushed.
    BodyDone,
    /// The staging file was renamed onto the destination.
    Promoted,
    /// Receiving, writing, flushing or renaming failed.
    IoFailed { message: String },
    /// The staging file was removed (or could not be; it may stay behind
    /// for diagnosis — promised is only that it was never renamed onto the
    /// destination).
    CleanedUp,
}

/// A status code that lets the fetch proceed.
pub open spec fn success_status(code: u16) -> bool {
    200 <= code < 300
}

/// The fetcher's transition relation: what state follows `s` when the driver
/// of a fetch (forced or not) observes `ev`. An event that does not belong
/// to the state changes nothing.
pub open spec fn step_spec(s: FetchState, force: bool, ev: FetchEvent) -> FetchState {
    match (s, ev) {
        (FetchState::AwaitResponse, FetchEvent::Status { code }) => {
            if success_status(code) {
                FetchState::CheckDestination
            } else {
                FetchState::Finished {
                    outcome: FetchOutcome::Failed(FetchFailure::HttpStatus(code)),
                }
            }
        },
        (FetchState::AwaitResponse, FetchEvent::RequestFailed { message }) => {
            FetchState::Finished { outcome: FetchOutcome::Failed(FetchFailure::Io(message)) }
        },
        (FetchState::CheckDestination, FetchEvent::Destination { exists }) => {
            if exists && !force {
                FetchState::Finished { outcome: FetchOutcome::SkippedExisting }
            } else {
                FetchState::OpenStaging
            }
        },
        (FetchState::OpenStaging, FetchEvent::StagingOpen) => FetchState::Streaming,
        (FetchState::OpenStaging, FetchEvent::IoFailed { message }) => {
            // The staging file was never created, so there is nothing to
            // clean up.
            FetchState::Finished { outcome: FetchOutcome::Failed(FetchFailure::Io(message)) }
        },
        (FetchState::Streaming, FetchEvent::ChunkWritten) => FetchState::Streaming,
        (FetchState::Streaming, FetchEvent::BodyDone) => FetchState::Promote,
        (FetchState::Streaming, FetchEvent::IoFailed { message }) => {
            FetchState::CleanupStaging { reason: FetchFailure::Io(message) }
        },
        (FetchState::Promote, FetchEvent::Promoted) => {
            FetchState::Finished { outcome: FetchOutcome::Materialized }
        },
        (FetchState::Promote, FetchEvent::IoFailed { message }) => {
            FetchState::CleanupStaging { reason: FetchFailure::Io(message) }
        },
        (FetchState::CleanupStaging { reason }, FetchEvent::CleanedUp) => {
            FetchState::Finished { outcome: FetchOutcome::Failed(reason) }
        },
        (other, _) => other,
    }
}

impl FetchState {
    /// Every fetch starts here, with its GET under way.
    pub fn start() -> (s: FetchState)
        ensures
            s == FetchState::AwaitResponse,
    {
        FetchState::AwaitResponse
    }

    /// Advances one fetch by one observed event.
    pub fn step(self, force: bool, ev: FetchEvent) -> (next: FetchState)
        ensures
            next == step_spec(self, force, ev),
    {
        match (self, ev) {
            (FetchState::AwaitResponse, FetchEvent::Status { code }) => {
                if 200 <= code && code < 300 {
                    FetchState::CheckDestination
                } else {
                    FetchState::Finished {
                        outcome: FetchOutcome::Failed(FetchFailure::HttpStatus(code)),
                    }
                }
            },
            (FetchState::AwaitResponse, FetchEvent::RequestFailed { message }) => {
                FetchState::Finished {
                    outcome: FetchOutcome::Failed(FetchFailure::Io(message)),
                }
            },
            (FetchState::CheckDestination, FetchEvent::Destination { exists }) => {
                if exists && !force {
                    FetchState::Finished { outcome: FetchOutcome::SkippedExisting }
                } else {
                    FetchState::OpenStaging
                }
            },
            (FetchState::OpenStaging, FetchEvent::StagingOpen) => FetchState::Streaming,
            (FetchState::OpenStaging, FetchEvent::IoFailed { message }) => {
                FetchState::Finished {
                    outcome: FetchOutcome::Failed(FetchFailure::Io(message)),
                }
            },
            (FetchState::Streaming, FetchEvent::ChunkWritten) => FetchState::Streaming,
            (FetchState::Streaming, FetchEvent::BodyDone) => FetchState::Promote,
            (FetchState::Streaming, FetchEvent::IoFailed { message }) => {
                FetchState::CleanupStaging { reason: FetchFailure::Io(message) }
            },
            (FetchState::Promote, FetchEvent::Promoted) => {
                FetchState::Finished { outcome: FetchOutcome::Materialized }
            },
            (FetchState::Promote, FetchEvent::IoFailed { message }) => {
                FetchState::CleanupStaging { reason: FetchFailure::Io(message) }
            },
            (FetchState::CleanupStaging { reason }, FetchEvent::CleanedUp) => {
                FetchState::Finished { outcome: FetchOutcome::Failed(reason) }
            },
            (other, _) => other,
        }
    }
}

/// Where a whole sequence of observed events takes one fetch.
pub open spec fn run_spec(s: FetchState, force: bool, evs: Seq<FetchEvent>) -> FetchState
    decreases evs.len(),
{
    if evs.len() == 0 {
        s
    } else {
        run_spec(step_spec(s, force, evs[0]), force, evs.drop_first())
    }
}

/// A finished fetch stays finished, whatever else is observed.
pub proof fn lemma_finished_stays(o: FetchOutcome, force: bool, evs: Seq<FetchEvent>)
    ensures
        run_spec(FetchState::Finished { outcome: o }, force, evs) == (FetchState::Finished {
            outcome: o,
        }),
    decreases evs.len(),
{
    if evs.len() > 0 {
        lemma_finished_stays(o, force, evs.drop_first());
    }
}

/// A run on `evs` is the run on a prefix, continued over the rest.
pub proof fn lemma_run_split(s: FetchState, force: bool, evs: Seq<FetchEvent>, i: int)
    requires
        0 <= i <= evs.len(),
    ensures
        run_spec(s, force, evs) == run_spec(
            run_spec(s, force, evs.take(i)),
            force,
            evs.skip(i),
        ),
    decreases i,
{
    if i == 0 {
        assert(evs.take(0) =~= Seq::<FetchEvent>::empty());
        assert(evs.skip(0) =~= evs);
    } else {
        let s1 = step_spec(s, force, evs[0]);
        lemma_run_split(s1, force, evs.drop_first(), i - 1);
        assert(evs.drop_first().take(i - 1) =~= evs.take(i).drop_first());
        assert(evs.drop_first().skip(i - 1) =~= evs.skip(i));
    }
}

/// A state in which the driver creates, writes, renames or removes a file in
/// the destination directory.
pub open spec fn touches_disk(s: FetchState) -> bool {
    ||| s is OpenStaging
    ||| s is Streaming
    ||| s is Promote
    ||| s is CleanupStaging
}

/// With force off, a fetch whose destination already exists ends as
/// `SkippedExisting` without ever entering a state that touches the disk —
/// so re-running over materialized destinations is side-effect-free, and the
/// response body is never awaited.
pub proof fn lemma_existing_destination_skips(code: u16, evs: Seq<FetchEvent>)
    requires
        success_status(code),
    ensures
        ({
            let whole = seq![
                FetchEvent::Status { code },
                FetchEvent::Destination { exists: true },
            ] + evs;
            &&& run_spec(FetchState::AwaitResponse, false, whole) == (FetchState::Finished {
                outcome: FetchOutcome::SkippedExisting,
            })
            &&& forall|k: int|
                0 <= k <= whole.len() ==> !touches_disk(
                    #[trigger] run_spec(FetchState::AwaitResponse, false, whole.take(k)),
                )
        }),
{
    let pre = seq![FetchEvent::Status { code }, FetchEvent::Destination { exists: true }];
    let skipped = FetchState::Finished { outcome: FetchOutcome::SkippedExisting };
    assert forall|tail: Seq<FetchEvent>| true implies #[trigger] run_spec(
        FetchState::AwaitResponse,
        false,
        pre + tail,
    ) == skipped by {
        let whole = pre + tail;
        assert(whole.len() >= 2);
        assert(whole[0] == FetchEvent::Status { code });
        assert(step_spec(FetchState::AwaitResponse, false, whole[0])
            == FetchState::CheckDestination);
        let rest1 = whole.drop_first();
        assert(rest1 =~= seq![FetchEvent::Destination { exists: true }] + tail);
        assert(rest1[0] == FetchEvent::Destination { exists: true });
        assert(step_spec(FetchState::CheckDestination, false, rest1[0]) == skipped);
        assert(rest1.drop_first() =~= tail);
        lemma_finished_stays(FetchOutcome::SkippedExisting, false, tail);
        assert(run_spec(FetchState::AwaitResponse, false, whole) == run_spec(
            FetchState::CheckDestination,
            false,
            rest1,
        ));
        assert(run_spec(FetchState::CheckDestination, false, rest1) == run_spec(
            skipped,
            false,
            tail,
        ));
    }
    let whole = pre + evs;
    assert(run_spec(FetchState::AwaitResponse, false, whole) == skipped);
    assert forall|k: int| 0 <= k <= whole.len() implies !touches_disk(
        #[trigger] run_spec(FetchState::AwaitResponse, false, whole.take(k)),
    ) by {
        if k == 0 {
            assert(whole.take(0) =~= Seq::<FetchEvent>::empty());
            assert(run_spec(FetchState::AwaitResponse, false, whole.take(k))
                == FetchState::AwaitResponse);
        } else if k == 1 {
            let t1 = whole.take(1);
            assert(t1 =~= seq![FetchEvent::Status { code }]);
            assert(t1[0] == FetchEvent::Status { code });
            assert(run_spec(FetchState::AwaitResponse, false, t1) == run_spec(
                FetchState::CheckDestination,
                false,
                t1.drop_first(),
            ));
            assert(t1.drop_first() =~= Seq::<FetchEvent>::empty());
            assert(run_spec(FetchState::CheckDestination, false, t1.drop_first())
                == FetchState::CheckDestination);
        } else {
            let tail = evs.take(k - 2);
            assert(whole.take(k) =~= pre + tail);
            assert(run_spec(FetchState::AwaitResponse, false, pre + tail) == skipped);
        }
    }
}

/// In the run on `evs`, the staging file is renamed onto the destination at
/// position `i`: the fetch stands in `Promote` and the driver observes that
/// the rename went through.
pub open spec fn promotes_at(s: FetchState, force: bool, evs: Seq<FetchEvent>, i: int) -> bool {
    &&& 0 <= i < evs.len()
    &&& run_spec(s, force, evs.take(i)) is Promote
    &&& evs[i] is Promoted
}

/// Somewhere in the run on `evs`, the staging file is renamed onto the
/// destination.
pub open spec fn ever_promotes(s: FetchState, force: bool, evs: Seq<FetchEvent>) -> bool {
    exists|i: int| promotes_at(s, force, evs, i)
}

proof fn lemma_materialized_reaches_promote(s: FetchState, force: bool, evs: Seq<FetchEvent>)
    requires
        run_spec(s, force, evs) == (FetchState::Finished { outcome: FetchOutcome::Materialized }),
        s != (FetchState::Finished { outcome: FetchOutcome::Materialized }),
    ensures
        ever_promotes(s, force, evs),
    decreases evs.len(),
{
    assert(evs.len() > 0);
    let s1 = step_spec(s, force, evs[0]);
    if s1 == (FetchState::Finished { outcome: FetchOutcome::Materialized }) {
        assert(s is Promote && evs[0] is Promoted);
        assert(evs.take(0) =~= Seq::<FetchEvent>::empty());
        assert(promotes_at(s, force, evs, 0));
    } else {
        lemma_materialized_reaches_promote(s1, force, evs.drop_first());
        let i = choose|i: int| promotes_at(s1, force, evs.drop_first(), i);
        assert(evs.take(i + 1).drop_first() =~= evs.drop_first().take(i));
        assert(run_spec(s, force, evs.take(i + 1)) == run_spec(
            s1,
            force,
            evs.drop_first().take(i),
        ));
        assert(promotes_at(s, force, evs, i + 1));
    }
}

/// A fetch materializes its destination exactly when its driver renamed the
/// staging file onto it out of the `Promote` state. In particular a fetch
/// that failed — mid-stream or anywhere else — never renamed anything onto
/// the destination, so it put nothing under the final name.
pub proof fn lemma_materialized_iff_promoted(force: bool, evs: Seq<FetchEvent>)
    ensures
        run_spec(FetchState::AwaitResponse, force, evs) == (FetchState::Finished {
            outcome: FetchOutcome::Materialized,
        }) <==> ever_promotes(FetchState::AwaitResponse, force, evs),
{
    let s0 = FetchState::AwaitResponse;
    let m = FetchState::Finished { outcome: FetchOutcome::Materialized };
    if run_spec(s0, force, evs) == m {
        lemma_materialized_reaches_promote(s0, force, evs);
    }
    if ever_promotes(s0, force, evs) {
        let i = choose|i: int| promotes_at(s0, force, evs, i);
        assert(promotes_at(s0, force, evs, i));
        lemma_run_split(s0, force, evs.take(i + 1), i);
        assert(evs.take(i + 1).take(i) =~= evs.take(i));
        assert(evs.take(i + 1).skip(i) =~= seq![evs[i]]);
        let mid = run_spec(s0, force, evs.take(i));
        assert(mid is Promote);
        assert(step_spec(mid, force, evs[i]) == m);
        assert(run_spec(mid, force, seq![evs[i]]) == run_spec(
            m,
            force,
            seq![evs[i]].drop_first(),
        ));
        assert(seq![evs[i]].drop_first() =~= Seq::<FetchEvent>::empty());
        assert(run_spec(m, force, seq![evs[i]].drop_first()) == m);
        assert(run_spec(s0, force, evs.take(i + 1)) == m);
        lemma_run_split(s0, force, evs, i + 1);
        lemma_finished_stays(FetchOutcome::Materialized, force, evs.skip(i + 1));
    }
}

/// A failed fetch never renamed its staging file onto the destination: it
/// wrote nothing under the final name (what stood there before it — nothing,
/// or a file an earlier run materialized — still stands).
pub proof fn lemma_failed_never_promotes(force: bool, evs: Seq<FetchEvent>)
    requires
        run_spec(
            FetchState::AwaitResponse,
            force,
            evs,
        ) matches FetchState::Finished { outcome: FetchOutcome::Failed(_) },
    ensures
        !ever_promotes(FetchState::AwaitResponse, force, evs),
{
    lemma_materialized_iff_promoted(force, evs);
}

/// Why a whole run failed. Per-descriptor failures are aggregated, never
/// returned individually.
#[derive(Debug)]
pub enum DownloadError {
    /// A manifest line could not be parsed (carries the line); caught before
    /// any network activity.
    InvalidDescriptor(String),
    /// The run's shared HTTP client could not be built; fatal, since no
    /// fetch can proceed without it.
    TransportInit(String),
    /// A local filesystem failure outside any single fetch, such as creating
    /// the destination directory.
    Io(String),
    /// This many fetches failed; the successful ones' files stand.
    FetchesFailed(usize),
}

/// How many fetches of a run failed.
pub open spec fn count_failed(outcomes: Seq<FetchOutcome>) -> nat
    decreases outcomes.len(),
{
    if outcomes.len() == 0 {
        0
    } else {
        (if outcomes[0] is Failed {
            1nat
        } else {
            0nat
        }) + count_failed(outcomes.drop_first())
    }
}

proof fn lemma_count_failed_push(outcomes: Seq<FetchOutcome>, o: FetchOutcome)
    ensures
        count_failed(outcomes.push(o)) == count_failed(outcomes) + (if o is Failed {
            1nat
        } else {
            0nat
        }),
    decreases outcomes.len(),
{
    assert(outcomes.push(o)[0] == (if outcomes.len() == 0 {
        o
    } else {
        outcomes[0]
    }));
    if outcomes.len() == 0 {
        assert(outcomes.push(o).drop_first() =~= Seq::<FetchOutcome>::empty());
        assert(count_failed(outcomes.push(o).drop_first()) == 0);
    } else {
        assert(outcomes.push(o).drop_first() =~= outcomes.drop_first().push(o));
        lemma_count_failed_push(outcomes.drop_first(), o);
    }
}

/// No fetch failed exactly when no outcome is a failure.
pub proof fn lemma_count_failed_zero(outcomes: Seq<FetchOutcome>)
    ensures
        count_failed(outcomes) == 0 <==> (forall|i: int|
            0 <= i < outcomes.len() ==> !(#[trigger] outcomes[i] is Failed)),
    decreases outcomes.len(),
{
    if outcomes.len() > 0 {
        let rest = outcomes.drop_first();
        lemma_count_failed_zero(rest);
        if count_failed(outcomes) == 0 {
            assert forall|i: int| 0 <= i < outcomes.len() implies !(
            #[trigger] outcomes[i] is Failed) by {
                if i > 0 {
                    assert(rest[i - 1] == outcomes[i]);
                    assert(!(rest[i - 1] is Failed));
                }
            }
        }
        if forall|i: int| 0 <= i < outcomes.len() ==> !(#[trigger] outcomes[i] is Failed) {
            assert(!(outcomes[0] is Failed));
            assert forall|j: int| 0 <= j < rest.len() implies !(#[trigger] rest[j] is Failed) by {
                assert(rest[j] == outcomes[j + 1]);
            }
            assert(count_failed(rest) == 0);
        }
    }
}

/// The run's verdict does not depend on the order in which the concurrent
/// fetches completed: outcome sequences that are rearrangements of one
/// another succeed or fail together.
pub proof fn lemma_verdict_order_free(a: Seq<FetchOutcome>, b: Seq<FetchOutcome>)
    requires
        a.to_multiset() == b.to_multiset(),
    ensures
        count_failed(a) == 0 <==> count_failed(b) == 0,
{
    broadcast use vstd::seq_lib::group_to_multiset_ensures;

    lemma_count_failed_zero(a);
    lemma_count_failed_zero(b);
    assert forall|s1: Seq<FetchOutcome>, s2: Seq<FetchOutcome>|
        s1.to_multiset() == s2.to_multiset() && (forall|i: int|
            0 <= i < s1.len() ==> !(#[trigger] s1[i] is Failed)) implies (forall|i: int|
        0 <= i < s2.len() ==> !(#[trigger] s2[i] is Failed)) by {
        assert forall|i: int| 0 <= i < s2.len() implies !(#[trigger] s2[i] is Failed) by {
            let x = s2[i];
            assert(s2.contains(x));
            assert(s2.to_multiset().count(x) > 0);
            assert(s1.contains(x));
            let j = choose|j: int| 0 <= j < s1.len() && s1[j] == x;
            assert(!(s1[j] is Failed));
        }
    }
}

/// The run's aggregate verdict over all per-descriptor outcomes: `Ok` exactly
/// when no fetch failed. Skipped destinations count as success, and however
/// many fetches failed, the others' outcomes are all collected first — a
/// failure neither aborts nor rolls back its siblings.
pub fn run_verdict(outcomes: &Vec<FetchOutcome>) -> (r: Result<(), DownloadError>)
    ensures
        r is Ok <==> count_failed(outcomes@) == 0,
        r is Ok <==> (forall|i: int|
            0 <= i < outcomes@.len() ==> !(#[trigger] outcomes@[i] is Failed)),
        match r {
            Ok(()) => true,
            Err(DownloadError::FetchesFailed(n)) => n == count_failed(outcomes@),
            Err(_) => false,
        },
{
    let mut failed: usize = 0;
    let mut i: usize = 0;
    proof {
        assert(outcomes@.take(0) =~= Seq::<FetchOutcome>::empty());
    }
    while i < outcomes.len()
        invariant
            i <= outcomes@.len(),
            failed <= i,
            failed as nat == count_failed(outcomes@.take(i as int)),
        decreases outcomes@.len() - i,
    {
        proof {
            assert(outcomes@.take(i + 1) =~= outcomes@.take(i as int).push(outcomes@[i as int]));
            lemma_count_failed_push(outcomes@.take(i as int), outcomes@[i as int]);
        }
        if let FetchOutcome::Failed(_) = &outcomes[i] {
            failed += 1;
        }
        i += 1;
    }
    proof {
        assert(outcomes@.take(outcomes@.len() as int) =~= outcomes@);
        lemma_count_failed_zero(outcomes@);
    }
    if failed == 0 {
        Ok(())
    } else {
        Err(DownloadError::FetchesFailed(failed))
    }
}

/// Everything one driver needs for its fetch: the URL, the final destination
/// path, and the staging path beside it.
#[derive(Debug)]
pub struct FetchPlan {
    pub url: String,
    pub dest_path: String,
    pub staging_path: String,
}

/// The destination path of a descriptor: `<dir>/<destination name>`.
pub fn dest_path(dir: &str, name: &str) -> (r: String)
    ensures
        r@ == dir@ + "/"@ + name@,
{
    let mut r = dir.to_owned();
    r.append("/");
    r.append(name);
    r
}

/// The staging path beside a destination: `<path>.part`, in the same
/// directory, so that promoting it is a same-filesystem, atomic rename.
pub fn staging_path(path: &str) -> (r: String)
    ensures
        r@ == path@ + ".part"@,
{
    let mut r = path.to_owned();
    r.append(".part");
    r
}

/// Distinct destination names yield distinct destination paths under one
/// directory: no two of a run's concurrent fetches contend for the same
/// final file, so a successful run leaves one file per descriptor.
pub proof fn lemma_dest_paths_distinct(dir: Seq<char>, a: Seq<char>, b: Seq<char>)
    requires
        a != b,
    ensures
        dir + "/"@ + a != dir + "/"@ + b,
{
    reveal_strlit("/");
    let pa = dir + "/"@ + a;
    let pb = dir + "/"@ + b;
    if pa == pb {
        assert(a =~= pa.skip(dir.len() as int + 1));
        assert(b =~= pb.skip(dir.len() as int + 1));
    }
}

/// Binds every descriptor of a manifest to its destination and staging paths
/// under the destination directory, in manifest order — one plan per
/// concurrent unit of work.
pub fn plan_fetches(dls: &Vec<Descriptor>, dir: &str) -> (r: Vec<FetchPlan>)
    ensures
        r@.len() == dls@.len(),
        forall|i: int|
            0 <= i < dls@.len() ==> {
                &&& (#[trigger] r@[i]).url@ == dls@[i].url@
                &&& r@[i].dest_path@ == dir@ + "/"@ + dls@[i].dest@
                &&& r@[i].staging_path@ == dir@ + "/"@ + dls@[i].dest@ + ".part"@
            },
{
    let mut r: Vec<FetchPlan> = Vec::new();
    let mut i: usize = 0;
    while i < dls.len()
        invariant
            i <= dls@.len(),
            r@.len() == i,
            forall|j: int|
                0 <= j < i ==> {
                    &&& (#[trigger] r@[j]).url@ == dls@[j].url@
                    &&& r@[j].dest_path@ == dir@ + "/"@ + dls@[j].dest@
                    &&& r@[j].staging_path@ == dir@ + "/"@ + dls@[j].dest@ + ".part"@
                },
        decreases dls@.len() - i,
    {
        let d = dest_path(dir, dls[i].dest.as_str());
        let staging = staging_path(d.as_str());
        let url = dls[i].url.clone();
        r.push(FetchPlan { url, dest_path: d, staging_path: staging });
        i += 1;
    }
    r
}

} // verus!
