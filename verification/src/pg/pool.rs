//! The pooled job: take a client, create the `pio` table, then for each
//! number from 1 to 9 take a client, prepare `SELECT 1 + $1` and query it,
//! where the answer must be the number plus one. A failure in a round skips
//! to the next round; a failure before the table exists ends the job.

use vstd::prelude::*;

verus! {

/// Where the job stands: waiting for the first client, for the table, or in
/// round `i` for a client, a prepared statement or the query's answer; or
/// done.
#[derive(Debug, Clone, Copy, PartialEq, Eq)]
pub enum JobState {
    AwaitFirstClient,
    AwaitTable,
    AwaitClient(i32),
    AwaitPrepared(i32),
    AwaitAnswer(i32),
    Done,
}

/// What the database reported.
#[derive(Debug, Clone, Copy, PartialEq, Eq)]
pub enum JobEvent {
    ClientReady,
    ClientFailed,
    TableCreated,
    TableFailed,
    Prepared,
    PrepareFailed,
    Answered(i32),
    QueryFailed,
}

/// What to do next.
#[derive(Debug, Clone, Copy, PartialEq, Eq)]
pub enum JobAction {
    GetClient,
    CreateTable,
    Prepare,
    Query(i32),
    Succeed,
    Fail,
}

/// The rounds run from 1 to 9.
pub open spec fn job_state_wf(s: JobState) -> bool {
    match s {
        JobState::AwaitClient(i) => 1 <= i <= 9,
        JobState::AwaitPrepared(i) => 1 <= i <= 9,
        JobState::AwaitAnswer(i) => 1 <= i <= 9,
        _ => true,
    }
}

/// The events that can come in a state: the outcome of the action asked for.
/// An answer to the query of round `i` is `i + 1`: the job stops on any other.
pub open spec fn event_fits(s: JobState, e: JobEvent) -> bool {
    match s {
        JobState::AwaitFirstClient => e is ClientReady || e is ClientFailed,
        JobState::AwaitTable => e is TableCreated || e is TableFailed,
        JobState::AwaitClient(_) => e is ClientReady || e is ClientFailed,
        JobState::AwaitPrepared(_) => e is Prepared || e is PrepareFailed,
        JobState::AwaitAnswer(i) => match e {
            JobEvent::Answered(v) => v == i + 1,
            JobEvent::QueryFailed => true,
            _ => false,
        },
        JobState::Done => false,
    }
}

/// After round `i`: the next round, or success after the ninth.
pub open spec fn after_round(i: i32) -> (JobState, JobAction) {
    if i < 9 {
        (JobState::AwaitClient((i + 1) as i32), JobAction::GetClient)
    } else {
        (JobState::Done, JobAction::Succeed)
    }
}

/// The next state and action.
pub open spec fn spec_job_step(s: JobState, e: JobEvent) -> (JobState, JobAction) {
    match s {
        JobState::AwaitFirstClient => if e is ClientReady {
            (JobState::AwaitTable, JobAction::CreateTable)
        } else {
            (JobState::Done, JobAction::Fail)
        },
        JobState::AwaitTable => if e is TableCreated {
            (JobState::AwaitClient(1), JobAction::GetClient)
        } else {
            (JobState::Done, JobAction::Fail)
        },
        JobState::AwaitClient(i) => if e is ClientReady {
            (JobState::AwaitPrepared(i), JobAction::Prepare)
        } else {
            after_round(i)
        },
        JobState::AwaitPrepared(i) => if e is Prepared {
            (JobState::AwaitAnswer(i), JobAction::Query(i))
        } else {
            after_round(i)
        },
        JobState::AwaitAnswer(i) => after_round(i),
        JobState::Done => (JobState::Done, JobAction::Succeed),
    }
}

/// How many events the job can still take at most.
pub open spec fn job_measure(s: JobState) -> int {
    match s {
        JobState::AwaitFirstClient => 29,
        JobState::AwaitTable => 28,
        JobState::AwaitClient(i) => (9 - i) * 3 + 3,
        JobState::AwaitPrepared(i) => (9 - i) * 3 + 2,
        JobState::AwaitAnswer(i) => (9 - i) * 3 + 1,
        JobState::Done => 0,
    }
}

/// The job starts by asking for a client.
pub fn job_start() -> (r: (JobState, JobAction))
    ensures
        r == (JobState::AwaitFirstClient, JobAction::GetClient),
{
    (JobState::AwaitFirstClient, JobAction::GetClient)
}

/// The next state and action of the job, given what the database reported.
pub fn job_step(state: JobState, event: JobEvent) -> (r: (JobState, JobAction))
    requires
        job_state_wf(state),
        event_fits(state, event),
    ensures
        r == spec_job_step(state, event),
{
    match state {
        JobState::AwaitFirstClient => match event {
            JobEvent::ClientReady => (JobState::AwaitTable, JobAction::CreateTable),
            _ => (JobState::Done, JobAction::Fail),
        },
        JobState::AwaitTable => match event {
            JobEvent::TableCreated => (JobState::AwaitClient(1), JobAction::GetClient),
            _ => (JobState::Done, JobAction::Fail),
        },
        JobState::AwaitClient(i) => match event {
            JobEvent::ClientReady => (JobState::AwaitPrepared(i), JobAction::Prepare),
            _ => next_round(i),
        },
        JobState::AwaitPrepared(i) => match event {
            JobEvent::Prepared => (JobState::AwaitAnswer(i), JobAction::Query(i)),
            _ => next_round(i),
        },
        JobState::AwaitAnswer(i) => next_round(i),
        JobState::Done => (JobState::Done, JobAction::Succeed),
    }
}

/// The round after round `i`.
fn next_round(i: i32) -> (r: (JobState, JobAction))
    requires
        1 <= i <= 9,
    ensures
        r == after_round(i),
{
    if i < 9 {
        (JobState::AwaitClient(i + 1), JobAction::GetClient)
    } else {
        (JobState::Done, JobAction::Succeed)
    }
}

/// Every step keeps the rounds within 1 to 9 and brings the job closer to its
/// end, so the job ends after at most 29 events.
pub proof fn law_job_progress(s: JobState, e: JobEvent)
    requires
        job_state_wf(s),
        event_fits(s, e),
    ensures
        job_state_wf(spec_job_step(s, e).0),
        0 <= job_measure(spec_job_step(s, e).0) < job_measure(s),
        spec_job_step(s, e).0 is Done <==> spec_job_step(s, e).1 is Succeed || spec_job_step(s, e).1 is Fail,
{
}

/// Once the table is created the job does not fail; it fails only when no
/// first client or no table can be had.
pub proof fn law_job_fails_only_before_table(s: JobState, e: JobEvent)
    requires
        job_state_wf(s),
        event_fits(s, e),
        spec_job_step(s, e).1 is Fail,
    ensures
        (s is AwaitFirstClient && e is ClientFailed) || (s is AwaitTable && e is TableFailed),
{
}

/// Round `i` queries `i`, once its statement is prepared: the queries go out
/// for the numbers 1 to 9, in increasing order.
pub proof fn law_job_queries_round(s: JobState, e: JobEvent, i: i32)
    requires
        job_state_wf(s),
        event_fits(s, e),
        spec_job_step(s, e).1 == JobAction::Query(i),
    ensures
        s == JobState::AwaitPrepared(i),
        e is Prepared,
        1 <= i <= 9,
        spec_job_step(s, e).0 == JobState::AwaitAnswer(i),
{
}


/// A failure in round `i` before the last, and an answer to its query, move
/// the job on to round `i + 1`, which starts by asking for a client: no round
/// is skipped and the job does not stop early.
pub proof fn law_job_round_moves_on(i: i32)
    requires
        1 <= i < 9,
    ensures
        spec_job_step(JobState::AwaitClient(i), JobEvent::ClientFailed) == (
            JobState::AwaitClient((i + 1) as i32),
            JobAction::GetClient,
        ),
        spec_job_step(JobState::AwaitPrepared(i), JobEvent::PrepareFailed) == (
            JobState::AwaitClient((i + 1) as i32),
            JobAction::GetClient,
        ),
        spec_job_step(JobState::AwaitAnswer(i), JobEvent::QueryFailed) == (
            JobState::AwaitClient((i + 1) as i32),
            JobAction::GetClient,
        ),
        spec_job_step(JobState::AwaitAnswer(i), JobEvent::Answered((i + 1) as i32)) == (
            JobState::AwaitClient((i + 1) as i32),
            JobAction::GetClient,
        ),
{
}

/// The job ends only before the table exists or at the end of round 9.
pub proof fn law_job_done_only_after_last_round(s: JobState, e: JobEvent)
    requires
        job_state_wf(s),
        event_fits(s, e),
        spec_job_step(s, e).0 is Done,
    ensures
        match s {
            JobState::AwaitClient(i) => i == 9,
            JobState::AwaitPrepared(i) => i == 9,
            JobState::AwaitAnswer(i) => i == 9,
            _ => true,
        },
{
}

} // verus!
