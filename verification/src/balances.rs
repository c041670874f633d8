//! What the transfers that the escrow ledger asks for do to the balances.

use vstd::prelude::*;
use crate::escrow::{
    all_sound, completed, deposit, has_job, job_at, payout, refund, sound, with_status, AccountView, JobStatus,
    JobView, TransferView,
};

verus! {

/// What `account` holds according to `balances`; an account that is not
/// listed holds nothing.
pub open spec fn balance(balances: Map<AccountView, int>, account: AccountView) -> int {
    if balances.dom().contains(account) {
        balances[account]
    } else {
        0
    }
}

/// The balances once `transfer` is carried out: its amount has left the
/// account it draws on and has reached the account it pays into.
pub open spec fn carry_out(balances: Map<AccountView, int>, transfer: TransferView) -> Map<AccountView, int> {
    let drawn = balances.insert(transfer.from, balance(balances, transfer.from) - transfer.amount);
    drawn.insert(transfer.to, balance(drawn, transfer.to) + transfer.amount)
}

/// Creating a job raises what is in custody by the job's amount, lowers what
/// the hirer holds by the same, and leaves every other account alone.
pub proof fn lemma_deposit_moves_amount(
    balances: Map<AccountView, int>,
    token: Seq<char>,
    hirer: Seq<char>,
    amount: i128,
)
    ensures
        ({
            let after = carry_out(balances, deposit(token, hirer, amount));
            &&& balance(after, AccountView::Custody) == balance(balances, AccountView::Custody) + amount
            &&& balance(after, AccountView::Holder(hirer)) == balance(balances, AccountView::Holder(hirer)) - amount
            &&& forall|other: AccountView|
                other != AccountView::Custody && other != AccountView::Holder(hirer) ==> balance(after, other)
                    == balance(balances, other)
        }),
{
}

/// Completing a job lowers what is in custody by the job's amount, raises
/// what the agent's owner holds by the same, and leaves every other account
/// alone.
pub proof fn lemma_payout_moves_amount(balances: Map<AccountView, int>, token: Seq<char>, job: JobView)
    ensures
        ({
            let after = carry_out(balances, payout(token, job));
            &&& balance(after, AccountView::Custody) == balance(balances, AccountView::Custody) - job.amount
            &&& balance(after, AccountView::Holder(job.agent_owner)) == balance(
                balances,
                AccountView::Holder(job.agent_owner),
            ) + job.amount
            &&& forall|other: AccountView|
                other != AccountView::Custody && other != AccountView::Holder(job.agent_owner) ==> balance(
                    after,
                    other,
                ) == balance(balances, other)
        }),
{
}

/// Cancelling a job undoes what creating it did to the balances: the hirer,
/// the custody account and everyone else hold what they held before the job
/// was created.
pub proof fn lemma_refund_undoes_deposit(balances: Map<AccountView, int>, token: Seq<char>, job: JobView)
    ensures
        forall|account: AccountView|
            balance(
                carry_out(carry_out(balances, deposit(token, job.hirer, job.amount)), refund(token, job)),
                account,
            ) == balance(balances, account),
{
}

/// What is in custody for `job`: its amount, from its creation until it is
/// completed or cancelled. A dispute changes nothing: the amount of a job
/// that was disputed while pending stays in custody.
pub open spec fn held(job: JobView) -> int {
    if job.status == JobStatus::Pending || (job.status == JobStatus::Disputed && job.completed_at is None) {
        job.amount as int
    } else {
        0
    }
}

/// What is in custody for `jobs` together.
pub open spec fn in_custody(jobs: Seq<JobView>) -> int
    decreases jobs.len(),
{
    if jobs.len() == 0 {
        0
    } else {
        in_custody(jobs.drop_last()) + held(jobs.last())
    }
}

/// A job added at the end adds what is held for it.
pub proof fn lemma_custody_after_push(jobs: Seq<JobView>, job: JobView)
    ensures
        in_custody(jobs.push(job)) == in_custody(jobs) + held(job),
{
    assert(jobs.push(job).drop_last() =~= jobs);
}

/// A job put in the place of another changes what is in custody by the
/// difference of what is held for the two.
pub proof fn lemma_custody_after_update(jobs: Seq<JobView>, at: int, job: JobView)
    requires
        0 <= at < jobs.len(),
    ensures
        in_custody(jobs.update(at, job)) == in_custody(jobs) - held(jobs[at]) + held(job),
    decreases jobs.len(),
{
    let changed = jobs.update(at, job);
    if at == jobs.len() - 1 {
        assert(changed.drop_last() =~= jobs.drop_last());
    } else {
        assert(changed.drop_last() =~= jobs.drop_last().update(at, job));
        lemma_custody_after_update(jobs.drop_last(), at, job);
    }
}

/// The custody account holds what the jobs say it holds once a job is
/// created, if it did before: the deposit raises it by what is held for the
/// new job.
pub proof fn lemma_custody_after_create(
    balances: Map<AccountView, int>,
    jobs: Seq<JobView>,
    token: Seq<char>,
    job: JobView,
)
    requires
        balance(balances, AccountView::Custody) == in_custody(jobs),
        job.status == JobStatus::Pending,
    ensures
        balance(carry_out(balances, deposit(token, job.hirer, job.amount)), AccountView::Custody) == in_custody(
            jobs.push(job),
        ),
{
    lemma_custody_after_push(jobs, job);
}

/// The custody account holds what the jobs say it holds once a pending job
/// is completed, if it did before: the payout lowers it by what was held for
/// the job.
pub proof fn lemma_custody_after_complete(
    balances: Map<AccountView, int>,
    jobs: Seq<JobView>,
    token: Seq<char>,
    id: u64,
    results_hash: [u8; 32],
    now: u64,
)
    requires
        balance(balances, AccountView::Custody) == in_custody(jobs),
        has_job(jobs, id),
        job_at(jobs, id).status == JobStatus::Pending,
    ensures
        balance(carry_out(balances, payout(token, job_at(jobs, id))), AccountView::Custody) == in_custody(
            jobs.update(id - 1, completed(job_at(jobs, id), results_hash, now)),
        ),
{
    lemma_custody_after_update(jobs, id - 1, completed(job_at(jobs, id), results_hash, now));
}

/// The custody account holds what the jobs say it holds once a pending job
/// is cancelled, if it did before: the refund lowers it by what was held for
/// the job.
pub proof fn lemma_custody_after_cancel(
    balances: Map<AccountView, int>,
    jobs: Seq<JobView>,
    token: Seq<char>,
    id: u64,
)
    requires
        balance(balances, AccountView::Custody) == in_custody(jobs),
        has_job(jobs, id),
        job_at(jobs, id).status == JobStatus::Pending,
    ensures
        balance(carry_out(balances, refund(token, job_at(jobs, id))), AccountView::Custody) == in_custody(
            jobs.update(id - 1, with_status(job_at(jobs, id), JobStatus::Cancelled)),
        ),
{
    lemma_custody_after_update(jobs, id - 1, with_status(job_at(jobs, id), JobStatus::Cancelled));
}

/// A dispute leaves in custody what was there: the amount of a job disputed
/// while pending stays frozen, and a job disputed after its completion was
/// paid out before.
pub proof fn lemma_custody_after_dispute(jobs: Seq<JobView>, id: u64)
    requires
        all_sound(jobs),
        has_job(jobs, id),
        job_at(jobs, id).status == JobStatus::Pending || job_at(jobs, id).status == JobStatus::Completed,
    ensures
        in_custody(jobs.update(id - 1, with_status(job_at(jobs, id), JobStatus::Disputed))) == in_custody(jobs),
{
    assert(sound(jobs[id - 1]));
    lemma_custody_after_update(jobs, id - 1, with_status(job_at(jobs, id), JobStatus::Disputed));
}

} // verus!
