//! The escrow ledger: jobs, their life cycle, and the funds held for them.

use vstd::prelude::*;
use crate::address::{Address, Authorization};
use crate::error::MarketError;
use crate::index::Index;

verus! {

/// Where a job stands. A job starts as `Pending`. From there it is completed,
/// cancelled or disputed; a completed job can still be disputed. Nothing
/// leads out of `Cancelled` or `Disputed`.
#[derive(Clone, Copy, Debug, PartialEq, Eq, Structural)]
pub enum JobStatus {
    Pending,
    Completed,
    Cancelled,
    Disputed,
}

/// One escrowed payment, followed through its life cycle.
#[derive(Debug, PartialEq, Eq)]
pub struct Job {
    /// Given out in sequence, the first job having id 1.
    pub id: u64,
    /// Who created the job and pays for it.
    pub hirer: Address,
    /// Who is paid when the job is completed.
    pub agent_owner: Address,
    /// The agent that was hired. No registry is asked whether it exists.
    pub agent_id: String,
    /// What was taken into custody when the job was created.
    pub amount: i128,
    pub status: JobStatus,
    /// When the job was created.
    pub created_at: u64,
    /// When the job was completed, if it was.
    pub completed_at: Option<u64>,
    /// The digest of the results handed in on completion.
    pub results_hash: Option<[u8; 32]>,
}

/// What a `Job` holds, as mathematical values.
pub struct JobView {
    pub id: u64,
    pub hirer: Seq<char>,
    pub agent_owner: Seq<char>,
    pub agent_id: Seq<char>,
    pub amount: i128,
    pub status: JobStatus,
    pub created_at: u64,
    pub completed_at: Option<u64>,
    pub results_hash: Option<[u8; 32]>,
}

impl View for Job {
    type V = JobView;

    open spec fn view(&self) -> JobView {
        JobView {
            id: self.id,
            hirer: self.hirer@,
            agent_owner: self.agent_owner@,
            agent_id: self.agent_id@,
            amount: self.amount,
            status: self.status,
            created_at: self.created_at,
            completed_at: self.completed_at,
            results_hash: self.results_hash,
        }
    }
}

impl Job {
    /// Whether what the job says of its completion fits its status.
    pub fn is_sound(&self) -> (r: bool)
        ensures
            r == sound(self@),
    {
        match self.status {
            JobStatus::Pending | JobStatus::Cancelled => self.completed_at.is_none() && self.results_hash.is_none(),
            JobStatus::Completed => self.completed_at.is_some() && self.results_hash.is_some(),
            JobStatus::Disputed => self.completed_at.is_some() == self.results_hash.is_some(),
        }
    }
}

impl Clone for Job {
    fn clone(&self) -> (r: Job)
        ensures
            r@ == self@,
    {
        Job {
            id: self.id,
            hirer: self.hirer.clone(),
            agent_owner: self.agent_owner.clone(),
            agent_id: self.agent_id.clone(),
            amount: self.amount,
            status: self.status,
            created_at: self.created_at,
            completed_at: self.completed_at,
            results_hash: self.results_hash,
        }
    }
}

/// An account that a transfer draws on or pays into.
#[derive(Debug, PartialEq, Eq)]
pub enum Account {
    /// The ledger's own account, in which escrowed funds are held.
    Custody,
    /// The account of a principal.
    Holder(Address),
}

/// What an `Account` is, as a mathematical value.
pub enum AccountView {
    Custody,
    Holder(Seq<char>),
}

impl View for Account {
    type V = AccountView;

    open spec fn view(&self) -> AccountView {
        match self {
            Account::Custody => AccountView::Custody,
            Account::Holder(a) => AccountView::Holder(a@),
        }
    }
}

/// A movement of funds that an operation depends on. The host asks the
/// ledger for it, has the token service carry it out, and hands the outcome
/// to the operation, which changes the ledger only if the funds have moved.
#[derive(Debug, PartialEq, Eq)]
pub struct Transfer {
    /// The token in which the amount is counted.
    pub token: Address,
    pub from: Account,
    pub to: Account,
    pub amount: i128,
}

/// What a `Transfer` holds, as mathematical values.
pub struct TransferView {
    pub token: Seq<char>,
    pub from: AccountView,
    pub to: AccountView,
    pub amount: i128,
}

impl View for Transfer {
    type V = TransferView;

    open spec fn view(&self) -> TransferView {
        TransferView { token: self.token@, from: self.from@, to: self.to@, amount: self.amount }
    }
}

/// The records in which a host keeps the ledger between calls, each under
/// its key.
#[derive(Debug, PartialEq, Eq)]
pub enum DataKey {
    /// The number of jobs created so far.
    JobCounter,
    /// The job with the given id.
    Job(u64),
    /// The ids of the jobs that the given principal created.
    JobsByHirer(Address),
    /// The ids of the jobs that pay the given principal.
    JobsByOwner(Address),
}

/// What a `DataKey` is, as a mathematical value.
pub enum DataKeyView {
    JobCounter,
    Job(u64),
    JobsByHirer(Seq<char>),
    JobsByOwner(Seq<char>),
}

impl View for DataKey {
    type V = DataKeyView;

    open spec fn view(&self) -> DataKeyView {
        match self {
            DataKey::JobCounter => DataKeyView::JobCounter,
            DataKey::Job(id) => DataKeyView::Job(*id),
            DataKey::JobsByHirer(who) => DataKeyView::JobsByHirer(who@),
            DataKey::JobsByOwner(who) => DataKeyView::JobsByOwner(who@),
        }
    }
}

/// What a list of keys holds, key by key.
pub open spec fn key_views(keys: Seq<DataKey>) -> Seq<DataKeyView> {
    keys.map_values(|k: DataKey| k@)
}

/// A notification of what happened to a job, for the host to publish under
/// the job's id.
#[derive(Debug, PartialEq, Eq)]
pub enum EscrowEvent {
    JobCreated { job_id: u64, hirer: Address, agent_owner: Address, agent_id: String, amount: i128 },
    JobCompleted { job_id: u64, agent_owner: Address, amount: i128, results_hash: [u8; 32] },
    JobCancelled { job_id: u64, hirer: Address, amount: i128 },
    DisputeInitiated { job_id: u64 },
}

/// What an `EscrowEvent` holds, as mathematical values.
pub enum EscrowEventView {
    JobCreated { job_id: u64, hirer: Seq<char>, agent_owner: Seq<char>, agent_id: Seq<char>, amount: i128 },
    JobCompleted { job_id: u64, agent_owner: Seq<char>, amount: i128, results_hash: [u8; 32] },
    JobCancelled { job_id: u64, hirer: Seq<char>, amount: i128 },
    DisputeInitiated { job_id: u64 },
}

impl View for EscrowEvent {
    type V = EscrowEventView;

    open spec fn view(&self) -> EscrowEventView {
        match self {
            EscrowEvent::JobCreated { job_id, hirer, agent_owner, agent_id, amount } => EscrowEventView::JobCreated {
                job_id: *job_id,
                hirer: hirer@,
                agent_owner: agent_owner@,
                agent_id: agent_id@,
                amount: *amount,
            },
            EscrowEvent::JobCompleted { job_id, agent_owner, amount, results_hash } => EscrowEventView::JobCompleted {
                job_id: *job_id,
                agent_owner: agent_owner@,
                amount: *amount,
                results_hash: *results_hash,
            },
            EscrowEvent::JobCancelled { job_id, hirer, amount } => EscrowEventView::JobCancelled {
                job_id: *job_id,
                hirer: hirer@,
                amount: *amount,
            },
            EscrowEvent::DisputeInitiated { job_id } => EscrowEventView::DisputeInitiated { job_id: *job_id },
        }
    }
}

/// The name under which a notification is published.
pub open spec fn escrow_event_name(event: EscrowEventView) -> Seq<char> {
    match event {
        EscrowEventView::JobCreated { .. } => "job_created"@,
        EscrowEventView::JobCompleted { .. } => "job_completed"@,
        EscrowEventView::JobCancelled { .. } => "job_cancelled"@,
        EscrowEventView::DisputeInitiated { .. } => "dispute_initiated"@,
    }
}

/// The id of the job that a notification is about.
pub open spec fn escrow_event_job(event: EscrowEventView) -> u64 {
    match event {
        EscrowEventView::JobCreated { job_id, .. } => job_id,
        EscrowEventView::JobCompleted { job_id, .. } => job_id,
        EscrowEventView::JobCancelled { job_id, .. } => job_id,
        EscrowEventView::DisputeInitiated { job_id } => job_id,
    }
}

impl EscrowEvent {
    /// The name under which the notification is published.
    pub fn name(&self) -> (r: &'static str)
        ensures
            r@ == escrow_event_name(self@),
    {
        match self {
            EscrowEvent::JobCreated { .. } => "job_created",
            EscrowEvent::JobCompleted { .. } => "job_completed",
            EscrowEvent::JobCancelled { .. } => "job_cancelled",
            EscrowEvent::DisputeInitiated { .. } => "dispute_initiated",
        }
    }

    /// The id of the job that the notification is about, by which
    /// subscribers filter.
    pub fn job_id(&self) -> (r: u64)
        ensures
            r == escrow_event_job(self@),
    {
        match self {
            EscrowEvent::JobCreated { job_id, .. } => *job_id,
            EscrowEvent::JobCompleted { job_id, .. } => *job_id,
            EscrowEvent::JobCancelled { job_id, .. } => *job_id,
            EscrowEvent::DisputeInitiated { job_id } => *job_id,
        }
    }
}

/// What the host has to do after an operation that succeeded.
#[derive(Debug, PartialEq, Eq)]
pub struct Receipt {
    /// The records that the operation changed, for the host to write anew.
    pub writes: Vec<DataKey>,
    /// The notification to publish.
    pub event: EscrowEvent,
}

/// What a `Receipt` holds, as mathematical values.
pub struct ReceiptView {
    pub writes: Seq<DataKeyView>,
    pub event: EscrowEventView,
}

impl View for Receipt {
    type V = ReceiptView;

    open spec fn view(&self) -> ReceiptView {
        ReceiptView { writes: key_views(self.writes@), event: self.event@ }
    }
}

/// The records that `create_job` changes: the job, the counter, and the
/// lists of the hirer and of the owner.
pub open spec fn creation_writes(job: JobView) -> Seq<DataKeyView> {
    seq![
        DataKeyView::Job(job.id),
        DataKeyView::JobCounter,
        DataKeyView::JobsByHirer(job.hirer),
        DataKeyView::JobsByOwner(job.agent_owner),
    ]
}

/// The record that a change to the job `id` changes: the job.
pub open spec fn job_writes(id: u64) -> Seq<DataKeyView> {
    seq![DataKeyView::Job(id)]
}

/// The list that holds the key of the job `id` and nothing else.
fn only_job(id: u64) -> (r: Vec<DataKey>)
    ensures
        key_views(r@) == job_writes(id),
{
    let mut r: Vec<DataKey> = Vec::new();
    r.push(DataKey::Job(id));
    assert(key_views(r@) =~= job_writes(id));
    r
}

/// The job that `create_job` records.
pub open spec fn new_job(
    id: u64,
    hirer: Seq<char>,
    agent_owner: Seq<char>,
    agent_id: Seq<char>,
    amount: i128,
    now: u64,
) -> JobView {
    JobView {
        id,
        hirer,
        agent_owner,
        agent_id,
        amount,
        status: JobStatus::Pending,
        created_at: now,
        completed_at: None,
        results_hash: None,
    }
}

/// `job` once it is completed at time `now` with the digest `results_hash`.
pub open spec fn completed(job: JobView, results_hash: [u8; 32], now: u64) -> JobView {
    JobView {
        status: JobStatus::Completed,
        completed_at: Some(now),
        results_hash: Some(results_hash),
        ..job
    }
}

/// `job` with another status and nothing else changed.
pub open spec fn with_status(job: JobView, status: JobStatus) -> JobView {
    JobView { status, ..job }
}

/// The transfer that takes `amount` from `hirer` into custody.
pub open spec fn deposit(token: Seq<char>, hirer: Seq<char>, amount: i128) -> TransferView {
    TransferView { token, from: AccountView::Holder(hirer), to: AccountView::Custody, amount }
}

/// The transfer that pays the amount of `job` out of custody to the agent's
/// owner.
pub open spec fn payout(token: Seq<char>, job: JobView) -> TransferView {
    TransferView { token, from: AccountView::Custody, to: AccountView::Holder(job.agent_owner), amount: job.amount }
}

/// The transfer that gives the amount of `job` back to the hirer.
pub open spec fn refund(token: Seq<char>, job: JobView) -> TransferView {
    TransferView { token, from: AccountView::Custody, to: AccountView::Holder(job.hirer), amount: job.amount }
}

/// Whether what `job` says of its completion fits its status: a pending or
/// cancelled job was never completed, a completed one has the time and the
/// digest of its completion, and a disputed one has both or neither, as it
/// was completed before the dispute or not.
pub open spec fn sound(job: JobView) -> bool {
    match job.status {
        JobStatus::Pending | JobStatus::Cancelled => job.completed_at is None && job.results_hash is None,
        JobStatus::Completed => job.completed_at is Some && job.results_hash is Some,
        JobStatus::Disputed => job.completed_at is Some <==> job.results_hash is Some,
    }
}

/// Whether each of `jobs` is sound.
pub open spec fn all_sound(jobs: Seq<JobView>) -> bool {
    forall|i: int| 0 <= i < jobs.len() ==> sound(#[trigger] jobs[i])
}

/// Whether `jobs`, the jobs of a ledger in the order of their creation, hold
/// a job with the id `id`.
pub open spec fn has_job(jobs: Seq<JobView>, id: u64) -> bool {
    1 <= id <= jobs.len()
}

/// The job with the id `id`.
pub open spec fn job_at(jobs: Seq<JobView>, id: u64) -> JobView
    recommends
        has_job(jobs, id),
{
    jobs[id - 1]
}

/// The ids of the jobs that `who` created, in the order of their creation.
pub open spec fn ids_hired_by(jobs: Seq<JobView>, who: Seq<char>) -> Seq<u64>
    decreases jobs.len(),
{
    if jobs.len() == 0 {
        Seq::empty()
    } else if jobs.last().hirer == who {
        ids_hired_by(jobs.drop_last(), who).push(jobs.last().id)
    } else {
        ids_hired_by(jobs.drop_last(), who)
    }
}

/// The ids of the jobs that pay `who` on completion, in the order of their
/// creation.
pub open spec fn ids_owed_to(jobs: Seq<JobView>, who: Seq<char>) -> Seq<u64>
    decreases jobs.len(),
{
    if jobs.len() == 0 {
        Seq::empty()
    } else if jobs.last().agent_owner == who {
        ids_owed_to(jobs.drop_last(), who).push(jobs.last().id)
    } else {
        ids_owed_to(jobs.drop_last(), who)
    }
}

/// What a list of jobs holds, job by job.
pub open spec fn job_views(jobs: Seq<Job>) -> Seq<JobView> {
    jobs.map_values(|j: Job| j@)
}

/// Whether `jobs` carry the ids 1, 2, 3 and so on, in this order.
pub open spec fn ids_in_sequence(jobs: Seq<JobView>) -> bool {
    forall|i: int| 0 <= i < jobs.len() ==> (#[trigger] jobs[i]).id == i + 1
}

/// Why the creation of a job for `hirer` is refused before any funds move,
/// if it is: the hirer did not approve the call.
pub open spec fn creation_refusal(auth: Set<Seq<char>>, hirer: Seq<char>) -> Option<MarketError> {
    if !auth.contains(hirer) {
        Some(MarketError::Unauthorized)
    } else {
        None
    }
}

/// Why an operation that depends on a transfer fails, if it does: for the
/// reason `earlier`, for which it is refused before any funds move, or, where
/// there is none, because the token service did not carry out the transfer.
pub open spec fn or_transfer_failed(earlier: Option<MarketError>, carried_out: bool) -> Option<MarketError> {
    match earlier {
        Some(e) => Some(e),
        None => if carried_out {
            None
        } else {
            Some(MarketError::TransferFailed)
        },
    }
}

/// Why the release of the funds of the job `id`, by completion or by
/// cancellation, is refused before any funds move, if it is: the job does not
/// exist, its hirer did not approve the call, or it is no longer pending,
/// asked in this order.
pub open spec fn release_refusal(jobs: Seq<JobView>, auth: Set<Seq<char>>, id: u64) -> Option<MarketError> {
    if !has_job(jobs, id) {
        Some(MarketError::NotFound)
    } else if !auth.contains(job_at(jobs, id).hirer) {
        Some(MarketError::Unauthorized)
    } else if job_at(jobs, id).status != JobStatus::Pending {
        Some(MarketError::InvalidState)
    } else {
        None
    }
}

/// Why `dispute_job` refuses the job `id` to `caller`, if it does: the caller
/// did not approve the call, the job does not exist, the caller is neither
/// its hirer nor the owner of its agent, or the job is cancelled or disputed
/// already, asked in this order.
pub open spec fn dispute_refusal(jobs: Seq<JobView>, auth: Set<Seq<char>>, caller: Seq<char>, id: u64) -> Option<
    MarketError,
> {
    if !auth.contains(caller) {
        Some(MarketError::Unauthorized)
    } else if !has_job(jobs, id) {
        Some(MarketError::NotFound)
    } else if caller != job_at(jobs, id).hirer && caller != job_at(jobs, id).agent_owner {
        Some(MarketError::Unauthorized)
    } else if job_at(jobs, id).status != JobStatus::Pending && job_at(jobs, id).status != JobStatus::Completed {
        Some(MarketError::InvalidState)
    } else {
        None
    }
}

/// The escrow ledger: every job ever created, and for each principal the
/// jobs that it created and the jobs that pay it.
#[derive(Debug)]
pub struct AgentEscrowContract {
    counter: u64,
    jobs: Vec<Job>,
    by_hirer: Index<u64>,
    by_owner: Index<u64>,
}

impl View for AgentEscrowContract {
    type V = Seq<JobView>;

    /// The jobs in the order of their creation.
    closed spec fn view(&self) -> Seq<JobView> {
        self.jobs@.map_values(|j: Job| j@)
    }
}

impl AgentEscrowContract {
    /// The counter stands at the number of jobs, the job at place `i` has the
    /// id `i + 1`, every job is sound, and the lists kept per hirer and per
    /// owner are those that the jobs give.
    pub closed spec fn wf(&self) -> bool {
        &&& self.counter == self.jobs@.len()
        &&& forall|i: int| 0 <= i < self.jobs@.len() ==> (#[trigger] self.jobs@[i]).id == i + 1
        &&& all_sound(self@)
        &&& self.by_hirer.wf()
        &&& self.by_owner.wf()
        &&& forall|a: Seq<char>| #[trigger] self.by_hirer.list(a) == ids_hired_by(self@, a)
        &&& forall|a: Seq<char>| #[trigger] self.by_owner.list(a) == ids_owed_to(self@, a)
    }

    /// The ledger without any job: the counter stands at 0.
    pub fn initialize() -> (r: AgentEscrowContract)
        ensures
            r.wf(),
            r@ == Seq::<JobView>::empty(),
    {
        let r = AgentEscrowContract { counter: 0, jobs: Vec::new(), by_hirer: Index::new(), by_owner: Index::new() };
        assert(r@ =~= Seq::<JobView>::empty());
        r
    }

    /// The ledger that holds `jobs`, for a host that keeps the jobs in a
    /// store between calls. There is one if the jobs carry the ids 1, 2, 3
    /// and so on and each of them is sound; the lists per hirer and per owner
    /// are made from the jobs.
    pub fn restore(jobs: Vec<Job>) -> (r: Option<AgentEscrowContract>)
        ensures
            match r {
                Some(ledger) => {
                    &&& ids_in_sequence(job_views(jobs@))
                    &&& all_sound(job_views(jobs@))
                    &&& ledger.wf()
                    &&& ledger@ == job_views(jobs@)
                },
                None => !ids_in_sequence(job_views(jobs@)) || !all_sound(job_views(jobs@)),
            },
    {
        let ghost views = job_views(jobs@);
        let mut by_hirer: Index<u64> = Index::new();
        let mut by_owner: Index<u64> = Index::new();
        let mut i: usize = 0;
        assert(views.subrange(0, 0) =~= Seq::<JobView>::empty());
        while i < jobs.len()
            invariant
                0 <= i <= jobs@.len(),
                views == job_views(jobs@),
                by_hirer.wf(),
                by_owner.wf(),
                forall|j: int| 0 <= j < i ==> (#[trigger] views[j]).id == j + 1,
                forall|j: int| 0 <= j < i ==> sound(#[trigger] views[j]),
                forall|a: Seq<char>| #[trigger] by_hirer.list(a) == ids_hired_by(views.subrange(0, i as int), a),
                forall|a: Seq<char>| #[trigger] by_owner.list(a) == ids_owed_to(views.subrange(0, i as int), a),
            decreases jobs@.len() - i,
        {
            let job = &jobs[i];
            assert(views[i as int] == job@);
            if i as u64 == u64::MAX || job.id != i as u64 + 1 {
                return None;
            }
            if !job.is_sound() {
                return None;
            }
            let ghost before_hirer = by_hirer;
            let ghost before_owner = by_owner;
            by_hirer.append(&job.hirer, job.id);
            by_owner.append(&job.agent_owner, job.id);
            proof {
                assert(views.subrange(0, i + 1) =~= views.subrange(0, i as int).push(views[i as int]));
                assert forall|a: Seq<char>| #[trigger]
                    by_hirer.list(a) == ids_hired_by(views.subrange(0, i + 1), a) by {
                    lemma_ids_after_push(views.subrange(0, i as int), views[i as int], a);
                    assert(before_hirer.list(a) == ids_hired_by(views.subrange(0, i as int), a));
                }
                assert forall|a: Seq<char>| #[trigger]
                    by_owner.list(a) == ids_owed_to(views.subrange(0, i + 1), a) by {
                    lemma_ids_after_push(views.subrange(0, i as int), views[i as int], a);
                    assert(before_owner.list(a) == ids_owed_to(views.subrange(0, i as int), a));
                }
            }
            i += 1;
        }
        assert(views.subrange(0, jobs@.len() as int) =~= views);
        let counter: u64 = jobs.len() as u64;
        let ledger = AgentEscrowContract { counter, jobs, by_hirer, by_owner };
        proof {
            assert(ledger@ == views);
            assert forall|j: int| 0 <= j < ledger.jobs@.len() implies (#[trigger] ledger.jobs@[j]).id == j + 1 by {
                assert(views[j] == ledger.jobs@[j]@);
            }
        }
        Some(ledger)
    }

    /// The transfer on which the creation of a job for `hirer` depends: the
    /// hirer, who has to have approved the call, pays `amount` of `token` into
    /// custody. The ledger has no part in it, and nothing is recorded yet.
    pub fn deposit_for(auth: &Authorization, hirer: &Address, amount: i128, token: Address) -> (r: Result<
        Transfer,
        MarketError,
    >)
        ensures
            match creation_refusal(auth@, hirer@) {
                Some(e) => r == Err::<Transfer, MarketError>(e),
                None => r is Ok && r->Ok_0@ == deposit(token@, hirer@, amount),
            },
    {
        if !auth.permits(hirer) {
            return Err(MarketError::Unauthorized);
        }
        Ok(Transfer { token, from: Account::Holder(hirer.clone()), to: Account::Custody, amount })
    }

    /// Creates a job for `hirer`, who has to have approved the call, once the
    /// host has tried the deposit and says in `carried_out` whether the token
    /// service carried it out. If it did, the ledger holds the new job as
    /// pending under the next id. If it did not, the call fails and the
    /// ledger stays as it was: no id is used up.
    pub fn create_job(
        &mut self,
        auth: &Authorization,
        hirer: Address,
        agent_owner: Address,
        agent_id: String,
        amount: i128,
        now: u64,
        carried_out: bool,
    ) -> (r: Result<(u64, Receipt), MarketError>)
        requires
            old(self).wf(),
        ensures
            final(self).wf(),
            match or_transfer_failed(creation_refusal(auth@, hirer@), carried_out) {
                Some(e) => r == Err::<(u64, Receipt), MarketError>(e) && *final(self) == *old(self),
                None => {
                    &&& r is Ok
                    &&& r->Ok_0.0 == old(self)@.len() + 1
                    &&& final(self)@ == old(self)@.push(
                        new_job(r->Ok_0.0, hirer@, agent_owner@, agent_id@, amount, now),
                    )
                    &&& r->Ok_0.1@ == (ReceiptView {
                        writes: creation_writes(new_job(r->Ok_0.0, hirer@, agent_owner@, agent_id@, amount, now)),
                        event: EscrowEventView::JobCreated {
                            job_id: r->Ok_0.0,
                            hirer: hirer@,
                            agent_owner: agent_owner@,
                            agent_id: agent_id@,
                            amount,
                        },
                    })
                },
            },
    {
        if !auth.permits(&hirer) {
            return Err(MarketError::Unauthorized);
        }
        if !carried_out {
            return Err(MarketError::TransferFailed);
        }
        proof {
            self.lemma_view();
        }
        let place: usize = self.jobs.len();
        self.jobs.push(
            Job {
                id: 0,
                hirer: hirer.clone(),
                agent_owner: agent_owner.clone(),
                agent_id: agent_id.clone(),
                amount,
                status: JobStatus::Pending,
                created_at: now,
                completed_at: None,
                results_hash: None,
            },
        );
        // The id is the number of jobs now that this one is among them: the
        // list's length shows that it fits.
        let job_id: u64 = self.jobs.len() as u64;
        self.jobs[place].id = job_id;
        self.counter = job_id;
        let ghost added = self.jobs@[place as int]@;
        self.by_hirer.append(&hirer, job_id);
        self.by_owner.append(&agent_owner, job_id);
        proof {
            self.lemma_view();
            assert(self@ =~= old(self)@.push(added));
            assert(added == new_job(job_id, hirer@, agent_owner@, agent_id@, amount, now));
            assert forall|i: int| 0 <= i < self.jobs@.len() implies (#[trigger] self.jobs@[i]).id == i + 1 by {
                if i < place {
                    assert(self.jobs@[i] == old(self).jobs@[i]);
                }
            }
            assert forall|a: Seq<char>| #[trigger] self.by_hirer.list(a) == ids_hired_by(self@, a) by {
                lemma_ids_after_push(old(self)@, added, a);
            }
            assert forall|a: Seq<char>| #[trigger] self.by_owner.list(a) == ids_owed_to(self@, a) by {
                lemma_ids_after_push(old(self)@, added, a);
            }
        }
        let mut writes: Vec<DataKey> = Vec::new();
        writes.push(DataKey::Job(job_id));
        writes.push(DataKey::JobCounter);
        writes.push(DataKey::JobsByHirer(hirer.clone()));
        writes.push(DataKey::JobsByOwner(agent_owner.clone()));
        assert(key_views(writes@) =~= creation_writes(added));
        let event = EscrowEvent::JobCreated { job_id, hirer, agent_owner, agent_id, amount };
        Ok((job_id, Receipt { writes, event }))
    }

    /// The transfer on which the completion of the job `job_id` depends: the
    /// job's amount is paid out of custody to the agent's owner. The job's
    /// hirer has to have approved the call and the job has to be pending.
    /// Nothing is recorded yet.
    pub fn payout_for(&self, auth: &Authorization, job_id: u64, token: Address) -> (r: Result<Transfer, MarketError>)
        requires
            self.wf(),
        ensures
            match release_refusal(self@, auth@, job_id) {
                Some(e) => r == Err::<Transfer, MarketError>(e),
                None => r is Ok && r->Ok_0@ == payout(token@, job_at(self@, job_id)),
            },
    {
        let at: usize = match self.releasable(auth, job_id) {
            Ok(at) => at,
            Err(e) => {
                return Err(e);
            },
        };
        Ok(
            Transfer {
                token,
                from: Account::Custody,
                to: Account::Holder(self.jobs[at].agent_owner.clone()),
                amount: self.jobs[at].amount,
            },
        )
    }

    /// Completes the job `job_id`, which its hirer has to have approved and
    /// which has to be pending, once the host has tried the payout and says
    /// in `carried_out` whether the token service carried it out. If it did,
    /// the job is completed at `now` with the digest `results_hash`. If it
    /// did not, the call fails and the ledger stays as it was.
    pub fn complete_job(
        &mut self,
        auth: &Authorization,
        job_id: u64,
        results_hash: [u8; 32],
        now: u64,
        carried_out: bool,
    ) -> (r: Result<Receipt, MarketError>)
        requires
            old(self).wf(),
        ensures
            final(self).wf(),
            match or_transfer_failed(release_refusal(old(self)@, auth@, job_id), carried_out) {
                Some(e) => r == Err::<Receipt, MarketError>(e) && *final(self) == *old(self),
                None => {
                    let job = job_at(old(self)@, job_id);
                    &&& final(self)@ == old(self)@.update(job_id - 1, completed(job, results_hash, now))
                    &&& r is Ok
                    &&& r->Ok_0@ == (ReceiptView {
                        writes: job_writes(job_id),
                        event: EscrowEventView::JobCompleted {
                            job_id,
                            agent_owner: job.agent_owner,
                            amount: job.amount,
                            results_hash,
                        },
                    })
                },
            },
    {
        let at: usize = match self.releasable(auth, job_id) {
            Ok(at) => at,
            Err(e) => {
                return Err(e);
            },
        };
        if !carried_out {
            return Err(MarketError::TransferFailed);
        }
        self.jobs[at].status = JobStatus::Completed;
        self.jobs[at].completed_at = Some(now);
        self.jobs[at].results_hash = Some(results_hash);
        proof {
            self.lemma_parties_kept(*old(self), at as int);
        }
        let agent_owner = self.jobs[at].agent_owner.clone();
        let amount = self.jobs[at].amount;
        let event = EscrowEvent::JobCompleted { job_id, agent_owner, amount, results_hash };
        Ok(Receipt { writes: only_job(job_id), event })
    }

    /// The transfer on which the cancellation of the job `job_id` depends:
    /// the job's amount goes out of custody back to the hirer. The job's hirer
    /// has to have approved the call and the job has to be pending. Nothing
    /// is recorded yet.
    pub fn refund_for(&self, auth: &Authorization, job_id: u64, token: Address) -> (r: Result<Transfer, MarketError>)
        requires
            self.wf(),
        ensures
            match release_refusal(self@, auth@, job_id) {
                Some(e) => r == Err::<Transfer, MarketError>(e),
                None => r is Ok && r->Ok_0@ == refund(token@, job_at(self@, job_id)),
            },
    {
        let at: usize = match self.releasable(auth, job_id) {
            Ok(at) => at,
            Err(e) => {
                return Err(e);
            },
        };
        Ok(
            Transfer {
                token,
                from: Account::Custody,
                to: Account::Holder(self.jobs[at].hirer.clone()),
                amount: self.jobs[at].amount,
            },
        )
    }

    /// Cancels the job `job_id`, which its hirer has to have approved and
    /// which has to be pending, once the host has tried the refund and says
    /// in `carried_out` whether the token service carried it out. If it did,
    /// the job is cancelled. If it did not, the call fails and the ledger
    /// stays as it was.
    pub fn cancel_job(&mut self, auth: &Authorization, job_id: u64, carried_out: bool) -> (r: Result<
        Receipt,
        MarketError,
    >)
        requires
            old(self).wf(),
        ensures
            final(self).wf(),
            match or_transfer_failed(release_refusal(old(self)@, auth@, job_id), carried_out) {
                Some(e) => r == Err::<Receipt, MarketError>(e) && *final(self) == *old(self),
                None => {
                    let job = job_at(old(self)@, job_id);
                    &&& final(self)@ == old(self)@.update(job_id - 1, with_status(job, JobStatus::Cancelled))
                    &&& r is Ok
                    &&& r->Ok_0@ == (ReceiptView {
                        writes: job_writes(job_id),
                        event: EscrowEventView::JobCancelled { job_id, hirer: job.hirer, amount: job.amount },
                    })
                },
            },
    {
        let at: usize = match self.releasable(auth, job_id) {
            Ok(at) => at,
            Err(e) => {
                return Err(e);
            },
        };
        if !carried_out {
            return Err(MarketError::TransferFailed);
        }
        self.jobs[at].status = JobStatus::Cancelled;
        proof {
            self.lemma_parties_kept(*old(self), at as int);
        }
        let hirer = self.jobs[at].hirer.clone();
        let amount = self.jobs[at].amount;
        let event = EscrowEvent::JobCancelled { job_id, hirer, amount };
        Ok(Receipt { writes: only_job(job_id), event })
    }

    /// Records that `caller`, who has to have approved the call and to be the
    /// hirer of the job `job_id` or the owner of its agent, disputes the job.
    /// The job has to be pending or completed. No funds move: what is in
    /// custody for the job stays there.
    pub fn dispute_job(&mut self, auth: &Authorization, caller: &Address, job_id: u64) -> (r: Result<
        Receipt,
        MarketError,
    >)
        requires
            old(self).wf(),
        ensures
            final(self).wf(),
            match dispute_refusal(old(self)@, auth@, caller@, job_id) {
                Some(e) => r == Err::<Receipt, MarketError>(e) && *final(self) == *old(self),
                None => {
                    let job = job_at(old(self)@, job_id);
                    &&& final(self)@ == old(self)@.update(job_id - 1, with_status(job, JobStatus::Disputed))
                    &&& r is Ok
                    &&& r->Ok_0@ == (ReceiptView {
                        writes: job_writes(job_id),
                        event: EscrowEventView::DisputeInitiated { job_id },
                    })
                },
            },
    {
        if !auth.permits(caller) {
            return Err(MarketError::Unauthorized);
        }
        let at: usize = match self.place(job_id) {
            Some(at) => at,
            None => {
                return Err(MarketError::NotFound);
            },
        };
        if !caller.same(&self.jobs[at].hirer) && !caller.same(&self.jobs[at].agent_owner) {
            return Err(MarketError::Unauthorized);
        }
        let status = self.jobs[at].status;
        if status != JobStatus::Pending && status != JobStatus::Completed {
            return Err(MarketError::InvalidState);
        }
        self.jobs[at].status = JobStatus::Disputed;
        proof {
            self.lemma_parties_kept(*old(self), at as int);
        }
        Ok(Receipt { writes: only_job(job_id), event: EscrowEvent::DisputeInitiated { job_id } })
    }

    /// The job with the id `job_id`.
    pub fn get_job(&self, job_id: u64) -> (r: Result<Job, MarketError>)
        requires
            self.wf(),
        ensures
            match r {
                Ok(job) => has_job(self@, job_id) && job@ == job_at(self@, job_id),
                Err(e) => !has_job(self@, job_id) && e == MarketError::NotFound,
            },
    {
        let at: usize = match self.place(job_id) {
            Some(at) => at,
            None => {
                return Err(MarketError::NotFound);
            },
        };
        Ok(self.jobs[at].clone())
    }

    /// The ids of the jobs that `hirer` created, in the order of their
    /// creation; none if it created none.
    pub fn get_jobs_by_hirer(&self, hirer: &Address) -> (r: Vec<u64>)
        requires
            self.wf(),
        ensures
            r@ == ids_hired_by(self@, hirer@),
    {
        copy_ids(self.by_hirer.get(hirer))
    }

    /// The ids of the jobs that pay `owner` on completion, in the order of
    /// their creation; none if there is none.
    pub fn get_jobs_by_owner(&self, owner: &Address) -> (r: Vec<u64>)
        requires
            self.wf(),
        ensures
            r@ == ids_owed_to(self@, owner@),
    {
        copy_ids(self.by_owner.get(owner))
    }

    /// The number of jobs created so far, which is the id of the latest.
    pub fn job_count(&self) -> (r: u64)
        requires
            self.wf(),
        ensures
            r == self@.len(),
    {
        self.counter
    }

    /// In a ledger that is well formed the jobs carry the ids 1, 2, 3 and so
    /// on, in the order of their creation, and each of them is sound.
    pub proof fn lemma_jobs_in_order(&self)
        requires
            self.wf(),
        ensures
            self@.len() <= u64::MAX,
            ids_in_sequence(self@),
            all_sound(self@),
            forall|id: u64| has_job(self@, id) ==> (#[trigger] job_at(self@, id)).id == id,
    {
        assert forall|i: int| 0 <= i < self@.len() implies (#[trigger] self@[i]).id == i + 1 by {
            assert(self@[i] == self.jobs@[i]@);
        }
    }

    /// Where the job `job_id` stands among the jobs, if its funds can be
    /// released: it exists, its hirer approved the call, and it is pending.
    fn releasable(&self, auth: &Authorization, job_id: u64) -> (r: Result<usize, MarketError>)
        requires
            self.wf(),
        ensures
            match release_refusal(self@, auth@, job_id) {
                Some(e) => r == Err::<usize, MarketError>(e),
                None => r is Ok && r->Ok_0 == job_id - 1 && r->Ok_0 < self.jobs@.len() && self@[job_id - 1]
                    == self.jobs@[job_id - 1]@,
            },
    {
        let at: usize = match self.place(job_id) {
            Some(at) => at,
            None => {
                return Err(MarketError::NotFound);
            },
        };
        if !auth.permits(&self.jobs[at].hirer) {
            return Err(MarketError::Unauthorized);
        }
        if self.jobs[at].status != JobStatus::Pending {
            return Err(MarketError::InvalidState);
        }
        Ok(at)
    }

    /// Where the job with the id `job_id` stands among the jobs, if there is
    /// such a job.
    fn place(&self, job_id: u64) -> (r: Option<usize>)
        requires
            self.wf(),
        ensures
            match r {
                Some(at) => has_job(self@, job_id) && at == job_id - 1 && at < self.jobs@.len() && self@[at as int]
                    == self.jobs@[at as int]@,
                None => !has_job(self@, job_id),
            },
    {
        proof {
            self.lemma_view();
        }
        let n: usize = self.jobs.len();
        if job_id < 1 || job_id > self.counter {
            None
        } else {
            Some((job_id - 1) as usize)
        }
    }

    /// The view holds the view of each job, in the same order.
    proof fn lemma_view(&self)
        ensures
            self@.len() == self.jobs@.len(),
            forall|i: int| 0 <= i < self.jobs@.len() ==> #[trigger] self@[i] == self.jobs@[i]@,
    {
    }

    /// A ledger that differs from a well-formed one in a single job, which is
    /// sound, and there neither in the id nor in the parties, is well formed.
    proof fn lemma_parties_kept(&self, before: AgentEscrowContract, at: int)
        requires
            before.wf(),
            0 <= at < before.jobs@.len(),
            self.counter == before.counter,
            self.by_hirer == before.by_hirer,
            self.by_owner == before.by_owner,
            self.jobs@.len() == before.jobs@.len(),
            forall|i: int| 0 <= i < self.jobs@.len() && i != at ==> #[trigger] self.jobs@[i] == before.jobs@[i],
            self.jobs@[at].id == before.jobs@[at].id,
            self.jobs@[at].hirer == before.jobs@[at].hirer,
            self.jobs@[at].agent_owner == before.jobs@[at].agent_owner,
            sound(self.jobs@[at]@),
        ensures
            self.wf(),
            self@ == before@.update(at, self.jobs@[at]@),
    {
        assert(self@ =~= before@.update(at, self.jobs@[at]@));
        assert forall|a: Seq<char>| #[trigger] self.by_hirer.list(a) == ids_hired_by(self@, a) by {
            lemma_ids_follow_parties(before@, self@, a);
        }
        assert forall|a: Seq<char>| #[trigger] self.by_owner.list(a) == ids_owed_to(self@, a) by {
            lemma_ids_follow_parties(before@, self@, a);
        }
    }
}

/// A copy of `ids`.
fn copy_ids(ids: &Vec<u64>) -> (r: Vec<u64>)
    ensures
        r@ == ids@,
{
    let mut r: Vec<u64> = Vec::new();
    let mut i: usize = 0;
    while i < ids.len()
        invariant
            0 <= i <= ids@.len(),
            r@ == ids@.subrange(0, i as int),
        decreases ids@.len() - i,
    {
        r.push(ids[i]);
        assert(ids@.subrange(0, i + 1) =~= ids@.subrange(0, i as int).push(ids@[i as int]));
        i += 1;
    }
    assert(ids@.subrange(0, ids@.len() as int) =~= ids@);
    r
}

/// Two lists of jobs with the same ids, hirers and owners, place by place,
/// give every principal the same ids.
pub proof fn lemma_ids_follow_parties(x: Seq<JobView>, y: Seq<JobView>, who: Seq<char>)
    requires
        x.len() == y.len(),
        forall|i: int|
            0 <= i < x.len() ==> (#[trigger] x[i]).id == y[i].id && x[i].hirer == y[i].hirer && x[i].agent_owner
                == y[i].agent_owner,
    ensures
        ids_hired_by(x, who) == ids_hired_by(y, who),
        ids_owed_to(x, who) == ids_owed_to(y, who),
    decreases x.len(),
{
    if x.len() > 0 {
        let xs = x.drop_last();
        let ys = y.drop_last();
        assert forall|i: int| 0 <= i < xs.len() implies (#[trigger] xs[i]).id == ys[i].id && xs[i].hirer
            == ys[i].hirer && xs[i].agent_owner == ys[i].agent_owner by {
            assert(xs[i] == x[i]);
            assert(ys[i] == y[i]);
        }
        lemma_ids_follow_parties(xs, ys, who);
        assert(x.last() == x[x.len() - 1]);
    }
}

/// A job added at the end adds its id at the end of its hirer's list and of
/// its owner's list, and changes no other list.
pub proof fn lemma_ids_after_push(jobs: Seq<JobView>, job: JobView, who: Seq<char>)
    ensures
        ids_hired_by(jobs.push(job), who) == if job.hirer == who {
            ids_hired_by(jobs, who).push(job.id)
        } else {
            ids_hired_by(jobs, who)
        },
        ids_owed_to(jobs.push(job), who) == if job.agent_owner == who {
            ids_owed_to(jobs, who).push(job.id)
        } else {
            ids_owed_to(jobs, who)
        },
{
    assert(jobs.push(job).drop_last() =~= jobs);
    assert(jobs.push(job).last() == job);
}

/// A job that exists and whose hirer approved the call is released, by
/// completion or by cancellation, exactly if it is pending and the token
/// service carried out the transfer. A job that is not pending is refused for
/// its state, whatever became of a transfer; a pending one fails with the
/// transfer.
pub proof fn lemma_release_needs_pending(jobs: Seq<JobView>, auth: Set<Seq<char>>, id: u64, carried_out: bool)
    requires
        has_job(jobs, id),
        auth.contains(job_at(jobs, id).hirer),
    ensures
        release_refusal(jobs, auth, id) is None <==> job_at(jobs, id).status == JobStatus::Pending,
        or_transfer_failed(release_refusal(jobs, auth, id), carried_out) is None <==> job_at(jobs, id).status
            == JobStatus::Pending && carried_out,
        job_at(jobs, id).status != JobStatus::Pending ==> or_transfer_failed(
            release_refusal(jobs, auth, id),
            carried_out,
        ) == Some(MarketError::InvalidState),
        job_at(jobs, id).status == JobStatus::Pending && !carried_out ==> or_transfer_failed(
            release_refusal(jobs, auth, id),
            carried_out,
        ) == Some(MarketError::TransferFailed),
{
}

/// A job is created exactly if its hirer approved the call and the token
/// service carried out the deposit; a hirer who approved fails with the
/// deposit.
pub proof fn lemma_creation_needs_deposit(auth: Set<Seq<char>>, hirer: Seq<char>, carried_out: bool)
    ensures
        or_transfer_failed(creation_refusal(auth, hirer), carried_out) is None <==> auth.contains(hirer)
            && carried_out,
        auth.contains(hirer) && !carried_out ==> or_transfer_failed(creation_refusal(auth, hirer), carried_out)
            == Some(MarketError::TransferFailed),
        !auth.contains(hirer) ==> or_transfer_failed(creation_refusal(auth, hirer), carried_out) == Some(
            MarketError::Unauthorized,
        ),
{
}

/// A job that exists can be disputed by a caller who approved the call
/// exactly if the caller is its hirer or the owner of its agent and the job
/// is pending or completed. A party is refused for the job's state if the
/// job is cancelled or disputed already.
pub proof fn lemma_dispute_needs_party_and_state(
    jobs: Seq<JobView>,
    auth: Set<Seq<char>>,
    caller: Seq<char>,
    id: u64,
)
    requires
        has_job(jobs, id),
        auth.contains(caller),
    ensures
        dispute_refusal(jobs, auth, caller, id) is None <==> {
            let job = job_at(jobs, id);
            &&& caller == job.hirer || caller == job.agent_owner
            &&& job.status == JobStatus::Pending || job.status == JobStatus::Completed
        },
        ({
            let job = job_at(jobs, id);
            (caller == job.hirer || caller == job.agent_owner) && (job.status == JobStatus::Cancelled || job.status
                == JobStatus::Disputed) ==> dispute_refusal(jobs, auth, caller, id) == Some(
                MarketError::InvalidState,
            )
        }),
{
}

/// Jobs added one after the other to a ledger get ids that follow one
/// another, whoever hires: the ids rise by one from job to job, and the
/// first job of a ledger has the id 1.
pub proof fn lemma_ids_rise(jobs: Seq<JobView>, first: JobView, second: JobView)
    requires
        first.id == jobs.len() + 1,
        second.id == jobs.push(first).len() + 1,
    ensures
        second.id == first.id + 1,
        jobs.len() == 0 ==> first.id == 1,
        job_at(jobs.push(first).push(second), first.id) == first,
        job_at(jobs.push(first).push(second), second.id) == second,
{
}

} // verus!
