use agent_marketplace::address::{Address, Authorization};
use agent_marketplace::error::MarketError;
use agent_marketplace::escrow::{
    Account, AgentEscrowContract, DataKey, EscrowEvent, Job, JobStatus, Receipt, Transfer,
};

/// A token service for the tests: balances by account, and transfers that
/// fail when the paying account holds too little.
struct Bank {
    balances: Vec<(String, i128)>,
}

fn account_name(account: &Account) -> String {
    match account {
        Account::Custody => String::from("<custody>"),
        Account::Holder(who) => who.key().clone(),
    }
}

impl Bank {
    fn new() -> Bank {
        Bank { balances: Vec::new() }
    }

    fn balance_of(&self, name: &str) -> i128 {
        self.balances.iter().find(|(n, _)| n == name).map(|(_, b)| *b).unwrap_or(0)
    }

    fn balance(&self, who: &Address) -> i128 {
        self.balance_of(who.key())
    }

    fn custody(&self) -> i128 {
        self.balance_of("<custody>")
    }

    fn credit(&mut self, name: &str, amount: i128) {
        match self.balances.iter_mut().find(|(n, _)| n == name) {
            Some(entry) => entry.1 += amount,
            None => self.balances.push((name.to_string(), amount)),
        }
    }

    fn mint(&mut self, who: &Address, amount: i128) {
        self.credit(who.key(), amount);
    }

    fn transfer(&mut self, transfer: &Transfer) -> bool {
        let from = account_name(&transfer.from);
        let to = account_name(&transfer.to);
        if transfer.amount < 0 || self.balance_of(&from) < transfer.amount {
            return false;
        }
        self.credit(&from, -transfer.amount);
        self.credit(&to, transfer.amount);
        true
    }
}

fn address(key: &str) -> Address {
    Address::new(key.to_string())
}

fn signed(who: &Address) -> Authorization {
    Authorization::of(who.clone())
}

/// A host for the tests: it asks the ledger for the transfer, has the bank
/// try it, and hands the outcome to the operation.
struct Setup {
    ledger: AgentEscrowContract,
    bank: Bank,
    hirer: Address,
    agent_owner: Address,
    token: Address,
}

fn setup(minted: i128) -> Setup {
    let hirer = address("hirer");
    let mut bank = Bank::new();
    bank.mint(&hirer, minted);
    Setup {
        ledger: AgentEscrowContract::initialize(),
        bank,
        hirer,
        agent_owner: address("agent-owner"),
        token: address("token"),
    }
}

impl Setup {
    fn create_job(
        &mut self,
        auth: &Authorization,
        hirer: &Address,
        agent_owner: &Address,
        agent_id: &str,
        amount: i128,
        now: u64,
    ) -> Result<(u64, Receipt), MarketError> {
        let deposit = AgentEscrowContract::deposit_for(auth, hirer, amount, self.token.clone())?;
        let carried_out = self.bank.transfer(&deposit);
        self.ledger.create_job(auth, hirer.clone(), agent_owner.clone(), agent_id.to_string(), amount, now, carried_out)
    }

    fn complete_job(
        &mut self,
        auth: &Authorization,
        job_id: u64,
        results_hash: [u8; 32],
        now: u64,
    ) -> Result<Receipt, MarketError> {
        let payout = self.ledger.payout_for(auth, job_id, self.token.clone())?;
        let carried_out = self.bank.transfer(&payout);
        self.ledger.complete_job(auth, job_id, results_hash, now, carried_out)
    }

    fn cancel_job(&mut self, auth: &Authorization, job_id: u64) -> Result<Receipt, MarketError> {
        let refund = self.ledger.refund_for(auth, job_id, self.token.clone())?;
        let carried_out = self.bank.transfer(&refund);
        self.ledger.cancel_job(auth, job_id, carried_out)
    }

    fn create(&mut self, agent_id: &str, amount: i128) -> u64 {
        let hirer = self.hirer.clone();
        let agent_owner = self.agent_owner.clone();
        self.create_job(&signed(&hirer), &hirer, &agent_owner, agent_id, amount, 1_700_000_000).unwrap().0
    }

    fn complete(&mut self, job_id: u64, results_hash: [u8; 32], now: u64) -> Receipt {
        let hirer = self.hirer.clone();
        self.complete_job(&signed(&hirer), job_id, results_hash, now).unwrap()
    }

    fn cancel(&mut self, job_id: u64) -> Receipt {
        let hirer = self.hirer.clone();
        self.cancel_job(&signed(&hirer), job_id).unwrap()
    }
}

#[test]
fn test_create_job() {
    let mut s = setup(1000);

    let job_id = s.create("test-agent", 100);

    assert_eq!(job_id, 1);

    let job = s.ledger.get_job(job_id).unwrap();
    assert_eq!(job.id, 1);
    assert_eq!(job.hirer, s.hirer);
    assert_eq!(job.agent_owner, s.agent_owner);
    assert_eq!(job.amount, 100);
    assert_eq!(job.status, JobStatus::Pending);

    assert_eq!(s.bank.custody(), 100);
    assert_eq!(s.bank.balance(&s.hirer), 900);
}

#[test]
fn test_complete_job() {
    let mut s = setup(1000);
    let job_id = s.create("test-agent", 100);

    let results_hash = [1u8; 32];

    s.complete(job_id, results_hash, 1_700_000_500);

    let job = s.ledger.get_job(job_id).unwrap();
    assert_eq!(job.status, JobStatus::Completed);
    assert!(job.completed_at.is_some());
    assert_eq!(job.results_hash, Some(results_hash));

    assert_eq!(s.bank.custody(), 0);
    assert_eq!(s.bank.balance(&s.agent_owner), 100);
}

#[test]
fn test_cancel_job() {
    let mut s = setup(1000);
    let job_id = s.create("test-agent", 100);

    s.cancel(job_id);

    let job = s.ledger.get_job(job_id).unwrap();
    assert_eq!(job.status, JobStatus::Cancelled);

    assert_eq!(s.bank.custody(), 0);
    assert_eq!(s.bank.balance(&s.hirer), 1000);
}

#[test]
fn test_dispute_job() {
    let mut s = setup(1000);
    let job_id = s.create("test-agent", 100);

    s.ledger.dispute_job(&signed(&s.hirer), &s.hirer, job_id).unwrap();

    let job = s.ledger.get_job(job_id).unwrap();
    assert_eq!(job.status, JobStatus::Disputed);

    assert_eq!(s.bank.custody(), 100);
}

#[test]
fn test_get_jobs_by_hirer() {
    let mut s = setup(3000);

    let job_id1 = s.create("agent-1", 100);
    let job_id2 = s.create("agent-2", 200);

    let jobs = s.ledger.get_jobs_by_hirer(&s.hirer);
    assert_eq!(jobs.len(), 2);
    assert_eq!(jobs[0], job_id1);
    assert_eq!(jobs[1], job_id2);
}

#[test]
fn new_ledger_has_no_jobs() {
    let ledger = AgentEscrowContract::initialize();
    assert_eq!(ledger.job_count(), 0);
    assert_eq!(ledger.get_job(0), Err(MarketError::NotFound));
    assert_eq!(ledger.get_job(1), Err(MarketError::NotFound));
    assert_eq!(ledger.get_jobs_by_hirer(&address("nobody")), Vec::<u64>::new());
    assert_eq!(ledger.get_jobs_by_owner(&address("nobody")), Vec::<u64>::new());
}

#[test]
fn create_job_records_every_field() {
    let mut s = setup(1000);
    let job_id = s.create("test-agent", 100);
    let job = s.ledger.get_job(job_id).unwrap();
    assert_eq!(
        job,
        Job {
            id: 1,
            hirer: s.hirer.clone(),
            agent_owner: s.agent_owner.clone(),
            agent_id: "test-agent".to_string(),
            amount: 100,
            status: JobStatus::Pending,
            created_at: 1_700_000_000,
            completed_at: None,
            results_hash: None,
        }
    );
    assert_eq!(s.ledger.job_count(), 1);
}

#[test]
fn the_deposit_goes_from_the_hirer_into_custody() {
    let hirer = address("hirer");
    assert_eq!(
        AgentEscrowContract::deposit_for(&signed(&hirer), &hirer, 250, address("token")),
        Ok(Transfer { token: address("token"), from: Account::Holder(hirer.clone()), to: Account::Custody, amount: 250 })
    );
    assert_eq!(
        AgentEscrowContract::deposit_for(&signed(&address("owner")), &hirer, 250, address("token")),
        Err(MarketError::Unauthorized)
    );
    assert_eq!(
        AgentEscrowContract::deposit_for(&Authorization::none(), &hirer, 250, address("token")),
        Err(MarketError::Unauthorized)
    );
}

#[test]
fn create_job_announces_the_job_and_names_the_records() {
    let mut ledger = AgentEscrowContract::initialize();
    let hirer = address("hirer");
    let owner = address("owner");
    let (job_id, receipt) =
        ledger.create_job(&signed(&hirer), hirer.clone(), owner.clone(), "a".to_string(), 250, 7, true).unwrap();
    assert_eq!(job_id, 1);
    assert_eq!(
        receipt.writes,
        vec![
            DataKey::Job(1),
            DataKey::JobCounter,
            DataKey::JobsByHirer(hirer.clone()),
            DataKey::JobsByOwner(owner.clone()),
        ]
    );
    assert_eq!(
        receipt.event,
        EscrowEvent::JobCreated { job_id: 1, hirer, agent_owner: owner, agent_id: "a".to_string(), amount: 250 }
    );
}

#[test]
fn create_job_needs_the_hirer_to_approve() {
    let mut ledger = AgentEscrowContract::initialize();
    let hirer = address("hirer");
    let owner = address("owner");
    for carried_out in [true, false] {
        let refused =
            ledger.create_job(&signed(&owner), hirer.clone(), owner.clone(), "a".to_string(), 100, 7, carried_out);
        assert_eq!(refused, Err(MarketError::Unauthorized));
        let refused = ledger.create_job(
            &Authorization::none(),
            hirer.clone(),
            owner.clone(),
            "a".to_string(),
            100,
            7,
            carried_out,
        );
        assert_eq!(refused, Err(MarketError::Unauthorized));
    }
    assert_eq!(ledger.job_count(), 0);
    assert_eq!(ledger.get_jobs_by_hirer(&hirer), Vec::<u64>::new());
    assert_eq!(ledger.get_jobs_by_owner(&owner), Vec::<u64>::new());
}

#[test]
fn a_refused_deposit_leaves_the_ledger_as_it_was() {
    let mut s = setup(150);
    let first = s.create("agent-1", 100);
    assert_eq!(first, 1);

    let hirer = s.hirer.clone();
    let agent_owner = s.agent_owner.clone();
    let refused = s.create_job(&signed(&hirer), &hirer, &agent_owner, "agent-2", 100, 5);
    assert_eq!(refused, Err(MarketError::TransferFailed));

    assert_eq!(s.ledger.job_count(), 1);
    assert_eq!(s.ledger.get_job(2), Err(MarketError::NotFound));
    assert_eq!(s.ledger.get_jobs_by_hirer(&hirer), vec![1]);
    assert_eq!(s.ledger.get_jobs_by_owner(&agent_owner), vec![1]);
    assert_eq!(s.ledger.get_job(1).unwrap().status, JobStatus::Pending);
    assert_eq!(s.bank.balance(&hirer), 50);
    assert_eq!(s.bank.custody(), 100);

    s.bank.mint(&hirer, 50);
    let next = s.create("agent-3", 100);
    assert_eq!(next, 2);
    assert_eq!(s.ledger.get_job(2).unwrap().agent_id, "agent-3");
    assert_eq!(s.ledger.get_jobs_by_hirer(&hirer), vec![1, 2]);
    assert_eq!(s.ledger.get_jobs_by_owner(&agent_owner), vec![1, 2]);
    assert_eq!(s.bank.custody(), 200);
}

#[test]
fn a_refused_deposit_on_a_new_ledger_uses_up_no_id() {
    let mut s = setup(0);
    let hirer = s.hirer.clone();
    let agent_owner = s.agent_owner.clone();
    assert_eq!(
        s.create_job(&signed(&hirer), &hirer, &agent_owner, "a", 100, 5),
        Err(MarketError::TransferFailed)
    );
    assert_eq!(s.ledger.job_count(), 0);
    assert_eq!(s.ledger.get_job(1), Err(MarketError::NotFound));
    assert_eq!(s.ledger.get_jobs_by_hirer(&hirer), Vec::<u64>::new());
    assert_eq!(s.ledger.get_jobs_by_owner(&agent_owner), Vec::<u64>::new());
    assert_eq!(s.ledger.payout_for(&signed(&hirer), 1, s.token.clone()), Err(MarketError::NotFound));
    s.bank.mint(&hirer, 100);
    assert_eq!(s.create("a", 100), 1);
}

#[test]
fn a_refused_payout_leaves_the_job_pending() {
    let mut s = setup(1000);
    let job_id = s.create("test-agent", 100);
    let before = s.ledger.get_job(job_id).unwrap();
    let refused = s.ledger.complete_job(&signed(&s.hirer), job_id, [1u8; 32], 9, false);
    assert_eq!(refused, Err(MarketError::TransferFailed));
    assert_eq!(s.ledger.get_job(job_id).unwrap(), before);
    assert_eq!(s.ledger.job_count(), 1);
    assert_eq!(s.bank.custody(), 100);
    s.complete(job_id, [1u8; 32], 10);
    assert_eq!(s.ledger.get_job(job_id).unwrap().completed_at, Some(10));
    assert_eq!(s.bank.custody(), 0);
}

#[test]
fn a_refused_refund_leaves_the_job_pending() {
    let mut s = setup(1000);
    let job_id = s.create("test-agent", 100);
    let before = s.ledger.get_job(job_id).unwrap();
    let refused = s.ledger.cancel_job(&signed(&s.hirer), job_id, false);
    assert_eq!(refused, Err(MarketError::TransferFailed));
    assert_eq!(s.ledger.get_job(job_id).unwrap(), before);
    assert_eq!(s.bank.balance(&s.hirer), 900);
    s.cancel(job_id);
    assert_eq!(s.ledger.get_job(job_id).unwrap().status, JobStatus::Cancelled);
    assert_eq!(s.bank.balance(&s.hirer), 1000);
}

#[test]
fn a_refusal_is_reported_before_a_failed_transfer() {
    let mut s = setup(1000);
    let job_id = s.create("test-agent", 100);
    let owner = s.agent_owner.clone();
    assert_eq!(s.ledger.complete_job(&signed(&s.hirer), 9, [0u8; 32], 1, false), Err(MarketError::NotFound));
    assert_eq!(s.ledger.complete_job(&signed(&owner), job_id, [0u8; 32], 1, false), Err(MarketError::Unauthorized));
    assert_eq!(s.ledger.cancel_job(&signed(&s.hirer), 9, false), Err(MarketError::NotFound));
    assert_eq!(s.ledger.cancel_job(&signed(&owner), job_id, false), Err(MarketError::Unauthorized));
    s.cancel(job_id);
    assert_eq!(s.ledger.complete_job(&signed(&s.hirer), job_id, [0u8; 32], 1, false), Err(MarketError::InvalidState));
    assert_eq!(s.ledger.cancel_job(&signed(&s.hirer), job_id, false), Err(MarketError::InvalidState));
}

#[test]
fn ids_rise_by_one_whoever_hires() {
    let mut ledger = AgentEscrowContract::initialize();
    let alice = address("alice");
    let bob = address("bob");
    let owner = address("owner");
    let mut ids = Vec::new();
    for (n, hirer) in [&alice, &bob, &alice, &bob, &bob].iter().enumerate() {
        let (id, _) = ledger
            .create_job(&signed(hirer), (*hirer).clone(), owner.clone(), "a".to_string(), 10, n as u64, true)
            .unwrap();
        ids.push(id);
    }
    assert_eq!(ids, vec![1, 2, 3, 4, 5]);
    assert_eq!(ledger.get_jobs_by_hirer(&alice), vec![1, 3]);
    assert_eq!(ledger.get_jobs_by_hirer(&bob), vec![2, 4, 5]);
    assert_eq!(ledger.get_jobs_by_owner(&owner), vec![1, 2, 3, 4, 5]);
    assert_eq!(ledger.get_jobs_by_owner(&alice), Vec::<u64>::new());
    for id in 1..=5u64 {
        assert_eq!(ledger.get_job(id).unwrap().id, id);
    }
    assert_eq!(ledger.get_job(6), Err(MarketError::NotFound));
}

#[test]
fn refused_ids_are_not_used_up() {
    let mut ledger = AgentEscrowContract::initialize();
    let hirer = address("hirer");
    let owner = address("owner");
    let refused =
        ledger.create_job(&Authorization::none(), hirer.clone(), owner.clone(), "a".to_string(), 1, 0, true);
    assert!(refused.is_err());
    let refused = ledger.create_job(&signed(&hirer), hirer.clone(), owner.clone(), "a".to_string(), 1, 0, false);
    assert!(refused.is_err());
    let (id, _) = ledger.create_job(&signed(&hirer), hirer.clone(), owner.clone(), "a".to_string(), 1, 0, true).unwrap();
    assert_eq!(id, 1);
}

#[test]
fn the_payout_goes_out_of_custody_to_the_owner() {
    let mut s = setup(1000);
    let job_id = s.create("test-agent", 100);
    assert_eq!(
        s.ledger.payout_for(&signed(&s.hirer), job_id, address("other-token")),
        Ok(Transfer {
            token: address("other-token"),
            from: Account::Custody,
            to: Account::Holder(s.agent_owner.clone()),
            amount: 100,
        })
    );
    assert_eq!(s.ledger.payout_for(&signed(&s.hirer), 2, s.token.clone()), Err(MarketError::NotFound));
    assert_eq!(s.ledger.payout_for(&signed(&s.agent_owner), job_id, s.token.clone()), Err(MarketError::Unauthorized));
    assert_eq!(s.ledger.get_job(job_id).unwrap().status, JobStatus::Pending);
    s.complete(job_id, [0u8; 32], 1);
    assert_eq!(s.ledger.payout_for(&signed(&s.hirer), job_id, s.token.clone()), Err(MarketError::InvalidState));
    assert_eq!(s.ledger.refund_for(&signed(&s.hirer), job_id, s.token.clone()), Err(MarketError::InvalidState));
}

#[test]
fn the_refund_goes_out_of_custody_to_the_hirer() {
    let mut s = setup(1000);
    let job_id = s.create("test-agent", 100);
    assert_eq!(
        s.ledger.refund_for(&signed(&s.hirer), job_id, s.token.clone()),
        Ok(Transfer {
            token: s.token.clone(),
            from: Account::Custody,
            to: Account::Holder(s.hirer.clone()),
            amount: 100,
        })
    );
    assert_eq!(s.ledger.refund_for(&signed(&s.hirer), 5, s.token.clone()), Err(MarketError::NotFound));
    assert_eq!(s.ledger.refund_for(&signed(&s.agent_owner), job_id, s.token.clone()), Err(MarketError::Unauthorized));
    s.cancel(job_id);
    assert_eq!(s.ledger.refund_for(&signed(&s.hirer), job_id, s.token.clone()), Err(MarketError::InvalidState));
}

#[test]
fn complete_job_records_the_completion_and_announces_it() {
    let mut s = setup(1000);
    let job_id = s.create("test-agent", 100);
    let hash = [9u8; 32];
    let receipt = s.complete(job_id, hash, 42);
    assert_eq!(receipt.writes, vec![DataKey::Job(job_id)]);
    assert_eq!(
        receipt.event,
        EscrowEvent::JobCompleted { job_id, agent_owner: s.agent_owner.clone(), amount: 100, results_hash: hash }
    );
    let job = s.ledger.get_job(job_id).unwrap();
    assert_eq!(job.completed_at, Some(42));
    assert_eq!(job.results_hash, Some(hash));
    assert_eq!(job.created_at, 1_700_000_000);
    assert_eq!(job.amount, 100);
}

#[test]
fn complete_job_refusals() {
    let mut s = setup(1000);
    let job_id = s.create("test-agent", 100);
    let hash = [1u8; 32];
    let owner = s.agent_owner.clone();
    let hirer = s.hirer.clone();

    assert_eq!(s.complete_job(&signed(&hirer), 2, hash, 1), Err(MarketError::NotFound));
    assert_eq!(s.complete_job(&signed(&hirer), 0, hash, 1), Err(MarketError::NotFound));
    assert_eq!(s.complete_job(&signed(&owner), job_id, hash, 1), Err(MarketError::Unauthorized));
    assert_eq!(s.ledger.complete_job(&signed(&owner), job_id, hash, 1, true), Err(MarketError::Unauthorized));
    assert_eq!(s.ledger.get_job(job_id).unwrap().status, JobStatus::Pending);

    s.complete(job_id, hash, 1);
    assert_eq!(s.complete_job(&signed(&hirer), job_id, hash, 2), Err(MarketError::InvalidState));
    assert_eq!(s.ledger.complete_job(&signed(&hirer), job_id, hash, 2, true), Err(MarketError::InvalidState));
    assert_eq!(s.cancel_job(&signed(&hirer), job_id), Err(MarketError::InvalidState));
    assert_eq!(s.ledger.get_job(job_id).unwrap().completed_at, Some(1));
    assert_eq!(s.bank.custody(), 0);
    assert_eq!(s.bank.balance(&owner), 100);
}

#[test]
fn a_missing_job_is_reported_before_a_missing_approval() {
    let mut s = setup(1000);
    assert_eq!(s.complete_job(&Authorization::none(), 1, [0u8; 32], 1), Err(MarketError::NotFound));
    assert_eq!(s.cancel_job(&Authorization::none(), 1), Err(MarketError::NotFound));
    assert_eq!(s.ledger.complete_job(&Authorization::none(), 1, [0u8; 32], 1, true), Err(MarketError::NotFound));
    assert_eq!(s.ledger.cancel_job(&Authorization::none(), 1, true), Err(MarketError::NotFound));
}

#[test]
fn a_missing_approval_is_reported_before_the_state() {
    let mut s = setup(1000);
    let job_id = s.create("test-agent", 100);
    s.cancel(job_id);
    assert_eq!(s.cancel_job(&Authorization::none(), job_id), Err(MarketError::Unauthorized));
    assert_eq!(s.complete_job(&Authorization::none(), job_id, [0u8; 32], 1), Err(MarketError::Unauthorized));
    assert_eq!(s.ledger.cancel_job(&Authorization::none(), job_id, true), Err(MarketError::Unauthorized));
}

#[test]
fn cancel_job_records_the_cancellation_and_announces_it() {
    let mut s = setup(1000);
    let job_id = s.create("test-agent", 100);
    let receipt = s.cancel(job_id);
    assert_eq!(receipt.writes, vec![DataKey::Job(job_id)]);
    assert_eq!(receipt.event, EscrowEvent::JobCancelled { job_id, hirer: s.hirer.clone(), amount: 100 });
    let job = s.ledger.get_job(job_id).unwrap();
    assert_eq!(job.completed_at, None);
    assert_eq!(job.results_hash, None);
}

#[test]
fn cancel_job_refusals() {
    let mut s = setup(1000);
    let job_id = s.create("test-agent", 100);
    let owner = s.agent_owner.clone();
    let hirer = s.hirer.clone();
    assert_eq!(s.cancel_job(&signed(&hirer), 5), Err(MarketError::NotFound));
    assert_eq!(s.cancel_job(&signed(&owner), job_id), Err(MarketError::Unauthorized));
    assert_eq!(s.ledger.cancel_job(&signed(&owner), job_id, true), Err(MarketError::Unauthorized));
    s.cancel(job_id);
    assert_eq!(s.cancel_job(&signed(&hirer), job_id), Err(MarketError::InvalidState));
    assert_eq!(s.ledger.cancel_job(&signed(&hirer), job_id, true), Err(MarketError::InvalidState));
    assert_eq!(s.complete_job(&signed(&hirer), job_id, [0u8; 32], 1), Err(MarketError::InvalidState));
    assert_eq!(s.bank.balance(&hirer), 1000);
}

#[test]
fn dispute_moves_no_funds() {
    let mut s = setup(1000);
    let job_id = s.create("test-agent", 100);
    let receipt = s.ledger.dispute_job(&signed(&s.agent_owner), &s.agent_owner, job_id).unwrap();
    assert_eq!(receipt.writes, vec![DataKey::Job(job_id)]);
    assert_eq!(receipt.event, EscrowEvent::DisputeInitiated { job_id });
    assert_eq!(s.ledger.get_job(job_id).unwrap().status, JobStatus::Disputed);
    assert_eq!(s.bank.custody(), 100);
    assert_eq!(s.bank.balance(&s.hirer), 900);
    assert_eq!(s.bank.balance(&s.agent_owner), 0);
}

#[test]
fn a_completed_job_can_be_disputed() {
    let mut s = setup(1000);
    let job_id = s.create("test-agent", 100);
    let hash = [3u8; 32];
    s.complete(job_id, hash, 5);
    s.ledger.dispute_job(&signed(&s.hirer), &s.hirer, job_id).unwrap();
    let job = s.ledger.get_job(job_id).unwrap();
    assert_eq!(job.status, JobStatus::Disputed);
    assert_eq!(job.completed_at, Some(5));
    assert_eq!(job.results_hash, Some(hash));
    assert_eq!(s.bank.custody(), 0);
    assert_eq!(s.bank.balance(&s.agent_owner), 100);
}

#[test]
fn dispute_job_refusals() {
    let mut s = setup(1000);
    let job_id = s.create("test-agent", 100);
    let stranger = address("stranger");
    let hirer = s.hirer.clone();

    assert_eq!(s.ledger.dispute_job(&Authorization::none(), &hirer, job_id), Err(MarketError::Unauthorized));
    assert_eq!(s.ledger.dispute_job(&Authorization::none(), &hirer, 9), Err(MarketError::Unauthorized));
    assert_eq!(s.ledger.dispute_job(&signed(&hirer), &hirer, 9), Err(MarketError::NotFound));
    assert_eq!(s.ledger.dispute_job(&signed(&stranger), &stranger, job_id), Err(MarketError::Unauthorized));
    assert_eq!(s.ledger.dispute_job(&signed(&stranger), &stranger, 9), Err(MarketError::NotFound));
    assert_eq!(s.ledger.get_job(job_id).unwrap().status, JobStatus::Pending);

    s.ledger.dispute_job(&signed(&hirer), &hirer, job_id).unwrap();
    assert_eq!(s.ledger.dispute_job(&signed(&hirer), &hirer, job_id), Err(MarketError::InvalidState));
    assert_eq!(s.cancel_job(&signed(&hirer), job_id), Err(MarketError::InvalidState));
    assert_eq!(s.complete_job(&signed(&hirer), job_id, [0u8; 32], 1), Err(MarketError::InvalidState));
    assert_eq!(s.bank.custody(), 100);
}

#[test]
fn a_cancelled_job_cannot_be_disputed() {
    let mut s = setup(1000);
    let job_id = s.create("test-agent", 100);
    s.cancel(job_id);
    assert_eq!(s.ledger.dispute_job(&signed(&s.hirer), &s.hirer, job_id), Err(MarketError::InvalidState));
    assert_eq!(
        s.ledger.dispute_job(&signed(&s.agent_owner), &s.agent_owner, job_id),
        Err(MarketError::InvalidState)
    );
    assert_eq!(s.ledger.get_job(job_id).unwrap().status, JobStatus::Cancelled);
}

#[test]
fn cancelled_and_disputed_jobs_stay_listed() {
    let mut s = setup(3000);
    let first = s.create("agent-1", 100);
    let second = s.create("agent-2", 200);
    let third = s.create("agent-3", 300);
    s.cancel(first);
    s.ledger.dispute_job(&signed(&s.hirer), &s.hirer, second).unwrap();
    s.complete(third, [0u8; 32], 1);
    assert_eq!(s.ledger.get_jobs_by_hirer(&s.hirer), vec![1, 2, 3]);
    assert_eq!(s.ledger.get_jobs_by_owner(&s.agent_owner), vec![1, 2, 3]);
    assert_eq!(s.ledger.get_job(second).unwrap().amount, 200);
}

#[test]
fn a_job_changes_no_other_job() {
    let mut s = setup(3000);
    let first = s.create("agent-1", 100);
    let second = s.create("agent-2", 200);
    s.complete(second, [7u8; 32], 9);
    let job = s.ledger.get_job(first).unwrap();
    assert_eq!(job.status, JobStatus::Pending);
    assert_eq!(job.completed_at, None);
    assert_eq!(job.agent_id, "agent-1");
    assert_eq!(job.amount, 100);
}

#[test]
fn authorization_knows_who_approved() {
    let alice = address("alice");
    let bob = address("bob");
    let nobody = Authorization::none();
    assert!(!nobody.permits(&alice));
    let mut auth = Authorization::of(alice.clone());
    assert!(auth.permits(&alice));
    assert!(auth.permits(&address("alice")));
    assert!(!auth.permits(&bob));
    auth.add(bob.clone());
    assert!(auth.permits(&alice));
    assert!(auth.permits(&bob));
    assert!(!auth.permits(&address("")));
}

#[test]
fn addresses_are_compared_by_key() {
    let a = address("GABC");
    assert!(a.same(&address("GABC")));
    assert!(!a.same(&address("GABD")));
    assert!(!a.same(&address("GAB")));
    assert_eq!(a.key(), "GABC");
    assert!(a.clone().same(&a));
}

fn stored_job(id: u64, hirer: &str, owner: &str, status: JobStatus) -> Job {
    Job {
        id,
        hirer: address(hirer),
        agent_owner: address(owner),
        agent_id: "a".to_string(),
        amount: 10 * id as i128,
        status,
        created_at: id,
        completed_at: None,
        results_hash: None,
    }
}

#[test]
fn restore_takes_jobs_in_sequence_and_lists_them() {
    let jobs = vec![
        stored_job(1, "alice", "owner", JobStatus::Pending),
        stored_job(2, "bob", "owner", JobStatus::Cancelled),
        stored_job(3, "alice", "other", JobStatus::Disputed),
    ];
    let mut ledger = AgentEscrowContract::restore(jobs).unwrap();
    assert_eq!(ledger.job_count(), 3);
    assert_eq!(ledger.get_job(2).unwrap(), stored_job(2, "bob", "owner", JobStatus::Cancelled));
    assert_eq!(ledger.get_jobs_by_hirer(&address("alice")), vec![1, 3]);
    assert_eq!(ledger.get_jobs_by_hirer(&address("bob")), vec![2]);
    assert_eq!(ledger.get_jobs_by_owner(&address("owner")), vec![1, 2]);
    assert_eq!(ledger.get_jobs_by_owner(&address("other")), vec![3]);

    let alice = address("alice");
    let (id, _) =
        ledger.create_job(&signed(&alice), alice.clone(), address("owner"), "a".to_string(), 5, 0, true).unwrap();
    assert_eq!(id, 4);
    assert_eq!(ledger.get_jobs_by_hirer(&alice), vec![1, 3, 4]);
    assert_eq!(ledger.cancel_job(&signed(&address("bob")), 2, true), Err(MarketError::InvalidState));
}

#[test]
fn restore_of_no_jobs_is_the_new_ledger() {
    let ledger = AgentEscrowContract::restore(Vec::new()).unwrap();
    assert_eq!(ledger.job_count(), 0);
    assert_eq!(ledger.get_job(1), Err(MarketError::NotFound));
}

#[test]
fn restore_refuses_jobs_out_of_sequence() {
    assert!(AgentEscrowContract::restore(vec![stored_job(2, "a", "o", JobStatus::Pending)]).is_none());
    assert!(AgentEscrowContract::restore(vec![stored_job(0, "a", "o", JobStatus::Pending)]).is_none());
    assert!(AgentEscrowContract::restore(vec![
        stored_job(1, "a", "o", JobStatus::Pending),
        stored_job(3, "a", "o", JobStatus::Pending),
    ])
    .is_none());
    assert!(AgentEscrowContract::restore(vec![
        stored_job(1, "a", "o", JobStatus::Pending),
        stored_job(1, "a", "o", JobStatus::Pending),
    ])
    .is_none());
}

#[test]
fn escrow_events_have_their_names_and_job() {
    let created = EscrowEvent::JobCreated {
        job_id: 4,
        hirer: address("h"),
        agent_owner: address("o"),
        agent_id: "a".to_string(),
        amount: 1,
    };
    let completed = EscrowEvent::JobCompleted { job_id: 5, agent_owner: address("o"), amount: 1, results_hash: [0u8; 32] };
    let cancelled = EscrowEvent::JobCancelled { job_id: 6, hirer: address("h"), amount: 1 };
    let disputed = EscrowEvent::DisputeInitiated { job_id: 7 };
    assert_eq!(created.name(), "job_created");
    assert_eq!(completed.name(), "job_completed");
    assert_eq!(cancelled.name(), "job_cancelled");
    assert_eq!(disputed.name(), "dispute_initiated");
    assert_eq!(created.job_id(), 4);
    assert_eq!(completed.job_id(), 5);
    assert_eq!(cancelled.job_id(), 6);
    assert_eq!(disputed.job_id(), 7);
}

#[test]
fn restore_refuses_a_job_that_is_not_sound() {
    let mut completed_without_time = stored_job(1, "a", "o", JobStatus::Completed);
    assert!(!completed_without_time.is_sound());
    completed_without_time.results_hash = Some([0u8; 32]);
    assert!(!completed_without_time.is_sound());
    assert!(AgentEscrowContract::restore(vec![completed_without_time]).is_none());

    let mut pending_with_time = stored_job(1, "a", "o", JobStatus::Pending);
    pending_with_time.completed_at = Some(3);
    assert!(!pending_with_time.is_sound());
    assert!(AgentEscrowContract::restore(vec![pending_with_time]).is_none());

    let mut cancelled_with_hash = stored_job(1, "a", "o", JobStatus::Cancelled);
    cancelled_with_hash.results_hash = Some([0u8; 32]);
    assert!(!cancelled_with_hash.is_sound());

    let mut disputed_half = stored_job(1, "a", "o", JobStatus::Disputed);
    assert!(disputed_half.is_sound());
    disputed_half.completed_at = Some(3);
    assert!(!disputed_half.is_sound());
    assert!(AgentEscrowContract::restore(vec![disputed_half]).is_none());

    let mut completed = stored_job(1, "a", "o", JobStatus::Completed);
    completed.completed_at = Some(3);
    completed.results_hash = Some([1u8; 32]);
    assert!(completed.is_sound());
    let mut disputed_after = stored_job(2, "a", "o", JobStatus::Disputed);
    disputed_after.completed_at = Some(3);
    disputed_after.results_hash = Some([1u8; 32]);
    assert!(disputed_after.is_sound());
    assert!(AgentEscrowContract::restore(vec![completed, disputed_after]).is_some());
}

#[test]
fn every_job_of_the_ledger_is_sound() {
    let mut s = setup(3000);
    let first = s.create("agent-1", 100);
    let second = s.create("agent-2", 200);
    let third = s.create("agent-3", 300);
    let fourth = s.create("agent-4", 400);
    s.complete(first, [1u8; 32], 5);
    s.ledger.dispute_job(&signed(&s.hirer), &s.hirer, first).unwrap();
    s.cancel(second);
    s.ledger.dispute_job(&signed(&s.agent_owner), &s.agent_owner, third).unwrap();
    for id in [first, second, third, fourth] {
        assert!(s.ledger.get_job(id).unwrap().is_sound());
    }
}

#[test]
fn custody_holds_the_amounts_of_the_jobs_not_yet_released() {
    let mut s = setup(3000);
    let first = s.create("agent-1", 100);
    let second = s.create("agent-2", 200);
    let third = s.create("agent-3", 300);
    let fourth = s.create("agent-4", 400);
    assert_eq!(s.bank.custody(), 1000);
    assert_eq!(s.bank.balance(&s.hirer), 2000);

    s.complete(first, [1u8; 32], 5);
    assert_eq!(s.bank.custody(), 900);
    assert_eq!(s.bank.balance(&s.agent_owner), 100);

    s.ledger.dispute_job(&signed(&s.hirer), &s.hirer, first).unwrap();
    assert_eq!(s.bank.custody(), 900);

    s.cancel(second);
    assert_eq!(s.bank.custody(), 700);
    assert_eq!(s.bank.balance(&s.hirer), 2200);

    s.ledger.dispute_job(&signed(&s.agent_owner), &s.agent_owner, third).unwrap();
    assert_eq!(s.bank.custody(), 700);
    assert_eq!(s.ledger.get_job(third).unwrap().amount + s.ledger.get_job(fourth).unwrap().amount, 700);
    assert_eq!(s.bank.balance(&s.hirer), 2200);
    assert_eq!(s.bank.balance(&s.agent_owner), 100);

    let hirer = s.hirer.clone();
    assert_eq!(s.cancel_job(&signed(&hirer), third), Err(MarketError::InvalidState));
    assert_eq!(s.bank.custody(), 700);
}
