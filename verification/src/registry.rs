//! The agent registry: the agents on offer, and who owns which.

use vstd::prelude::*;
use crate::address::{Address, Authorization};
use crate::error::MarketError;
use crate::index::Index;
use crate::lists::{holds, lemma_push_fresh, lemma_without, names, no_repeats, without};

verus! {

/// An agent on offer.
#[derive(Debug, PartialEq, Eq)]
pub struct AgentInfo {
    /// The agent's id, which no other agent of the registry has.
    pub agent_id: String,
    /// Who may change the record, and whom jobs for this agent pay.
    pub owner: Address,
    /// The asking price. Nothing holds the amount of a job to it.
    pub price: i128,
    /// Where the agent's description is to be found.
    pub metadata_uri: String,
    /// Cleared when the agent is withdrawn; the record itself stays.
    pub is_active: bool,
    /// When the agent was registered.
    pub registered_at: u64,
}

/// What an `AgentInfo` holds, as mathematical values.
pub struct AgentInfoView {
    pub agent_id: Seq<char>,
    pub owner: Seq<char>,
    pub price: i128,
    pub metadata_uri: Seq<char>,
    pub is_active: bool,
    pub registered_at: u64,
}

impl View for AgentInfo {
    type V = AgentInfoView;

    open spec fn view(&self) -> AgentInfoView {
        AgentInfoView {
            agent_id: self.agent_id@,
            owner: self.owner@,
            price: self.price,
            metadata_uri: self.metadata_uri@,
            is_active: self.is_active,
            registered_at: self.registered_at,
        }
    }
}

impl Clone for AgentInfo {
    fn clone(&self) -> (r: AgentInfo)
        ensures
            r@ == self@,
    {
        AgentInfo {
            agent_id: self.agent_id.clone(),
            owner: self.owner.clone(),
            price: self.price,
            metadata_uri: self.metadata_uri.clone(),
            is_active: self.is_active,
            registered_at: self.registered_at,
        }
    }
}

/// A notification of what happened to an agent, for the host to publish
/// under the agent's id.
#[derive(Debug, PartialEq, Eq)]
pub enum RegistryEvent {
    AgentRegistered { agent_id: String, owner: Address, price: i128, metadata_uri: String },
    PriceUpdated { agent_id: String, old_price: i128, new_price: i128 },
    OwnershipTransferred { agent_id: String, old_owner: Address, new_owner: Address },
    AgentDeactivated { agent_id: String },
    AgentActivated { agent_id: String },
}

/// What a `RegistryEvent` holds, as mathematical values.
pub enum RegistryEventView {
    AgentRegistered { agent_id: Seq<char>, owner: Seq<char>, price: i128, metadata_uri: Seq<char> },
    PriceUpdated { agent_id: Seq<char>, old_price: i128, new_price: i128 },
    OwnershipTransferred { agent_id: Seq<char>, old_owner: Seq<char>, new_owner: Seq<char> },
    AgentDeactivated { agent_id: Seq<char> },
    AgentActivated { agent_id: Seq<char> },
}

impl View for RegistryEvent {
    type V = RegistryEventView;

    open spec fn view(&self) -> RegistryEventView {
        match self {
            RegistryEvent::AgentRegistered { agent_id, owner, price, metadata_uri } => {
                RegistryEventView::AgentRegistered {
                    agent_id: agent_id@,
                    owner: owner@,
                    price: *price,
                    metadata_uri: metadata_uri@,
                }
            },
            RegistryEvent::PriceUpdated { agent_id, old_price, new_price } => RegistryEventView::PriceUpdated {
                agent_id: agent_id@,
                old_price: *old_price,
                new_price: *new_price,
            },
            RegistryEvent::OwnershipTransferred { agent_id, old_owner, new_owner } => {
                RegistryEventView::OwnershipTransferred {
                    agent_id: agent_id@,
                    old_owner: old_owner@,
                    new_owner: new_owner@,
                }
            },
            RegistryEvent::AgentDeactivated { agent_id } => RegistryEventView::AgentDeactivated {
                agent_id: agent_id@,
            },
            RegistryEvent::AgentActivated { agent_id } => RegistryEventView::AgentActivated { agent_id: agent_id@ },
        }
    }
}

/// The name under which a notification is published.
pub open spec fn registry_event_name(event: RegistryEventView) -> Seq<char> {
    match event {
        RegistryEventView::AgentRegistered { .. } => "agent_registered"@,
        RegistryEventView::PriceUpdated { .. } => "price_updated"@,
        RegistryEventView::OwnershipTransferred { .. } => "ownership_transferred"@,
        RegistryEventView::AgentDeactivated { .. } => "agent_deactivated"@,
        RegistryEventView::AgentActivated { .. } => "agent_activated"@,
    }
}

/// The id of the agent that a notification is about.
pub open spec fn registry_event_agent(event: RegistryEventView) -> Seq<char> {
    match event {
        RegistryEventView::AgentRegistered { agent_id, .. } => agent_id,
        RegistryEventView::PriceUpdated { agent_id, .. } => agent_id,
        RegistryEventView::OwnershipTransferred { agent_id, .. } => agent_id,
        RegistryEventView::AgentDeactivated { agent_id } => agent_id,
        RegistryEventView::AgentActivated { agent_id } => agent_id,
    }
}

impl RegistryEvent {
    /// The name under which the notification is published.
    pub fn name(&self) -> (r: &'static str)
        ensures
            r@ == registry_event_name(self@),
    {
        match self {
            RegistryEvent::AgentRegistered { .. } => "agent_registered",
            RegistryEvent::PriceUpdated { .. } => "price_updated",
            RegistryEvent::OwnershipTransferred { .. } => "ownership_transferred",
            RegistryEvent::AgentDeactivated { .. } => "agent_deactivated",
            RegistryEvent::AgentActivated { .. } => "agent_activated",
        }
    }

    /// The id of the agent that the notification is about, by which
    /// subscribers filter.
    pub fn agent_id(&self) -> (r: &String)
        ensures
            r@ == registry_event_agent(self@),
    {
        match self {
            RegistryEvent::AgentRegistered { agent_id, .. } => agent_id,
            RegistryEvent::PriceUpdated { agent_id, .. } => agent_id,
            RegistryEvent::OwnershipTransferred { agent_id, .. } => agent_id,
            RegistryEvent::AgentDeactivated { agent_id } => agent_id,
            RegistryEvent::AgentActivated { agent_id } => agent_id,
        }
    }
}

/// The records in which a host keeps the registry between calls, each under
/// its key.
#[derive(Debug, PartialEq, Eq)]
pub enum DataKey {
    /// The agent with the given id.
    Agent(String),
    /// The ids of the agents that the given principal owns.
    AgentsByOwner(Address),
    /// The ids of all agents.
    AllAgents,
}

/// What a `DataKey` is, as a mathematical value.
pub enum DataKeyView {
    Agent(Seq<char>),
    AgentsByOwner(Seq<char>),
    AllAgents,
}

impl View for DataKey {
    type V = DataKeyView;

    open spec fn view(&self) -> DataKeyView {
        match self {
            DataKey::Agent(id) => DataKeyView::Agent(id@),
            DataKey::AgentsByOwner(who) => DataKeyView::AgentsByOwner(who@),
            DataKey::AllAgents => DataKeyView::AllAgents,
        }
    }
}

/// What a list of keys holds, key by key.
pub open spec fn key_views(keys: Seq<DataKey>) -> Seq<DataKeyView> {
    keys.map_values(|k: DataKey| k@)
}

/// What the host has to do after an operation that succeeded.
#[derive(Debug, PartialEq, Eq)]
pub struct Receipt {
    /// The records that the operation changed, for the host to write anew.
    pub writes: Vec<DataKey>,
    /// The notification to publish.
    pub event: RegistryEvent,
}

/// What a `Receipt` holds, as mathematical values.
pub struct ReceiptView {
    pub writes: Seq<DataKeyView>,
    pub event: RegistryEventView,
}

impl View for Receipt {
    type V = ReceiptView;

    open spec fn view(&self) -> ReceiptView {
        ReceiptView { writes: key_views(self.writes@), event: self.event@ }
    }
}

/// The records that `register_agent` changes: the agent, the list of its
/// owner, and the list of all agents.
pub open spec fn registration_writes(agent: AgentInfoView) -> Seq<DataKeyView> {
    seq![DataKeyView::Agent(agent.agent_id), DataKeyView::AgentsByOwner(agent.owner), DataKeyView::AllAgents]
}

/// The records that `transfer_ownership` changes: the agent, the list of
/// the owner so far, and the list of the new owner.
pub open spec fn transfer_writes(agent_id: Seq<char>, old_owner: Seq<char>, new_owner: Seq<char>) -> Seq<
    DataKeyView,
> {
    seq![
        DataKeyView::Agent(agent_id),
        DataKeyView::AgentsByOwner(old_owner),
        DataKeyView::AgentsByOwner(new_owner),
    ]
}

/// The record that any other change to the agent `agent_id` changes: the
/// agent.
pub open spec fn agent_writes(agent_id: Seq<char>) -> Seq<DataKeyView> {
    seq![DataKeyView::Agent(agent_id)]
}

/// The list that holds the key of the agent `agent_id` and nothing else.
fn only_agent(agent_id: &String) -> (r: Vec<DataKey>)
    ensures
        key_views(r@) == agent_writes(agent_id@),
{
    let mut r: Vec<DataKey> = Vec::new();
    r.push(DataKey::Agent(agent_id.clone()));
    assert(key_views(r@) =~= agent_writes(agent_id@));
    r
}

/// The agent that `register_agent` records.
pub open spec fn new_agent(
    agent_id: Seq<char>,
    owner: Seq<char>,
    price: i128,
    metadata_uri: Seq<char>,
    now: u64,
) -> AgentInfoView {
    AgentInfoView { agent_id, owner, price, metadata_uri, is_active: true, registered_at: now }
}

/// Whether `i` is a place in `agents` at which the agent `agent_id` stands.
pub open spec fn is_place_of(agents: Seq<AgentInfoView>, agent_id: Seq<char>, i: int) -> bool {
    0 <= i < agents.len() && agents[i].agent_id == agent_id
}

/// Whether `agents` hold an agent with the id `agent_id`.
pub open spec fn has_agent(agents: Seq<AgentInfoView>, agent_id: Seq<char>) -> bool {
    exists|i: int| is_place_of(agents, agent_id, i)
}

/// The place in `agents` at which the agent `agent_id` stands.
pub open spec fn place_of(agents: Seq<AgentInfoView>, agent_id: Seq<char>) -> int
    recommends
        has_agent(agents, agent_id),
{
    choose|i: int| is_place_of(agents, agent_id, i)
}

/// The agent with the id `agent_id`.
pub open spec fn agent_at(agents: Seq<AgentInfoView>, agent_id: Seq<char>) -> AgentInfoView
    recommends
        has_agent(agents, agent_id),
{
    agents[place_of(agents, agent_id)]
}

/// The ids of `agents`, in the same order.
pub open spec fn all_ids(agents: Seq<AgentInfoView>) -> Seq<Seq<char>> {
    agents.map_values(|a: AgentInfoView| a.agent_id)
}

/// What a list of agents holds, agent by agent.
pub open spec fn agent_views(agents: Seq<AgentInfo>) -> Seq<AgentInfoView> {
    agents.map_values(|a: AgentInfo| a@)
}

/// Whether no two of `agents` have the same id.
pub open spec fn ids_distinct(agents: Seq<AgentInfoView>) -> bool {
    forall|i: int, j: int|
        0 <= i < j < agents.len() ==> (#[trigger] agents[i]).agent_id != (#[trigger] agents[j]).agent_id
}

/// Whether `list` holds, once each, ids of agents whose record names `owner`
/// as owner.
pub open spec fn list_names_agents(agents: Seq<AgentInfoView>, owner: Seq<char>, list: Seq<Seq<char>>) -> bool {
    &&& list.no_duplicates()
    &&& forall|k: int|
        0 <= k < list.len() ==> has_agent(agents, #[trigger] list[k]) && agent_at(agents, list[k]).owner == owner
}

/// Whether the lists of `by_owner` fit `agents`: no two agents have the same
/// id, and the list of each principal holds, once each, the ids of the agents
/// whose record names it as owner, and no other.
pub open spec fn lists_fit(agents: Seq<AgentInfoView>, by_owner: Index<String>) -> bool {
    &&& ids_distinct(agents)
    &&& forall|a: Seq<char>| list_names_agents(agents, a, #[trigger] names(by_owner.list(a)))
    &&& forall|i: int|
        0 <= i < agents.len() ==> names(by_owner.list((#[trigger] agents[i]).owner)).contains(agents[i].agent_id)
}

/// Why `register_agent` refuses, if it does: the owner did not approve the
/// call, or the id is taken, asked in this order.
pub open spec fn register_refusal(
    agents: Seq<AgentInfoView>,
    auth: Set<Seq<char>>,
    agent_id: Seq<char>,
    owner: Seq<char>,
) -> Option<MarketError> {
    if !auth.contains(owner) {
        Some(MarketError::Unauthorized)
    } else if has_agent(agents, agent_id) {
        Some(MarketError::AlreadyExists)
    } else {
        None
    }
}

/// Why a change to the agent `agent_id` is refused, if it is: there is no
/// such agent, or its owner did not approve the call, asked in this order.
pub open spec fn change_refusal(agents: Seq<AgentInfoView>, auth: Set<Seq<char>>, agent_id: Seq<char>) -> Option<
    MarketError,
> {
    if !has_agent(agents, agent_id) {
        Some(MarketError::NotFound)
    } else if !auth.contains(agent_at(agents, agent_id).owner) {
        Some(MarketError::Unauthorized)
    } else {
        None
    }
}

/// The registry: every agent ever registered, in the order of registration,
/// and for each principal the ids of the agents that it owns.
#[derive(Debug)]
pub struct AgentRegistryContract {
    agents: Vec<AgentInfo>,
    by_owner: Index<String>,
}

impl View for AgentRegistryContract {
    type V = Seq<AgentInfoView>;

    /// The agents in the order of their registration.
    closed spec fn view(&self) -> Seq<AgentInfoView> {
        self.agents@.map_values(|a: AgentInfo| a@)
    }
}

impl AgentRegistryContract {
    /// The ids of the agents listed for `owner`, in the order in which it
    /// came to own them.
    pub closed spec fn owned_by(&self, owner: Seq<char>) -> Seq<Seq<char>> {
        names(self.by_owner.list(owner))
    }

    /// No two agents have the same id, and the list of each principal holds,
    /// once each, the ids of the agents whose record names it as owner.
    pub closed spec fn wf(&self) -> bool {
        &&& self.by_owner.wf()
        &&& ids_distinct(self@)
        &&& forall|a: Seq<char>| (#[trigger] self.owned_by(a)).no_duplicates()
        &&& forall|a: Seq<char>, x: Seq<char>|
            (#[trigger] self.owned_by(a).contains(x)) <==> has_agent(self@, x) && agent_at(self@, x).owner == a
    }

    /// The registry without any agent.
    pub fn new() -> (r: AgentRegistryContract)
        ensures
            r.wf(),
            r@ == Seq::<AgentInfoView>::empty(),
            forall|a: Seq<char>| r.owned_by(a) == Seq::<Seq<char>>::empty(),
    {
        let r = AgentRegistryContract { agents: Vec::new(), by_owner: Index::new() };
        proof {
            assert(r@ =~= Seq::<AgentInfoView>::empty());
            assert forall|a: Seq<char>| #[trigger] r.owned_by(a) == Seq::<Seq<char>>::empty() by {
                assert(r.by_owner.list(a) == Seq::<String>::empty());
                assert(names(r.by_owner.list(a)) =~= Seq::<Seq<char>>::empty());
            }
            assert forall|x: Seq<char>| !(#[trigger] has_agent(r@, x)) by {}
        }
        r
    }

    /// The registry that holds `agents` and the lists of `by_owner`, for a
    /// host that keeps both in a store between calls. There is one if the
    /// lists fit the agents.
    pub fn restore(agents: Vec<AgentInfo>, by_owner: Index<String>) -> (r: Option<AgentRegistryContract>)
        requires
            by_owner.wf(),
        ensures
            match r {
                Some(registry) => {
                    &&& lists_fit(agent_views(agents@), by_owner)
                    &&& registry.wf()
                    &&& registry@ == agent_views(agents@)
                    &&& forall|a: Seq<char>| #[trigger] registry.owned_by(a) == names(by_owner.list(a))
                },
                None => !lists_fit(agent_views(agents@), by_owner),
            },
    {
        let registry = AgentRegistryContract { agents, by_owner };
        if !registry.ids_are_distinct() {
            return None;
        }
        if !registry.lists_name_agents() {
            return None;
        }
        if !registry.agents_are_listed() {
            return None;
        }
        proof {
            registry.lemma_fit_is_wf();
        }
        Some(registry)
    }

    /// What stays when only the record of one agent changes: the list of
    /// every principal.
    pub open spec fn lists_kept(pre: Self, post: Self) -> bool {
        forall|a: Seq<char>| #[trigger] post.owned_by(a) == pre.owned_by(a)
    }

    /// What a registration does: the agent comes last among the agents and
    /// last in its owner's list.
    pub open spec fn registered(pre: Self, post: Self, agent: AgentInfoView) -> bool {
        &&& post@ == pre@.push(agent)
        &&& forall|a: Seq<char>| #[trigger]
            post.owned_by(a) == if a == agent.owner {
                pre.owned_by(a).push(agent.agent_id)
            } else {
                pre.owned_by(a)
            }
    }

    /// What a transfer of the agent `agent_id` to `new_owner` does: the
    /// record names the new owner, the id leaves the list of the owner so
    /// far, and comes last in the list of the new one.
    pub open spec fn transferred(pre: Self, post: Self, agent_id: Seq<char>, new_owner: Seq<char>) -> bool {
        let agent = agent_at(pre@, agent_id);
        &&& post@ == pre@.update(place_of(pre@, agent_id), AgentInfoView { owner: new_owner, ..agent })
        &&& forall|a: Seq<char>| #[trigger]
            post.owned_by(a) == {
                let rest = if a == agent.owner {
                    without(pre.owned_by(a), agent_id)
                } else {
                    pre.owned_by(a)
                };
                if a == new_owner {
                    rest.push(agent_id)
                } else {
                    rest
                }
            }
    }

    /// Registers an agent for `owner`, who has to have approved the call,
    /// under an id that no agent has yet. The agent starts out active.
    pub fn register_agent(
        &mut self,
        auth: &Authorization,
        agent_id: String,
        owner: Address,
        price: i128,
        metadata_uri: String,
        now: u64,
    ) -> (r: Result<Receipt, MarketError>)
        requires
            old(self).wf(),
        ensures
            final(self).wf(),
            match register_refusal(old(self)@, auth@, agent_id@, owner@) {
                Some(e) => r == Err::<Receipt, MarketError>(e) && *final(self) == *old(self),
                None => {
                    &&& Self::registered(
                        *old(self),
                        *final(self),
                        new_agent(agent_id@, owner@, price, metadata_uri@, now),
                    )
                    &&& r is Ok
                    &&& r->Ok_0@ == (ReceiptView {
                        writes: registration_writes(new_agent(agent_id@, owner@, price, metadata_uri@, now)),
                        event: RegistryEventView::AgentRegistered {
                            agent_id: agent_id@,
                            owner: owner@,
                            price,
                            metadata_uri: metadata_uri@,
                        },
                    })
                },
            },
    {
        if !auth.permits(&owner) {
            return Err(MarketError::Unauthorized);
        }
        if self.find(&agent_id).is_some() {
            return Err(MarketError::AlreadyExists);
        }
        let agent = AgentInfo {
            agent_id: agent_id.clone(),
            owner: owner.clone(),
            price,
            metadata_uri: metadata_uri.clone(),
            is_active: true,
            registered_at: now,
        };
        let ghost added = agent@;
        self.agents.push(agent);
        add_to_owner_agents(&mut self.by_owner, &owner, agent_id.clone());
        proof {
            let pre = *old(self);
            let post = *self;
            pre.lemma_view();
            post.lemma_view();
            assert(post@ =~= pre@.push(added));
            assert(ids_distinct(post@)) by {
                assert forall|i: int, j: int| 0 <= i < j < post@.len() implies (#[trigger] post@[i]).agent_id != (
                #[trigger] post@[j]).agent_id by {
                    if j < pre@.len() {
                        assert(pre@[i].agent_id != pre@[j].agent_id);
                    } else {
                        assert(!is_place_of(pre@, added.agent_id, i));
                    }
                }
            }
            assert(!pre.owned_by(owner@).contains(agent_id@));
            assert forall|a: Seq<char>| #[trigger]
                post.owned_by(a) == if a == added.owner {
                    pre.owned_by(a).push(added.agent_id)
                } else {
                    pre.owned_by(a)
                } by {
                if a == owner@ {
                    assert(names(pre.by_owner.list(a).push(agent_id)) =~= names(pre.by_owner.list(a)).push(
                        agent_id@,
                    ));
                }
            }
            assert forall|a: Seq<char>| (#[trigger] post.owned_by(a)).no_duplicates() by {
                assert(pre.owned_by(a).no_duplicates());
                if a == owner@ {
                    lemma_push_fresh(pre.owned_by(a), agent_id@);
                }
            }
            assert forall|a: Seq<char>, x: Seq<char>| (#[trigger] post.owned_by(a).contains(x)) <==> has_agent(
                post@,
                x,
            ) && agent_at(post@, x).owner == a by {
                lemma_agent_after_push(pre@, added, x);
                if a == owner@ {
                    lemma_push_fresh(pre.owned_by(a), agent_id@);
                }
            }
        }
        let mut writes: Vec<DataKey> = Vec::new();
        writes.push(DataKey::Agent(agent_id.clone()));
        writes.push(DataKey::AgentsByOwner(owner.clone()));
        writes.push(DataKey::AllAgents);
        assert(key_views(writes@) =~= registration_writes(added));
        Ok(Receipt { writes, event: RegistryEvent::AgentRegistered { agent_id, owner, price, metadata_uri } })
    }

    /// Sets the price of the agent `agent_id`, whose owner has to have
    /// approved the call.
    pub fn update_agent_price(&mut self, auth: &Authorization, agent_id: String, new_price: i128) -> (r: Result<
        Receipt,
        MarketError,
    >)
        requires
            old(self).wf(),
        ensures
            final(self).wf(),
            match change_refusal(old(self)@, auth@, agent_id@) {
                Some(e) => r == Err::<Receipt, MarketError>(e) && *final(self) == *old(self),
                None => {
                    let agent = agent_at(old(self)@, agent_id@);
                    &&& final(self)@ == old(self)@.update(
                        place_of(old(self)@, agent_id@),
                        AgentInfoView { price: new_price, ..agent },
                    )
                    &&& Self::lists_kept(*old(self), *final(self))
                    &&& r is Ok
                    &&& r->Ok_0@ == (ReceiptView {
                        writes: agent_writes(agent_id@),
                        event: RegistryEventView::PriceUpdated {
                            agent_id: agent_id@,
                            old_price: agent.price,
                            new_price,
                        },
                    })
                },
            },
    {
        let at: usize = match self.find(&agent_id) {
            Some(at) => at,
            None => {
                return Err(MarketError::NotFound);
            },
        };
        if !auth.permits(&self.agents[at].owner) {
            return Err(MarketError::Unauthorized);
        }
        let old_price = self.agents[at].price;
        self.agents[at].price = new_price;
        proof {
            self.lemma_record_changed(*old(self), at as int);
        }
        Ok(Receipt { writes: only_agent(&agent_id), event: RegistryEvent::PriceUpdated { agent_id, old_price, new_price } })
    }

    /// Hands the agent `agent_id`, whose owner has to have approved the
    /// call, over to `new_owner`. The id leaves the list of the owner so far,
    /// the other ids keeping their order, and comes last in the list of the
    /// new owner.
    pub fn transfer_ownership(&mut self, auth: &Authorization, agent_id: String, new_owner: Address) -> (r:
        Result<Receipt, MarketError>)
        requires
            old(self).wf(),
        ensures
            final(self).wf(),
            match change_refusal(old(self)@, auth@, agent_id@) {
                Some(e) => r == Err::<Receipt, MarketError>(e) && *final(self) == *old(self),
                None => {
                    &&& Self::transferred(*old(self), *final(self), agent_id@, new_owner@)
                    &&& r is Ok
                    &&& r->Ok_0@ == (ReceiptView {
                        writes: transfer_writes(agent_id@, agent_at(old(self)@, agent_id@).owner, new_owner@),
                        event: RegistryEventView::OwnershipTransferred {
                            agent_id: agent_id@,
                            old_owner: agent_at(old(self)@, agent_id@).owner,
                            new_owner: new_owner@,
                        },
                    })
                },
            },
    {
        let at: usize = match self.find(&agent_id) {
            Some(at) => at,
            None => {
                return Err(MarketError::NotFound);
            },
        };
        if !auth.permits(&self.agents[at].owner) {
            return Err(MarketError::Unauthorized);
        }
        let old_owner = self.agents[at].owner.clone();
        self.agents[at].owner = new_owner.clone();
        remove_from_owner_agents(&mut self.by_owner, &old_owner, &agent_id);
        add_to_owner_agents(&mut self.by_owner, &new_owner, agent_id.clone());
        proof {
            let pre = *old(self);
            let post = *self;
            let id = agent_id@;
            let was = old_owner@;
            let now = new_owner@;
            pre.lemma_view();
            post.lemma_view();
            let moved = AgentInfoView { owner: now, ..agent_at(pre@, id) };
            assert(post@ =~= pre@.update(at as int, moved));
            assert(ids_distinct(post@)) by {
                assert forall|i: int, j: int| 0 <= i < j < post@.len() implies (#[trigger] post@[i]).agent_id != (
                #[trigger] post@[j]).agent_id by {
                    assert(pre@[i].agent_id != pre@[j].agent_id);
                }
            }
            assert forall|a: Seq<char>| #[trigger]
                post.owned_by(a) == {
                    let rest = if a == was {
                        without(pre.owned_by(a), id)
                    } else {
                        pre.owned_by(a)
                    };
                    if a == now {
                        rest.push(id)
                    } else {
                        rest
                    }
                } by {
                if a == now {
                    let before = if a == was {
                        without(pre.owned_by(a), id)
                    } else {
                        pre.owned_by(a)
                    };
                    let list = post.by_owner.list(a);
                    assert(list.len() > 0);
                    assert(list.drop_last().push(agent_id) =~= list);
                    assert(names(list.drop_last()) == before);
                    assert(names(list) =~= names(list.drop_last()).push(id));
                }
            }
            assert forall|a: Seq<char>| (#[trigger] post.owned_by(a)).no_duplicates() by {
                assert(pre.owned_by(a).no_duplicates());
                lemma_without(pre.owned_by(a), id);
                if a == now {
                    if a == was {
                        lemma_push_fresh(without(pre.owned_by(a), id), id);
                    } else {
                        assert(!pre.owned_by(a).contains(id));
                        lemma_push_fresh(pre.owned_by(a), id);
                    }
                }
            }
            assert forall|a: Seq<char>, x: Seq<char>| (#[trigger] post.owned_by(a).contains(x)) <==> has_agent(
                post@,
                x,
            ) && agent_at(post@, x).owner == a by {
                lemma_agent_after_update(pre@, at as int, moved, x);
                lemma_without(pre.owned_by(a), id);
                assert(pre.owned_by(a).contains(x) <==> has_agent(pre@, x) && agent_at(pre@, x).owner == a);
                if a == now {
                    if a == was {
                        lemma_push_fresh(without(pre.owned_by(a), id), id);
                    } else {
                        lemma_push_fresh(pre.owned_by(a), id);
                    }
                }
            }
        }
        let mut writes: Vec<DataKey> = Vec::new();
        writes.push(DataKey::Agent(agent_id.clone()));
        writes.push(DataKey::AgentsByOwner(old_owner.clone()));
        writes.push(DataKey::AgentsByOwner(new_owner.clone()));
        assert(key_views(writes@) =~= transfer_writes(agent_id@, old_owner@, new_owner@));
        Ok(Receipt { writes, event: RegistryEvent::OwnershipTransferred { agent_id, old_owner, new_owner } })
    }

    /// Withdraws the agent `agent_id`, whose owner has to have approved the
    /// call. The record and every list stay.
    pub fn deactivate_agent(&mut self, auth: &Authorization, agent_id: String) -> (r: Result<
        Receipt,
        MarketError,
    >)
        requires
            old(self).wf(),
        ensures
            final(self).wf(),
            match change_refusal(old(self)@, auth@, agent_id@) {
                Some(e) => r == Err::<Receipt, MarketError>(e) && *final(self) == *old(self),
                None => {
                    &&& final(self)@ == old(self)@.update(
                        place_of(old(self)@, agent_id@),
                        AgentInfoView { is_active: false, ..agent_at(old(self)@, agent_id@) },
                    )
                    &&& Self::lists_kept(*old(self), *final(self))
                    &&& r is Ok
                    &&& r->Ok_0@ == (ReceiptView {
                        writes: agent_writes(agent_id@),
                        event: RegistryEventView::AgentDeactivated { agent_id: agent_id@ },
                    })
                },
            },
    {
        let at: usize = match self.find(&agent_id) {
            Some(at) => at,
            None => {
                return Err(MarketError::NotFound);
            },
        };
        if !auth.permits(&self.agents[at].owner) {
            return Err(MarketError::Unauthorized);
        }
        self.agents[at].is_active = false;
        proof {
            self.lemma_record_changed(*old(self), at as int);
        }
        Ok(Receipt { writes: only_agent(&agent_id), event: RegistryEvent::AgentDeactivated { agent_id } })
    }

    /// Puts the agent `agent_id`, whose owner has to have approved the call,
    /// on offer again.
    pub fn activate_agent(&mut self, auth: &Authorization, agent_id: String) -> (r: Result<
        Receipt,
        MarketError,
    >)
        requires
            old(self).wf(),
        ensures
            final(self).wf(),
            match change_refusal(old(self)@, auth@, agent_id@) {
                Some(e) => r == Err::<Receipt, MarketError>(e) && *final(self) == *old(self),
                None => {
                    &&& final(self)@ == old(self)@.update(
                        place_of(old(self)@, agent_id@),
                        AgentInfoView { is_active: true, ..agent_at(old(self)@, agent_id@) },
                    )
                    &&& Self::lists_kept(*old(self), *final(self))
                    &&& r is Ok
                    &&& r->Ok_0@ == (ReceiptView {
                        writes: agent_writes(agent_id@),
                        event: RegistryEventView::AgentActivated { agent_id: agent_id@ },
                    })
                },
            },
    {
        let at: usize = match self.find(&agent_id) {
            Some(at) => at,
            None => {
                return Err(MarketError::NotFound);
            },
        };
        if !auth.permits(&self.agents[at].owner) {
            return Err(MarketError::Unauthorized);
        }
        self.agents[at].is_active = true;
        proof {
            self.lemma_record_changed(*old(self), at as int);
        }
        Ok(Receipt { writes: only_agent(&agent_id), event: RegistryEvent::AgentActivated { agent_id } })
    }

    /// The agent with the id `agent_id`.
    pub fn get_agent(&self, agent_id: &String) -> (r: Result<AgentInfo, MarketError>)
        requires
            self.wf(),
        ensures
            match r {
                Ok(agent) => has_agent(self@, agent_id@) && agent@ == agent_at(self@, agent_id@),
                Err(e) => !has_agent(self@, agent_id@) && e == MarketError::NotFound,
            },
    {
        match self.find(agent_id) {
            Some(at) => Ok(self.agents[at].clone()),
            None => Err(MarketError::NotFound),
        }
    }

    /// The ids of the agents that `owner` owns, in the order in which it came
    /// to own them; none if it owns none.
    pub fn get_agents_by_owner(&self, owner: &Address) -> (r: Vec<String>)
        requires
            self.wf(),
        ensures
            names(r@) == self.owned_by(owner@),
    {
        let list = self.by_owner.get(owner);
        let mut r: Vec<String> = Vec::new();
        let mut i: usize = 0;
        while i < list.len()
            invariant
                0 <= i <= list@.len(),
                r@ == list@.subrange(0, i as int),
            decreases list@.len() - i,
        {
            r.push(list[i].clone());
            assert(list@.subrange(0, i + 1) =~= list@.subrange(0, i as int).push(list@[i as int]));
            i += 1;
        }
        assert(list@.subrange(0, list@.len() as int) =~= list@);
        r
    }

    /// The id of every agent ever registered, withdrawn ones too, in the
    /// order of registration.
    pub fn get_all_agents(&self) -> (r: Vec<String>)
        requires
            self.wf(),
        ensures
            names(r@) == all_ids(self@),
    {
        proof {
            self.lemma_view();
        }
        let mut r: Vec<String> = Vec::new();
        let mut i: usize = 0;
        while i < self.agents.len()
            invariant
                0 <= i <= self.agents@.len(),
                r@.len() == i,
                forall|j: int| 0 <= j < i ==> (#[trigger] r@[j])@ == self.agents@[j].agent_id@,
            decreases self.agents@.len() - i,
        {
            r.push(self.agents[i].agent_id.clone());
            i += 1;
        }
        assert(names(r@) =~= all_ids(self@));
        r
    }

    /// In a registry that is well formed no two agents have the same id, and
    /// the list of each principal holds, once each, the ids of the agents
    /// whose record names it as owner, and no other.
    pub proof fn lemma_lists_match_records(&self)
        requires
            self.wf(),
        ensures
            ids_distinct(self@),
            forall|a: Seq<char>| (#[trigger] self.owned_by(a)).no_duplicates(),
            forall|a: Seq<char>, x: Seq<char>|
                (#[trigger] self.owned_by(a).contains(x)) <==> has_agent(self@, x) && agent_at(self@, x).owner == a,
    {
    }

    /// An id that was registered stays taken: whoever asks for it again,
    /// with whatever price and description, is refused because the agent
    /// exists, if the owner named approved the call.
    pub proof fn lemma_second_registration_refused(
        pre: Self,
        post: Self,
        agent: AgentInfoView,
        auth: Set<Seq<char>>,
        owner: Seq<char>,
    )
        requires
            Self::registered(pre, post, agent),
            auth.contains(owner),
        ensures
            register_refusal(post@, auth, agent.agent_id, owner) == Some(MarketError::AlreadyExists),
    {
        assert(is_place_of(post@, agent.agent_id, pre@.len() as int));
    }

    /// A transfer to another principal makes the list of the owner so far
    /// shorter by one and the list of the new owner longer by one; the id is
    /// in the second and no longer in the first, and the record names the new
    /// owner.
    pub proof fn lemma_transfer_moves_one(pre: Self, post: Self, agent_id: Seq<char>, new_owner: Seq<char>)
        requires
            pre.wf(),
            has_agent(pre@, agent_id),
            agent_at(pre@, agent_id).owner != new_owner,
            Self::transferred(pre, post, agent_id, new_owner),
        ensures
            ({
                let old_owner = agent_at(pre@, agent_id).owner;
                &&& post.owned_by(old_owner).len() == pre.owned_by(old_owner).len() - 1
                &&& post.owned_by(new_owner).len() == pre.owned_by(new_owner).len() + 1
                &&& !post.owned_by(old_owner).contains(agent_id)
                &&& post.owned_by(new_owner).contains(agent_id)
                &&& has_agent(post@, agent_id)
                &&& agent_at(post@, agent_id).owner == new_owner
            }),
    {
        let old_owner = agent_at(pre@, agent_id).owner;
        let at = place_of(pre@, agent_id);
        assert(is_place_of(pre@, agent_id, at));
        lemma_agent_after_update(pre@, at, AgentInfoView { owner: new_owner, ..agent_at(pre@, agent_id) }, agent_id);
        assert(pre.owned_by(old_owner).contains(agent_id));
        assert(pre.owned_by(old_owner).no_duplicates());
        lemma_without(pre.owned_by(old_owner), agent_id);
        assert(post.owned_by(old_owner) == without(pre.owned_by(old_owner), agent_id));
        assert(post.owned_by(new_owner) == pre.owned_by(new_owner).push(agent_id));
        lemma_push_fresh(pre.owned_by(new_owner), agent_id);
    }

    /// Where the agent with the id `agent_id` stands among the agents, if
    /// there is such an agent.
    fn find(&self, agent_id: &String) -> (r: Option<usize>)
        requires
            ids_distinct(self@),
        ensures
            match r {
                Some(at) => has_agent(self@, agent_id@) && at == place_of(self@, agent_id@) && at
                    < self.agents@.len() && self@[at as int] == self.agents@[at as int]@,
                None => !has_agent(self@, agent_id@),
            },
    {
        proof {
            self.lemma_view();
        }
        let mut i: usize = 0;
        while i < self.agents.len()
            invariant
                ids_distinct(self@),
                0 <= i <= self.agents@.len(),
                self@.len() == self.agents@.len(),
                forall|j: int| 0 <= j < self.agents@.len() ==> #[trigger] self@[j] == self.agents@[j]@,
                forall|j: int| 0 <= j < i ==> !is_place_of(self@, agent_id@, j),
            decreases self.agents@.len() - i,
        {
            if self.agents[i].agent_id == *agent_id {
                proof {
                    assert(is_place_of(self@, agent_id@, i as int));
                    let c = place_of(self@, agent_id@);
                    assert(is_place_of(self@, agent_id@, c));
                    if c < i {
                        assert(self@[c].agent_id != self@[i as int].agent_id);
                    } else if c > i {
                        assert(self@[i as int].agent_id != self@[c].agent_id);
                    }
                }
                return Some(i);
            }
            i += 1;
        }
        None
    }

    /// Whether no two agents have the same id.
    fn ids_are_distinct(&self) -> (r: bool)
        ensures
            r == ids_distinct(self@),
    {
        proof {
            self.lemma_view();
        }
        let mut i: usize = 0;
        while i < self.agents.len()
            invariant
                0 <= i <= self.agents@.len(),
                self@.len() == self.agents@.len(),
                forall|j: int| 0 <= j < self.agents@.len() ==> #[trigger] self@[j] == self.agents@[j]@,
                forall|j: int, k: int| 0 <= k < j < i ==> (#[trigger] self@[k]).agent_id != (#[trigger] self@[j]).agent_id,
            decreases self.agents@.len() - i,
        {
            let mut k: usize = 0;
            while k < i
                invariant
                    0 <= k <= i < self.agents@.len(),
                    self@.len() == self.agents@.len(),
                    forall|j: int| 0 <= j < self.agents@.len() ==> #[trigger] self@[j] == self.agents@[j]@,
                    forall|m: int| 0 <= m < k ==> (#[trigger] self@[m]).agent_id != self@[i as int].agent_id,
                decreases i - k,
            {
                if self.agents[k].agent_id == self.agents[i].agent_id {
                    assert(self@[k as int].agent_id == self@[i as int].agent_id);
                    return false;
                }
                k += 1;
            }
            i += 1;
        }
        true
    }

    /// Whether every list holds, once each, ids of agents whose record names
    /// the list's principal as owner.
    fn lists_name_agents(&self) -> (r: bool)
        requires
            self.by_owner.wf(),
            ids_distinct(self@),
        ensures
            r == (forall|a: Seq<char>| list_names_agents(self@, a, #[trigger] names(self.by_owner.list(a)))),
    {
        let n = self.by_owner.count();
        let mut e: usize = 0;
        while e < n
            invariant
                self.by_owner.wf(),
                ids_distinct(self@),
                n == self.by_owner.owners().len(),
                0 <= e <= n,
                forall|d: int|
                    0 <= d < e ==> list_names_agents(
                        self@,
                        #[trigger] self.by_owner.owners()[d],
                        names(self.by_owner.list(self.by_owner.owners()[d])),
                    ),
            decreases n - e,
        {
            let owner = self.by_owner.owner_at(e);
            let list = self.by_owner.list_at(e);
            if !no_repeats(list) {
                assert(!list_names_agents(self@, owner@, names(self.by_owner.list(owner@))));
                return false;
            }
            let mut k: usize = 0;
            while k < list.len()
                invariant
                    ids_distinct(self@),
                    list@ == self.by_owner.list(owner@),
                    0 <= k <= list@.len(),
                    forall|m: int|
                        0 <= m < k ==> has_agent(self@, #[trigger] names(list@)[m]) && agent_at(
                            self@,
                            names(list@)[m],
                        ).owner == owner@,
                decreases list@.len() - k,
            {
                let ghost x = names(list@)[k as int];
                assert(x == list@[k as int]@);
                let listed = match self.find(&list[k]) {
                    Some(at) => self.agents[at].owner.same(owner),
                    None => false,
                };
                if !listed {
                    assert(!(has_agent(self@, x) && agent_at(self@, x).owner == owner@));
                    assert(names(self.by_owner.list(owner@))[k as int] == x);
                    assert(!list_names_agents(self@, owner@, names(self.by_owner.list(owner@))));
                    return false;
                }
                k += 1;
            }
            assert(list_names_agents(self@, owner@, names(list@)));
            e += 1;
        }
        proof {
            self.by_owner.lemma_owners();
            assert forall|a: Seq<char>| list_names_agents(self@, a, #[trigger] names(self.by_owner.list(a))) by {
                if self.by_owner.owners().contains(a) {
                    let d = choose|d: int| 0 <= d < self.by_owner.owners().len() && self.by_owner.owners()[d] == a;
                    assert(list_names_agents(
                        self@,
                        self.by_owner.owners()[d],
                        names(self.by_owner.list(self.by_owner.owners()[d])),
                    ));
                } else {
                    assert(self.by_owner.list(a) == Seq::<String>::empty());
                    assert(names(self.by_owner.list(a)) =~= Seq::<Seq<char>>::empty());
                }
            }
        }
        true
    }

    /// Whether every agent is in the list of its owner.
    fn agents_are_listed(&self) -> (r: bool)
        requires
            self.by_owner.wf(),
        ensures
            r == (forall|i: int|
                0 <= i < self@.len() ==> names(self.by_owner.list((#[trigger] self@[i]).owner)).contains(
                    self@[i].agent_id,
                )),
    {
        proof {
            self.lemma_view();
        }
        let mut i: usize = 0;
        while i < self.agents.len()
            invariant
                self.by_owner.wf(),
                0 <= i <= self.agents@.len(),
                self@.len() == self.agents@.len(),
                forall|j: int| 0 <= j < self.agents@.len() ==> #[trigger] self@[j] == self.agents@[j]@,
                forall|j: int|
                    0 <= j < i ==> names(self.by_owner.list((#[trigger] self@[j]).owner)).contains(self@[j].agent_id),
            decreases self.agents@.len() - i,
        {
            let list = self.by_owner.get(&self.agents[i].owner);
            if !holds(list, &self.agents[i].agent_id) {
                assert(!names(self.by_owner.list(self@[i as int].owner)).contains(self@[i as int].agent_id));
                return false;
            }
            i += 1;
        }
        true
    }

    /// The view holds the view of each agent, in the same order.
    proof fn lemma_view(&self)
        ensures
            self@.len() == self.agents@.len(),
            forall|i: int| 0 <= i < self.agents@.len() ==> #[trigger] self@[i] == self.agents@[i]@,
    {
    }

    /// A registry that differs from a well-formed one in the record of a
    /// single agent, and there neither in the id nor in the owner, is well
    /// formed.
    proof fn lemma_record_changed(&self, before: AgentRegistryContract, at: int)
        requires
            before.wf(),
            0 <= at < before.agents@.len(),
            self.by_owner == before.by_owner,
            self.agents@.len() == before.agents@.len(),
            forall|i: int| 0 <= i < self.agents@.len() && i != at ==> #[trigger] self.agents@[i] == before.agents@[i],
            self.agents@[at].agent_id == before.agents@[at].agent_id,
            self.agents@[at].owner == before.agents@[at].owner,
        ensures
            self.wf(),
            self@ == before@.update(at, self.agents@[at]@),
            Self::lists_kept(before, *self),
    {
        self.lemma_view();
        before.lemma_view();
        assert(self@ =~= before@.update(at, self.agents@[at]@));
        assert forall|i: int, j: int| 0 <= i < j < self@.len() implies (#[trigger] self@[i]).agent_id != (
        #[trigger] self@[j]).agent_id by {
            assert(before@[i].agent_id != before@[j].agent_id);
        }
        assert forall|a: Seq<char>, x: Seq<char>| (#[trigger] self.owned_by(a).contains(x)) <==> has_agent(self@, x)
            && agent_at(self@, x).owner == a by {
            lemma_agent_after_update(before@, at, self.agents@[at]@, x);
            assert(before.owned_by(a).contains(x) <==> has_agent(before@, x) && agent_at(before@, x).owner == a);
        }
        assert forall|a: Seq<char>| (#[trigger] self.owned_by(a)).no_duplicates() by {
            assert(before.owned_by(a).no_duplicates());
        }
    }

    /// Lists that fit the agents make the registry well formed.
    proof fn lemma_fit_is_wf(&self)
        requires
            self.by_owner.wf(),
            lists_fit(self@, self.by_owner),
        ensures
            self.wf(),
    {
        assert forall|a: Seq<char>| (#[trigger] self.owned_by(a)).no_duplicates() by {
            assert(list_names_agents(self@, a, names(self.by_owner.list(a))));
        }
        assert forall|a: Seq<char>, x: Seq<char>| (#[trigger] self.owned_by(a).contains(x)) <==> has_agent(self@, x)
            && agent_at(self@, x).owner == a by {
            let list = names(self.by_owner.list(a));
            assert(list_names_agents(self@, a, list));
            if list.contains(x) {
                let k = choose|k: int| 0 <= k < list.len() && list[k] == x;
                assert(has_agent(self@, list[k]));
            }
            if has_agent(self@, x) && agent_at(self@, x).owner == a {
                let i = place_of(self@, x);
                assert(is_place_of(self@, x, i));
                assert(names(self.by_owner.list(self@[i].owner)).contains(self@[i].agent_id));
            }
        }
    }
}

/// Adds `agent_id` at the end of the list of `owner`.
fn add_to_owner_agents(index: &mut Index<String>, owner: &Address, agent_id: String)
    requires
        old(index).wf(),
    ensures
        final(index).wf(),
        final(index).list(owner@) == old(index).list(owner@).push(agent_id),
        forall|a: Seq<char>| a != owner@ ==> final(index).list(a) == old(index).list(a),
{
    index.append(owner, agent_id);
}

/// Takes `agent_id` out of the list of `owner`: the list is built anew from
/// the entries that differ from it, in the order they had.
fn remove_from_owner_agents(index: &mut Index<String>, owner: &Address, agent_id: &String)
    requires
        old(index).wf(),
    ensures
        final(index).wf(),
        names(final(index).list(owner@)) == without(names(old(index).list(owner@)), agent_id@),
        forall|a: Seq<char>| a != owner@ ==> final(index).list(a) == old(index).list(a),
{
    let agents = index.get(owner);
    let mut new_agents: Vec<String> = Vec::new();
    let mut i: usize = 0;
    while i < agents.len()
        invariant
            0 <= i <= agents@.len(),
            names(new_agents@) == without(names(agents@.subrange(0, i as int)), agent_id@),
        decreases agents@.len() - i,
    {
        let ghost seen = agents@.subrange(0, i as int);
        let ghost more = agents@.subrange(0, i + 1);
        proof {
            assert(more =~= seen.push(agents@[i as int]));
            assert(names(more) =~= names(seen).push(agents@[i as int]@));
            assert(names(more).drop_last() =~= names(seen));
        }
        if !(agents[i] == *agent_id) {
            let ghost kept = new_agents@;
            new_agents.push(agents[i].clone());
            assert(names(new_agents@) =~= names(kept).push(agents@[i as int]@));
        }
        i += 1;
    }
    assert(agents@.subrange(0, agents@.len() as int) =~= agents@);
    index.set(owner, new_agents);
}

/// Among agents with distinct ids an agent stands at one place only.
pub proof fn lemma_place_unique(agents: Seq<AgentInfoView>, agent_id: Seq<char>, i: int)
    requires
        ids_distinct(agents),
        is_place_of(agents, agent_id, i),
    ensures
        has_agent(agents, agent_id),
        place_of(agents, agent_id) == i,
        agent_at(agents, agent_id) == agents[i],
{
    let c = place_of(agents, agent_id);
    assert(is_place_of(agents, agent_id, c));
    if c < i {
        assert(agents[c].agent_id != agents[i].agent_id);
    } else if c > i {
        assert(agents[i].agent_id != agents[c].agent_id);
    }
}

/// The agents that a list holds once an agent with a new id is added at its
/// end: the new one, and those it held, each at its place.
pub proof fn lemma_agent_after_push(agents: Seq<AgentInfoView>, agent: AgentInfoView, x: Seq<char>)
    requires
        ids_distinct(agents),
        !has_agent(agents, agent.agent_id),
    ensures
        ids_distinct(agents.push(agent)),
        has_agent(agents.push(agent), x) <==> has_agent(agents, x) || x == agent.agent_id,
        has_agent(agents, x) ==> agent_at(agents.push(agent), x) == agent_at(agents, x),
        x == agent.agent_id ==> agent_at(agents.push(agent), x) == agent,
{
    let more = agents.push(agent);
    assert forall|i: int, j: int| 0 <= i < j < more.len() implies (#[trigger] more[i]).agent_id != (
    #[trigger] more[j]).agent_id by {
        if j < agents.len() {
            assert(agents[i].agent_id != agents[j].agent_id);
        } else {
            assert(!is_place_of(agents, agent.agent_id, i));
        }
    }
    if has_agent(more, x) {
        let i = place_of(more, x);
        assert(is_place_of(more, x, i));
        if i < agents.len() {
            assert(is_place_of(agents, x, i));
        }
    }
    if has_agent(agents, x) {
        let i = place_of(agents, x);
        assert(is_place_of(agents, x, i));
        assert(is_place_of(more, x, i));
        lemma_place_unique(more, x, i);
    }
    if x == agent.agent_id {
        assert(is_place_of(more, x, agents.len() as int));
        lemma_place_unique(more, x, agents.len() as int);
    }
}

/// The agents that a list holds once the record at one place is replaced by
/// one with the same id: the same ids, each at its place, and the same
/// records but for the one replaced.
pub proof fn lemma_agent_after_update(agents: Seq<AgentInfoView>, at: int, agent: AgentInfoView, x: Seq<char>)
    requires
        ids_distinct(agents),
        0 <= at < agents.len(),
        agent.agent_id == agents[at].agent_id,
    ensures
        ids_distinct(agents.update(at, agent)),
        has_agent(agents.update(at, agent), x) <==> has_agent(agents, x),
        has_agent(agents, x) ==> place_of(agents.update(at, agent), x) == place_of(agents, x),
        has_agent(agents, x) && x != agent.agent_id ==> agent_at(agents.update(at, agent), x) == agent_at(agents, x),
        x == agent.agent_id ==> has_agent(agents, x) && place_of(agents, x) == at && agent_at(
            agents.update(at, agent),
            x,
        ) == agent,
{
    let changed = agents.update(at, agent);
    assert forall|i: int, j: int| 0 <= i < j < changed.len() implies (#[trigger] changed[i]).agent_id != (
    #[trigger] changed[j]).agent_id by {
        assert(agents[i].agent_id != agents[j].agent_id);
    }
    if has_agent(changed, x) {
        let i = place_of(changed, x);
        assert(is_place_of(changed, x, i));
        assert(is_place_of(agents, x, i));
    }
    if has_agent(agents, x) {
        let i = place_of(agents, x);
        assert(is_place_of(agents, x, i));
        assert(is_place_of(changed, x, i));
        lemma_place_unique(changed, x, i);
        if x != agent.agent_id {
            assert(i != at);
        }
    }
    if x == agent.agent_id {
        assert(is_place_of(agents, x, at));
        lemma_place_unique(agents, x, at);
        assert(is_place_of(changed, x, at));
        lemma_place_unique(changed, x, at);
    }
}

} // verus!
