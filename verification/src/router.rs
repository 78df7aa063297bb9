//! The routing table: which endpoints are active, and where a message from
//! each of them goes.

use vstd::prelude::*;
use crate::endpoint::{EndpointId, Liveness};

verus! {

/// How messages are forwarded.
#[derive(Clone, Copy, Debug, PartialEq, Eq, Structural)]
pub enum ForwardingPolicy {
    /// The local endpoint and a single remote endpoint, each forwarding to the
    /// other.
    PointToPoint,
    /// The local endpoint and any number of remote endpoints: what comes from
    /// the local endpoint goes to every remote one, what comes from a remote
    /// one goes to the local endpoint only.
    Broadcast,
}

/// Why a remote endpoint could not be added to the table.
#[derive(Clone, Copy, Debug, PartialEq, Eq, Structural)]
pub enum RegisterError {
    /// The table is point-to-point and has its remote endpoint already.
    Occupied,
    /// Every identity has been given out.
    Exhausted,
    /// The relay has stopped and takes in nobody.
    Stopped,
}

/// The routing table as the contracts see it.
pub struct TableView {
    /// The forwarding policy.
    pub policy: ForwardingPolicy,
    /// The numbers of the active remote endpoints, in the order in which they
    /// were added.
    pub remotes: Seq<u64>,
    /// The number of identities given out so far; the next remote endpoint
    /// gets this number.
    pub issued: nat,
}

/// The routing table.
#[derive(Debug)]
pub struct RoutingTable {
    policy: ForwardingPolicy,
    remotes: Vec<u64>,
    issued: u64,
}

impl TableView {
    /// What every table satisfies: no endpoint is listed twice, every listed
    /// endpoint has a number that was given out, and a point-to-point table
    /// lists one remote endpoint at most.
    pub open spec fn valid(self) -> bool {
        &&& self.remotes.no_duplicates()
        &&& forall|i: int| 0 <= i < self.remotes.len() ==> (#[trigger] self.remotes[i]) < self.issued
        &&& self.issued <= u64::MAX
        &&& self.policy == ForwardingPolicy::PointToPoint ==> self.remotes.len() <= 1
    }

    /// The table of a relay that has just started: the local endpoint alone.
    pub open spec fn initial(policy: ForwardingPolicy) -> TableView {
        TableView { policy, remotes: Seq::empty(), issued: 0 }
    }

    /// How far along an endpoint is. The local endpoint is active for as long
    /// as the table exists. A remote endpoint is active while it is listed,
    /// closed once it has been listed and no longer is, and still to come
    /// while its number has not been given out.
    pub open spec fn liveness(self, endpoint: EndpointId) -> Liveness {
        match endpoint {
            EndpointId::Local => Liveness::Active,
            EndpointId::Remote(number) => if self.remotes.contains(number) {
                Liveness::Active
            } else if number < self.issued {
                Liveness::Closed
            } else {
                Liveness::Connecting
            },
        }
    }

    /// Where a message from `source` goes: from the local endpoint to every
    /// active remote endpoint, in the order in which they were added; from an
    /// active remote endpoint to the local endpoint; from any other endpoint
    /// nowhere.
    pub open spec fn route(self, source: EndpointId) -> Seq<EndpointId> {
        match source {
            EndpointId::Local => self.remotes.map_values(|number: u64| EndpointId::Remote(number)),
            EndpointId::Remote(number) => if self.remotes.contains(number) {
                seq![EndpointId::Local]
            } else {
                Seq::empty()
            },
        }
    }

    /// The table after every remote endpoint has been taken off it.
    pub open spec fn without_remotes(self) -> TableView {
        TableView { remotes: Seq::empty(), ..self }
    }

    /// Whether a remote endpoint can be added, and if not, why.
    pub open spec fn admits(self) -> Result<(), RegisterError> {
        if self.policy == ForwardingPolicy::PointToPoint && self.remotes.len() > 0 {
            Err(RegisterError::Occupied)
        } else if self.issued >= u64::MAX {
            Err(RegisterError::Exhausted)
        } else {
            Ok(())
        }
    }

    /// The table after a remote endpoint has been added: it gets the next
    /// number and is listed last.
    pub open spec fn with_new_remote(self) -> TableView {
        TableView {
            remotes: self.remotes.push(self.issued as u64),
            issued: self.issued + 1,
            ..self
        }
    }

    /// The table after `endpoint` has been taken off it. The local endpoint
    /// cannot be taken off, and taking off an endpoint that is not listed
    /// changes nothing.
    pub open spec fn without(self, endpoint: EndpointId) -> TableView {
        match endpoint {
            EndpointId::Local => self,
            EndpointId::Remote(number) => if self.remotes.contains(number) {
                TableView { remotes: self.remotes.remove(self.remotes.index_of(number)), ..self }
            } else {
                self
            },
        }
    }
}

impl View for RoutingTable {
    type V = TableView;

    closed spec fn view(&self) -> TableView {
        TableView { policy: self.policy, remotes: self.remotes@, issued: self.issued as nat }
    }
}

impl RoutingTable {
    /// Every table is valid, at all times.
    #[verifier::type_invariant]
    pub open spec fn well_formed(self) -> bool {
        self@.valid()
    }

    /// The table of a relay that has just started: the local endpoint alone.
    pub fn new(policy: ForwardingPolicy) -> (table: RoutingTable)
        ensures
            table@ == TableView::initial(policy),
            table@.valid(),
    {
        RoutingTable { policy, remotes: Vec::new(), issued: 0 }
    }

    /// The forwarding policy of the table.
    pub fn policy(&self) -> (policy: ForwardingPolicy)
        ensures
            policy == self@.policy,
    {
        self.policy
    }

    /// The number of active remote endpoints.
    pub fn remote_count(&self) -> (count: usize)
        ensures
            count == self@.remotes.len(),
    {
        self.remotes.len()
    }

    /// Moves the list of remote endpoints out of the table, which is left
    /// without any, for the caller to change the list and put it back.
    fn take_remotes(&mut self) -> (remotes: Vec<u64>)
        ensures
            remotes@ == old(self)@.remotes,
            final(self)@ == (TableView { remotes: Seq::empty(), ..old(self)@ }),
    {
        proof {
            use_type_invariant(&*self);
        }
        let mut emptied = RoutingTable {
            policy: self.policy,
            remotes: Vec::new(),
            issued: self.issued,
        };
        core::mem::swap(self, &mut emptied);
        emptied.remotes
    }

    /// Where in the list a remote endpoint stands, if it is listed.
    fn position(&self, number: u64) -> (found: Option<usize>)
        ensures
            match found {
                Some(i) => i < self@.remotes.len() && self@.remotes[i as int] == number,
                None => !self@.remotes.contains(number),
            },
    {
        let mut i: usize = 0;
        while i < self.remotes.len()
            invariant
                i <= self.remotes@.len(),
                forall|k: int| 0 <= k < i ==> self.remotes@[k] != number,
            decreases self.remotes@.len() - i,
        {
            if self.remotes[i] == number {
                return Some(i);
            }
            i = i + 1;
        }
        None
    }

    /// How far along an endpoint is.
    pub fn liveness(&self, endpoint: EndpointId) -> (liveness: Liveness)
        ensures
            liveness == self@.liveness(endpoint),
    {
        match endpoint {
            EndpointId::Local => Liveness::Active,
            EndpointId::Remote(number) => match self.position(number) {
                Some(_) => Liveness::Active,
                None => if number < self.issued {
                    Liveness::Closed
                } else {
                    Liveness::Connecting
                },
            },
        }
    }

    /// Whether an endpoint is active.
    pub fn is_active(&self, endpoint: EndpointId) -> (active: bool)
        ensures
            active == (self@.liveness(endpoint) == Liveness::Active),
    {
        match endpoint {
            EndpointId::Local => true,
            EndpointId::Remote(number) => self.position(number).is_some(),
        }
    }

    /// Adds a remote endpoint that has just connected and gives it its
    /// identity: a number that no endpoint had before.
    ///
    /// A point-to-point table takes one remote endpoint and refuses a second
    /// with `Occupied`. Any table refuses with `Exhausted` once every number
    /// has been given out. A refusal leaves the table as it was.
    pub fn register_remote(&mut self) -> (result: Result<EndpointId, RegisterError>)
        ensures
            final(self)@.valid(),
            match old(self)@.admits() {
                Ok(()) => result == Ok::<EndpointId, RegisterError>(
                    EndpointId::Remote(old(self)@.issued as u64),
                ) && final(self)@ == old(self)@.with_new_remote(),
                Err(e) => result == Err::<EndpointId, RegisterError>(e) && final(self)@ == old(
                    self,
                )@,
            },
    {
        proof {
            use_type_invariant(&*self);
        }
        if self.policy == ForwardingPolicy::PointToPoint && self.remotes.len() > 0 {
            return Err(RegisterError::Occupied);
        }
        if self.issued == u64::MAX {
            return Err(RegisterError::Exhausted);
        }
        let number = self.issued;
        proof {
            lemma_register_keeps_valid(self@);
        }
        let mut remotes = self.take_remotes();
        remotes.push(number);
        self.issued = number + 1;
        self.remotes = remotes;
        Ok(EndpointId::Remote(number))
    }

    /// Takes an endpoint off the table, and says whether it was on it.
    ///
    /// Only an active remote endpoint is on the table. The local endpoint
    /// stays for as long as the table exists: asking to take it off, or an
    /// endpoint that is not active, changes nothing.
    pub fn deregister(&mut self, endpoint: EndpointId) -> (removed: bool)
        ensures
            final(self)@.valid(),
            final(self)@ == old(self)@.without(endpoint),
            removed == (endpoint != EndpointId::Local && old(self)@.liveness(endpoint)
                == Liveness::Active),
    {
        proof {
            use_type_invariant(&*self);
        }
        match endpoint {
            EndpointId::Local => false,
            EndpointId::Remote(number) => match self.position(number) {
                Some(i) => {
                    proof {
                        lemma_deregister_keeps_valid(self@, endpoint);
                        assert(self@.remotes.index_of(number) == i);
                    }
                    let mut remotes = self.take_remotes();
                    remotes.remove(i);
                    self.remotes = remotes;
                    true
                },
                None => false,
            },
        }
    }

    /// Takes every remote endpoint off the table and gives their identities,
    /// in the order in which they were added.
    pub fn deregister_all(&mut self) -> (removed: Vec<EndpointId>)
        ensures
            final(self)@.valid(),
            final(self)@ == old(self)@.without_remotes(),
            removed@ == old(self)@.route(EndpointId::Local),
    {
        let removed = self.destinations(EndpointId::Local);
        let _ = self.take_remotes();
        removed
    }

    /// Where a message from `source` goes.
    ///
    /// From the local endpoint it goes to every active remote endpoint, in the
    /// order in which they were added. From an active remote endpoint it goes
    /// to the local endpoint and nowhere else. From an endpoint that is not
    /// active it goes nowhere. It never goes back to where it came from.
    pub fn destinations(&self, source: EndpointId) -> (destinations: Vec<EndpointId>)
        ensures
            destinations@ == self@.route(source),
            !destinations@.contains(source),
    {
        proof {
            lemma_never_routes_back(self@, source);
        }
        let mut destinations: Vec<EndpointId> = Vec::new();
        match source {
            EndpointId::Local => {
                let mut i: usize = 0;
                while i < self.remotes.len()
                    invariant
                        i <= self.remotes@.len(),
                        destinations@ == self.remotes@.subrange(0, i as int).map_values(
                            |number: u64| EndpointId::Remote(number),
                        ),
                    decreases self.remotes@.len() - i,
                {
                    destinations.push(EndpointId::Remote(self.remotes[i]));
                    assert(destinations@ =~= self.remotes@.subrange(0, i + 1).map_values(
                        |number: u64| EndpointId::Remote(number),
                    ));
                    i = i + 1;
                }
                assert(self.remotes@.subrange(0, i as int) =~= self.remotes@);
            },
            EndpointId::Remote(number) => {
                if self.position(number).is_some() {
                    destinations.push(EndpointId::Local);
                }
                assert(destinations@ =~= self@.route(source));
            },
        }
        destinations
    }
}

/// Adding a remote endpoint to a valid table that admits one gives a valid
/// table.
pub proof fn lemma_register_keeps_valid(table: TableView)
    requires
        table.valid(),
        table.admits() is Ok,
    ensures
        table.with_new_remote().valid(),
{
    let after = table.with_new_remote();
    assert forall|i: int, j: int|
        0 <= i < after.remotes.len() && 0 <= j < after.remotes.len() && i != j implies after.remotes[i]
        != after.remotes[j] by {
        if i < table.remotes.len() {
            assert(table.remotes[i] < table.issued);
        }
        if j < table.remotes.len() {
            assert(table.remotes[j] < table.issued);
        }
    }
}

/// Taking an endpoint off a valid table gives a valid table.
pub proof fn lemma_deregister_keeps_valid(table: TableView, endpoint: EndpointId)
    requires
        table.valid(),
    ensures
        table.without(endpoint).valid(),
{
    if let EndpointId::Remote(number) = endpoint {
        if table.remotes.contains(number) {
            let at = table.remotes.index_of(number);
            let after = table.without(endpoint);
            assert forall|i: int| 0 <= i < after.remotes.len() implies #[trigger] after.remotes[i]
                == table.remotes[if i < at {
                i
            } else {
                i + 1
            }] by {}
            assert forall|i: int, j: int|
                0 <= i < after.remotes.len() && 0 <= j < after.remotes.len() && i != j implies after.remotes[i]
                != after.remotes[j] by {
                let oi = if i < at { i } else { i + 1 };
                let oj = if j < at { j } else { j + 1 };
                assert(after.remotes[i] == table.remotes[oi]);
                assert(after.remotes[j] == table.remotes[oj]);
            }
            assert forall|i: int| 0 <= i < after.remotes.len() implies (#[trigger] after.remotes[i])
                < after.issued by {
                let oi = if i < at { i } else { i + 1 };
                assert(after.remotes[i] == table.remotes[oi]);
            }
        }
    }
}

/// No self-routing: a message never goes back to the endpoint that it came
/// from, whatever the table and whatever the policy.
pub proof fn lemma_never_routes_back(table: TableView, source: EndpointId)
    ensures
        !table.route(source).contains(source),
{
    let route = table.route(source);
    assert forall|i: int| 0 <= i < route.len() implies route[i] != source by {}
}

/// Remote endpoints do not see each other's traffic: what comes from a remote
/// endpoint goes to the local endpoint or nowhere.
pub proof fn lemma_remote_traffic_stays_local(table: TableView, number: u64, destination: EndpointId)
    requires
        table.route(EndpointId::Remote(number)).contains(destination),
    ensures
        destination == EndpointId::Local,
{
}

/// An endpoint never goes back: whatever is done to a valid table, adding a
/// remote endpoint or taking one or all of them off, each endpoint is
/// afterwards in the state it was in or further along. The local endpoint is
/// active throughout.
pub proof fn lemma_liveness_only_advances(table: TableView, endpoint: EndpointId, lost: EndpointId)
    requires
        table.valid(),
    ensures
        table.liveness(EndpointId::Local) == Liveness::Active,
        table.liveness(endpoint).can_become(table.without(lost).liveness(endpoint)),
        table.liveness(endpoint).can_become(table.without_remotes().liveness(endpoint)),
        table.admits() is Ok ==> table.liveness(endpoint).can_become(
            table.with_new_remote().liveness(endpoint),
        ),
{
    if let EndpointId::Remote(number) = endpoint {
        if table.remotes.contains(number) {
            let i = table.remotes.index_of(number);
            assert(table.remotes[i] < table.issued);
        } else {
            lemma_without_keeps_the_others(table, lost, number);
        }
        if table.admits() is Ok {
            let after = table.with_new_remote();
            if table.remotes.contains(number) {
                let i = table.remotes.index_of(number);
                assert(after.remotes[i] == number);
            } else if number >= table.issued {
            } else {
                assert forall|k: int| 0 <= k < after.remotes.len() implies after.remotes[k]
                    != number by {}
            }
        }
    }
}

/// Taking an endpoint off the table changes nothing for the others: a remote
/// endpoint other than the one taken off is listed afterwards if and only if
/// it was listed before, and the one taken off is not listed any more.
pub proof fn lemma_without_keeps_the_others(table: TableView, lost: EndpointId, number: u64)
    requires
        table.valid(),
    ensures
        lost != EndpointId::Remote(number) ==> table.without(lost).remotes.contains(number)
            == table.remotes.contains(number),
        lost == EndpointId::Remote(number) ==> !table.without(lost).remotes.contains(number),
{
    if let EndpointId::Remote(gone) = lost {
        if table.remotes.contains(gone) {
            let at = table.remotes.index_of(gone);
            let after = table.without(lost).remotes;
            assert forall|i: int| 0 <= i < after.len() implies #[trigger] after[i]
                == table.remotes[if i < at {
                i
            } else {
                i + 1
            }] by {}
            if gone != number && table.remotes.contains(number) {
                let i = table.remotes.index_of(number);
                let j = if i < at { i } else { i - 1 };
                assert(after[j] == number);
            }
            if after.contains(number) {
                let j = after.index_of(number);
                let i = if j < at { j } else { j + 1 };
                assert(table.remotes[i] == number);
                assert(table.remotes.contains(number));
                if gone == number {
                    assert(table.remotes[at] == table.remotes[i]);
                }
            }
        }
    }
}

/// A new endpoint is a new entity: the identity that a table gives out next
/// belongs to no endpoint yet, neither an active nor a closed one, and is
/// active once given out.
pub proof fn lemma_new_remote_is_new(table: TableView)
    requires
        table.valid(),
        table.admits() is Ok,
    ensures
        table.liveness(EndpointId::Remote(table.issued as u64)) == Liveness::Connecting,
        table.with_new_remote().liveness(EndpointId::Remote(table.issued as u64))
            == Liveness::Active,
        table.with_new_remote().valid(),
{
    lemma_register_keeps_valid(table);
    let after = table.with_new_remote();
    assert(after.remotes[table.remotes.len() as int] == table.issued as u64);
    if table.remotes.contains(table.issued as u64) {
        let i = table.remotes.index_of(table.issued as u64);
        assert(table.remotes[i] < table.issued);
    }
}

/// Broadcast isolation: losing one remote endpoint takes nothing from the
/// others. After an endpoint is taken off a valid table, what comes from the
/// local endpoint goes to exactly the other remote endpoints that it went to
/// before, in the same order, and each of them is still active.
pub proof fn lemma_broadcast_isolation(table: TableView, lost: u64, other: u64)
    requires
        table.valid(),
        table.remotes.contains(lost),
    ensures
        table.without(EndpointId::Remote(lost)).valid(),
        table.without(EndpointId::Remote(lost)).route(EndpointId::Local) == table.route(
            EndpointId::Local,
        ).remove(table.remotes.index_of(lost)),
        !table.without(EndpointId::Remote(lost)).route(EndpointId::Local).contains(
            EndpointId::Remote(lost),
        ),
        other != lost && table.remotes.contains(other) ==> table.without(
            EndpointId::Remote(lost),
        ).route(EndpointId::Local).contains(EndpointId::Remote(other)) && table.without(
            EndpointId::Remote(lost),
        ).liveness(EndpointId::Remote(other)) == Liveness::Active,
{
    let gone = EndpointId::Remote(lost);
    let after = table.without(gone);
    lemma_deregister_keeps_valid(table, gone);
    lemma_without_keeps_the_others(table, gone, other);
    lemma_without_keeps_the_others(table, gone, lost);
    assert(after.route(EndpointId::Local) =~= table.route(EndpointId::Local).remove(
        table.remotes.index_of(lost),
    ));
    lemma_route_lists_the_remotes(after, lost);
    lemma_route_lists_the_remotes(after, other);
}

/// No endpoint is named twice as a destination: a message goes to each
/// endpoint once at most.
pub proof fn lemma_route_names_nobody_twice(table: TableView, source: EndpointId)
    requires
        table.valid(),
    ensures
        table.route(source).no_duplicates(),
{
    let route = table.route(source);
    assert forall|i: int, j: int|
        0 <= i < route.len() && 0 <= j < route.len() && i != j implies route[i] != route[j] by {
        if source == EndpointId::Local {
            assert(table.remotes[i] != table.remotes[j]);
        }
    }
}

/// What comes from the local endpoint goes to a remote endpoint if and only if
/// that endpoint is listed.
pub proof fn lemma_route_lists_the_remotes(table: TableView, number: u64)
    ensures
        table.route(EndpointId::Local).contains(EndpointId::Remote(number))
            == table.remotes.contains(number),
{
    let route = table.route(EndpointId::Local);
    if table.remotes.contains(number) {
        let i = table.remotes.index_of(number);
        assert(route[i] == EndpointId::Remote(number));
    }
    if route.contains(EndpointId::Remote(number)) {
        let i = route.index_of(EndpointId::Remote(number));
        assert(table.remotes[i] == number);
    }
}

} // verus!
