//! The registry's two tables and the operations on them.

use crate::error::GatewayError;
use crate::ident::{BackendAddress, BackendModel, ClientId};
use crate::message::{frames_view, Frame, FrameModel, Message};
use crate::registry::model::{
    Deregistration, Inbound, PollerDirective, RegistrationHandle, RegistrationModel, RegistryModel,
};
use vstd::prelude::*;

verus! {

/// One client's registration as the registry keeps it.
pub(crate) struct Registration {
    client: ClientId,
    backend: BackendAddress,
    capacity: usize,
    inbox: Vec<Frame>,
    overflowed: bool,
    last_delivered: u64,
}

impl Registration {
    spec fn model(&self) -> RegistrationModel {
        RegistrationModel {
            backend: self.backend@,
            capacity: self.capacity as nat,
            inbox: frames_view(self.inbox@),
            overflowed: self.overflowed,
            last_delivered: self.last_delivered as nat,
        }
    }
}

/// Whether one of `regs` belongs to `client`.
spec fn holds(regs: Seq<Registration>, client: Seq<u8>) -> bool {
    exists|i: int| 0 <= i < regs.len() && (#[trigger] regs[i]).client@ == client
}

/// The place of `client`'s registration among `regs`.
spec fn place(regs: Seq<Registration>, client: Seq<u8>) -> int {
    choose|i: int| 0 <= i < regs.len() && (#[trigger] regs[i]).client@ == client
}

/// Whether one of `regs` is registered with `backend`.
spec fn serves(regs: Seq<Registration>, backend: BackendModel) -> bool {
    exists|i: int| 0 <= i < regs.len() && (#[trigger] regs[i]).backend@ == backend
}

/// Whether `backend` is among `pollers`.
spec fn listed(pollers: Seq<BackendAddress>, backend: BackendModel) -> bool {
    exists|j: int| 0 <= j < pollers.len() && (#[trigger] pollers[j])@ == backend
}

spec fn distinct_clients(regs: Seq<Registration>) -> bool {
    forall|i: int, j: int|
        0 <= i < j < regs.len() ==> (#[trigger] regs[i]).client@ != (#[trigger] regs[j]).client@
}

spec fn distinct_backends(pollers: Seq<BackendAddress>) -> bool {
    forall|i: int, j: int|
        0 <= i < j < pollers.len() ==> (#[trigger] pollers[i])@ != (#[trigger] pollers[j])@
}

spec fn clients_model(regs: Seq<Registration>) -> Map<Seq<u8>, RegistrationModel> {
    Map::new(|c: Seq<u8>| holds(regs, c), |c: Seq<u8>| regs[place(regs, c)].model())
}

spec fn pollers_model(pollers: Seq<BackendAddress>) -> Set<BackendModel> {
    Set::new(|b: BackendModel| listed(pollers, b))
}

/// The two tables of the registry.
pub(crate) struct Tables {
    registrations: Vec<Registration>,
    pollers: Vec<BackendAddress>,
}

impl Tables {
    pub(crate) closed spec fn wf(&self) -> bool {
        &&& distinct_clients(self.registrations@)
        &&& distinct_backends(self.pollers@)
        &&& forall|i: int|
            0 <= i < self.registrations.len() ==> listed(
                self.pollers@,
                (#[trigger] self.registrations@[i]).backend@,
            )
        &&& forall|j: int|
            0 <= j < self.pollers.len() ==> serves(
                self.registrations@,
                (#[trigger] self.pollers@[j])@,
            )
        &&& forall|i: int|
            0 <= i < self.registrations.len() ==> (#[trigger] self.registrations@[i]).inbox.len()
                <= self.registrations@[i].capacity
    }

    pub(crate) closed spec fn model(&self) -> RegistryModel {
        RegistryModel {
            clients: clients_model(self.registrations@),
            pollers: pollers_model(self.pollers@),
        }
    }
}

/// With distinct clients, a registration found at `i` is the one that the
/// model speaks of.
proof fn lemma_place(regs: Seq<Registration>, i: int)
    requires
        distinct_clients(regs),
        0 <= i < regs.len(),
    ensures
        holds(regs, regs[i].client@),
        place(regs, regs[i].client@) == i,
        clients_model(regs).contains_key(regs[i].client@),
        clients_model(regs)[regs[i].client@] == regs[i].model(),
{
    let c = regs[i].client@;
    assert(holds(regs, c));
    let p = place(regs, c);
    assert(0 <= p < regs.len() && regs[p].client@ == c);
    if p < i {
        assert(regs[p].client@ != regs[i].client@);
    } else if i < p {
        assert(regs[i].client@ != regs[p].client@);
    }
}

/// The clients of a list of registrations are finitely many.
proof fn lemma_clients_finite(regs: Seq<Registration>)
    ensures
        clients_model(regs).dom().finite(),
    decreases regs.len(),
{
    if regs.len() == 0 {
        assert(clients_model(regs).dom() =~= Set::<Seq<u8>>::empty());
    } else {
        let front = regs.drop_last();
        let last = regs.last();
        lemma_clients_finite(front);
        assert forall|c: Seq<u8>| #[trigger]
            clients_model(regs).dom().contains(c) <==> clients_model(front).dom().insert(
                last.client@,
            ).contains(c) by {
            if holds(regs, c) {
                let i = place(regs, c);
                if i < regs.len() - 1 {
                    assert(front[i].client@ == c);
                }
            }
            if holds(front, c) {
                let i = place(front, c);
                assert(regs[i].client@ == c);
            }
            if c == last.client@ {
                assert(regs[regs.len() - 1].client@ == c);
            }
        }
        assert(clients_model(regs).dom() =~= clients_model(front).dom().insert(last.client@));
    }
}

/// The tables' invariant gives the model's.
pub(crate) proof fn lemma_model_wf(t: Tables)
    requires
        t.wf(),
    ensures
        t.model().wf(),
{
    let m = t.model();
    let regs = t.registrations@;
    lemma_clients_finite(regs);
    assert forall|b: BackendModel| #[trigger] m.pollers.contains(b) <==> m.in_use(b) by {
        if m.pollers.contains(b) {
            let j = choose|j: int| 0 <= j < t.pollers.len() && (#[trigger] t.pollers@[j])@ == b;
            assert(serves(regs, t.pollers@[j]@));
            let i = choose|i: int| 0 <= i < regs.len() && (#[trigger] regs[i]).backend@ == b;
            lemma_place(regs, i);
            assert(m.clients.contains_key(regs[i].client@) && m.clients[regs[i].client@].backend
                == b);
        }
        if m.in_use(b) {
            let c = choose|c: Seq<u8>| #[trigger]
                m.clients.contains_key(c) && m.clients[c].backend == b;
            let i = place(regs, c);
            lemma_place(regs, i);
            assert(listed(t.pollers@, regs[i].backend@));
        }
    }
    assert forall|c: Seq<u8>| #[trigger] m.clients.contains_key(c) implies m.clients[c].inbox.len()
        <= m.clients[c].capacity by {
        let i = place(regs, c);
        lemma_place(regs, i);
    }
}


/// Appending a registration of a new client inserts it into the model.
proof fn lemma_clients_push(regs: Seq<Registration>, r: Registration)
    requires
        distinct_clients(regs),
        !holds(regs, r.client@),
    ensures
        distinct_clients(regs.push(r)),
        clients_model(regs.push(r)) == clients_model(regs).insert(r.client@, r.model()),
{
    let after = regs.push(r);
    let last = regs.len() as int;
    assert forall|i: int, j: int| 0 <= i < j < after.len() implies (#[trigger] after[i]).client@ != (
    #[trigger] after[j]).client@ by {
        if j == last {
            assert(regs[i].client@ != r.client@);
        } else {
            assert(regs[i].client@ != regs[j].client@);
        }
    }
    let target = clients_model(regs).insert(r.client@, r.model());
    assert forall|c: Seq<u8>| #[trigger]
        clients_model(after).contains_key(c) <==> target.contains_key(c) by {
        if holds(after, c) {
            let i = place(after, c);
            if i < last {
                assert(regs[i].client@ == c);
            }
        }
        if holds(regs, c) {
            let i = place(regs, c);
            assert(after[i].client@ == c);
        }
        if c == r.client@ {
            assert(after[last].client@ == c);
        }
    }
    assert forall|c: Seq<u8>| #[trigger] clients_model(after).contains_key(c) implies clients_model(
        after,
    )[c] == target[c] by {
        let i = place(after, c);
        lemma_place(after, i);
        if i < last {
            assert(regs[i] == after[i]);
            lemma_place(regs, i);
        }
    }
    assert(clients_model(after) =~= target);
}

/// Taking a registration out removes its client from the model.
proof fn lemma_clients_remove(regs: Seq<Registration>, at: int)
    requires
        distinct_clients(regs),
        0 <= at < regs.len(),
    ensures
        distinct_clients(regs.remove(at)),
        !holds(regs.remove(at), regs[at].client@),
        clients_model(regs.remove(at)) == clients_model(regs).remove(regs[at].client@),
{
    let after = regs.remove(at);
    let gone = regs[at].client@;
    assert forall|i: int| 0 <= i < after.len() implies (#[trigger] after[i]) == regs[if i < at {
        i
    } else {
        i + 1
    }] by {}
    assert forall|i: int, j: int| 0 <= i < j < after.len() implies (#[trigger] after[i]).client@ != (
    #[trigger] after[j]).client@ by {
        let oi = if i < at { i } else { i + 1 };
        let oj = if j < at { j } else { j + 1 };
        assert(regs[oi].client@ != regs[oj].client@);
    }
    if holds(after, gone) {
        let i = place(after, gone);
        let oi = if i < at { i } else { i + 1 };
        if oi < at {
            assert(regs[oi].client@ != regs[at].client@);
        } else {
            assert(regs[at].client@ != regs[oi].client@);
        }
    }
    let target = clients_model(regs).remove(gone);
    assert forall|c: Seq<u8>| #[trigger]
        clients_model(after).contains_key(c) <==> target.contains_key(c) by {
        if holds(after, c) {
            let i = place(after, c);
            let oi = if i < at { i } else { i + 1 };
            assert(regs[oi].client@ == c);
        }
        if holds(regs, c) && c != gone {
            let i = place(regs, c);
            let ni = if i < at { i } else { i - 1 };
            assert(after[ni].client@ == c);
        }
    }
    assert forall|c: Seq<u8>| #[trigger] clients_model(after).contains_key(c) implies clients_model(
        after,
    )[c] == target[c] by {
        let i = place(after, c);
        lemma_place(after, i);
        let oi = if i < at { i } else { i + 1 };
        assert(after[i] == regs[oi]);
        lemma_place(regs, oi);
    }
    assert(clients_model(after) =~= target);
}

/// Replacing a registration by another of the same client replaces it in
/// the model.
proof fn lemma_clients_update(regs: Seq<Registration>, at: int, r: Registration)
    requires
        distinct_clients(regs),
        0 <= at < regs.len(),
        r.client@ == regs[at].client@,
    ensures
        distinct_clients(regs.update(at, r)),
        clients_model(regs.update(at, r)) == clients_model(regs).insert(r.client@, r.model()),
{
    let after = regs.update(at, r);
    assert forall|i: int, j: int| 0 <= i < j < after.len() implies (#[trigger] after[i]).client@ != (
    #[trigger] after[j]).client@ by {
        assert(regs[i].client@ != regs[j].client@);
    }
    let target = clients_model(regs).insert(r.client@, r.model());
    assert forall|c: Seq<u8>| #[trigger]
        clients_model(after).contains_key(c) <==> target.contains_key(c) by {
        if holds(after, c) {
            let i = place(after, c);
            assert(regs[i].client@ == c);
        }
        if holds(regs, c) {
            let i = place(regs, c);
            assert(after[i].client@ == c);
        }
        if c == r.client@ {
            assert(after[at].client@ == c);
        }
    }
    assert forall|c: Seq<u8>| #[trigger] clients_model(after).contains_key(c) implies clients_model(
        after,
    )[c] == target[c] by {
        let i = place(after, c);
        lemma_place(after, i);
        if i != at {
            assert(regs[i] == after[i]);
            lemma_place(regs, i);
        }
    }
    assert(clients_model(after) =~= target);
}

/// Appending a backend inserts it into the set of pollers.
proof fn lemma_pollers_push(pollers: Seq<BackendAddress>, b: BackendAddress)
    requires
        distinct_backends(pollers),
        !listed(pollers, b@),
    ensures
        distinct_backends(pollers.push(b)),
        pollers_model(pollers.push(b)) == pollers_model(pollers).insert(b@),
{
    let after = pollers.push(b);
    let last = pollers.len() as int;
    assert forall|i: int, j: int| 0 <= i < j < after.len() implies (#[trigger] after[i])@ != (
    #[trigger] after[j])@ by {
        if j == last {
            assert(pollers[i]@ != b@);
        } else {
            assert(pollers[i]@ != pollers[j]@);
        }
    }
    assert forall|x: BackendModel| #[trigger]
        pollers_model(after).contains(x) <==> pollers_model(pollers).insert(b@).contains(x) by {
        if listed(after, x) {
            let j = choose|j: int| 0 <= j < after.len() && (#[trigger] after[j])@ == x;
            if j < last {
                assert(pollers[j]@ == x);
            }
        }
        if listed(pollers, x) {
            let j = choose|j: int| 0 <= j < pollers.len() && (#[trigger] pollers[j])@ == x;
            assert(after[j]@ == x);
        }
        if x == b@ {
            assert(after[last]@ == x);
        }
    }
    assert(pollers_model(after) =~= pollers_model(pollers).insert(b@));
}

/// Taking a backend out removes it from the set of pollers.
proof fn lemma_pollers_remove(pollers: Seq<BackendAddress>, at: int)
    requires
        distinct_backends(pollers),
        0 <= at < pollers.len(),
    ensures
        distinct_backends(pollers.remove(at)),
        pollers_model(pollers.remove(at)) == pollers_model(pollers).remove(pollers[at]@),
{
    let after = pollers.remove(at);
    let gone = pollers[at]@;
    assert forall|i: int| 0 <= i < after.len() implies (#[trigger] after[i]) == pollers[if i < at {
        i
    } else {
        i + 1
    }] by {}
    assert forall|i: int, j: int| 0 <= i < j < after.len() implies (#[trigger] after[i])@ != (
    #[trigger] after[j])@ by {
        let oi = if i < at { i } else { i + 1 };
        let oj = if j < at { j } else { j + 1 };
        assert(pollers[oi]@ != pollers[oj]@);
    }
    assert forall|x: BackendModel| #[trigger]
        pollers_model(after).contains(x) <==> pollers_model(pollers).remove(gone).contains(x) by {
        if listed(after, x) {
            let j = choose|j: int| 0 <= j < after.len() && (#[trigger] after[j])@ == x;
            let oj = if j < at { j } else { j + 1 };
            assert(pollers[oj]@ == x);
            if oj < at {
                assert(pollers[oj]@ != pollers[at]@);
            } else {
                assert(pollers[at]@ != pollers[oj]@);
            }
        }
        if listed(pollers, x) && x != gone {
            let j = choose|j: int| 0 <= j < pollers.len() && (#[trigger] pollers[j])@ == x;
            let nj = if j < at { j } else { j - 1 };
            assert(after[nj]@ == x);
        }
    }
    assert(pollers_model(after) =~= pollers_model(pollers).remove(gone));
}

impl Tables {
    pub(crate) fn new() -> (t: Tables)
        ensures
            t.wf(),
            t.model() == RegistryModel::empty(),
    {
        let t = Tables { registrations: Vec::new(), pollers: Vec::new() };
        assert(t.model().clients =~= Map::<Seq<u8>, RegistrationModel>::empty());
        assert(t.model().pollers =~= Set::<BackendModel>::empty());
        t
    }

    /// Where `client`'s registration stands, if it has one.
    fn find(&self, client: &ClientId) -> (found: Option<usize>)
        requires
            self.wf(),
        ensures
            match found {
                Some(i) => i < self.registrations.len() && self.registrations@[i as int].client@
                    == client@ && self.model().is_registered(client@) && self.model().clients[client@]
                    == self.registrations@[i as int].model(),
                None => !self.model().is_registered(client@),
            },
    {
        let mut i: usize = 0;
        while i < self.registrations.len()
            invariant
                self.wf(),
                i <= self.registrations.len(),
                forall|k: int| 0 <= k < i ==> (#[trigger] self.registrations@[k]).client@ != client@,
            decreases self.registrations.len() - i,
        {
            if self.registrations[i].client.same(client) {
                proof {
                    lemma_place(self.registrations@, i as int);
                }
                return Some(i);
            }
            i += 1;
        }
        None
    }

    /// Where `backend` stands among the pollers, if it has one.
    fn find_poller(&self, backend: &BackendAddress) -> (found: Option<usize>)
        ensures
            match found {
                Some(j) => j < self.pollers.len() && self.pollers@[j as int]@ == backend@,
                None => !self.model().has_poller(backend@),
            },
    {
        let mut j: usize = 0;
        while j < self.pollers.len()
            invariant
                j <= self.pollers.len(),
                forall|k: int| 0 <= k < j ==> (#[trigger] self.pollers@[k])@ != backend@,
            decreases self.pollers.len() - j,
        {
            if self.pollers[j].same(backend) {
                return Some(j);
            }
            j += 1;
        }
        None
    }

    /// Whether some client is registered with `backend`.
    fn is_served(&self, backend: &BackendAddress) -> (served: bool)
        ensures
            served == serves(self.registrations@, backend@),
    {
        let mut i: usize = 0;
        while i < self.registrations.len()
            invariant
                i <= self.registrations.len(),
                forall|k: int|
                    0 <= k < i ==> (#[trigger] self.registrations@[k]).backend@ != backend@,
            decreases self.registrations.len() - i,
        {
            if self.registrations[i].backend.same(backend) {
                return true;
            }
            i += 1;
        }
        false
    }

    /// Gives up the tables and hands out the backends that had a poller.
    pub(crate) fn into_pollers(self) -> (pollers: Vec<BackendAddress>)
        requires
            self.wf(),
        ensures
            forall|i: int, j: int|
                0 <= i < j < pollers.len() ==> (#[trigger] pollers@[i])@ != (#[trigger] pollers@[j])@,
            forall|b: BackendModel|
                self.model().has_poller(b) <==> exists|j: int|
                    0 <= j < pollers.len() && (#[trigger] pollers@[j])@ == b,
    {
        self.pollers
    }

    pub(crate) fn is_registered(&self, client: &ClientId) -> (registered: bool)
        requires
            self.wf(),
        ensures
            registered == self.model().is_registered(client@),
    {
        self.find(client).is_some()
    }

    pub(crate) fn has_poller(&self, backend: &BackendAddress) -> (has: bool)
        ensures
            has == self.model().has_poller(backend@),
    {
        match self.find_poller(backend) {
            Some(j) => {
                assert(listed(self.pollers@, self.pollers@[j as int]@));
                true
            },
            None => false,
        }
    }

    pub(crate) fn last_delivered(&self, client: &ClientId) -> (last: Option<u64>)
        requires
            self.wf(),
        ensures
            match last {
                Some(n) => self.model().is_registered(client@) && n
                    == self.model().clients[client@].last_delivered,
                None => !self.model().is_registered(client@),
            },
    {
        match self.find(client) {
            Some(at) => Some(self.registrations[at].last_delivered),
            None => None,
        }
    }

    pub(crate) fn backend_of(&self, client: &ClientId) -> (backend: Option<BackendAddress>)
        requires
            self.wf(),
        ensures
            match backend {
                Some(b) => self.model().is_registered(client@) && b@
                    == self.model().clients[client@].backend,
                None => !self.model().is_registered(client@),
            },
    {
        match self.find(client) {
            Some(at) => Some(self.registrations[at].backend.duplicate()),
            None => None,
        }
    }

    pub(crate) fn register(&mut self, client: ClientId, backend: BackendAddress, capacity: usize) -> (r:
        Result<RegistrationHandle, GatewayError>)
        requires
            old(self).wf(),
        ensures
            final(self).wf(),
            final(self).model() == old(self).model().register(client@, backend@, capacity as nat),
            old(self).model().is_registered(client@) ==> r == Err::<RegistrationHandle, GatewayError>(
                GatewayError::AlreadyRegistered,
            ),
            !old(self).model().is_registered(client@) ==> r is Ok && r->Ok_0.client@ == client@
                && r->Ok_0.backend@ == backend@ && r->Ok_0.poller == (if old(
                self,
            ).model().has_poller(backend@) {
                PollerDirective::Reuse
            } else {
                PollerDirective::Start
            }),
    {
        if self.find(&client).is_some() {
            return Err(GatewayError::AlreadyRegistered);
        }
        let known = self.find_poller(&backend).is_some();
        let handle = RegistrationHandle {
            client: client.duplicate(),
            backend: backend.duplicate(),
            poller: if known {
                PollerDirective::Reuse
            } else {
                PollerDirective::Start
            },
        };
        if !known {
            self.pollers.push(backend.duplicate());
        }
        let registration = Registration {
            client,
            backend,
            capacity,
            inbox: Vec::new(),
            overflowed: false,
            last_delivered: 0,
        };
        self.registrations.push(registration);
        proof {
            let regs0 = old(self).registrations@;
            let regs1 = self.registrations@;
            let last = regs1.len() - 1;
            assert(regs1 == regs0.push(regs1[last]));
            assert(frames_view(regs1[last].inbox@) =~= Seq::<FrameModel>::empty());
            assert(regs1[last].model() == RegistrationModel::fresh(backend@, capacity as nat));
            lemma_clients_push(regs0, regs1[last]);
            if known {
                assert(pollers_model(self.pollers@) =~= pollers_model(self.pollers@).insert(
                    backend@,
                ));
            } else {
                assert(self.pollers@ == old(self).pollers@.push(
                    self.pollers@[self.pollers.len() - 1],
                ));
                lemma_pollers_push(old(self).pollers@, self.pollers@[self.pollers.len() - 1]);
            }
            assert forall|i: int| 0 <= i < regs1.len() implies listed(
                self.pollers@,
                (#[trigger] regs1[i]).backend@,
            ) by {
                let b = regs1[i].backend@;
                if i < last {
                    assert(listed(old(self).pollers@, regs0[i].backend@));
                }
                assert(pollers_model(old(self).pollers@).insert(backend@).contains(b));
                assert(pollers_model(self.pollers@).contains(b));
            }
            assert forall|j: int| 0 <= j < self.pollers.len() implies serves(
                regs1,
                (#[trigger] self.pollers@[j])@,
            ) by {
                if j < old(self).pollers.len() {
                    assert(serves(regs0, old(self).pollers@[j]@));
                    let i = choose|i: int|
                        0 <= i < regs0.len() && (#[trigger] regs0[i]).backend@ == old(
                            self,
                        ).pollers@[j]@;
                    assert(regs1[i].backend@ == self.pollers@[j]@);
                } else {
                    assert(regs1[last].backend@ == self.pollers@[j]@);
                }
            }
            assert forall|i: int| 0 <= i < regs1.len() implies (#[trigger] regs1[i]).inbox.len()
                <= regs1[i].capacity by {
                if i < last {
                    assert(regs0[i].inbox.len() <= regs0[i].capacity);
                }
            }
        }
        Ok(handle)
    }
}


/// A backend is in use, in the model, exactly if a registration names it.
proof fn lemma_in_use(regs: Seq<Registration>, pollers: Set<BackendModel>, b: BackendModel)
    requires
        distinct_clients(regs),
    ensures
        (RegistryModel { clients: clients_model(regs), pollers }).in_use(b) <==> serves(regs, b),
{
    let m = RegistryModel { clients: clients_model(regs), pollers };
    if m.in_use(b) {
        let c = choose|c: Seq<u8>| #[trigger] m.clients.contains_key(c) && m.clients[c].backend == b;
        let i = place(regs, c);
        lemma_place(regs, i);
        assert(regs[i].backend@ == b);
    }
    if serves(regs, b) {
        let i = choose|i: int| 0 <= i < regs.len() && (#[trigger] regs[i]).backend@ == b;
        lemma_place(regs, i);
        assert(m.clients.contains_key(regs[i].client@) && m.clients[regs[i].client@].backend == b);
    }
}

impl Tables {
    pub(crate) fn deregister(&mut self, client: &ClientId) -> (done: Deregistration)
        requires
            old(self).wf(),
        ensures
            final(self).wf(),
            final(self).model() == old(self).model().deregister(client@),
            match done {
                Deregistration::NotRegistered => !old(self).model().is_registered(client@),
                Deregistration::Removed { backend, stop_poller } => {
                    &&& old(self).model().is_registered(client@)
                    &&& backend@ == old(self).model().clients[client@].backend
                    &&& stop_poller == old(self).model().is_last_client(client@)
                },
            },
    {
        let at = match self.find(client) {
            Some(at) => at,
            None => {
                return Deregistration::NotRegistered;
            },
        };
        let gone = self.registrations.remove(at);
        let served = self.is_served(&gone.backend);
        proof {
            lemma_clients_remove(old(self).registrations@, at as int);
            lemma_in_use(self.registrations@, old(self).model().pollers, gone.backend@);
        }
        if !served {
            match self.find_poller(&gone.backend) {
                Some(j) => {
                    self.pollers.remove(j);
                    proof {
                        lemma_pollers_remove(old(self).pollers@, j as int);
                    }
                },
                None => {
                    proof {
                        assert(listed(old(self).pollers@, old(self).registrations@[at as int].backend@));
                        assert(false);
                    }
                },
            }
        }
        proof {
            let regs0 = old(self).registrations@;
            let regs1 = self.registrations@;
            let b = gone.backend@;
            assert forall|i: int| 0 <= i < regs1.len() implies (#[trigger] regs1[i]) == regs0[if i
                < at {
                i
            } else {
                i + 1
            }] by {}
            assert forall|i: int| 0 <= i < regs1.len() implies listed(
                self.pollers@,
                (#[trigger] regs1[i]).backend@,
            ) by {
                let oi = if i < at { i } else { i + 1 };
                assert(listed(old(self).pollers@, regs0[oi].backend@));
                assert(pollers_model(old(self).pollers@).contains(regs1[i].backend@));
                if !served {
                    assert(regs1[i].backend@ != b);
                }
                assert(pollers_model(self.pollers@).contains(regs1[i].backend@));
            }
            assert forall|j: int| 0 <= j < self.pollers.len() implies serves(
                regs1,
                (#[trigger] self.pollers@[j])@,
            ) by {
                let x = self.pollers@[j]@;
                assert(pollers_model(self.pollers@).contains(x));
                assert(pollers_model(old(self).pollers@).contains(x));
                let oj = choose|oj: int|
                    0 <= oj < old(self).pollers.len() && (#[trigger] old(self).pollers@[oj])@ == x;
                assert(serves(regs0, old(self).pollers@[oj]@));
                let oi = choose|oi: int| 0 <= oi < regs0.len() && (#[trigger] regs0[oi]).backend@ == x;
                if oi == at {
                    assert(x == b);
                    assert(served);
                } else {
                    let i = if oi < at { oi } else { oi - 1 };
                    assert(regs1[i].backend@ == x);
                }
            }
            assert forall|i: int| 0 <= i < regs1.len() implies (#[trigger] regs1[i]).inbox.len()
                <= regs1[i].capacity by {
                let oi = if i < at { i } else { i + 1 };
                assert(regs0[oi].inbox.len() <= regs0[oi].capacity);
            }
        }
        Deregistration::Removed { backend: gone.backend, stop_poller: !served }
    }

    pub(crate) fn route(&mut self, message: Message) -> (r: Result<(), GatewayError>)
        requires
            old(self).wf(),
        ensures
            final(self).wf(),
            final(self).model() == old(self).model().route(message@),
            r == old(self).model().route_result(message@),
    {
        let at = match self.find(&message.client) {
            Some(at) => at,
            None => {
                return Err(GatewayError::UnknownClient);
            },
        };
        let fits = self.registrations[at].inbox.len() < self.registrations[at].capacity;
        if fits {
            let frame = Frame { sequence: message.sequence, payload: message.payload };
            if frame.sequence > self.registrations[at].last_delivered {
                self.registrations[at].last_delivered = frame.sequence;
            }
            self.registrations[at].inbox.push(frame);
        } else {
            self.registrations[at].overflowed = true;
        }
        proof {
            let regs0 = old(self).registrations@;
            let regs1 = self.registrations@;
            assert(regs1 =~= regs0.update(at as int, regs1[at as int]));
            if fits {
                assert(frames_view(regs1[at as int].inbox@) =~= frames_view(
                    regs0[at as int].inbox@,
                ).push(message@.frame()));
            }
            assert(regs1[at as int].model() == regs0[at as int].model().offer(message@.frame()));
            lemma_clients_update(regs0, at as int, regs1[at as int]);
            lemma_same_backends(regs0, regs1, self.pollers@);
        }
        if fits {
            Ok(())
        } else {
            Err(GatewayError::SlowConsumer)
        }
    }

    pub(crate) fn take(&mut self, client: &ClientId) -> (next: Inbound)
        requires
            old(self).wf(),
        ensures
            final(self).wf(),
            final(self).model() == old(self).model().take(client@),
            next@ == old(self).model().next_inbound(client@),
    {
        let at = match self.find(client) {
            Some(at) => at,
            None => {
                return Inbound::Unregistered;
            },
        };
        if self.registrations[at].overflowed {
            return Inbound::Overflowed;
        }
        if self.registrations[at].inbox.len() == 0 {
            return Inbound::Empty;
        }
        let frame = self.registrations[at].inbox.remove(0);
        proof {
            let regs0 = old(self).registrations@;
            let regs1 = self.registrations@;
            assert(regs1 =~= regs0.update(at as int, regs1[at as int]));
            assert(frames_view(regs1[at as int].inbox@) =~= frames_view(
                regs0[at as int].inbox@,
            ).drop_first());
            lemma_clients_update(regs0, at as int, regs1[at as int]);
            lemma_same_backends(regs0, regs1, self.pollers@);
        }
        Inbound::Frame(frame)
    }

    pub(crate) fn snapshot(&self, backend: &BackendAddress) -> (clients: Vec<ClientId>)
        requires
            self.wf(),
        ensures
            forall|i: int, j: int|
                0 <= i < j < clients.len() ==> (#[trigger] clients@[i])@ != (#[trigger] clients@[j])@,
            forall|c: Seq<u8>|
                self.model().clients_of(backend@).contains(c) <==> exists|i: int|
                    0 <= i < clients.len() && (#[trigger] clients@[i])@ == c,
    {
        let mut clients: Vec<ClientId> = Vec::new();
        let ghost mut origin: Seq<int> = Seq::empty();
        let mut i: usize = 0;
        while i < self.registrations.len()
            invariant
                self.wf(),
                i <= self.registrations.len(),
                origin.len() == clients.len(),
                forall|k: int|
                    0 <= k < clients.len() ==> 0 <= (#[trigger] origin[k]) < i && clients@[k]@
                        == self.registrations@[origin[k]].client@ && self.registrations@[origin[k]].backend@
                        == backend@,
                forall|k: int, l: int| 0 <= k < l < clients.len() ==> origin[k] < origin[l],
                forall|r: int|
                    0 <= r < i && (#[trigger] self.registrations@[r]).backend@ == backend@
                        ==> exists|k: int| 0 <= k < clients.len() && (#[trigger] clients@[k])@
                        == self.registrations@[r].client@,
            decreases self.registrations.len() - i,
        {
            if self.registrations[i].backend.same(backend) {
                let ghost before = clients@;
                clients.push(self.registrations[i].client.duplicate());
                proof {
                    origin = origin.push(i as int);
                    assert forall|r: int|
                        0 <= r < i + 1 && (#[trigger] self.registrations@[r]).backend@
                            == backend@ implies exists|k: int|
                        0 <= k < clients.len() && (#[trigger] clients@[k])@
                            == self.registrations@[r].client@ by {
                        if r < i {
                            let k = choose|k: int|
                                0 <= k < before.len() && (#[trigger] before[k])@
                                    == self.registrations@[r].client@;
                            assert(clients@[k]@ == self.registrations@[r].client@);
                        } else {
                            assert(clients@[clients.len() - 1]@ == self.registrations@[r].client@);
                        }
                    }
                }
            }
            i += 1;
        }
        proof {
            let regs = self.registrations@;
            assert forall|k: int, l: int| 0 <= k < l < clients.len() implies (#[trigger] clients@[k])@
                != (#[trigger] clients@[l])@ by {
                assert(origin[k] < origin[l]);
                assert(regs[origin[k]].client@ != regs[origin[l]].client@);
            }
            assert forall|c: Seq<u8>|
                self.model().clients_of(backend@).contains(c) <==> exists|k: int|
                    0 <= k < clients.len() && (#[trigger] clients@[k])@ == c by {
                if self.model().clients_of(backend@).contains(c) {
                    let r = place(regs, c);
                    lemma_place(regs, r);
                    assert(regs[r].backend@ == backend@);
                }
                if exists|k: int| 0 <= k < clients.len() && (#[trigger] clients@[k])@ == c {
                    let k = choose|k: int| 0 <= k < clients.len() && (#[trigger] clients@[k])@ == c;
                    lemma_place(regs, origin[k]);
                }
            }
        }
        clients
    }
}

/// Registrations that name the same backends, place by place, keep the
/// tables' invariant on the side of the pollers.
proof fn lemma_same_backends(
    regs0: Seq<Registration>,
    regs1: Seq<Registration>,
    pollers: Seq<BackendAddress>,
)
    requires
        regs0.len() == regs1.len(),
        forall|i: int| 0 <= i < regs0.len() ==> (#[trigger] regs0[i]).backend@ == regs1[i].backend@,
        forall|i: int| 0 <= i < regs0.len() ==> listed(pollers, (#[trigger] regs0[i]).backend@),
        forall|j: int| 0 <= j < pollers.len() ==> serves(regs0, (#[trigger] pollers[j])@),
    ensures
        forall|i: int| 0 <= i < regs1.len() ==> listed(pollers, (#[trigger] regs1[i]).backend@),
        forall|j: int| 0 <= j < pollers.len() ==> serves(regs1, (#[trigger] pollers[j])@),
{
    assert forall|i: int| 0 <= i < regs1.len() implies listed(
        pollers,
        (#[trigger] regs1[i]).backend@,
    ) by {
        assert(listed(pollers, regs0[i].backend@));
    }
    assert forall|j: int| 0 <= j < pollers.len() implies serves(regs1, (#[trigger] pollers[j])@) by {
        assert(serves(regs0, pollers[j]@));
        let i = choose|i: int| 0 <= i < regs0.len() && (#[trigger] regs0[i]).backend@ == pollers[j]@;
        assert(regs1[i].backend@ == pollers[j]@);
    }
}

} // verus!
