//! The client registry: the in-memory store of client records. It assigns
//! sequential identifiers, keeps document numbers unique, and applies credit
//! transactions to balances.

use crate::date::Date;
use vstd::prelude::*;

verus! {

/// Why a ledger operation was rejected.
#[derive(Clone, Copy, Debug, PartialEq, Eq, Structural)]
pub enum LedgerError {
    /// A registration carried a document number that a held client already has.
    DuplicateDocument,
    /// An operation named a client identifier that no held client has.
    ClientNotFound,
    /// A credit transaction carried a negative amount.
    InvalidAmount,
}

/// One account holder. All fields but `balance` are immutable after creation.
pub struct Client {
    pub id: u32,
    pub name: String,
    pub birth_date: Date,
    pub document_number: String,
    pub country: String,
    pub balance: i64,
}

/// The registry of clients. Client `id` is held at index `id - 1`, so
/// identifiers are exactly `1..=len`, assigned in creation order.
pub struct Registry {
    clients: Vec<Client>,
}

impl View for Registry {
    type V = Seq<Client>;

    closed spec fn view(&self) -> Seq<Client> {
        self.clients@
    }
}

impl Registry {
    /// Well-formedness: identifiers are the positions shifted by one, balances
    /// never go negative, birth dates are calendar days, and no two clients
    /// share a document number.
    pub open spec fn wf(self) -> bool {
        &&& forall|i: int| 0 <= i < self@.len() ==> (#[trigger] self@[i]).id == i + 1
        &&& forall|i: int| 0 <= i < self@.len() ==> (#[trigger] self@[i]).balance >= 0
        &&& forall|i: int| 0 <= i < self@.len() ==> (#[trigger] self@[i]).birth_date.wf()
        &&& forall|i: int, j: int|
            0 <= i < j < self@.len() ==> (#[trigger] self@[i]).document_number@ != (
            #[trigger] self@[j]).document_number@
    }

    /// Whether some held client carries the document number `doc`.
    pub open spec fn spec_has_document(self, doc: Seq<char>) -> bool {
        exists|i: int| 0 <= i < self@.len() && (#[trigger] self@[i]).document_number@ == doc
    }

    /// Whether `id` names a held client.
    pub open spec fn spec_contains_id(self, id: u32) -> bool {
        1 <= id <= self@.len()
    }

    /// The `(id, balance)` pair of every held client, in creation order: the
    /// state that a snapshot captures.
    pub open spec fn spec_pairs(self) -> Seq<(u32, i64)> {
        Seq::new(self@.len(), |i: int| (self@[i].id, self@[i].balance))
    }

    /// The client record that would be pushed by a successful registration.
    pub open spec fn spec_new_client(
        self,
        name: String,
        birth_date: Date,
        document_number: String,
        country: String,
    ) -> Client {
        Client {
            id: (self@.len() + 1) as u32,
            name: name,
            birth_date: birth_date,
            document_number: document_number,
            country: country,
            balance: 0,
        }
    }

    /// An empty registry, as the process starts with.
    pub fn new() -> (r: Registry)
        ensures
            r.wf(),
            r@.len() == 0,
    {
        Registry { clients: Vec::new() }
    }

    /// The number of held clients.
    pub fn len(&self) -> (r: usize)
        ensures
            r == self@.len(),
    {
        self.clients.len()
    }

    /// Registers a new client. Fails with `DuplicateDocument`, leaving the
    /// registry unchanged, exactly when a held client already carries
    /// `document_number`; otherwise assigns the next sequential identifier
    /// (the new size of the registry) and inserts the client with balance 0.
    pub fn register(
        &mut self,
        name: String,
        birth_date: Date,
        document_number: String,
        country: String,
    ) -> (r: Result<u32, LedgerError>)
        requires
            old(self).wf(),
            birth_date.wf(),
            old(self)@.len() < u32::MAX,
        ensures
            final(self).wf(),
            old(self).spec_has_document(document_number@) ==> r == Err::<u32, LedgerError>(
                LedgerError::DuplicateDocument,
            ) && final(self)@ == old(self)@,
            !old(self).spec_has_document(document_number@) ==> {
                &&& r == Ok::<u32, LedgerError>((old(self)@.len() + 1) as u32)
                &&& final(self)@ == old(self)@.push(
                    old(self).spec_new_client(name, birth_date, document_number, country),
                )
            },
    {
        let n = self.clients.len();
        let mut i: usize = 0;
        while i < n
            invariant
                old(self).wf(),
                self == old(self),
                n == self@.len(),
                i <= n,
                forall|k: int|
                    0 <= k < i ==> (#[trigger] self@[k]).document_number@ != document_number@,
            decreases n - i,
        {
            if self.clients[i].document_number == document_number {
                return Err(LedgerError::DuplicateDocument);
            }
            i = i + 1;
        }
        let id = (n as u32) + 1;
        let client = Client {
            id: id,
            name: name,
            birth_date: birth_date,
            document_number: document_number,
            country: country,
            balance: 0,
        };
        self.clients.push(client);
        Ok(id)
    }

    /// The record of client `id`, or `ClientNotFound` where no client has it.
    pub fn get(&self, id: u32) -> (r: Result<&Client, LedgerError>)
        requires
            self.wf(),
        ensures
            self.spec_contains_id(id) <==> r is Ok,
            r matches Ok(c) ==> *c == self@[id - 1],
            !self.spec_contains_id(id) ==> r == Err::<&Client, LedgerError>(
                LedgerError::ClientNotFound,
            ),
    {
        if id >= 1 && (id as usize) <= self.clients.len() {
            Ok(&self.clients[(id - 1) as usize])
        } else {
            Err(LedgerError::ClientNotFound)
        }
    }

    /// Adds `delta` to the balance of client `id` and returns the new balance,
    /// or fails with `ClientNotFound`, changing nothing, where no client has
    /// `id`. Balances only ever grow: `delta` is non-negative.
    pub fn mutate_balance(&mut self, id: u32, delta: i64) -> (r: Result<i64, LedgerError>)
        requires
            old(self).wf(),
            delta >= 0,
            old(self).spec_contains_id(id) ==> old(self)@[id - 1].balance + delta <= i64::MAX,
        ensures
            final(self).wf(),
            !old(self).spec_contains_id(id) ==> r == Err::<i64, LedgerError>(
                LedgerError::ClientNotFound,
            ) && final(self)@ == old(self)@,
            old(self).spec_contains_id(id) ==> {
                &&& r == Ok::<i64, LedgerError>((old(self)@[id - 1].balance + delta) as i64)
                &&& final(self)@ == old(self)@.update(
                    id - 1,
                    (Client { balance: (old(self)@[id - 1].balance + delta) as i64, ..old(
                        self,
                    )@[id - 1] }),
                )
            },
    {
        if id >= 1 && (id as usize) <= self.clients.len() {
            let idx = (id - 1) as usize;
            let new_balance = self.clients[idx].balance + delta;
            let c = &mut self.clients[idx];
            c.balance = new_balance;
            Ok(new_balance)
        } else {
            Err(LedgerError::ClientNotFound)
        }
    }

    /// The current balance of client `client_id`, or `ClientNotFound`.
    pub fn balance_of(&self, client_id: u32) -> (r: Result<i64, LedgerError>)
        requires
            self.wf(),
        ensures
            self.spec_contains_id(client_id) ==> r == Ok::<i64, LedgerError>(
                self@[client_id - 1].balance,
            ),
            !self.spec_contains_id(client_id) ==> r == Err::<i64, LedgerError>(
                LedgerError::ClientNotFound,
            ),
    {
        match self.get(client_id) {
            Ok(c) => Ok(c.balance),
            Err(e) => Err(e),
        }
    }

    /// A point-in-time copy of every held client's `(id, balance)` pair, in
    /// creation order.
    pub fn all(&self) -> (r: Vec<(u32, i64)>)
        ensures
            r@ == self.spec_pairs(),
    {
        let mut pairs: Vec<(u32, i64)> = Vec::new();
        let mut i: usize = 0;
        let n = self.clients.len();
        while i < n
            invariant
                n == self@.len(),
                i <= n,
                pairs@.len() == i,
                forall|k: int|
                    0 <= k < i ==> (#[trigger] pairs@[k]) == (self@[k].id, self@[k].balance),
            decreases n - i,
        {
            pairs.push((self.clients[i].id, self.clients[i].balance));
            i = i + 1;
        }
        proof {
            assert(pairs@ =~= self.spec_pairs());
        }
        pairs
    }
}

/// Validates and applies a credit transaction: rejects a negative `amount`
/// with `InvalidAmount` and an unknown `client_id` with `ClientNotFound`,
/// changing nothing in either case; otherwise adds `amount` to the client's
/// balance and returns the new balance exactly.
pub fn apply_credit(registry: &mut Registry, client_id: u32, amount: i64) -> (r: Result<
    i64,
    LedgerError,
>)
    requires
        old(registry).wf(),
        amount >= 0 && old(registry).spec_contains_id(client_id) ==> old(registry)@[client_id
            - 1].balance + amount <= i64::MAX,
    ensures
        final(registry).wf(),
        amount < 0 ==> r == Err::<i64, LedgerError>(LedgerError::InvalidAmount) && final(registry)@
            == old(registry)@,
        amount >= 0 && !old(registry).spec_contains_id(client_id) ==> r == Err::<i64, LedgerError>(
            LedgerError::ClientNotFound,
        ) && final(registry)@ == old(registry)@,
        amount >= 0 && old(registry).spec_contains_id(client_id) ==> {
            &&& r == Ok::<i64, LedgerError>(
                (old(registry)@[client_id - 1].balance + amount) as i64,
            )
            &&& final(registry)@ == old(registry)@.update(
                client_id - 1,
                (Client { balance: (old(registry)@[client_id - 1].balance + amount) as i64, ..old(
                    registry,
                )@[client_id - 1] }),
            )
        },
{
    if amount < 0 {
        return Err(LedgerError::InvalidAmount);
    }
    registry.mutate_balance(client_id, amount)
}

/// No two held clients ever share a document number: every registration that
/// would duplicate one fails without mutating the registry, so distinct
/// successful registrations carry distinct document numbers.
pub proof fn lemma_documents_unique(r: Registry, i: int, j: int)
    requires
        r.wf(),
        0 <= i < r@.len(),
        0 <= j < r@.len(),
        i != j,
    ensures
        r@[i].document_number@ != r@[j].document_number@,
{
}

/// Client identifiers are exactly the positions `1..=len` in creation order:
/// strictly increasing, with no gaps, and a failed registration (which leaves
/// the registry unchanged) consumes no identifier.
pub proof fn lemma_ids_sequential(r: Registry, i: int, j: int)
    requires
        r.wf(),
        0 <= i <= j < r@.len(),
    ensures
        r@[i].id == i + 1,
        i < j ==> r@[i].id < r@[j].id,
{
}

} // verus!
