//! The payment service: client accounts keyed by id, credit and debit
//! transactions, and cuts of all balances.

use std::collections::HashMap;
use vstd::prelude::*;

use crate::amount::{
    adds_exactly, amount_checked_add, amount_checked_sub, decimal_checked_add, decimal_checked_sub,
    exact_sum, negated, Amount, AmountValue,
};
use crate::client::{Client, ClientView};
use crate::error::ServiceError;

verus! {

broadcast use vstd::std_specs::hash::group_hash_axioms;

/// The mathematical model of the service.
pub struct ServiceView {
    /// The accounts, by client id.
    pub accounts: Map<u64, ClientView>,
    /// The id given to the last account opened (ids start at 1).
    pub next_client_id: u64,
    /// The number of cuts made so far.
    pub file_counter: u64,
}

/// The model of a list of (client id, balance) pairs.
pub open spec fn cut_view(s: Seq<(u64, Amount)>) -> Seq<(u64, AmountValue)> {
    s.map_values(|p: (u64, Amount)| (p.0, p.1@))
}

/// The model of the result of a transaction.
pub open spec fn result_view(r: Result<Amount, ServiceError>) -> Result<AmountValue, ServiceError> {
    match r {
        Ok(a) => Ok(a@),
        Err(e) => Err(e),
    }
}

/// The model of the result of a client lookup.
pub open spec fn client_result_view(r: Result<Client, ServiceError>) -> Result<ClientView, ServiceError> {
    match r {
        Ok(c) => Ok(c@),
        Err(e) => Err(e),
    }
}

/// One step of restoring a cut on a map of balances: the amount is added to
/// the balance of a known client; an unknown client is passed over. `None`
/// when the addition does not fit in a `Decimal`.
pub open spec fn restore_step(
    balances: Map<u64, AmountValue>,
    entry: (u64, AmountValue),
) -> Option<Map<u64, AmountValue>> {
    if balances.contains_key(entry.0) {
        match decimal_checked_add(balances[entry.0], entry.1) {
            Some(sum) => Some(balances.insert(entry.0, sum)),
            None => None,
        }
    } else {
        Some(balances)
    }
}

/// Restoring the entries of a cut one after the other, in order.
pub open spec fn restore_fold(
    balances: Map<u64, AmountValue>,
    cut: Seq<(u64, AmountValue)>,
) -> Option<Map<u64, AmountValue>>
    decreases cut.len(),
{
    if cut.len() == 0 {
        Some(balances)
    } else {
        match restore_fold(balances, cut.drop_last()) {
            Some(b) => restore_step(b, cut.last()),
            None => None,
        }
    }
}

/// What restoring an entry gives a client whose balance was `before`, by
/// `Decimal`'s facts: from a zero balance, exactly the entry's amount; on the
/// exact range, the exact sum of the balance and the amount.
pub open spec fn restored_entry(before: AmountValue, entry: AmountValue, after: AmountValue) -> bool {
    &&& before.mantissa == 0 ==> after == entry
    &&& adds_exactly(before, entry) ==> after == exact_sum(before, entry)
}

/// The ids of the entries strictly increase.
pub open spec fn ids_increasing(cut: Seq<(u64, AmountValue)>) -> bool {
    forall|i: int, j: int| 0 <= i < j < cut.len() ==> cut[i].0 < cut[j].0
}

impl ServiceView {
    /// The service as it starts: no accounts, no cuts.
    pub open spec fn initial() -> ServiceView {
        ServiceView { accounts: Map::empty(), next_client_id: 0, file_counter: 0 }
    }

    /// What every reachable state satisfies: the ids in use are exactly
    /// `1..=next_client_id`, and no two accounts share a document number.
    pub open spec fn inv(self) -> bool {
        &&& forall|id: u64| #[trigger]
            self.accounts.contains_key(id) <==> 1 <= id <= self.next_client_id
        &&& forall|i: u64, j: u64|
            #![trigger self.accounts[i], self.accounts[j]]
            self.accounts.contains_key(i) && self.accounts.contains_key(j) && i != j
                ==> self.accounts[i].document_number != self.accounts[j].document_number
    }

    /// Some account holds the document number, compared exactly as given.
    pub open spec fn document_registered(self, doc: Seq<char>) -> bool {
        exists|id: u64| #[trigger]
            self.accounts.contains_key(id) && self.accounts[id].document_number == doc
    }

    /// Opening an account cannot overflow the id counter.
    pub open spec fn can_open_account(self, doc: Seq<char>) -> bool {
        !self.document_registered(doc) ==> self.next_client_id < u64::MAX
    }

    /// Opening an account: refused for a registered document; otherwise the
    /// next id gets an account with a zero balance.
    pub open spec fn open_account(
        self,
        client_name: Seq<char>,
        birth_date: Seq<char>,
        document_number: Seq<char>,
        country: Seq<char>,
    ) -> (ServiceView, Result<u64, ServiceError>) {
        if self.document_registered(document_number) {
            (self, Err(ServiceError::DuplicateDocument))
        } else {
            let id = (self.next_client_id + 1) as u64;
            let client = ClientView {
                balance: AmountValue::zero(),
                client_name,
                birth_date,
                document_number,
                country,
            };
            (
                ServiceView { accounts: self.accounts.insert(id, client), next_client_id: id, ..self },
                Ok(id),
            )
        }
    }

    /// The service with one client's balance replaced.
    pub open spec fn with_balance(self, id: u64, balance: AmountValue) -> ServiceView {
        ServiceView {
            accounts: self.accounts.insert(id, ClientView { balance, ..self.accounts[id] }),
            ..self
        }
    }

    /// A credit: the amount is validated first, then the client is looked up,
    /// then the amount is added to the balance, which is returned. `None` when
    /// the sum does not fit in a `Decimal`.
    pub open spec fn credit(self, id: u64, amount: AmountValue) -> Option<
        (ServiceView, Result<AmountValue, ServiceError>),
    > {
        if !amount.is_positive() {
            Some((self, Err(ServiceError::NonPositiveAmount)))
        } else if !self.accounts.contains_key(id) {
            Some((self, Err(ServiceError::ClientDoesNotExist)))
        } else {
            match decimal_checked_add(self.accounts[id].balance, amount) {
                Some(b) => Some((self.with_balance(id, b), Ok(b))),
                None => None,
            }
        }
    }

    /// A debit: as a credit, with the amount subtracted. The balance may go
    /// below zero.
    pub open spec fn debit(self, id: u64, amount: AmountValue) -> Option<
        (ServiceView, Result<AmountValue, ServiceError>),
    > {
        if !amount.is_positive() {
            Some((self, Err(ServiceError::NonPositiveAmount)))
        } else if !self.accounts.contains_key(id) {
            Some((self, Err(ServiceError::ClientDoesNotExist)))
        } else {
            match decimal_checked_sub(self.accounts[id].balance, amount) {
                Some(b) => Some((self.with_balance(id, b), Ok(b))),
                None => None,
            }
        }
    }

    /// The balances, by client id.
    pub open spec fn balances(self) -> Map<u64, AmountValue> {
        self.accounts.map_values(|c: ClientView| c.balance)
    }

    /// The service with the balances of its clients taken from a map that has
    /// the same ids.
    pub open spec fn with_balances(self, balances: Map<u64, AmountValue>) -> ServiceView {
        ServiceView {
            accounts: Map::new(
                |id: u64| self.accounts.contains_key(id),
                |id: u64| ClientView { balance: balances[id], ..self.accounts[id] },
            ),
            ..self
        }
    }

    /// Every client, in increasing id order, with its balance.
    pub open spec fn cut_entries(self) -> Seq<(u64, AmountValue)> {
        Seq::new(
            self.next_client_id as nat,
            |i: int| (((i + 1) as u64), self.accounts[(i + 1) as u64].balance),
        )
    }

    /// A cut: the balances are taken and every balance is set to zero; the
    /// file counter moves on and numbers the cut.
    pub open spec fn cut(self) -> (ServiceView, Seq<(u64, AmountValue)>, u64) {
        let number = (self.file_counter + 1) as u64;
        (
            ServiceView {
                accounts: self.accounts.map_values(
                    |c: ClientView| ClientView { balance: AmountValue::zero(), ..c },
                ),
                file_counter: number,
                ..self
            },
            self.cut_entries(),
            number,
        )
    }

    /// Putting a cut back: each amount is added to the current balance of its
    /// client, so that later transactions are kept. `None` when an addition
    /// does not fit in a `Decimal`.
    pub open spec fn restore(self, cut: Seq<(u64, AmountValue)>) -> Option<ServiceView> {
        match restore_fold(self.balances(), cut) {
            Some(b) => Some(self.with_balances(b)),
            None => None,
        }
    }

    /// The data and balance of a client.
    pub open spec fn client_info(self, id: u64) -> Result<ClientView, ServiceError> {
        if self.accounts.contains_key(id) {
            Ok(self.accounts[id])
        } else {
            Err(ServiceError::ClientDoesNotExist)
        }
    }
}

/// The service: accounts in memory, the registered document numbers, and the
/// counters of ids and cuts.
pub struct Service {
    accounts: HashMap<u64, Client>,
    next_client_id: u64,
    registered_documents: Vec<String>,
    file_counter: u64,
}

impl View for Service {
    type V = ServiceView;

    closed spec fn view(&self) -> ServiceView {
        ServiceView {
            accounts: self.accounts@.map_values(|c: Client| c@),
            next_client_id: self.next_client_id,
            file_counter: self.file_counter,
        }
    }
}

impl Service {
    /// The internal invariant: the model's invariant, and the registered
    /// documents listed in id order.
    pub closed spec fn wf(&self) -> bool {
        &&& self@.inv()
        &&& self.registered_documents@.len() == self.next_client_id
        &&& forall|i: int|
            0 <= i < self.registered_documents@.len()
                ==> #[trigger] self.registered_documents@[i]@ == self.accounts@[(i + 1) as u64].document_number@
    }

    /// An empty service.
    pub fn new() -> (r: Service)
        ensures
            r.wf(),
            r@ == ServiceView::initial(),
    {
        let r = Service {
            accounts: HashMap::new(),
            next_client_id: 0,
            registered_documents: Vec::new(),
            file_counter: 0,
        };
        assert(r@.accounts =~= Map::empty());
        r
    }

    /// The id of the last account opened (zero before the first).
    pub fn last_client_id(&self) -> (r: u64)
        ensures
            r == self@.next_client_id,
    {
        self.next_client_id
    }

    /// The number of cuts made so far.
    pub fn files_generated(&self) -> (r: u64)
        ensures
            r == self@.file_counter,
    {
        self.file_counter
    }

    /// Whether an account holds the document number, compared exactly.
    pub fn document_registered(&self, document_number: &String) -> (r: bool)
        requires
            self.wf(),
        ensures
            r == self@.document_registered(document_number@),
    {
        let n = self.registered_documents.len();
        let mut i: usize = 0;
        while i < n
            invariant
                self.wf(),
                n == self.registered_documents@.len(),
                0 <= i <= n,
                forall|j: int| 0 <= j < i ==> self.registered_documents@[j]@ != document_number@,
            decreases n - i,
        {
            if self.registered_documents[i] == *document_number {
                proof {
                    let id = (i + 1) as u64;
                    assert(self@.accounts.contains_key(id));
                    assert(self.registered_documents@[i as int]@ == self.accounts@[(i + 1) as u64].document_number@);
                }
                return true;
            }
            i = i + 1;
        }
        proof {
            assert forall|id: u64| #[trigger] self@.accounts.contains_key(id) implies self@.accounts[id].document_number != document_number@ by {
                let j: int = id - 1;
                assert(self.registered_documents@[j]@ == self.accounts@[(j + 1) as u64].document_number@);
            }
        }
        false
    }

    /// Opens an account for a new client and returns its id. A document
    /// number already registered is refused, and nothing changes.
    pub fn create_account(
        &mut self,
        client_name: String,
        birth_date: String,
        document_number: String,
        country: String,
    ) -> (r: Result<u64, ServiceError>)
        requires
            old(self).wf(),
            old(self)@.can_open_account(document_number@),
        ensures
            final(self).wf(),
            (final(self)@, r) == old(self)@.open_account(
                client_name@,
                birth_date@,
                document_number@,
                country@,
            ),
    {
        if self.document_registered(&document_number) {
            return Err(ServiceError::DuplicateDocument);
        }
        let registered = document_number.clone();
        let new_client = Client {
            client_name,
            birth_date,
            document_number,
            country,
            balance: Amount::zero(),
        };
        let ghost client_view = new_client@;
        let id = self.next_client_id + 1;
        self.registered_documents.push(registered);
        // The counter only moves forward, so the id is always new.
        self.accounts.insert(id, new_client);
        self.next_client_id = id;
        proof {
            let expected = old(self)@.open_account(
                client_view.client_name,
                client_view.birth_date,
                client_view.document_number,
                client_view.country,
            ).0;
            assert(self@.accounts =~= expected.accounts);
            assert forall|i: int|
                0 <= i < self.registered_documents@.len() implies #[trigger] self.registered_documents@[i]@
                == self.accounts@[(i + 1) as u64].document_number@ by {
                if i < old(self).registered_documents@.len() {
                    assert(old(self).registered_documents@[i]@ == old(self).accounts@[(i + 1) as u64].document_number@);
                }
            }
            assert forall|a: u64, b: u64|
                #![trigger self@.accounts[a], self@.accounts[b]]
                self@.accounts.contains_key(a) && self@.accounts.contains_key(b) && a != b
                implies self@.accounts[a].document_number != self@.accounts[b].document_number by {
                if a != id && b != id {
                    assert(old(self)@.accounts[a] == self@.accounts[a]);
                    assert(old(self)@.accounts[b] == self@.accounts[b]);
                } else if a == id {
                    assert(old(self)@.accounts.contains_key(b));
                } else {
                    assert(old(self)@.accounts.contains_key(a));
                }
            }
        }
        Ok(id)
    }

    /// Adds a strictly positive amount to a client's balance and returns the
    /// new balance. The amount is validated before the client is looked up.
    /// The sum must fit in a `Decimal`; `try_create_credit_transaction`
    /// checks that first.
    pub fn create_credit_transaction(&mut self, client_id: u64, credit_amount: Amount) -> (r: Result<
        Amount,
        ServiceError,
    >)
        requires
            old(self).wf(),
            old(self)@.credit(client_id, credit_amount@) is Some,
        ensures
            final(self).wf(),
            old(self)@.credit(client_id, credit_amount@) == Some((final(self)@, result_view(r))),
            r is Ok && adds_exactly(old(self)@.accounts[client_id].balance, credit_amount@)
                ==> result_view(r) == Ok::<AmountValue, ServiceError>(
                exact_sum(old(self)@.accounts[client_id].balance, credit_amount@),
            ),
            r is Ok && old(self)@.accounts[client_id].balance.mantissa == 0
                ==> result_view(r) == Ok::<AmountValue, ServiceError>(credit_amount@),
    {
        if let Err(e) = validate_positive_amount(credit_amount) {
            return Err(e);
        }
        match self.accounts.remove(&client_id) {
            None => {
                assert(self@.accounts =~= old(self)@.accounts);
                Err(ServiceError::ClientDoesNotExist)
            },
            Some(mut client) => {
                let sum = amount_checked_add(client.balance, credit_amount);
                match sum {
                    Some(balance) => {
                        client.balance = balance;
                        self.accounts.insert(client_id, client);
                        proof { self.lemma_balance_replaced(*old(self), client_id, balance@); }
                        Ok(balance)
                    },
                    None => {
                        // Ruled out by the precondition.
                        self.accounts.insert(client_id, client);
                        assert(false);
                        Err(ServiceError::ClientDoesNotExist)
                    },
                }
            },
        }
    }

    /// Subtracts a strictly positive amount from a client's balance and
    /// returns the new balance, which may be negative: a debit is never
    /// refused for want of funds. The amount is validated before the client
    /// is looked up. The difference must fit in a `Decimal`;
    /// `try_create_debit_transaction` checks that first.
    pub fn create_debit_transaction(&mut self, client_id: u64, debit_amount: Amount) -> (r: Result<
        Amount,
        ServiceError,
    >)
        requires
            old(self).wf(),
            old(self)@.debit(client_id, debit_amount@) is Some,
        ensures
            final(self).wf(),
            old(self)@.debit(client_id, debit_amount@) == Some((final(self)@, result_view(r))),
            r is Ok && adds_exactly(old(self)@.accounts[client_id].balance, negated(debit_amount@))
                ==> result_view(r) == Ok::<AmountValue, ServiceError>(
                exact_sum(old(self)@.accounts[client_id].balance, negated(debit_amount@)),
            ),
            r is Ok && old(self)@.accounts[client_id].balance.mantissa == 0
                ==> result_view(r) == Ok::<AmountValue, ServiceError>(negated(debit_amount@)),
    {
        if let Err(e) = validate_positive_amount(debit_amount) {
            return Err(e);
        }
        match self.accounts.remove(&client_id) {
            None => {
                assert(self@.accounts =~= old(self)@.accounts);
                Err(ServiceError::ClientDoesNotExist)
            },
            Some(mut client) => {
                let difference = amount_checked_sub(client.balance, debit_amount);
                match difference {
                    Some(balance) => {
                        client.balance = balance;
                        self.accounts.insert(client_id, client);
                        proof { self.lemma_balance_replaced(*old(self), client_id, balance@); }
                        Ok(balance)
                    },
                    None => {
                        // Ruled out by the precondition.
                        self.accounts.insert(client_id, client);
                        assert(false);
                        Err(ServiceError::ClientDoesNotExist)
                    },
                }
            },
        }
    }

    /// A credit that reports, with `None`, a sum too large for a `Decimal`,
    /// and then changes nothing.
    pub fn try_create_credit_transaction(&mut self, client_id: u64, credit_amount: Amount) -> (r:
        Option<Result<Amount, ServiceError>>)
        requires
            old(self).wf(),
        ensures
            final(self).wf(),
            match old(self)@.credit(client_id, credit_amount@) {
                None => r is None && final(self)@ == old(self)@,
                Some((after, result)) => r matches Some(x) && result_view(x) == result
                    && final(self)@ == after,
            },
            ({
                let balance = old(self)@.accounts[client_id].balance;
                credit_amount@.is_positive() && old(self)@.accounts.contains_key(client_id) ==> {
                    &&& balance.mantissa == 0 ==> (r matches Some(Ok(b)) && b@ == credit_amount@)
                    &&& adds_exactly(balance, credit_amount@) ==> (r matches Some(Ok(b))
                        && b@ == exact_sum(balance, credit_amount@))
                }
            }),
    {
        if credit_amount.is_positive() {
            if let Some(client) = self.accounts.get(&client_id) {
                if amount_checked_add(client.balance, credit_amount).is_none() {
                    return None;
                }
            }
        }
        Some(self.create_credit_transaction(client_id, credit_amount))
    }

    /// A debit that reports, with `None`, a difference too large for a
    /// `Decimal`, and then changes nothing.
    pub fn try_create_debit_transaction(&mut self, client_id: u64, debit_amount: Amount) -> (r:
        Option<Result<Amount, ServiceError>>)
        requires
            old(self).wf(),
        ensures
            final(self).wf(),
            match old(self)@.debit(client_id, debit_amount@) {
                None => r is None && final(self)@ == old(self)@,
                Some((after, result)) => r matches Some(x) && result_view(x) == result
                    && final(self)@ == after,
            },
            ({
                let balance = old(self)@.accounts[client_id].balance;
                debit_amount@.is_positive() && old(self)@.accounts.contains_key(client_id) ==> {
                    &&& balance.mantissa == 0 ==> (r matches Some(Ok(b)) && b@ == negated(debit_amount@))
                    &&& adds_exactly(balance, negated(debit_amount@)) ==> (r matches Some(Ok(b))
                        && b@ == exact_sum(balance, negated(debit_amount@)))
                }
            }),
    {
        if debit_amount.is_positive() {
            if let Some(client) = self.accounts.get(&client_id) {
                if amount_checked_sub(client.balance, debit_amount).is_none() {
                    return None;
                }
            }
        }
        Some(self.create_debit_transaction(client_id, debit_amount))
    }

    /// The data and balance of a client.
    pub fn client_info(&self, client_id: u64) -> (r: Result<Client, ServiceError>)
        ensures
            client_result_view(r) == self@.client_info(client_id),
    {
        match self.accounts.get(&client_id) {
            Some(client) => Ok(client.copy()),
            None => Err(ServiceError::ClientDoesNotExist),
        }
    }

    /// Replacing one balance in the map of accounts keeps the invariant, and
    /// gives the model's `with_balance`.
    proof fn lemma_balance_replaced(&self, before: Service, id: u64, balance: AmountValue)
        requires
            before.wf(),
            before.accounts@.contains_key(id),
            self.next_client_id == before.next_client_id,
            self.file_counter == before.file_counter,
            self.registered_documents == before.registered_documents,
            self.accounts@.dom() == before.accounts@.dom(),
            self.accounts@[id]@ == (ClientView { balance, ..before.accounts@[id]@ }),
            forall|k: u64| k != id && #[trigger] before.accounts@.contains_key(k) ==> self.accounts@[k] == before.accounts@[k],
        ensures
            self.wf(),
            self@ == before@.with_balance(id, balance),
    {
        assert(self@.accounts =~= before@.with_balance(id, balance).accounts);
        self.lemma_balances_changed_only(before);
    }

    /// Changing balances, and nothing else of the clients, keeps the
    /// invariant.
    proof fn lemma_balances_changed_only(&self, before: Service)
        requires
            before.wf(),
            self.next_client_id == before.next_client_id,
            self.registered_documents == before.registered_documents,
            self.accounts@.dom() == before.accounts@.dom(),
            forall|k: u64| #[trigger] before.accounts@.contains_key(k) ==> self.accounts@[k]@
                == (ClientView { balance: self.accounts@[k]@.balance, ..before.accounts@[k]@ }),
        ensures
            self.wf(),
    {
        assert forall|id: u64| #[trigger] self@.accounts.contains_key(id) == before@.accounts.contains_key(id) by {
            assert(self.accounts@.contains_key(id) == before.accounts@.contains_key(id));
        }
        assert forall|i: int|
            0 <= i < self.registered_documents@.len() implies #[trigger] self.registered_documents@[i]@
            == self.accounts@[(i + 1) as u64].document_number@ by {
            let k = (i + 1) as u64;
            assert(before@.accounts.contains_key(k));
            assert(before.registered_documents@[i]@ == before.accounts@[k].document_number@);
        }
        assert forall|a: u64, b: u64|
            #![trigger self@.accounts[a], self@.accounts[b]]
            self@.accounts.contains_key(a) && self@.accounts.contains_key(b) && a != b
            implies self@.accounts[a].document_number != self@.accounts[b].document_number by {
            assert(before@.accounts[a].document_number == self@.accounts[a].document_number);
            assert(before@.accounts[b].document_number == self@.accounts[b].document_number);
        }
    }

    /// The cut: takes every client's balance, in increasing id order, sets
    /// every balance to zero, and returns the balances with the number of the
    /// cut (the count of cuts made so far, this one included).
    pub fn store_balances(&mut self) -> (r: (Vec<(u64, Amount)>, u64))
        requires
            old(self).wf(),
            old(self)@.file_counter < u64::MAX,
        ensures
            final(self).wf(),
            (final(self)@, cut_view(r.0@), r.1) == old(self)@.cut(),
    {
        let mut balances: Vec<(u64, Amount)> = Vec::new();
        let n = self.next_client_id;
        // Ids in use run from 1 to the last one given, so walking them in
        // order yields the cut sorted by id.
        let mut id: u64 = 0;
        assert(!old(self)@.accounts.contains_key(0));
        while id < n
            invariant
                old(self).wf(),
                n == old(self).next_client_id,
                0 <= id <= n,
                self.next_client_id == old(self).next_client_id,
                self.file_counter == old(self).file_counter,
                self.registered_documents == old(self).registered_documents,
                self.accounts@.dom() == old(self).accounts@.dom(),
                forall|k: u64| #[trigger] self.accounts@.contains_key(k) ==> {
                    if k <= id {
                        self.accounts@[k]@ == (ClientView { balance: AmountValue::zero(), ..old(self).accounts@[k]@ })
                    } else {
                        self.accounts@[k] == old(self).accounts@[k]
                    }
                },
                balances@.len() == id,
                forall|j: int| 0 <= j < id ==> (#[trigger] balances@[j]).0 == (j + 1) as u64
                    && balances@[j].1@ == old(self).accounts@[(j + 1) as u64].balance@,
            decreases n - id,
        {
            id = id + 1;
            assert(old(self)@.accounts.contains_key(id));
            match self.accounts.remove(&id) {
                Some(mut client) => {
                    balances.push((id, client.balance));
                    client.balance = Amount::zero();
                    self.accounts.insert(id, client);
                },
                None => {
                    assert(false);
                },
            }
        }
        self.file_counter = self.file_counter + 1;
        proof {
            let expected = old(self)@.cut();
            assert(self@.accounts =~= expected.0.accounts);
            assert(cut_view(balances@) =~= expected.1);
            self.lemma_balances_changed_only(*old(self));
        }
        (balances, self.file_counter)
    }

    /// The balances, by client id, in a map of their own.
    fn balance_snapshot(&self) -> (r: HashMap<u64, Amount>)
        requires
            self.wf(),
        ensures
            balances_view(r@) == self@.balances(),
            r@.dom() == self.accounts@.dom(),
    {
        let mut r: HashMap<u64, Amount> = HashMap::new();
        let n = self.next_client_id;
        let mut id: u64 = 0;
        while id < n
            invariant
                self.wf(),
                n == self.next_client_id,
                0 <= id <= n,
                forall|k: u64| #[trigger] r@.contains_key(k) <==> 1 <= k <= id,
                forall|k: u64| #[trigger] r@.contains_key(k) ==> r@[k] == self.accounts@[k].balance,
            decreases n - id,
        {
            id = id + 1;
            assert(self@.accounts.contains_key(id));
            match self.accounts.get(&id) {
                Some(client) => {
                    r.insert(id, client.balance);
                },
                None => {
                    assert(false);
                },
            }
        }
        assert forall|k: u64| r@.contains_key(k) == self.accounts@.contains_key(k) by {
            assert(self@.accounts.contains_key(k) == self.accounts@.contains_key(k));
        }
        assert(balances_view(r@) =~= self@.balances());
        assert(r@.dom() =~= self.accounts@.dom());
        r
    }

    /// Sets every client's balance to the one a map holds for it.
    fn set_balances(&mut self, balances: HashMap<u64, Amount>)
        requires
            old(self).wf(),
            balances@.dom() == old(self).accounts@.dom(),
        ensures
            final(self).wf(),
            final(self)@ == old(self)@.with_balances(balances_view(balances@)),
    {
        let n = self.next_client_id;
        let mut id: u64 = 0;
        assert(!old(self)@.accounts.contains_key(0));
        while id < n
            invariant
                old(self).wf(),
                n == old(self).next_client_id,
                0 <= id <= n,
                balances@.dom() == old(self).accounts@.dom(),
                self.next_client_id == old(self).next_client_id,
                self.file_counter == old(self).file_counter,
                self.registered_documents == old(self).registered_documents,
                self.accounts@.dom() == old(self).accounts@.dom(),
                forall|k: u64| #[trigger] self.accounts@.contains_key(k) ==> {
                    if k <= id {
                        self.accounts@[k]@ == (ClientView { balance: balances@[k]@, ..old(self).accounts@[k]@ })
                    } else {
                        self.accounts@[k] == old(self).accounts@[k]
                    }
                },
            decreases n - id,
        {
            id = id + 1;
            assert(old(self)@.accounts.contains_key(id));
            match self.accounts.remove(&id) {
                Some(mut client) => {
                    match balances.get(&id) {
                        Some(balance) => {
                            client.balance = *balance;
                        },
                        None => {
                            assert(false);
                        },
                    }
                    self.accounts.insert(id, client);
                },
                None => {
                    assert(false);
                },
            }
        }
        proof {
            assert(self@.accounts =~= old(self)@.with_balances(balances_view(balances@)).accounts);
            self.lemma_balances_changed_only(*old(self));
        }
    }

    /// Puts back the balances of a cut that could not be persisted. The
    /// amounts are added, not assigned, so transactions made after the cut
    /// are kept; entries of unknown clients are passed over; the file number
    /// is not given back. Where the ids of the cut increase (as in every cut),
    /// a client whose balance is zero gets back exactly its amount (restoring
    /// a cut right after it was taken gives back every balance), and on the
    /// exact range a client gets its balance plus its amount, whatever the
    /// sign of the balance.
    pub fn restore_balances(&mut self, balances: Vec<(u64, Amount)>)
        requires
            old(self).wf(),
            old(self)@.restore(cut_view(balances@)) is Some,
        ensures
            final(self).wf(),
            Some(final(self)@) == old(self)@.restore(cut_view(balances@)),
            ids_increasing(cut_view(balances@)) ==> forall|i: int|
                0 <= i < balances@.len() && old(self)@.accounts.contains_key(#[trigger] balances@[i].0)
                    ==> restored_entry(
                    old(self)@.accounts[balances@[i].0].balance,
                    balances@[i].1@,
                    final(self)@.accounts[balances@[i].0].balance,
                ),
    {
        let mut current = self.balance_snapshot();
        let ghost before = current@;
        let ok = apply_cut(&mut current, &balances);
        assert(ok);
        proof {
            assert forall|k: u64| #[trigger] before.contains_key(k) implies before[k]@ == old(self)@.accounts[k].balance by {
                assert(balances_view(before)[k] == old(self)@.balances()[k]);
            }
        }
        self.set_balances(current);
    }

    /// Puts back the balances of a cut, as `restore_balances`, or returns
    /// false, changing nothing, where an addition would not fit in a
    /// `Decimal`.
    pub fn try_restore_balances(&mut self, balances: Vec<(u64, Amount)>) -> (r: bool)
        requires
            old(self).wf(),
        ensures
            final(self).wf(),
            r == old(self)@.restore(cut_view(balances@)) is Some,
            r ==> Some(final(self)@) == old(self)@.restore(cut_view(balances@)),
            !r ==> final(self)@ == old(self)@,
    {
        let mut scratch = self.balance_snapshot();
        if !apply_cut(&mut scratch, &balances) {
            return false;
        }
        self.restore_balances(balances);
        true
    }
}

impl Default for Service {
    fn default() -> (r: Self)
        ensures
            r.wf(),
            r@ == ServiceView::initial(),
    {
        Service::new()
    }
}

/// The model of a map of balances.
pub open spec fn balances_view(m: Map<u64, Amount>) -> Map<u64, AmountValue> {
    m.map_values(|a: Amount| a@)
}

/// Folding over a longer cut fails wherever folding over one of its
/// prefixes fails.
proof fn lemma_restore_fold_prefix(
    balances: Map<u64, AmountValue>,
    cut: Seq<(u64, AmountValue)>,
    i: int,
)
    requires
        0 <= i <= cut.len(),
        restore_fold(balances, cut) is Some,
    ensures
        restore_fold(balances, cut.take(i)) is Some,
    decreases cut.len(),
{
    if i < cut.len() {
        assert(cut.drop_last().take(i) =~= cut.take(i));
        lemma_restore_fold_prefix(balances, cut.drop_last(), i);
    } else {
        assert(cut.take(i) =~= cut);
    }
}

/// Restores the entries of a cut, in order, on a map of balances. Returns
/// false where an addition does not fit in a `Decimal`. Where the ids of the
/// cut increase, a client whose balance was zero gets back exactly the amount
/// of its entry.
fn apply_cut(balances: &mut HashMap<u64, Amount>, cut: &Vec<(u64, Amount)>) -> (ok: bool)
    ensures
        final(balances)@.dom() == old(balances)@.dom(),
        ok == restore_fold(balances_view(old(balances)@), cut_view(cut@)) is Some,
        ok ==> Some(balances_view(final(balances)@)) == restore_fold(
            balances_view(old(balances)@),
            cut_view(cut@),
        ),
        ok && ids_increasing(cut_view(cut@)) ==> forall|i: int|
            0 <= i < cut@.len() && old(balances)@.contains_key(#[trigger] cut@[i].0)
                ==> restored_entry(old(balances)@[cut@[i].0]@, cut@[i].1@, final(balances)@[cut@[i].0]@),
{
    let ghost b0 = balances_view(balances@);
    let ghost cv = cut_view(cut@);
    let n = cut.len();
    let mut i: usize = 0;
    assert(cv.take(0) =~= Seq::<(u64, AmountValue)>::empty());
    while i < n
        invariant
            n == cut@.len(),
            cv == cut_view(cut@),
            b0 == balances_view(old(balances)@),
            0 <= i <= n,
            balances@.dom() == old(balances)@.dom(),
            restore_fold(b0, cv.take(i as int)) == Some(balances_view(balances@)),
            ids_increasing(cv) ==> forall|j: int|
                0 <= j < i && old(balances)@.contains_key(#[trigger] cut@[j].0)
                    ==> restored_entry(old(balances)@[cut@[j].0]@, cut@[j].1@, balances@[cut@[j].0]@),
            ids_increasing(cv) ==> forall|k: u64|
                #[trigger] balances@.contains_key(k) && (forall|j: int| 0 <= j < i ==> cut@[j].0 != k)
                    ==> balances@[k] == old(balances)@[k],
        decreases n - i,
    {
        let (id, amount) = cut[i];
        proof {
            assert(cv.take(i + 1).drop_last() =~= cv.take(i as int));
            assert(cv.take(i + 1).last() == cv[i as int]);
        }
        match balances.remove(&id) {
            Some(balance) => {
                let sum = amount_checked_add(balance, amount);
                match sum {
                    Some(total) => {
                        balances.insert(id, total);
                        proof {
                            let prev = restore_fold(b0, cv.take(i as int)).unwrap();
                            assert(prev.contains_key(id));
                            assert(balances_view(balances@) =~= prev.insert(id, total@));
                            if ids_increasing(cv) {
                                assert forall|k: u64|
                                    #[trigger] balances@.contains_key(k) && (forall|j: int| 0 <= j < i + 1 ==> cut@[j].0 != k)
                                    implies balances@[k] == old(balances)@[k] by {
                                    assert(cut@[i as int].0 == cv[i as int].0);
                                }
                                assert forall|j: int|
                                    0 <= j < i + 1 && old(balances)@.contains_key(#[trigger] cut@[j].0)
                                    implies restored_entry(old(balances)@[cut@[j].0]@, cut@[j].1@, balances@[cut@[j].0]@) by {
                                    assert(cv[j] == (cut@[j].0, cut@[j].1@));
                                    if j < i {
                                        assert(cv[j].0 < cv[i as int].0);
                                    } else {
                                        assert forall|m: int| 0 <= m < i implies cut@[m].0 != id by {
                                            assert(cv[m].0 < cv[i as int].0);
                                        }
                                        assert(balance == old(balances)@[id]);
                                    }
                                }
                            }
                        }
                    },
                    None => {
                        balances.insert(id, balance);
                        proof {
                            let prev = restore_fold(b0, cv.take(i as int)).unwrap();
                            assert(restore_fold(b0, cv.take(i + 1)) is None);
                            if restore_fold(b0, cv) is Some {
                                assert(cv.len() == n);
                                lemma_restore_fold_prefix(b0, cv, i + 1);
                            }
                        }
                        return false;
                    },
                }
            },
            None => {
                proof {
                    let prev = restore_fold(b0, cv.take(i as int)).unwrap();
                    assert(!prev.contains_key(id));
                    assert(balances_view(balances@) =~= prev);
                    if ids_increasing(cv) {
                        assert forall|j: int|
                            0 <= j < i + 1 && old(balances)@.contains_key(#[trigger] cut@[j].0)
                            implies restored_entry(old(balances)@[cut@[j].0]@, cut@[j].1@, balances@[cut@[j].0]@) by {
                            assert(cv[j] == (cut@[j].0, cut@[j].1@));
                        }
                    }
                }
            },
        }
        i = i + 1;
    }
    proof {
        assert(cv.take(n as int) =~= cv);
    }
    true
}

/// Accepts only a strictly positive amount: zero is refused too.
pub fn validate_positive_amount(amount: Amount) -> (r: Result<(), ServiceError>)
    ensures
        r is Ok <==> amount@.is_positive(),
        r is Err ==> r == Err::<(), ServiceError>(ServiceError::NonPositiveAmount),
{
    if !amount.is_positive() {
        return Err(ServiceError::NonPositiveAmount);
    }
    Ok(())
}

} // verus!
