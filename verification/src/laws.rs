//! Properties of the service that span its operations, proved over the
//! model.

use vstd::prelude::*;

use crate::amount::{amount_text, decimal_checked_add, decimal_checked_sub, AmountValue};
use crate::client::ClientView;
use crate::error::ServiceError;
use crate::service::{ids_increasing, restore_fold, restore_step, ServiceView};
use crate::storage::{balance_file_name_text, balances_text};
use crate::text::{digit_char, magnitude_digits, nat_text};

verus! {

/// The service starts in a state that satisfies the invariant.
pub proof fn lemma_initial_state_is_valid()
    ensures
        ServiceView::initial().inv(),
{
}

/// Opening an account keeps the invariant: ids stay `1..=n`, and document
/// numbers stay unique.
pub proof fn lemma_open_account_keeps_invariant(
    s: ServiceView,
    client_name: Seq<char>,
    birth_date: Seq<char>,
    document_number: Seq<char>,
    country: Seq<char>,
)
    requires
        s.inv(),
        s.can_open_account(document_number),
    ensures
        s.open_account(client_name, birth_date, document_number, country).0.inv(),
{
    let t = s.open_account(client_name, birth_date, document_number, country).0;
    if !s.document_registered(document_number) {
        let id = (s.next_client_id + 1) as u64;
        assert forall|a: u64, b: u64|
            #![trigger t.accounts[a], t.accounts[b]]
            t.accounts.contains_key(a) && t.accounts.contains_key(b) && a != b
            implies t.accounts[a].document_number != t.accounts[b].document_number by {
            if a == id {
                assert(s.accounts.contains_key(b));
            } else if b == id {
                assert(s.accounts.contains_key(a));
            } else {
                assert(s.accounts[a] == t.accounts[a] && s.accounts[b] == t.accounts[b]);
            }
        }
    }
}

/// A new client gets the id after the last one (ids start at 1), an id no
/// client had, and a zero balance; its data is kept as given.
pub proof fn lemma_new_client_gets_fresh_id_and_zero_balance(
    s: ServiceView,
    client_name: Seq<char>,
    birth_date: Seq<char>,
    document_number: Seq<char>,
    country: Seq<char>,
)
    requires
        s.inv(),
        s.can_open_account(document_number),
    ensures
        ({
            let (t, r) = s.open_account(client_name, birth_date, document_number, country);
            r matches Ok(id) ==> {
                &&& id == s.next_client_id + 1
                &&& id >= 1
                &&& !s.accounts.contains_key(id)
                &&& t.client_info(id) == Ok::<ClientView, ServiceError>(
                    ClientView {
                        balance: AmountValue::zero(),
                        client_name,
                        birth_date,
                        document_number,
                        country,
                    },
                )
            }
        }),
{
}

/// Two accounts opened one after the other get different ids, the second
/// right after the first.
pub proof fn lemma_successive_accounts_get_different_ids(
    s: ServiceView,
    name1: Seq<char>,
    birth1: Seq<char>,
    doc1: Seq<char>,
    country1: Seq<char>,
    name2: Seq<char>,
    birth2: Seq<char>,
    doc2: Seq<char>,
    country2: Seq<char>,
)
    requires
        s.inv(),
        s.can_open_account(doc1),
        s.open_account(name1, birth1, doc1, country1).0.can_open_account(doc2),
    ensures
        ({
            let (t, r1) = s.open_account(name1, birth1, doc1, country1);
            let (u, r2) = t.open_account(name2, birth2, doc2, country2);
            r1 is Ok && r2 is Ok ==> r1->Ok_0 != r2->Ok_0 && r2->Ok_0 == r1->Ok_0 + 1
        }),
{
    let (t, r1) = s.open_account(name1, birth1, doc1, country1);
    let (u, r2) = t.open_account(name2, birth2, doc2, country2);
    if r1 is Ok && r2 is Ok {
        assert(t.next_client_id == r1->Ok_0);
        assert(!t.document_registered(doc2));
    }
}

/// A document number is registered only once: opening an account with a
/// registered number is refused and changes nothing, and after an account
/// is opened its number is registered.
pub proof fn lemma_document_registered_once(
    s: ServiceView,
    client_name: Seq<char>,
    birth_date: Seq<char>,
    document_number: Seq<char>,
    country: Seq<char>,
)
    requires
        s.inv(),
        s.can_open_account(document_number),
    ensures
        s.document_registered(document_number) ==> s.open_account(
            client_name,
            birth_date,
            document_number,
            country,
        ) == (s, Err::<u64, ServiceError>(ServiceError::DuplicateDocument)),
        ({
            let (t, r) = s.open_account(client_name, birth_date, document_number, country);
            r is Ok ==> t.document_registered(document_number) && t.open_account(
                client_name,
                birth_date,
                document_number,
                country,
            ).1 == Err::<u64, ServiceError>(ServiceError::DuplicateDocument)
        }),
{
    let (t, r) = s.open_account(client_name, birth_date, document_number, country);
    if r is Ok {
        let id = (s.next_client_id + 1) as u64;
        assert(t.accounts.contains_key(id) && t.accounts[id].document_number == document_number);
    }
}

/// No client ever has the id 0.
pub proof fn lemma_no_client_with_id_zero(s: ServiceView)
    requires
        s.inv(),
    ensures
        s.client_info(0) == Err::<ClientView, ServiceError>(ServiceError::ClientDoesNotExist),
{
}

/// An amount that is not strictly positive is refused before the client is
/// looked up: an unknown client with such an amount is answered with the
/// amount error, and nothing changes.
pub proof fn lemma_amount_checked_before_client(s: ServiceView, id: u64, amount: AmountValue)
    requires
        !amount.is_positive(),
    ensures
        s.credit(id, amount) == Some((s, Err::<AmountValue, ServiceError>(ServiceError::NonPositiveAmount))),
        s.debit(id, amount) == Some((s, Err::<AmountValue, ServiceError>(ServiceError::NonPositiveAmount))),
{
}

/// A debit is never refused for want of funds: for a known client and a
/// positive amount it succeeds, whatever the balance (the balance may go
/// below zero).
pub proof fn lemma_debit_not_limited_by_balance(s: ServiceView, id: u64, amount: AmountValue)
    requires
        amount.is_positive(),
        s.accounts.contains_key(id),
        s.debit(id, amount) is Some,
    ensures
        s.debit(id, amount).unwrap().1 is Ok,
{
}

/// A refused transaction changes nothing, and a refused account opening
/// changes nothing.
pub proof fn lemma_refusals_change_nothing(
    s: ServiceView,
    id: u64,
    amount: AmountValue,
    client_name: Seq<char>,
    birth_date: Seq<char>,
    document_number: Seq<char>,
    country: Seq<char>,
)
    ensures
        s.credit(id, amount) matches Some((t, r)) ==> (r is Err ==> t == s),
        s.debit(id, amount) matches Some((t, r)) ==> (r is Err ==> t == s),
        ({
            let (t, r) = s.open_account(client_name, birth_date, document_number, country);
            r is Err ==> t == s
        }),
{
}

/// A transaction changes only the balance of its client, to the balance it
/// returns; every other client, the client's data and the counters stay.
pub proof fn lemma_transaction_changes_one_balance(s: ServiceView, id: u64, amount: AmountValue)
    requires
        s.inv(),
    ensures
        s.credit(id, amount) matches Some((t, r)) ==> r matches Ok(b) ==> {
            &&& t.inv()
            &&& t.accounts.dom() == s.accounts.dom()
            &&& t.accounts[id] == (ClientView { balance: b, ..s.accounts[id] })
            &&& forall|k: u64| k != id && s.accounts.contains_key(k) ==> t.accounts[k] == s.accounts[k]
            &&& t.next_client_id == s.next_client_id
            &&& t.file_counter == s.file_counter
        },
        s.debit(id, amount) matches Some((t, r)) ==> r matches Ok(b) ==> {
            &&& t.inv()
            &&& t.accounts.dom() == s.accounts.dom()
            &&& t.accounts[id] == (ClientView { balance: b, ..s.accounts[id] })
            &&& forall|k: u64| k != id && s.accounts.contains_key(k) ==> t.accounts[k] == s.accounts[k]
            &&& t.next_client_id == s.next_client_id
            &&& t.file_counter == s.file_counter
        },
{
    if s.accounts.contains_key(id) {
        assert forall|b: AmountValue| s.with_balance(id, b).inv() by {
            let t = s.with_balance(id, b);
            assert(t.accounts.dom() =~= s.accounts.dom());
            assert forall|x: u64, y: u64|
                #![trigger t.accounts[x], t.accounts[y]]
                t.accounts.contains_key(x) && t.accounts.contains_key(y) && x != y
                implies t.accounts[x].document_number != t.accounts[y].document_number by {
                assert(t.accounts[x].document_number == s.accounts[x].document_number);
                assert(t.accounts[y].document_number == s.accounts[y].document_number);
            }
        }
        assert forall|b: AmountValue| s.with_balance(id, b).accounts.dom() == s.accounts.dom() by {
            assert(s.with_balance(id, b).accounts.dom() =~= s.accounts.dom());
        }
    }
}

/// A cut lists every client once, in increasing id order, with the balance
/// it had; it leaves every balance at zero and every client's data as it
/// was; it numbers itself one past the previous cut, also when there are no
/// clients.
pub proof fn lemma_cut_takes_every_balance(s: ServiceView)
    requires
        s.inv(),
        s.file_counter < u64::MAX,
    ensures
        ({
            let (t, entries, number) = s.cut();
            &&& t.inv()
            &&& number == s.file_counter + 1
            &&& t.file_counter == number
            &&& t.next_client_id == s.next_client_id
            &&& entries.len() == s.accounts.dom().len()
            &&& ids_increasing(entries)
            &&& forall|i: int| 0 <= i < entries.len() ==> s.accounts.contains_key(#[trigger] entries[i].0)
                && entries[i].1 == s.accounts[entries[i].0].balance
            &&& forall|id: u64| #[trigger] s.accounts.contains_key(id) ==> exists|i: int|
                0 <= i < entries.len() && entries[i].0 == id
            &&& t.accounts.dom() == s.accounts.dom()
            &&& forall|id: u64| #[trigger] t.accounts.contains_key(id) ==> t.accounts[id] == (ClientView {
                balance: AmountValue::zero(),
                ..s.accounts[id]
            })
        }),
{
    let (t, entries, number) = s.cut();
    assert(t.accounts.dom() =~= s.accounts.dom());
    assert(ids_increasing(entries));
    assert forall|i: int| 0 <= i < entries.len() implies s.accounts.contains_key(#[trigger] entries[i].0)
        && entries[i].1 == s.accounts[entries[i].0].balance by {
        assert(entries[i].0 == (i + 1) as u64);
    }
    assert forall|x: u64, y: u64|
        #![trigger t.accounts[x], t.accounts[y]]
        t.accounts.contains_key(x) && t.accounts.contains_key(y) && x != y
        implies t.accounts[x].document_number != t.accounts[y].document_number by {
        assert(t.accounts[x].document_number == s.accounts[x].document_number);
        assert(t.accounts[y].document_number == s.accounts[y].document_number);
    }
    assert forall|id: u64| #[trigger] s.accounts.contains_key(id) implies exists|i: int|
        0 <= i < entries.len() && entries[i].0 == id by {
        let i: int = id - 1;
        assert(entries[i].0 == id);
    }
    lemma_ids_are_a_range(s);
}

/// The ids in use are `1..=n`, so there are `n` of them.
proof fn lemma_ids_are_a_range(s: ServiceView)
    requires
        s.inv(),
    ensures
        s.accounts.dom().len() == s.next_client_id,
{
    let ids = Set::new(|id: u64| 1 <= id <= s.next_client_id);
    assert(s.accounts.dom() =~= ids);
    lemma_range_len(s.next_client_id);
}

/// The set `1..=n` of ids has `n` elements.
proof fn lemma_range_len(n: u64)
    ensures
        Set::new(|id: u64| 1 <= id <= n).len() == n,
        Set::new(|id: u64| 1 <= id <= n).finite(),
    decreases n,
{
    let s = Set::new(|id: u64| 1 <= id <= n);
    if n == 0 {
        assert(s =~= Set::empty());
    } else {
        let m = (n - 1) as u64;
        lemma_range_len(m);
        assert(s =~= Set::new(|id: u64| 1 <= id <= m).insert(n));
    }
}

/// Two cuts in a row are numbered one after the other, and the second finds
/// every balance at zero.
pub proof fn lemma_successive_cuts(s: ServiceView)
    requires
        s.inv(),
        s.file_counter < u64::MAX - 1,
    ensures
        ({
            let (t, _, n1) = s.cut();
            let (u, entries, n2) = t.cut();
            &&& n2 == n1 + 1
            &&& forall|i: int| 0 <= i < entries.len() ==> (#[trigger] entries[i]).1 == AmountValue::zero()
        }),
{
    let (t, _, n1) = s.cut();
    assert(t.accounts.dom() =~= s.accounts.dom());
}

/// Restoring passes over the entries of clients that do not exist.
pub proof fn lemma_restore_passes_over_unknown_clients(
    s: ServiceView,
    cut: Seq<(u64, AmountValue)>,
)
    requires
        forall|i: int| 0 <= i < cut.len() ==> !s.accounts.contains_key(#[trigger] cut[i].0),
    ensures
        s.restore(cut) == Some(s),
{
    lemma_fold_over_unknown_ids(s.balances(), cut);
    assert(s.with_balances(s.balances()).accounts =~= s.accounts);
}

proof fn lemma_fold_over_unknown_ids(balances: Map<u64, AmountValue>, cut: Seq<(u64, AmountValue)>)
    requires
        forall|i: int| 0 <= i < cut.len() ==> !balances.contains_key(#[trigger] cut[i].0),
    ensures
        restore_fold(balances, cut) == Some(balances),
    decreases cut.len(),
{
    if cut.len() > 0 {
        assert forall|i: int| 0 <= i < cut.drop_last().len() implies !balances.contains_key(
            #[trigger] cut.drop_last()[i].0,
        ) by {
            assert(cut.drop_last()[i] == cut[i]);
        }
        lemma_fold_over_unknown_ids(balances, cut.drop_last());
        assert(!balances.contains_key(cut[cut.len() - 1].0));
    }
}

/// Restoring a cut keeps the invariant: it changes balances only.
pub proof fn lemma_restore_keeps_invariant(s: ServiceView, cut: Seq<(u64, AmountValue)>)
    requires
        s.inv(),
        s.restore(cut) is Some,
    ensures
        s.restore(cut).unwrap().inv(),
        s.restore(cut).unwrap().accounts.dom() == s.accounts.dom(),
        forall|id: u64| #[trigger] s.accounts.contains_key(id) ==> s.restore(cut).unwrap().accounts[id]
            == (ClientView { balance: s.restore(cut).unwrap().accounts[id].balance, ..s.accounts[id] }),
{
    let t = s.restore(cut).unwrap();
    assert(t.accounts.dom() =~= s.accounts.dom());
    assert forall|x: u64, y: u64|
        #![trigger t.accounts[x], t.accounts[y]]
        t.accounts.contains_key(x) && t.accounts.contains_key(y) && x != y
        implies t.accounts[x].document_number != t.accounts[y].document_number by {
        assert(t.accounts[x].document_number == s.accounts[x].document_number);
        assert(t.accounts[y].document_number == s.accounts[y].document_number);
    }
}

/// A document number that no account holds, compared character by
/// character, always opens an account (while ids remain): it gets the next
/// id and the data given, with a zero balance, and nothing else changes.
pub proof fn lemma_new_document_opens_account(
    s: ServiceView,
    client_name: Seq<char>,
    birth_date: Seq<char>,
    document_number: Seq<char>,
    country: Seq<char>,
)
    requires
        s.inv(),
        s.next_client_id < u64::MAX,
        forall|id: u64| #[trigger] s.accounts.contains_key(id) ==> s.accounts[id].document_number != document_number,
    ensures
        ({
            let (t, r) = s.open_account(client_name, birth_date, document_number, country);
            let id = (s.next_client_id + 1) as u64;
            &&& r == Ok::<u64, ServiceError>(id)
            &&& t.accounts == s.accounts.insert(
                id,
                ClientView {
                    balance: AmountValue { mantissa: 0, scale: 0 },
                    client_name,
                    birth_date,
                    document_number,
                    country,
                },
            )
            &&& t.next_client_id == id
            &&& t.file_counter == s.file_counter
        }),
{
}

/// The client returned for a known id is the one stored under that id.
pub proof fn lemma_client_info_is_the_stored_client(s: ServiceView, id: u64)
    requires
        s.accounts.contains_key(id),
    ensures
        s.client_info(id) == Ok::<ClientView, ServiceError>(s.accounts[id]),
{
}

/// Opening an account leaves what is answered for every other client as it
/// was.
pub proof fn lemma_open_account_keeps_other_clients(
    s: ServiceView,
    id: u64,
    client_name: Seq<char>,
    birth_date: Seq<char>,
    document_number: Seq<char>,
    country: Seq<char>,
)
    requires
        s.inv(),
        s.can_open_account(document_number),
        s.accounts.contains_key(id),
    ensures
        s.open_account(client_name, birth_date, document_number, country).0.client_info(id)
            == s.client_info(id),
{
    assert(id != s.next_client_id + 1);
}

/// A transaction leaves the name, birth date, document number and country of
/// every client as they were.
pub proof fn lemma_transactions_keep_client_data(s: ServiceView, id: u64, amount: AmountValue, k: u64)
    requires
        s.accounts.contains_key(k),
    ensures
        s.credit(id, amount) matches Some((t, _)) ==> (t.client_info(k) matches Ok(c) && c == (ClientView {
            balance: c.balance,
            ..s.accounts[k]
        })),
        s.debit(id, amount) matches Some((t, _)) ==> (t.client_info(k) matches Ok(c) && c == (ClientView {
            balance: c.balance,
            ..s.accounts[k]
        })),
{
}

/// A credit that succeeds gives the client what `Decimal` gives for its
/// balance plus the amount, and only when that sum exists.
pub proof fn lemma_credit_adds_the_amount(s: ServiceView, id: u64, amount: AmountValue)
    requires
        amount.is_positive(),
        s.accounts.contains_key(id),
    ensures
        (s.credit(id, amount) is Some) == (decimal_checked_add(s.accounts[id].balance, amount) is Some),
        s.credit(id, amount) matches Some((t, r)) ==> {
            let b = decimal_checked_add(s.accounts[id].balance, amount).unwrap();
            &&& r == Ok::<AmountValue, ServiceError>(b)
            &&& t.accounts == s.accounts.insert(id, ClientView { balance: b, ..s.accounts[id] })
            &&& t.next_client_id == s.next_client_id
            &&& t.file_counter == s.file_counter
        },
{
}

/// A debit that succeeds gives the client what `Decimal` gives for its
/// balance minus the amount, and only when that difference exists.
pub proof fn lemma_debit_subtracts_the_amount(s: ServiceView, id: u64, amount: AmountValue)
    requires
        amount.is_positive(),
        s.accounts.contains_key(id),
    ensures
        (s.debit(id, amount) is Some) == (decimal_checked_sub(s.accounts[id].balance, amount) is Some),
        s.debit(id, amount) matches Some((t, r)) ==> {
            let b = decimal_checked_sub(s.accounts[id].balance, amount).unwrap();
            &&& r == Ok::<AmountValue, ServiceError>(b)
            &&& t.accounts == s.accounts.insert(id, ClientView { balance: b, ..s.accounts[id] })
            &&& t.next_client_id == s.next_client_id
            &&& t.file_counter == s.file_counter
        },
{
}

/// Restoring one entry adds its amount to the current balance of its
/// client, whatever that balance is (`Decimal`'s sum); an entry of an
/// unknown client changes nothing.
pub proof fn lemma_restore_one_entry(s: ServiceView, id: u64, amount: AmountValue)
    ensures
        s.accounts.contains_key(id) ==> s.restore(seq![(id, amount)]) == match decimal_checked_add(
            s.accounts[id].balance,
            amount,
        ) {
            Some(sum) => Some(
                ServiceView {
                    accounts: s.accounts.insert(id, ClientView { balance: sum, ..s.accounts[id] }),
                    ..s
                },
            ),
            None => None,
        },
        !s.accounts.contains_key(id) ==> s.restore(seq![(id, amount)]) == Some(s),
{
    let c = seq![(id, amount)];
    assert(c.drop_last() =~= Seq::<(u64, AmountValue)>::empty());
    assert(c.last() == (id, amount));
    let b = s.balances();
    assert(restore_fold(b, c.drop_last()) == Some(b));
    assert(restore_fold(b, c) == restore_step(b, (id, amount)));
    assert(b.contains_key(id) == s.accounts.contains_key(id));
    if s.accounts.contains_key(id) {
        assert(b[id] == s.accounts[id].balance);
        if let Some(sum) = decimal_checked_add(s.accounts[id].balance, amount) {
            assert(s.with_balances(b.insert(id, sum)).accounts =~= s.accounts.insert(
                id,
                ClientView { balance: sum, ..s.accounts[id] },
            ));
        }
    } else {
        assert(s.with_balances(b).accounts =~= s.accounts);
    }
}

/// Restoring a cut in two parts, one after the other, is restoring it
/// whole.
pub proof fn lemma_restore_in_parts(
    s: ServiceView,
    first: Seq<(u64, AmountValue)>,
    second: Seq<(u64, AmountValue)>,
)
    ensures
        s.restore(first + second) == match s.restore(first) {
            Some(t) => t.restore(second),
            None => None,
        },
{
    lemma_fold_in_parts(s.balances(), first, second);
    if let Some(b1) = restore_fold(s.balances(), first) {
        lemma_fold_keeps_ids(s.balances(), first);
        let t = s.with_balances(b1);
        assert(t.balances() =~= b1);
        if let Some(b2) = restore_fold(b1, second) {
            assert(t.with_balances(b2).accounts =~= s.with_balances(b2).accounts);
        }
    }
}

proof fn lemma_fold_in_parts(
    balances: Map<u64, AmountValue>,
    first: Seq<(u64, AmountValue)>,
    second: Seq<(u64, AmountValue)>,
)
    ensures
        restore_fold(balances, first + second) == match restore_fold(balances, first) {
            Some(b) => restore_fold(b, second),
            None => None,
        },
    decreases second.len(),
{
    if second.len() == 0 {
        assert(first + second =~= first);
    } else {
        assert((first + second).drop_last() =~= first + second.drop_last());
        assert((first + second).last() == second.last());
        lemma_fold_in_parts(balances, first, second.drop_last());
    }
}

proof fn lemma_fold_keeps_ids(balances: Map<u64, AmountValue>, cut: Seq<(u64, AmountValue)>)
    ensures
        restore_fold(balances, cut) matches Some(b) ==> b.dom() == balances.dom(),
    decreases cut.len(),
{
    if cut.len() > 0 {
        lemma_fold_keeps_ids(balances, cut.drop_last());
        if let Some(b) = restore_fold(balances, cut.drop_last()) {
            if let Some(sum) = decimal_checked_add(b[cut.last().0], cut.last().1) {
                if b.contains_key(cut.last().0) {
                    assert(b.insert(cut.last().0, sum).dom() =~= b.dom());
                }
            }
        }
    }
}

/// The file of a single entry is one line: the id, a space, the balance, a
/// line feed.
pub proof fn lemma_balances_text_one_entry(id: u64, balance: AmountValue)
    ensures
        balances_text(seq![(id, balance)]) == nat_text(id as nat) + seq![' '] + amount_text(balance)
            + seq!['\n'],
{
    let c = seq![(id, balance)];
    assert(c.drop_last() =~= Seq::<(u64, AmountValue)>::empty());
    assert(balances_text(c.drop_last()) == Seq::<char>::empty());
    assert(balances_text(c) =~= nat_text(id as nat) + seq![' '] + amount_text(balance) + seq!['\n']);
}

/// The file of two lists of entries, one after the other, is the file of
/// the first followed by that of the second: every entry gets its line,
/// whatever the entries around it.
pub proof fn lemma_balances_text_concat(
    first: Seq<(u64, AmountValue)>,
    second: Seq<(u64, AmountValue)>,
)
    ensures
        balances_text(first + second) == balances_text(first) + balances_text(second),
    decreases second.len(),
{
    if second.len() == 0 {
        assert(first + second =~= first);
        assert(balances_text(first) + balances_text(second) =~= balances_text(first));
    } else {
        assert((first + second).drop_last() =~= first + second.drop_last());
        assert((first + second).last() == second.last());
        lemma_balances_text_concat(first, second.drop_last());
        assert(balances_text(first + second) =~= balances_text(first) + balances_text(second));
    }
}


/// The number that a string of decimal digits denotes.
pub open spec fn digits_value(digits: Seq<char>) -> int
    decreases digits.len(),
{
    if digits.len() == 0 {
        0
    } else {
        digits_value(digits.drop_last()) * 10 + (digits.last() as int - '0' as int)
    }
}

/// The character is a decimal digit.
pub open spec fn is_digit(c: char) -> bool {
    '0' <= c && c <= '9'
}

/// The decimal text of a number is made of digits, denotes that number, and
/// has no leading zero but for zero itself.
pub proof fn lemma_nat_text_denotes_the_number(n: u64)
    ensures
        forall|i: int| 0 <= i < nat_text(n as nat).len() ==> is_digit(#[trigger] nat_text(n as nat)[i]),
        digits_value(nat_text(n as nat)) == n,
        nat_text(n as nat).len() >= 1,
        nat_text(n as nat)[0] == '0' ==> n == 0 && nat_text(n as nat).len() == 1,
{
    if n == 0 {
        let t = seq!['0'];
        assert(t.drop_last() =~= Seq::<char>::empty());
        assert(digits_value(t.drop_last()) == 0);
        assert(t.last() == '0');
        assert(digits_value(t) == 0);
    } else {
        lemma_magnitude_digits(n as nat);
    }
}

proof fn lemma_magnitude_digits(n: nat)
    requires
        n > 0,
    ensures
        forall|i: int| 0 <= i < magnitude_digits(n).len() ==> is_digit(#[trigger] magnitude_digits(n)[i]),
        digits_value(magnitude_digits(n)) == n,
        magnitude_digits(n).len() >= 1,
        magnitude_digits(n)[0] != '0',
    decreases n,
{
    let m = n / 10;
    let d = n % 10;
    let t = magnitude_digits(n);
    assert(t == magnitude_digits(m).push(digit_char(d)));
    assert(t.drop_last() =~= magnitude_digits(m));
    assert(digit_char(d) as int - '0' as int == d);
    if m == 0 {
        assert(magnitude_digits(m) =~= Seq::<char>::empty());
        assert(digits_value(Seq::<char>::empty()) == 0);
    } else {
        lemma_magnitude_digits(m);
    }
    assert forall|i: int| 0 <= i < t.len() implies is_digit(#[trigger] t[i]) by {
        if i < t.len() - 1 {
            assert(t[i] == magnitude_digits(m)[i]);
        }
    }
}


/// The name of a balance file is the day, an underscore, the decimal number
/// of the cut, and `.DAT`.
pub proof fn lemma_file_name_parts(day: Seq<char>, file_number: u64)
    ensures
        ({
            let name = balance_file_name_text(day, file_number);
            let end = name.len() - 4;
            &&& name.len() >= day.len() + 6
            &&& name.subrange(0, day.len() as int) == day
            &&& name[day.len() as int] == '_'
            &&& name.subrange(end, name.len() as int) == seq!['.', 'D', 'A', 'T']
            &&& digits_value(name.subrange(day.len() + 1int, end)) == file_number
        }),
{
    lemma_nat_text_denotes_the_number(file_number);
    let name = balance_file_name_text(day, file_number);
    let digits = nat_text(file_number as nat);
    let end = name.len() - 4;
    assert(name.subrange(0, day.len() as int) =~= day);
    assert(name.subrange(end, name.len() as int) =~= seq!['.', 'D', 'A', 'T']);
    assert(name.subrange(day.len() + 1int, end) =~= digits);
}

} // verus!
