//! A client account: personal data and balance.

use vstd::prelude::*;

use crate::amount::{Amount, AmountValue};

verus! {

/// A client: the data given when the account was opened, and its balance.
#[derive(Clone, Debug, PartialEq)]
pub struct Client {
    pub balance: Amount,
    pub client_name: String,
    pub birth_date: String,
    pub document_number: String,
    pub country: String,
}

/// The mathematical model of a client.
pub struct ClientView {
    pub balance: AmountValue,
    pub client_name: Seq<char>,
    pub birth_date: Seq<char>,
    pub document_number: Seq<char>,
    pub country: Seq<char>,
}

impl View for Client {
    type V = ClientView;

    open spec fn view(&self) -> ClientView {
        ClientView {
            balance: self.balance@,
            client_name: self.client_name@,
            birth_date: self.birth_date@,
            document_number: self.document_number@,
            country: self.country@,
        }
    }
}

impl Client {
    /// A copy of the client, field by field.
    pub fn copy(&self) -> (r: Client)
        ensures
            r@ == self@,
    {
        Client {
            balance: self.balance,
            client_name: self.client_name.clone(),
            birth_date: self.birth_date.clone(),
            document_number: self.document_number.clone(),
            country: self.country.clone(),
        }
    }
}

} // verus!
