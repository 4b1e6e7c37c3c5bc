//! The single pending transaction identifier of the outbound health ping.
use vstd::prelude::*;
use crate::text::str_eq;

verus! {

/// Relies on uuid's `Uuid::new_v4` and its `Display`: a fresh random
/// identifier as text. Nothing is known of its value.
#[verifier::external_body]
fn random_uuid() -> (r: String) {
    uuid::Uuid::new_v4().to_string()
}

/// The identifier of the last ping sent, until it is echoed back.
pub struct TransactionStore {
    current_id: Option<String>,
}

impl TransactionStore {
    /// The identifier waiting to be echoed back, if any.
    pub closed spec fn pending(&self) -> Option<Seq<char>> {
        match self.current_id {
            Some(s) => Some(s@),
            None => None,
        }
    }

    /// A store with nothing pending.
    pub fn new() -> (r: Self)
        ensures
            r.pending() is None,
    {
        TransactionStore { current_id: None }
    }

    /// Records `id` as the pending identifier.
    pub fn remember(&mut self, id: String)
        ensures
            final(self).pending() == Some(id@),
    {
        self.current_id = Some(id);
    }

    /// A fresh random identifier, which becomes the pending one.
    pub fn generate_transaction_id(&mut self) -> (r: String)
        ensures
            final(self).pending() == Some(r@),
    {
        let id = random_uuid();
        self.remember(id.clone());
        id
    }

    /// Whether `transaction_id` is the pending one; if so it is consumed.
    pub fn verify_and_remove_transaction(&mut self, transaction_id: &str) -> (r: bool)
        ensures
            r == (old(self).pending() == Some(transaction_id@)),
            r ==> final(self).pending() is None,
            !r ==> final(self).pending() == old(self).pending(),
    {
        let matched = match &self.current_id {
            Some(stored) => str_eq(stored.as_str(), transaction_id),
            None => false,
        };
        if matched {
            self.current_id = None;
        }
        matched
    }
}

impl Default for TransactionStore {
    fn default() -> (r: Self)
        ensures
            r.pending() is None,
    {
        TransactionStore::new()
    }
}

/// The body of a ping echoed back by the homeserver.
pub struct PingRequest {
    pub transaction_id: String,
}

} // verus!
