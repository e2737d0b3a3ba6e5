//! Contact records.

use vstd::prelude::*;

verus! {

/// A contact known to the client.
#[derive(Clone, Debug)]
pub struct Contact {
    /// Chat identifier of the contact.
    pub jid: String,
    /// Name saved in the address book.
    pub name: Option<String>,
    /// Name the contact chose.
    pub push_name: Option<String>,
    /// Phone number, where known.
    pub phone_number: Option<String>,
    /// Whether the contact uses the service.
    pub is_registered: bool,
}

} // verus!
