//! Identifiers of clients and backends.

use crate::bytes::{bytes_equal, copy_bytes};
use vstd::prelude::*;

verus! {

/// Longest principal, in bytes, that a backend can have.
pub const MAX_PRINCIPAL_LEN: usize = 29;

/// Identifies one logical client: the session public key that the client
/// presented in its handshake.
#[derive(Clone, Debug, PartialEq, Eq)]
pub struct ClientId {
    pub key: Vec<u8>,
}

impl View for ClientId {
    type V = Seq<u8>;

    open spec fn view(&self) -> Seq<u8> {
        self.key@
    }
}

impl ClientId {
    /// The identifier of the client that holds `key`.
    pub fn from_session_key(key: &[u8]) -> (id: ClientId)
        ensures
            id@ == key@,
    {
        ClientId { key: copy_bytes(key) }
    }

    /// Whether two identifiers name the same client.
    pub fn same(&self, other: &ClientId) -> (same: bool)
        ensures
            same == (self@ == other@),
    {
        bytes_equal(self.key.as_slice(), other.key.as_slice())
    }

    /// A second value with the same identity.
    pub fn duplicate(&self) -> (copy: ClientId)
        ensures
            copy@ == self@,
    {
        ClientId { key: copy_bytes(self.key.as_slice()) }
    }
}

/// What a backend address is, as plain values.
pub struct BackendModel {
    pub location: Seq<u8>,
    pub principal: Seq<u8>,
}

impl BackendModel {
    /// A backend can be called only at a location that is not empty and
    /// under a principal of one to `MAX_PRINCIPAL_LEN` bytes.
    pub open spec fn well_formed(self) -> bool {
        &&& self.location.len() > 0
        &&& 0 < self.principal.len() <= MAX_PRINCIPAL_LEN
    }
}

/// Identifies one backend: where it is reached and the principal that the
/// platform assigned to it.
#[derive(Clone, Debug, PartialEq, Eq)]
pub struct BackendAddress {
    pub location: Vec<u8>,
    pub principal: Vec<u8>,
}

impl View for BackendAddress {
    type V = BackendModel;

    open spec fn view(&self) -> BackendModel {
        BackendModel { location: self.location@, principal: self.principal@ }
    }
}

impl BackendAddress {
    /// The address of the backend that is reached at `location` under
    /// `principal`.
    pub fn new(location: &[u8], principal: &[u8]) -> (address: BackendAddress)
        ensures
            address@.location == location@,
            address@.principal == principal@,
    {
        BackendAddress { location: copy_bytes(location), principal: copy_bytes(principal) }
    }

    /// Whether two addresses name the same backend.
    pub fn same(&self, other: &BackendAddress) -> (same: bool)
        ensures
            same == (self@ == other@),
    {
        bytes_equal(self.location.as_slice(), other.location.as_slice()) && bytes_equal(
            self.principal.as_slice(),
            other.principal.as_slice(),
        )
    }

    /// A second value naming the same backend.
    pub fn duplicate(&self) -> (copy: BackendAddress)
        ensures
            copy@ == self@,
    {
        BackendAddress {
            location: copy_bytes(self.location.as_slice()),
            principal: copy_bytes(self.principal.as_slice()),
        }
    }

    /// Whether the address can name a backend at all.
    pub fn is_well_formed(&self) -> (ok: bool)
        ensures
            ok == self@.well_formed(),
    {
        self.location.len() > 0 && self.principal.len() > 0 && self.principal.len()
            <= MAX_PRINCIPAL_LEN
    }
}

} // verus!
