//! Values that every component of a node shares: its network identity, its
//! settings, and the addresses of the virtual network.

use vstd::prelude::*;
use uuid::Uuid;

verus! {

/// An address of the virtual network.
#[derive(Clone, Copy, Debug, PartialEq, Eq, Structural)]
pub struct Ipv4Addr {
    pub a: u8,
    pub b: u8,
    pub c: u8,
    pub d: u8,
}

impl Ipv4Addr {
    pub fn new(a: u8, b: u8, c: u8, d: u8) -> (ip: Ipv4Addr)
        ensures
            ip == (Ipv4Addr { a, b, c, d }),
    {
        Ipv4Addr { a, b, c, d }
    }

    /// `255.255.255.255`.
    pub open spec fn spec_is_broadcast(self) -> bool {
        self.a == 255 && self.b == 255 && self.c == 255 && self.d == 255
    }

    #[verifier::when_used_as_spec(spec_is_broadcast)]
    pub fn is_broadcast(self) -> (r: bool)
        ensures
            r == self.spec_is_broadcast(),
    {
        self.a == 255 && self.b == 255 && self.c == 255 && self.d == 255
    }

    /// An address of `224.0.0.0/4`.
    pub open spec fn spec_is_multicast(self) -> bool {
        224 <= self.a <= 239
    }

    #[verifier::when_used_as_spec(spec_is_multicast)]
    pub fn is_multicast(self) -> (r: bool)
        ensures
            r == self.spec_is_multicast(),
    {
        self.a >= 224 && self.a <= 239
    }

    /// Whether a frame for this address goes to every known peer: the
    /// broadcast address, a multicast address, or the last address of a
    /// `/24` network.
    pub open spec fn spec_addresses_all_peers(self) -> bool {
        self.spec_is_broadcast() || self.spec_is_multicast() || self.d == 255
    }

    #[verifier::when_used_as_spec(spec_addresses_all_peers)]
    pub fn addresses_all_peers(self) -> (r: bool)
        ensures
            r == self.spec_addresses_all_peers(),
    {
        self.is_broadcast() || self.is_multicast() || self.d == 255
    }
}

/// What a network identity is: the characters of its name and of its secret.
pub struct NetworkIdentityView {
    pub network_name: Seq<char>,
    pub network_secret: Seq<char>,
}

/// The name of a network and the secret that its members share.
#[derive(Debug, PartialEq, Eq)]
pub struct NetworkIdentity {
    pub network_name: String,
    pub network_secret: String,
}

impl View for NetworkIdentity {
    type V = NetworkIdentityView;

    open spec fn view(&self) -> NetworkIdentityView {
        NetworkIdentityView {
            network_name: self.network_name@,
            network_secret: self.network_secret@,
        }
    }
}

impl Clone for NetworkIdentity {
    fn clone(&self) -> (r: Self)
        ensures
            r@ == self@,
    {
        NetworkIdentity {
            network_name: self.network_name.clone(),
            network_secret: self.network_secret.clone(),
        }
    }
}

impl NetworkIdentity {
    pub fn new(network_name: String, network_secret: String) -> (id: NetworkIdentity)
        ensures
            id.network_name == network_name,
            id.network_secret == network_secret,
    {
        NetworkIdentity { network_name, network_secret }
    }

    /// Whether both identities name the same network.
    pub fn same_network(&self, other: &NetworkIdentity) -> (r: bool)
        ensures
            r == (self@.network_name == other@.network_name),
    {
        self.network_name == other.network_name
    }

    /// Whether name and secret agree, character for character.
    pub fn same_identity(&self, other: &NetworkIdentity) -> (r: bool)
        ensures
            r == (self@ == other@),
    {
        self.network_name == other.network_name && self.network_secret == other.network_secret
    }
}

/// Settings of a node that the core reads.
#[derive(Clone, Copy, Debug, PartialEq, Eq, Structural)]
pub struct Flags {
    pub enable_encryption: bool,
}

/// What a node's context is.
pub struct GlobalCtxView {
    pub inst_name: Seq<char>,
    pub id: Uuid,
    pub network_identity: NetworkIdentityView,
    pub flags: Flags,
}

/// What a node knows of itself.
#[derive(Debug)]
pub struct GlobalCtx {
    pub inst_name: String,
    pub id: Uuid,
    pub network_identity: NetworkIdentity,
    pub flags: Flags,
}

impl View for GlobalCtx {
    type V = GlobalCtxView;

    open spec fn view(&self) -> GlobalCtxView {
        GlobalCtxView {
            inst_name: self.inst_name@,
            id: self.id,
            network_identity: self.network_identity@,
            flags: self.flags,
        }
    }
}

impl GlobalCtx {
    pub fn new(inst_name: String, id: Uuid, network_identity: NetworkIdentity, flags: Flags) -> (ctx:
        GlobalCtx)
        ensures
            ctx@ == (GlobalCtxView {
                inst_name: inst_name@,
                id,
                network_identity: network_identity@,
                flags,
            }),
    {
        GlobalCtx { inst_name, id, network_identity, flags }
    }

    pub fn get_id(&self) -> (id: Uuid)
        ensures
            id == self@.id,
    {
        self.id
    }

    pub fn get_network_identity(&self) -> (id: &NetworkIdentity)
        ensures
            id@ == self@.network_identity,
    {
        &self.network_identity
    }

    pub fn get_flags(&self) -> (flags: Flags)
        ensures
            flags == self@.flags,
    {
        self.flags
    }
}

} // verus!
