use vstd::prelude::*;
use crate::text::{hex_string, hex_text};

verus! {

/// What an address names; its first byte tells.
#[derive(Debug, Clone, Copy, PartialEq, Eq, Structural)]
pub enum AddressKind {
    Package,
    Component,
    ResourceDef,
    PublicKey,
}

pub const ADDRESS_PACKAGE: u8 = 0x01;
pub const ADDRESS_COMPONENT: u8 = 0x02;
pub const ADDRESS_RESOURCE_DEF: u8 = 0x03;
pub const ADDRESS_PUBLIC_KEY: u8 = 0x04;
/// Bytes of an entity address: its kind byte and a 26-byte identifier.
pub const ENTITY_ADDRESS_LEN: usize = 27;
/// Bytes of a public key address: its kind byte and a 33-byte compressed key.
pub const PUBLIC_KEY_ADDRESS_LEN: usize = 34;

/// An entity identifier, kept as its bytes; `kind` is what the first byte names.
#[derive(Debug)]
pub struct Address {
    pub kind: AddressKind,
    pub bytes: Vec<u8>,
}

/// The kind that a well-formed address's bytes name.
pub open spec fn address_kind_of(b: Seq<u8>) -> Option<AddressKind> {
    if b.len() == ENTITY_ADDRESS_LEN && b[0] == ADDRESS_PACKAGE {
        Some(AddressKind::Package)
    } else if b.len() == ENTITY_ADDRESS_LEN && b[0] == ADDRESS_COMPONENT {
        Some(AddressKind::Component)
    } else if b.len() == ENTITY_ADDRESS_LEN && b[0] == ADDRESS_RESOURCE_DEF {
        Some(AddressKind::ResourceDef)
    } else if b.len() == PUBLIC_KEY_ADDRESS_LEN && b[0] == ADDRESS_PUBLIC_KEY {
        Some(AddressKind::PublicKey)
    } else {
        None
    }
}

impl View for Address {
    type V = (AddressKind, Seq<u8>);

    open spec fn view(&self) -> (AddressKind, Seq<u8>) {
        (self.kind, self.bytes@)
    }
}

/// The value of a hexadecimal digit of either case.
pub open spec fn hex_digit_value(c: char) -> Option<nat> {
    if '0' <= c <= '9' {
        Some((c as nat - '0' as nat) as nat)
    } else if 'a' <= c <= 'f' {
        Some((c as nat - 'a' as nat + 10) as nat)
    } else if 'A' <= c <= 'F' {
        Some((c as nat - 'A' as nat + 10) as nat)
    } else {
        None
    }
}

/// The bytes that hexadecimal text spells, two digits per byte, high digit first.
pub open spec fn hex_bytes(s: Seq<char>) -> Option<Seq<u8>>
    decreases s.len(),
{
    if s.len() == 0 {
        Some(Seq::empty())
    } else if s.len() == 1 {
        None
    } else {
        match (hex_bytes(s.drop_last().drop_last()), hex_digit_value(s[s.len() - 2]), hex_digit_value(s.last())) {
            (Some(b), Some(hi), Some(lo)) => Some(b.push((hi * 16 + lo) as u8)),
            _ => None,
        }
    }
}

/// Relies on hex::decode: the bytes of even-length text made of hexadecimal digits of either case.
#[verifier::external_body]
fn hex_decode(s: &str) -> (r: Option<Vec<u8>>)
    ensures
        match r {
            Some(b) => hex_bytes(s@) == Some(b@),
            None => hex_bytes(s@) is None,
        },
{
    match hex::decode(s) {
        Ok(b) => Some(b),
        Err(_) => None,
    }
}

impl Address {
    /// The address that canonical text spells, if it is one.
    pub fn from_text(s: &str) -> (r: Option<Address>)
        ensures
            match r {
                Some(a) => hex_bytes(s@) == Some(a.bytes@) && address_kind_of(a.bytes@) == Some(a.kind),
                None => hex_bytes(s@) is None || address_kind_of(hex_bytes(s@)->Some_0) is None,
            },
    {
        match hex_decode(s) {
            Some(b) => Address::from_bytes(b.as_slice()),
            None => None,
        }
    }

    /// The canonical text of the address.
    pub fn to_text(&self) -> (r: String)
        ensures
            r@ == hex_text(self.bytes@),
    {
        hex_string(self.bytes.as_slice())
    }

    /// The address that `b` holds, if it is one.
    pub fn from_bytes(b: &[u8]) -> (r: Option<Address>)
        ensures
            match r {
                Some(a) => address_kind_of(b@) == Some(a.kind) && a.bytes@ == b@,
                None => address_kind_of(b@) is None,
            },
    {
        let n = b.len();
        if n == 0 {
            return None;
        }
        let kind = if n == ENTITY_ADDRESS_LEN && b[0] == ADDRESS_PACKAGE {
            AddressKind::Package
        } else if n == ENTITY_ADDRESS_LEN && b[0] == ADDRESS_COMPONENT {
            AddressKind::Component
        } else if n == ENTITY_ADDRESS_LEN && b[0] == ADDRESS_RESOURCE_DEF {
            AddressKind::ResourceDef
        } else if n == PUBLIC_KEY_ADDRESS_LEN && b[0] == ADDRESS_PUBLIC_KEY {
            AddressKind::PublicKey
        } else {
            return None;
        };
        Some(Address { kind, bytes: copy_all(b) })
    }

    pub fn is_component(&self) -> (r: bool)
        ensures
            r == (self.kind == AddressKind::Component),
    {
        match self.kind {
            AddressKind::Component => true,
            _ => false,
        }
    }

    pub fn is_public_key(&self) -> (r: bool)
        ensures
            r == (self.kind == AddressKind::PublicKey),
    {
        match self.kind {
            AddressKind::PublicKey => true,
            _ => false,
        }
    }

    pub fn clone_address(&self) -> (r: Address)
        ensures
            r.kind == self.kind,
            r.bytes@ == self.bytes@,
    {
        Address { kind: self.kind, bytes: copy_all(self.bytes.as_slice()) }
    }
}

/// A copy of all of `b`.
pub fn copy_all(b: &[u8]) -> (r: Vec<u8>)
    ensures
        r@ == b@,
{
    let mut r: Vec<u8> = Vec::new();
    let mut i: usize = 0;
    while i < b.len()
        invariant
            i <= b@.len(),
            r@ == b@.subrange(0, i as int),
        decreases b@.len() - i,
    {
        r.push(b[i]);
        i = i + 1;
        assert(r@ =~= b@.subrange(0, i as int));
    }
    assert(r@ =~= b@);
    r
}

/// Whether two byte strings are equal.
pub fn same_bytes(a: &[u8], b: &[u8]) -> (r: bool)
    ensures
        r == (a@ == b@),
{
    if a.len() != b.len() {
        return false;
    }
    let mut i: usize = 0;
    while i < a.len()
        invariant
            i <= a@.len(),
            a@.len() == b@.len(),
            forall|j: int| 0 <= j < i ==> a@[j] == b@[j],
        decreases a@.len() - i,
    {
        if a[i] != b[i] {
            return false;
        }
        i = i + 1;
    }
    assert(a@ =~= b@);
    true
}

/// The identifier of a vault or a lazy map: the hash of the transaction that made it and a counter.
#[derive(Debug)]
pub struct EntityId {
    pub hash: Vec<u8>,
    pub index: u32,
}

/// Bytes of an id's hash.
pub const ID_HASH_LEN: usize = 32;
/// Bytes of an id: its hash and a little-endian 32-bit counter.
pub const ID_LEN: usize = 36;

impl View for EntityId {
    type V = (Seq<u8>, u32);

    open spec fn view(&self) -> (Seq<u8>, u32) {
        (self.hash@, self.index)
    }
}

impl EntityId {
    pub fn same(&self, other: &EntityId) -> (r: bool)
        ensures
            r == (self@ == other@),
    {
        self.index == other.index && same_bytes(self.hash.as_slice(), other.hash.as_slice())
    }

    pub fn clone_id(&self) -> (r: EntityId)
        ensures
            r@ == self@,
    {
        EntityId { hash: copy_all(self.hash.as_slice()), index: self.index }
    }
}

/// A ledger-resident holder of an amount of one resource.
pub struct Vault {
    pub id: EntityId,
    pub resource: Address,
    /// The amount, as the bytes of a decimal number.
    pub amount: Vec<u8>,
}

/// A component and the encoded value of its state.
pub struct Component {
    pub address: Address,
    pub state: Vec<u8>,
}

/// A ledger-resident mapping whose keys and values are encoded values, in insertion order.
pub struct LazyMap {
    pub id: EntityId,
    pub entries: Vec<(Vec<u8>, Vec<u8>)>,
}

/// The entities of the ledger that decoding and balance lookups read.
pub struct Ledger {
    pub components: Vec<Component>,
    pub vaults: Vec<Vault>,
    pub lazy_maps: Vec<LazyMap>,
}

/// The index of the first lazy map from `i` on whose id is `id`.
pub open spec fn find_lazy_map(maps: Seq<LazyMap>, id: (Seq<u8>, u32), i: int) -> Option<int>
    decreases maps.len() - i,
{
    if i < 0 || i >= maps.len() {
        None
    } else if maps[i].id@ == id {
        Some(i)
    } else {
        find_lazy_map(maps, id, i + 1)
    }
}

/// The index of the first vault from `i` on whose id is `id`.
pub open spec fn find_vault(vaults: Seq<Vault>, id: (Seq<u8>, u32), i: int) -> Option<int>
    decreases vaults.len() - i,
{
    if i < 0 || i >= vaults.len() {
        None
    } else if vaults[i].id@ == id {
        Some(i)
    } else {
        find_vault(vaults, id, i + 1)
    }
}

/// The index of the first component from `i` on whose address bytes are `a`.
pub open spec fn find_component(cs: Seq<Component>, a: Seq<u8>, i: int) -> Option<int>
    decreases cs.len() - i,
{
    if i < 0 || i >= cs.len() {
        None
    } else if cs[i].address.bytes@ == a {
        Some(i)
    } else {
        find_component(cs, a, i + 1)
    }
}

impl Ledger {
    pub fn new() -> (r: Ledger)
        ensures
            r.components@.len() == 0,
            r.vaults@.len() == 0,
            r.lazy_maps@.len() == 0,
    {
        Ledger { components: Vec::new(), vaults: Vec::new(), lazy_maps: Vec::new() }
    }

    /// The position of the lazy map with id `id`, if the ledger holds one.
    pub fn get_lazy_map(&self, id: &EntityId) -> (r: Option<usize>)
        ensures
            r matches Some(i) ==> find_lazy_map(self.lazy_maps@, id@, 0) == Some(i as int) && i < self.lazy_maps@.len(),
            r is None ==> find_lazy_map(self.lazy_maps@, id@, 0) is None,
    {
        let mut i: usize = 0;
        while i < self.lazy_maps.len()
            invariant
                i <= self.lazy_maps@.len(),
                find_lazy_map(self.lazy_maps@, id@, 0) == find_lazy_map(self.lazy_maps@, id@, i as int),
            decreases self.lazy_maps@.len() - i,
        {
            if self.lazy_maps[i].id.same(id) {
                return Some(i);
            }
            i = i + 1;
        }
        None
    }

    /// The position of the vault with id `id`, if the ledger holds one.
    pub fn get_vault(&self, id: &EntityId) -> (r: Option<usize>)
        ensures
            r matches Some(i) ==> find_vault(self.vaults@, id@, 0) == Some(i as int) && i < self.vaults@.len(),
            r is None ==> find_vault(self.vaults@, id@, 0) is None,
    {
        let mut i: usize = 0;
        while i < self.vaults.len()
            invariant
                i <= self.vaults@.len(),
                find_vault(self.vaults@, id@, 0) == find_vault(self.vaults@, id@, i as int),
            decreases self.vaults@.len() - i,
        {
            if self.vaults[i].id.same(id) {
                return Some(i);
            }
            i = i + 1;
        }
        None
    }

    /// The position of the component at address `a`, if the ledger holds one.
    pub fn get_component(&self, a: &Address) -> (r: Option<usize>)
        ensures
            r matches Some(i) ==> find_component(self.components@, a.bytes@, 0) == Some(i as int) && i < self.components@.len(),
            r is None ==> find_component(self.components@, a.bytes@, 0) is None,
    {
        let mut i: usize = 0;
        while i < self.components.len()
            invariant
                i <= self.components@.len(),
                find_component(self.components@, a.bytes@, 0) == find_component(self.components@, a.bytes@, i as int),
            decreases self.components@.len() - i,
        {
            if same_bytes(self.components[i].address.bytes.as_slice(), a.bytes.as_slice()) {
                return Some(i);
            }
            i = i + 1;
        }
        None
    }
}

} // verus!
