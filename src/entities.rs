use vstd::prelude::*;
use crate::ledger::{Address, AddressKind};

verus! {

/// What a transaction's execution reports: the entities it created, in order, and for each call
/// either its encoded result (if it returned one) or the engine's error message.
pub struct Receipt {
    pub new_entities: Vec<Address>,
    pub results: Vec<Result<Option<Vec<u8>>, String>>,
}

/// Why an address cannot sign.
#[derive(Debug, Clone, Copy, PartialEq, Eq, Structural)]
pub enum SignerError {
    NotAPublicKey,
}

/// The signers of a transaction signed by `address`: the address alone, which must be a public key.
pub fn address_to_signers(address: Address) -> (r: Result<Vec<Address>, SignerError>)
    ensures
        address.kind == AddressKind::PublicKey ==> (r matches Ok(v) && v@.len() == 1 && v@[0]@ == address@),
        address.kind != AddressKind::PublicKey ==> r == Result::<Vec<Address>, SignerError>::Err(SignerError::NotAPublicKey),
{
    if address.is_public_key() {
        let mut v: Vec<Address> = Vec::new();
        v.push(address);
        Ok(v)
    } else {
        Err(SignerError::NotAPublicKey)
    }
}

/// The addresses of kind `k` among `s`, in order.
pub open spec fn of_kind(s: Seq<(AddressKind, Seq<u8>)>, k: AddressKind) -> Seq<(AddressKind, Seq<u8>)>
    decreases s.len(),
{
    if s.len() == 0 {
        Seq::empty()
    } else if s.last().0 == k {
        of_kind(s.drop_last(), k).push(s.last())
    } else {
        of_kind(s.drop_last(), k)
    }
}

pub open spec fn addresses_view(v: Seq<Address>) -> Seq<(AddressKind, Seq<u8>)> {
    v.map_values(|a: Address| a@)
}

fn select_kind(all: &Vec<Address>, k: AddressKind) -> (r: Vec<Address>)
    ensures
        addresses_view(r@) == of_kind(addresses_view(all@), k),
{
    let mut r: Vec<Address> = Vec::new();
    let mut i: usize = 0;
    while i < all.len()
        invariant
            i <= all@.len(),
            addresses_view(r@) == of_kind(addresses_view(all@.subrange(0, i as int)), k),
        decreases all@.len() - i,
    {
        let ghost before = addresses_view(all@.subrange(0, i as int));
        proof {
            let now = addresses_view(all@.subrange(0, i + 1));
            assert(now.drop_last() =~= before);
            assert(now.last() == all@[i as int]@);
        }
        if all[i].kind == k {
            let ghost rv = addresses_view(r@);
            r.push(all[i].clone_address());
            proof {
                assert(addresses_view(r@) =~= rv.push(all@[i as int]@));
            }
        }
        i = i + 1;
    }
    proof {
        assert(all@.subrange(0, all@.len() as int) =~= all@);
    }
    r
}

} // verus!

verus! {

/// The resources, components and packages that a receipt's transaction created, each in order.
pub fn get_call_results(receipt: Receipt) -> (r: (Vec<Address>, Vec<Address>, Vec<Address>))
    ensures
        addresses_view(r.0@) == of_kind(addresses_view(receipt.new_entities@), AddressKind::ResourceDef),
        addresses_view(r.1@) == of_kind(addresses_view(receipt.new_entities@), AddressKind::Component),
        addresses_view(r.2@) == of_kind(addresses_view(receipt.new_entities@), AddressKind::Package),
{
    let packages = select_kind(&receipt.new_entities, AddressKind::Package);
    let components = select_kind(&receipt.new_entities, AddressKind::Component);
    let resources = select_kind(&receipt.new_entities, AddressKind::ResourceDef);
    (resources, components, packages)
}

} // verus!
