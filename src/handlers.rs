use vstd::prelude::*;
use crate::config::{Config, StateEvent, apply_event};
use crate::decode::DecodeError;
use crate::entities::Receipt;
use crate::format::{
    DECIMAL_LEN, decimal_string, decimal_text, fmt_data, format_data_with_ledger, ids_view,
    nesting_bound,
};
use crate::ledger::{Address, AddressKind, EntityId, Ledger, find_component, find_vault};
use crate::text::{hex_string, hex_text};

verus! {

/// Why a request failed.
#[derive(Debug, PartialEq, Eq)]
pub enum RequestError {
    /// The address given for a balance lookup is not a component.
    NotAComponent,
    /// The component, or the value its state holds, cannot be read.
    AmountsUnavailable,
    /// The transaction could not be built or executed.
    Transaction,
    /// A call of the transaction failed in the engine, with its message.
    Engine(String),
    /// A call's result is not a well-formed encoded value.
    Decode(DecodeError),
}

/// The resource and amount shown for a vault that the ledger does not hold, or whose amount
/// cannot be read.
pub open spec fn unknown_vault_info() -> (Seq<char>, Seq<char>) {
    ("deadb33f"@, "-1"@)
}

/// The resource of a vault as hex text and its amount as decimal text; the placeholder pair if
/// the ledger does not have the vault or its amount is not a decimal number.
pub open spec fn vault_info(l: Ledger, id: (Seq<u8>, u32)) -> (Seq<char>, Seq<char>) {
    match find_vault(l.vaults@, id, 0) {
        None => unknown_vault_info(),
        Some(i) => if l.vaults@[i].amount@.len() == DECIMAL_LEN {
            (hex_text(l.vaults@[i].resource.bytes@), decimal_text(l.vaults@[i].amount@))
        } else {
            unknown_vault_info()
        },
    }
}

/// The vault infos of `ids`, in order.
pub open spec fn vault_infos(l: Ledger, ids: Seq<(Seq<u8>, u32)>) -> Seq<(Seq<char>, Seq<char>)>
    decreases ids.len(),
{
    if ids.len() == 0 {
        Seq::empty()
    } else {
        vault_infos(l, ids.drop_last()).push(vault_info(l, ids.last()))
    }
}

/// The balances of the component at `a`: for each vault its state holds, in order, the resource
/// and the amount.
pub open spec fn balance_of(l: Ledger, a: (AddressKind, Seq<u8>)) -> Result<Seq<(Seq<char>, Seq<char>)>, RequestError> {
    if a.0 != AddressKind::Component {
        Err(RequestError::NotAComponent)
    } else {
        match find_component(l.components@, a.1, 0) {
            None => Err(RequestError::AmountsUnavailable),
            Some(i) => match fmt_data(l.components@[i].state@, l, nesting_bound(l)) {
                Err(_) => Err(RequestError::AmountsUnavailable),
                Ok((_, ids)) => Ok(vault_infos(l, ids)),
            },
        }
    }
}

pub open spec fn pairs_view(v: Seq<(String, String)>) -> Seq<(Seq<char>, Seq<char>)> {
    v.map_values(|p: (String, String)| (p.0@, p.1@))
}

/// The resource (as hex text) and the amount (as decimal text) of vault `vid`.
pub fn get_vault_info(ledger: &Ledger, vid: &EntityId) -> (r: (String, String))
    ensures
        vault_info(*ledger, vid@) == (r.0@, r.1@),
{
    match ledger.get_vault(vid) {
        None => unknown_vault_strings(),
        Some(i) => {
            let vault = &ledger.vaults[i];
            match decimal_string(vault.amount.as_slice()) {
                Some(amount) => (hex_string(vault.resource.bytes.as_slice()), amount),
                None => unknown_vault_strings(),
            }
        },
    }
}

fn unknown_vault_strings() -> (r: (String, String))
    ensures
        (r.0@, r.1@) == unknown_vault_info(),
{
    (String::from_str("deadb33f"), String::from_str("-1"))
}

/// The balances of the component at `address`.
pub fn get_balance(ledger: &Ledger, address: &Address) -> (r: Result<Vec<(String, String)>, RequestError>)
    ensures
        match balance_of(*ledger, address@) {
            Ok(v) => r matches Ok(w) && pairs_view(w@) == v,
            Err(e) => r == Result::<Vec<(String, String)>, RequestError>::Err(e),
        },
{
    if !address.is_component() {
        return Err(RequestError::NotAComponent);
    }
    let i = match ledger.get_component(address) {
        Some(i) => i,
        None => return Err(RequestError::AmountsUnavailable),
    };
    let mut vids: Vec<EntityId> = Vec::new();
    match format_data_with_ledger(ledger.components[i].state.as_slice(), ledger, &mut vids) {
        Ok(_) => {},
        Err(_) => return Err(RequestError::AmountsUnavailable),
    }
    let ghost ids = ids_view(vids@);
    proof {
        let found = fmt_data(ledger.components@[i as int].state@, *ledger, nesting_bound(*ledger))->Ok_0.1;
        assert(ids_view(Seq::<EntityId>::empty()) =~= Seq::empty());
        assert(Seq::<(Seq<u8>, u32)>::empty() + found =~= found);
        assert(pairs_view(Seq::<(String, String)>::empty()) =~= Seq::empty());
        assert(ids.subrange(0, 0) =~= Seq::empty());
    }
    let mut out: Vec<(String, String)> = Vec::new();
    let mut k: usize = 0;
    while k < vids.len()
        invariant
            k <= vids@.len(),
            ids == ids_view(vids@),
            vault_infos(*ledger, ids.subrange(0, k as int)) == pairs_view(out@),
            balance_of(*ledger, address@) == Result::<Seq<(Seq<char>, Seq<char>)>, RequestError>::Ok(vault_infos(*ledger, ids)),
        decreases vids@.len() - k,
    {
        proof {
            assert(ids.subrange(0, k + 1).drop_last() =~= ids.subrange(0, k as int));
        }
        let p = get_vault_info(ledger, &vids[k]);
        let ghost before = pairs_view(out@);
        out.push(p);
        proof {
            assert(pairs_view(out@) =~= before.push((p.0@, p.1@)));
        }
        k = k + 1;
    }
    proof {
        assert(ids.subrange(0, ids.len() as int) =~= ids);
    }
    Ok(out)
}

/// Why decoding a receipt's results failed.
pub ghost enum CallFailure {
    Engine(Seq<char>),
    Decode(DecodeError),
}

/// The formatted results of the first `n` calls, skipping calls that returned nothing; the first
/// failing call decides the failure.
pub open spec fn call_outputs(rs: Seq<Result<Option<Vec<u8>>, String>>, l: Ledger, n: nat) -> Result<Seq<Seq<char>>, CallFailure>
    decreases n,
{
    if n == 0 || n > rs.len() {
        Ok(Seq::empty())
    } else {
        match call_outputs(rs, l, (n - 1) as nat) {
            Err(e) => Err(e),
            Ok(v) => match rs[n - 1] {
                Err(msg) => Err(CallFailure::Engine(msg@)),
                Ok(None) => Ok(v),
                Ok(Some(b)) => match fmt_data(b@, l, nesting_bound(l)) {
                    Ok((s, _)) => Ok(v.push(s)),
                    Err((e, _)) => Err(CallFailure::Decode(e)),
                },
            },
        }
    }
}

pub open spec fn strings_view(v: Seq<String>) -> Seq<Seq<char>> {
    v.map_values(|s: String| s@)
}

/// `r` is the exec form of the outcome `o`.
pub open spec fn outputs_match(r: Result<Vec<String>, RequestError>, o: Result<Seq<Seq<char>>, CallFailure>) -> bool {
    match o {
        Ok(v) => r matches Ok(w) && strings_view(w@) == v,
        Err(CallFailure::Engine(m)) => r matches Err(RequestError::Engine(msg)) && msg@ == m,
        Err(CallFailure::Decode(e)) => r == Result::<Vec<String>, RequestError>::Err(RequestError::Decode(e)),
    }
}

proof fn lemma_outputs_err(rs: Seq<Result<Option<Vec<u8>>, String>>, l: Ledger, k: nat, n: nat)
    requires
        1 <= k <= n <= rs.len(),
        call_outputs(rs, l, k) is Err,
    ensures
        call_outputs(rs, l, n) == call_outputs(rs, l, k),
    decreases n,
{
    if n > k {
        lemma_outputs_err(rs, l, k, (n - 1) as nat);
    }
}

/// The text of each call's result in a receipt, in order.
pub fn decode_call_results(results: &Vec<Result<Option<Vec<u8>>, String>>, ledger: &Ledger) -> (r: Result<Vec<String>, RequestError>)
    ensures
        outputs_match(r, call_outputs(results@, *ledger, results@.len() as nat)),
{
    let mut out: Vec<String> = Vec::new();
    let mut i: usize = 0;
    proof {
        assert(strings_view(out@) =~= Seq::empty());
    }
    while i < results.len()
        invariant
            i <= results@.len(),
            call_outputs(results@, *ledger, i as nat) == Result::<Seq<Seq<char>>, CallFailure>::Ok(strings_view(out@)),
        decreases results@.len() - i,
    {
        match &results[i] {
            Err(msg) => {
                proof {
                    lemma_outputs_err(results@, *ledger, (i + 1) as nat, results@.len() as nat);
                }
                return Err(RequestError::Engine(msg.clone()));
            },
            Ok(None) => {},
            Ok(Some(bytes)) => {
                let mut vaults: Vec<EntityId> = Vec::new();
                match format_data_with_ledger(bytes.as_slice(), ledger, &mut vaults) {
                    Ok(s) => {
                        let ghost before = strings_view(out@);
                        out.push(s);
                        proof {
                            assert(strings_view(out@) =~= before.push(s@));
                        }
                    },
                    Err(e) => {
                        proof {
                            lemma_outputs_err(results@, *ledger, (i + 1) as nat, results@.len() as nat);
                        }
                        return Err(RequestError::Decode(e));
                    },
                }
            },
        }
        i = i + 1;
    }
    Ok(out)
}

/// Ends a transaction attempt while the state is held exclusively: commits the nonce that the
/// attempt observed, whether or not it produced a receipt, and passes the receipt on.
pub fn complete_transaction(config: &mut Config, observed: u64, receipt: Option<Receipt>) -> (r: Result<Receipt, RequestError>)
    requires
        old(config).nonce < u64::MAX,
    ensures
        final(config).counters() == apply_event(old(config).counters(), StateEvent::Commit(observed as int)),
        final(config).ledger == old(config).ledger,
        receipt is Some ==> r == Result::<Receipt, RequestError>::Ok(receipt->Some_0),
        receipt is None ==> r == Result::<Receipt, RequestError>::Err(RequestError::Transaction),
{
    config.commit_nonce(observed);
    match receipt {
        Some(rc) => Ok(rc),
        None => Err(RequestError::Transaction),
    }
}

} // verus!
