//! Which texts are addresses, and where addresses stand.

use crate::address::{
    address_of_text, base58_address, const_address, first_place, has_token_address, joined_keys,
    lemma_first_place, parties_of, signature_text, token_account, token_address, Address,
};
use crate::session::receipt_of;
use vstd::prelude::*;

verus! {

/// A text is an address exactly where it is a base58 text of one, or of zeros
/// with up to twelve digits too many.
pub proof fn law_address_text(text: Seq<char>)
    ensures
        address_of_text(text) is Some <==> base58_address(text) is Some || 33 <= text.len() <= 44
            && (forall|i: int| 0 <= i < text.len() ==> #[trigger] text[i] == '1'),
        address_of_text(text) matches Some(a) ==> a == const_address(text),
{
}

/// A wallet has a token account for a mint exactly where one can be derived.
pub proof fn law_token_account(wallet: Address, mint: Address)
    ensures
        token_account(wallet, mint) is Some <==> has_token_address(wallet, mint),
        token_account(wallet, mint) matches Some(a) ==> a == token_address(wallet, mint),
{
}

/// The accounts of a swap by their places, counted from the front for the pool's
/// authority and from the back for the others.
pub proof fn law_parties(accounts: Seq<Address>)
    ensures
        parties_of(accounts) is Some <==> accounts.len() == 17 || accounts.len() == 18,
        accounts.len() == 17 ==> {
            let p = parties_of(accounts)->0;
            &&& p.amm_authority == accounts[2]
            &&& p.pool_coin == accounts[4]
            &&& p.pool_pc == accounts[5]
            &&& p.source == accounts[14]
            &&& p.destination == accounts[15]
            &&& p.owner == accounts[16]
        },
        accounts.len() == 18 ==> {
            let p = parties_of(accounts)->0;
            &&& p.amm_authority == accounts[2]
            &&& p.pool_coin == accounts[5]
            &&& p.pool_pc == accounts[6]
            &&& p.source == accounts[15]
            &&& p.destination == accounts[16]
            &&& p.owner == accounts[17]
        },
{
}

/// Every key of a transaction stands at its own place: those of the message
/// first, then the writable ones, then the read-only ones.
pub proof fn law_key_places(a: Seq<Address>, b: Seq<Address>, c: Seq<Address>, i: int)
    ensures
        joined_keys(a, b, c).len() == a.len() + b.len() + c.len(),
        0 <= i < a.len() ==> joined_keys(a, b, c)[i] == a[i],
        0 <= i < b.len() ==> joined_keys(a, b, c)[a.len() + i] == b[i],
        0 <= i < c.len() ==> joined_keys(a, b, c)[a.len() + b.len() + i] == c[i],
{
}

/// The first place of an address holds it, and none before does.
pub proof fn law_first_place(keys: Seq<Address>, key: Address, i: int)
    requires
        0 <= i < keys.len(),
        keys[i] == key,
        forall|j: int| 0 <= j < i ==> keys[j] != key,
    ensures
        first_place(keys, key) is Some,
        first_place(keys, key)->0 == i,
{
    lemma_first_place(keys, key, i);
}

/// A receipt holds what the transaction holds, with the text of its signature.
pub proof fn law_receipt(
    signature: [u8; 64],
    fee: u64,
    keys: Seq<Address>,
    pre: Seq<u64>,
    post: Seq<u64>,
)
    ensures
        ({
            let r = receipt_of(signature, fee, keys, pre, post);
            &&& r.signature == signature_text(signature)
            &&& r.fee == fee
            &&& r.keys == keys
            &&& r.pre_balances == pre
            &&& r.post_balances == post
        }),
{
}

} // verus!
