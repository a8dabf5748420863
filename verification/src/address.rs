//! Account addresses and the token accounts derived from them.

use carbon_core::deserialize::ArrangeAccounts;
use carbon_raydium_amm_v4_decoder::instructions::swap_base_in::SwapBaseIn;
use solana_sdk::instruction::AccountMeta;
use solana_sdk::pubkey::Pubkey;
use solana_signature::Signature;
use spl_associated_token_account::get_associated_token_address;
use std::str::FromStr;
use vstd::prelude::*;

verus! {

/// The 32 bytes of an account address.
pub type Address = [u8; 32];

/// What `Pubkey::from_str` reads from a base58 text.
pub uninterp spec fn base58_address(text: Seq<char>) -> Option<[u8; 32]>;

/// What `Pubkey::from_str_const` reads from a base58 text.
pub uninterp spec fn const_address(text: Seq<char>) -> [u8; 32];

/// What `Signature::to_string` writes for a signature.
pub uninterp spec fn signature_text(signature: [u8; 64]) -> Seq<char>;

/// What `Pubkey::to_string` writes for an address.
pub uninterp spec fn base58_text(address: [u8; 32]) -> Seq<char>;

/// Whether `Pubkey::try_find_program_address` finds a token account address
/// for a wallet and a mint.
pub uninterp spec fn has_token_address(wallet: [u8; 32], mint: [u8; 32]) -> bool;

/// What `get_associated_token_address` derives from a wallet and a mint.
pub uninterp spec fn token_address(wallet: [u8; 32], mint: [u8; 32]) -> [u8; 32];

/// Calls `Pubkey::from_str`, a function of the text alone. What it reads is
/// given a name and not stated further; a text it rejects gives `None`.
#[verifier::external_body]
fn pubkey_from_str(text: &str) -> (r: Option<[u8; 32]>)
    ensures
        r == base58_address(text@),
{
    Pubkey::from_str(text).ok().map(|key| key.to_bytes())
}

/// Whether a text is one of 33 to 44 digits `1`, the base58 digit of value zero.
pub open spec fn is_padded_zero(text: Seq<char>) -> bool {
    33 <= text.len() <= 44 && forall|i: int| 0 <= i < text.len() ==> text[i] == '1'
}

/// Whether `Pubkey::from_str_const` reads a text.
pub open spec fn is_const_readable(text: Seq<char>) -> bool {
    base58_address(text) is Some || is_padded_zero(text)
}

/// Calls `Pubkey::from_str_const`, a function of the text alone. It reads what
/// `Pubkey::from_str` reads and, besides, the address of zeros with up to twelve
/// digits too many; it panics on every other text. What it reads is given a
/// name and not stated further.
#[verifier::external_body]
fn pubkey_from_str_const(text: &str) -> (r: [u8; 32])
    requires
        is_const_readable(text@),
    ensures
        r == const_address(text@),
{
    Pubkey::from_str_const(text).to_bytes()
}

/// Calls `Signature::to_string`, a function of the signature alone. The text is
/// given a name and not stated further.
#[verifier::external_body]
fn signature_to_string(signature: &[u8; 64]) -> (r: String)
    ensures
        r@ == signature_text(*signature),
{
    Signature::from(*signature).to_string()
}

/// Calls `Pubkey::to_string`, a function of the address alone. The text is
/// given a name and not stated further.
#[verifier::external_body]
fn pubkey_to_string(address: &[u8; 32]) -> (r: String)
    ensures
        r@ == base58_text(*address),
{
    Pubkey::new_from_array(*address).to_string()
}

/// Calls `Pubkey::try_find_program_address` on the seeds and the program that
/// `get_associated_token_address` hands to `Pubkey::find_program_address`,
/// which panics exactly where this call finds nothing. Whether it finds an
/// address depends on the wallet and the mint alone and is given a name.
#[verifier::external_body]
fn can_derive_token_address(wallet: &[u8; 32], mint: &[u8; 32]) -> (r: bool)
    ensures
        r == has_token_address(*wallet, *mint),
{
    let token_program = Pubkey::from_str_const("TokenkegQfeZyiNwAJbNbGKPFXCWuBvf9Ss623VQ5DA");
    let seeds = [wallet.as_slice(), token_program.as_ref(), mint.as_slice()];
    Pubkey::try_find_program_address(&seeds, &spl_associated_token_account::id()).is_some()
}

/// Calls `get_associated_token_address`, a function of the wallet and the mint
/// alone, which panics where no address can be derived. The address is given
/// a name and not stated further.
#[verifier::external_body]
fn derive_token_address(wallet: &[u8; 32], mint: &[u8; 32]) -> (r: [u8; 32])
    requires
        has_token_address(*wallet, *mint),
    ensures
        r == token_address(*wallet, *mint),
{
    let wallet = Pubkey::new_from_array(*wallet);
    get_associated_token_address(&wallet, &Pubkey::new_from_array(*mint)).to_bytes()
}

/// The accounts of a base-in swap that the bot looks at.
#[derive(Clone, Copy, Debug)]
pub struct SwapParties {
    pub amm_authority: Address,
    pub pool_coin: Address,
    pub pool_pc: Address,
    pub source: Address,
    pub destination: Address,
    pub owner: Address,
}

/// Where those accounts stand in the account list of a swap instruction, which
/// has 17 entries, or 18 with the optional target orders account in place 4.
pub open spec fn parties_of(accounts: Seq<Address>) -> Option<SwapParties> {
    let n = accounts.len();
    if n == 17 || n == 18 {
        Some(
            SwapParties {
                amm_authority: accounts[2],
                pool_coin: accounts[n - 13],
                pool_pc: accounts[n - 12],
                source: accounts[n - 3],
                destination: accounts[n - 2],
                owner: accounts[n - 1],
            },
        )
    } else {
        None
    }
}

/// Calls `SwapBaseIn::arrange_accounts`, which gives each entry of the account
/// list its name by place and rejects a list of any other length.
#[verifier::external_body]
fn arrange_accounts(accounts: &Vec<Address>) -> (r: Option<SwapParties>)
    ensures
        r == parties_of(accounts@),
{
    let keys = accounts.iter().map(|a| AccountMeta::new(Pubkey::new_from_array(*a), false));
    SwapBaseIn::arrange_accounts(&keys.collect::<Vec<AccountMeta>>()).map(
        |a| SwapParties {
            amm_authority: a.amm_authority.to_bytes(),
            pool_coin: a.pool_coin_token_account.to_bytes(),
            pool_pc: a.pool_pc_token_account.to_bytes(),
            source: a.user_source_token_account.to_bytes(),
            destination: a.user_destination_token_account.to_bytes(),
            owner: a.user_source_owner.to_bytes(),
        },
    )
}

/// The parties of a swap, from the account list of its instruction.
pub fn swap_parties(accounts: &Vec<Address>) -> (r: Option<SwapParties>)
    ensures
        r == parties_of(accounts@),
{
    arrange_accounts(accounts)
}

/// The token account of a wallet for a mint, if one can be derived.
pub open spec fn token_account(wallet: Address, mint: Address) -> Option<Address> {
    if has_token_address(wallet, mint) {
        Some(token_address(wallet, mint))
    } else {
        None
    }
}

/// Derives the token account of a wallet for a mint.
pub fn associated_token_account(wallet: &Address, mint: &Address) -> (r: Option<Address>)
    ensures
        r == token_account(*wallet, *mint),
{
    if can_derive_token_address(wallet, mint) {
        Some(derive_token_address(wallet, mint))
    } else {
        None
    }
}

/// The address that a base58 text stands for, if it stands for one.
pub open spec fn address_of_text(text: Seq<char>) -> Option<Address> {
    if is_const_readable(text) {
        Some(const_address(text))
    } else {
        None
    }
}

/// Whether a text is the address of zeros with digits too many.
pub fn padded_zero(text: &str) -> (r: bool)
    ensures
        r == is_padded_zero(text@),
{
    let n: usize = text.unicode_len();
    if n < 33 || n > 44 {
        return false;
    }
    let mut i: usize = 0;
    while i < n
        invariant
            i <= n,
            n == text@.len(),
            forall|j: int| 0 <= j < i ==> text@[j] == '1',
        decreases n - i,
    {
        if text.get_char(i) != '1' {
            return false;
        }
        i = i + 1;
    }
    true
}

/// Reads an address from its base58 text.
pub fn parse_address(text: &str) -> (r: Option<Address>)
    ensures
        r == address_of_text(text@),
{
    if pubkey_from_str(text).is_some() || padded_zero(text) {
        Some(pubkey_from_str_const(text))
    } else {
        None
    }
}

/// Writes a signature as base58 text.
pub fn signature_string(signature: &[u8; 64]) -> (r: String)
    ensures
        r@ == signature_text(*signature),
{
    signature_to_string(signature)
}

/// Writes an address as base58 text.
pub fn address_text(address: &Address) -> (r: String)
    ensures
        r@ == base58_text(*address),
{
    pubkey_to_string(address)
}

/// Whether two addresses are the same.
pub fn same_address(a: &Address, b: &Address) -> (r: bool)
    ensures
        r == (*a == *b),
{
    let mut i: usize = 0;
    while i < 32
        invariant
            i <= 32,
            forall|j: int| 0 <= j < i ==> a@[j] == b@[j],
        decreases 32 - i,
    {
        if a[i] != b[i] {
            return false;
        }
        i = i + 1;
    }
    assert(*a =~= *b);
    true
}

/// The first place of an address in a list.
pub open spec fn first_place(keys: Seq<Address>, key: Address) -> Option<nat>
    decreases keys.len(),
{
    if keys.len() == 0 {
        None
    } else if keys[0] == key {
        Some(0)
    } else {
        match first_place(keys.subrange(1, keys.len() as int), key) {
            Some(i) => Some(i + 1),
            None => None,
        }
    }
}

/// A place that holds the address, with none before it, is the first one; a
/// list without the address has no place.
pub proof fn lemma_first_place(keys: Seq<Address>, key: Address, i: int)
    requires
        0 <= i <= keys.len(),
        forall|j: int| 0 <= j < i ==> keys[j] != key,
        i < keys.len() ==> keys[i] == key,
    ensures
        first_place(keys, key) == if i < keys.len() {
            Some(i as nat)
        } else {
            None
        },
    decreases i,
{
    if i > 0 {
        let rest = keys.subrange(1, keys.len() as int);
        assert forall|j: int| 0 <= j < i - 1 implies rest[j] != key by {
            assert(rest[j] == keys[j + 1]);
        }
        lemma_first_place(rest, key, i - 1);
    }
}

/// Finds the first place of an address in a list.
pub fn find_address(keys: &Vec<Address>, key: &Address) -> (r: Option<usize>)
    ensures
        match (r, first_place(keys@, *key)) {
            (None, None) => true,
            (Some(i), Some(j)) => i == j && i < keys@.len(),
            _ => false,
        },
{
    let mut i: usize = 0;
    while i < keys.len()
        invariant
            i <= keys@.len(),
            forall|j: int| 0 <= j < i ==> keys@[j] != *key,
        decreases keys@.len() - i,
    {
        if same_address(&keys[i], key) {
            proof {
                lemma_first_place(keys@, *key, i as int);
            }
            return Some(i);
        }
        i = i + 1;
    }
    proof {
        lemma_first_place(keys@, *key, i as int);
    }
    None
}

/// The account keys of a transaction: those written in its message, then the
/// writable and the read-only ones loaded from lookup tables.
pub open spec fn joined_keys(
    static_keys: Seq<Address>,
    writable: Seq<Address>,
    readonly: Seq<Address>,
) -> Seq<Address> {
    static_keys + writable + readonly
}

/// Lists the account keys of a transaction.
pub fn account_keys(
    static_keys: &Vec<Address>,
    writable: &Vec<Address>,
    readonly: &Vec<Address>,
) -> (r: Vec<Address>)
    ensures
        r@ == joined_keys(static_keys@, writable@, readonly@),
        r@ == static_keys@ + writable@ + readonly@,
{
    let mut keys: Vec<Address> = Vec::new();
    append_addresses(&mut keys, static_keys);
    append_addresses(&mut keys, writable);
    append_addresses(&mut keys, readonly);
    keys
}

/// Copies a list of addresses.
pub fn copy_addresses(list: &Vec<Address>) -> (r: Vec<Address>)
    ensures
        r@ == list@,
{
    let mut copy: Vec<Address> = Vec::new();
    append_addresses(&mut copy, list);
    copy
}

fn append_addresses(keys: &mut Vec<Address>, more: &Vec<Address>)
    ensures
        final(keys)@ == old(keys)@ + more@,
{
    let ghost start = keys@;
    let mut i: usize = 0;
    assert(start + more@.subrange(0, 0) =~= start);
    while i < more.len()
        invariant
            i <= more@.len(),
            keys@ == start + more@.subrange(0, i as int),
        decreases more@.len() - i,
    {
        keys.push(more[i]);
        i = i + 1;
        assert(keys@ =~= start + more@.subrange(0, i as int));
    }
    assert(more@.subrange(0, i as int) =~= more@);
}

} // verus!
