use raydium_amm_bot::address::{
    account_keys, address_text, associated_token_account, copy_addresses, find_address,
    padded_zero, parse_address, same_address, signature_string, swap_parties, Address,
};
use solana_sdk::pubkey::Pubkey;

const WSOL: &str = "So11111111111111111111111111111111111111112";
const USDC: &str = "EPjFWdd5AufqSSqeM2qN1xzybapC8G4wEGGkZwyTDt1v";
const WALLET: &str = "587GsL34W8nGsZWAjTiT6dXLJSrwiM6grWyxQHSgW1eM";

fn numbered(n: u8) -> Address {
    let mut a = [0u8; 32];
    a[0] = n;
    a[31] = n;
    a
}

#[test]
fn addresses_read_from_base58() {
    let wsol = parse_address(WSOL).unwrap();
    assert_eq!(wsol, Pubkey::from_str_const(WSOL).to_bytes());
    assert_eq!(parse_address(USDC).unwrap(), Pubkey::from_str_const(USDC).to_bytes());
    assert_eq!(parse_address("11111111111111111111111111111111").unwrap(), [0u8; 32]);
    assert!(parse_address("").is_none());
    assert!(parse_address("0OIl").is_none());
    assert!(parse_address("abc").is_none());
}

#[test]
fn addresses_written_as_base58() {
    for text in [WSOL, USDC, WALLET] {
        assert_eq!(address_text(&parse_address(text).unwrap()), text);
    }
    assert_eq!(address_text(&[0u8; 32]), "11111111111111111111111111111111");
}

#[test]
fn token_accounts() {
    let wallet = parse_address(WALLET).unwrap();
    let mint = parse_address(USDC).unwrap();
    let derived = associated_token_account(&wallet, &mint).unwrap();
    let expected = spl_associated_token_account::get_associated_token_address(
        &Pubkey::new_from_array(wallet),
        &Pubkey::new_from_array(mint),
    );
    assert_eq!(derived, expected.to_bytes());
    assert!(derived != wallet);
    assert!(derived != mint);
    let other = associated_token_account(&mint, &wallet).unwrap();
    assert!(other != derived);
}

#[test]
fn parties_of_a_swap_with_target_orders() {
    let accounts: Vec<Address> = (0..18).map(numbered).collect();
    let p = swap_parties(&accounts).unwrap();
    assert_eq!(p.amm_authority, numbered(2));
    assert_eq!(p.pool_coin, numbered(5));
    assert_eq!(p.pool_pc, numbered(6));
    assert_eq!(p.source, numbered(15));
    assert_eq!(p.destination, numbered(16));
    assert_eq!(p.owner, numbered(17));
}

#[test]
fn parties_of_a_swap_without_target_orders() {
    let accounts: Vec<Address> = (0..17).map(numbered).collect();
    let p = swap_parties(&accounts).unwrap();
    assert_eq!(p.amm_authority, numbered(2));
    assert_eq!(p.pool_coin, numbered(4));
    assert_eq!(p.pool_pc, numbered(5));
    assert_eq!(p.source, numbered(14));
    assert_eq!(p.destination, numbered(15));
    assert_eq!(p.owner, numbered(16));
}

#[test]
fn account_lists_of_other_lengths() {
    for n in [0u8, 3, 16, 19] {
        let accounts: Vec<Address> = (0..n).map(numbered).collect();
        assert!(swap_parties(&accounts).is_none());
    }
}

#[test]
fn keys_come_in_order() {
    let keys = account_keys(
        &vec![numbered(1), numbered(2)],
        &vec![numbered(3)],
        &vec![numbered(4), numbered(5)],
    );
    let expected: Vec<Address> = (1..6).map(numbered).collect();
    assert_eq!(keys, expected);
    assert_eq!(find_address(&keys, &numbered(3)), Some(2));
    assert_eq!(find_address(&keys, &numbered(9)), None);
    let twice = vec![numbered(7), numbered(8), numbered(8)];
    assert_eq!(find_address(&twice, &numbered(8)), Some(1));
    assert!(same_address(&numbered(8), &twice[1]));
    let mut close = numbered(8);
    close[31] = 9;
    assert!(!same_address(&close, &twice[1]));
}

#[test]
fn the_address_of_zeros_may_have_digits_too_many() {
    assert_eq!(parse_address(&"1".repeat(31)), None);
    for n in 32..=44 {
        assert_eq!(parse_address(&"1".repeat(n)), Some([0u8; 32]));
        assert_eq!(padded_zero(&"1".repeat(n)), n > 32);
    }
    assert_eq!(parse_address(&"1".repeat(45)), None);
    assert!(!padded_zero(&"1".repeat(45)));
    let mut text = "1".repeat(39);
    text.push('2');
    assert!(!padded_zero(&text));
    assert_eq!(parse_address(&text), None);
}

#[test]
fn signatures_as_text() {
    assert_eq!(signature_string(&[0u8; 64]), "1".repeat(64));
    let mut last = [0u8; 64];
    last[63] = 58;
    assert_eq!(signature_string(&last), format!("{}21", "1".repeat(63)));
}

#[test]
fn lists_are_copied() {
    let list = vec![[1u8; 32], [2u8; 32]];
    assert_eq!(copy_addresses(&list), list);
    assert!(copy_addresses(&vec![]).is_empty());
}
