use nft_staking::authority::derive_custody_authority;
use nft_staking::authority::derive_record_address;
use nft_staking::authority::derive_reward_mint_authority;
use solana_program::pubkey::Pubkey;

fn program_id() -> Vec<u8> {
    let mut id: Vec<u8> = Vec::new();
    for i in 0..32u8 {
        id.push(i.wrapping_mul(7).wrapping_add(3));
    }
    id
}

#[test]
fn derivation_is_idempotent() {
    let id = program_id();
    let first = derive_custody_authority(&id);
    let second = derive_custody_authority(&id);
    assert_eq!(first, second);
    let first_mint = derive_reward_mint_authority(&id);
    let second_mint = derive_reward_mint_authority(&id);
    assert_eq!(first_mint, second_mint);
}

#[test]
fn custody_authority_matches_direct_derivation() {
    let id = program_id();
    let (address, bump) = derive_custody_authority(&id).unwrap();
    let program = Pubkey::new_from_array(id.as_slice().try_into().unwrap());
    let (expected, expected_bump) = Pubkey::find_program_address(&[b"authority"], &program);
    assert_eq!(address, expected.to_bytes());
    assert_eq!(bump, expected_bump);
}

#[test]
fn reward_mint_authority_matches_direct_derivation() {
    let id = program_id();
    let (address, bump) = derive_reward_mint_authority(&id).unwrap();
    let program = Pubkey::new_from_array(id.as_slice().try_into().unwrap());
    let (expected, expected_bump) = Pubkey::find_program_address(&[b"mint-authority"], &program);
    assert_eq!(address, expected.to_bytes());
    assert_eq!(bump, expected_bump);
}

#[test]
fn the_two_authorities_differ() {
    let id = program_id();
    let custody = derive_custody_authority(&id).unwrap();
    let mint = derive_reward_mint_authority(&id).unwrap();
    assert_ne!(custody.0, mint.0);
}

#[test]
fn record_address_depends_on_the_pair() {
    let id = program_id();
    let holder_a: Vec<u8> = vec![1u8; 32];
    let holder_b: Vec<u8> = vec![2u8; 32];
    let account: Vec<u8> = vec![9u8; 32];
    let a = derive_record_address(&holder_a, &account, &id).unwrap();
    let b = derive_record_address(&holder_b, &account, &id).unwrap();
    assert_ne!(a.0, b.0);
    let again = derive_record_address(&holder_a, &account, &id).unwrap();
    assert_eq!(a, again);
}

#[test]
fn record_address_matches_direct_derivation() {
    let id = program_id();
    let holder: Vec<u8> = vec![5u8; 32];
    let account: Vec<u8> = vec![6u8; 32];
    let (address, bump) = derive_record_address(&holder, &account, &id).unwrap();
    let program = Pubkey::new_from_array(id.as_slice().try_into().unwrap());
    let (expected, expected_bump) =
        Pubkey::find_program_address(&[holder.as_slice(), account.as_slice()], &program);
    assert_eq!(address, expected.to_bytes());
    assert_eq!(bump, expected_bump);
}
