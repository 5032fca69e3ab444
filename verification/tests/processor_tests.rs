use solana_bridge::error::{BridgeError, ProgramError};
use solana_bridge::processor::{
    block_hash, check_init_vault, check_signature_counts, check_unshield_request, check_vault_account,
    decide_unshield, derive_vault_authority, find_authority_bump, init_vault_state, parse_beacon_instruction,
    process_init_beacon, process_shield, process_unshield, release_unshield, verify_beacon_signatures, Decision,
    ShieldAccounts, SignatureCheck, UnshieldAccounts, ASSOCIATED_TOKEN_PROGRAM_ID,
};
use solana_bridge::state::{IncognitoProxy, UnshieldRequest, Withdraw, INCOGNITO_PROXY_LEN};
use solana_program::keccak;
use solana_program::program_pack::Pack;
use solana_program::pubkey::Pubkey;
use spl_token::state::{Account as TokenAccount, AccountState};

const PROGRAM_ID: [u8; 32] = [9u8; 32];
const PROXY_KEY: [u8; 32] = [3u8; 32];
const VAULT_ACCOUNT_KEY: [u8; 32] = [4u8; 32];
const MINT: [u8; 32] = [0x41u8; 32];
const RECEIVER: [u8; 32] = [0x42u8; 32];
const TX_ID: [u8; 32] = [0x43u8; 32];

fn token_account_data(mint: [u8; 32], owner: [u8; 32]) -> Vec<u8> {
    let account = TokenAccount {
        mint: Pubkey::new_from_array(mint),
        owner: Pubkey::new_from_array(owner),
        amount: 38_000,
        state: AccountState::Initialized,
        ..TokenAccount::default()
    };
    let mut data = vec![0u8; TokenAccount::LEN];
    TokenAccount::pack(account, &mut data).unwrap();
    data
}

fn proxy_data(beacons: Vec<[u8; 64]>) -> Vec<u8> {
    let p = IncognitoProxy { is_initialized: true, vault: VAULT_ACCOUNT_KEY, beacons };
    let mut data = vec![0u8; INCOGNITO_PROXY_LEN];
    IncognitoProxy::pack(p, &mut data).unwrap();
    data
}

fn authority() -> ([u8; 32], u8) {
    let bump = find_authority_bump(&PROXY_KEY, &PROGRAM_ID).unwrap();
    (derive_vault_authority(&PROXY_KEY, bump, &PROGRAM_ID).unwrap(), bump)
}

fn associated_account(wallet: [u8; 32], mint: [u8; 32]) -> [u8; 32] {
    Pubkey::find_program_address(
        &[&wallet, &spl_token::id().to_bytes(), &mint],
        &Pubkey::new_from_array(ASSOCIATED_TOKEN_PROGRAM_ID),
    )
    .0
    .to_bytes()
}

#[test]
fn authority_derivation_matches_runtime() {
    let (expected, expected_bump) =
        Pubkey::find_program_address(&[&PROXY_KEY], &Pubkey::new_from_array(PROGRAM_ID));
    let bump = find_authority_bump(&PROXY_KEY, &PROGRAM_ID).unwrap();
    assert_eq!(bump, expected_bump);
    assert_eq!(derive_vault_authority(&PROXY_KEY, bump, &PROGRAM_ID).unwrap(), expected.to_bytes());
    assert_ne!(derive_vault_authority(&PROXY_KEY, bump, &PROGRAM_ID).unwrap(), PROXY_KEY);
}

#[test]
fn test_shield_success() {
    let (authority, bump) = authority();
    let vault_token = associated_account(authority, MINT);
    let vault_data = token_account_data(MINT, authority);
    let proxy = proxy_data(Vec::new());
    let accounts = ShieldAccounts {
        vault_token_account_key: vault_token,
        vault_token_account_owner: spl_token::id().to_bytes(),
        vault_token_account_data: &vault_data,
        incognito_proxy_key: PROXY_KEY,
        incognito_proxy_owner: PROGRAM_ID,
        incognito_proxy_data: &proxy,
        shield_maker_is_signer: true,
    };
    assert_eq!(process_shield(&accounts, bump, &PROGRAM_ID), Decision::Proceed(MINT));
}

#[test]
fn shield_refusals() {
    let (authority, bump) = authority();
    let vault_token = associated_account(authority, MINT);
    let vault_data = token_account_data(MINT, authority);
    let proxy = proxy_data(Vec::new());
    let good = ShieldAccounts {
        vault_token_account_key: vault_token,
        vault_token_account_owner: spl_token::id().to_bytes(),
        vault_token_account_data: &vault_data,
        incognito_proxy_key: PROXY_KEY,
        incognito_proxy_owner: PROGRAM_ID,
        incognito_proxy_data: &proxy,
        shield_maker_is_signer: true,
    };
    let unsigned = ShieldAccounts { shield_maker_is_signer: false, ..good };
    assert_eq!(process_shield(&unsigned, bump, &PROGRAM_ID), Decision::Refuse(ProgramError::MissingRequiredSignature));
    let foreign_proxy = ShieldAccounts { incognito_proxy_owner: [1; 32], ..good };
    assert_eq!(process_shield(&foreign_proxy, bump, &PROGRAM_ID), Decision::Refuse(ProgramError::IncorrectProgramId));
    let not_token = ShieldAccounts { vault_token_account_owner: [1; 32], ..good };
    assert_eq!(process_shield(&not_token, bump, &PROGRAM_ID), Decision::Refuse(ProgramError::IncorrectProgramId));
    let wrong_vault = ShieldAccounts { vault_token_account_key: [1; 32], ..good };
    assert_eq!(process_shield(&wrong_vault, bump, &PROGRAM_ID), Decision::Refuse(ProgramError::IncorrectProgramId));
    let short = [0u8; 10];
    let bad_token_data = ShieldAccounts { vault_token_account_data: &short, ..good };
    assert_eq!(process_shield(&bad_token_data, bump, &PROGRAM_ID), Decision::Refuse(ProgramError::InvalidAccountData));
    let mut uninit = proxy.clone();
    uninit[0] = 0;
    let uninit_proxy = ShieldAccounts { incognito_proxy_data: &uninit, ..good };
    assert_eq!(process_shield(&uninit_proxy, bump, &PROGRAM_ID), Decision::Refuse(ProgramError::UninitializedAccount));
    let mut too_many = proxy.clone();
    too_many[33] = 21;
    let bad_proxy = ShieldAccounts { incognito_proxy_data: &too_many, ..good };
    assert_eq!(process_shield(&bad_proxy, bump, &PROGRAM_ID), Decision::Halt);
    let other_owner_data = token_account_data(MINT, [5; 32]);
    let other_owner = ShieldAccounts { vault_token_account_data: &other_owner_data, ..good };
    assert_eq!(process_shield(&other_owner, bump, &PROGRAM_ID), Decision::Refuse(ProgramError::IncorrectProgramId));
}

fn beacon_instruction(amount: u64) -> Vec<u8> {
    let mut inst = vec![157u8, 1];
    inst.extend_from_slice(&MINT);
    inst.extend_from_slice(&RECEIVER);
    inst.extend_from_slice(&[0u8; 24]);
    inst.extend_from_slice(&amount.to_be_bytes());
    inst.extend_from_slice(&TX_ID);
    inst
}

#[test]
fn beacon_instruction_fields() {
    let b = parse_beacon_instruction(&beacon_instruction(30_000)).unwrap();
    assert_eq!(b.meta_type, 157);
    assert_eq!(b.shard_id, 1);
    assert_eq!(b.token, MINT);
    assert_eq!(b.receiver_key, RECEIVER);
    assert_eq!(b.unshield_amount, 30_000);
    assert_eq!(b.tx_id, TX_ID);
    let mut longer = beacon_instruction(1);
    longer.extend_from_slice(&[0u8; 32]);
    assert!(parse_beacon_instruction(&longer).is_ok());
}

#[test]
fn beacon_instruction_refusals() {
    let inst = beacon_instruction(5);
    assert_eq!(parse_beacon_instruction(&inst[..129]), Err(ProgramError::Custom(9)));
    let mut bad_meta = inst.clone();
    bad_meta[0] = 156;
    assert_eq!(parse_beacon_instruction(&bad_meta), Err(ProgramError::Custom(10)));
    let mut bad_shard = inst.clone();
    bad_shard[1] = 2;
    assert_eq!(
        parse_beacon_instruction(&bad_shard),
        Err(BridgeError::InvalidKeysInInstruction.to_program_error())
    );
}

#[test]
fn signature_counts() {
    assert_eq!(check_signature_counts(2, 3, 3), Err(ProgramError::Custom(9)));
    assert_eq!(check_signature_counts(2, 2, 3), Err(ProgramError::Custom(11)));
    assert_eq!(check_signature_counts(3, 3, 3), Ok(()));
    assert_eq!(check_signature_counts(1, 1, 1), Ok(()));
    assert_eq!(check_signature_counts(0, 0, 0), Err(ProgramError::Custom(11)));
    assert_eq!(check_signature_counts(13, 13, 20), Err(ProgramError::Custom(11)));
    assert_eq!(check_signature_counts(14, 14, 20), Ok(()));
}

#[test]
fn block_hash_is_double_keccak() {
    let blk = [1u8; 32];
    let root = [2u8; 32];
    let mut joined = blk.to_vec();
    joined.extend_from_slice(&root);
    let expected = keccak::hash(&keccak::hash(&joined).to_bytes()).to_bytes();
    assert_eq!(block_hash(&blk, &root), expected);
    assert_ne!(block_hash(&blk, &root), keccak::hash(&joined).to_bytes());
}

fn beacon_key(secret: &libsecp256k1::SecretKey) -> [u8; 64] {
    let pk = libsecp256k1::PublicKey::from_secret_key(secret).serialize();
    let mut key = [0u8; 64];
    key.copy_from_slice(&pk[1..65]);
    key
}

fn sign(block: &[u8; 32], secret: &libsecp256k1::SecretKey) -> [u8; 65] {
    let (sig, recid) = libsecp256k1::sign(&libsecp256k1::Message::parse(block), secret);
    let mut out = [0u8; 65];
    out[..64].copy_from_slice(&sig.serialize());
    out[64] = recid.serialize();
    out
}

#[test]
fn beacon_signatures() {
    let sk1 = libsecp256k1::SecretKey::parse(&[0x11; 32]).unwrap();
    let sk2 = libsecp256k1::SecretKey::parse(&[0x22; 32]).unwrap();
    let beacons = vec![beacon_key(&sk1), beacon_key(&sk2)];
    let block = block_hash(&[5; 32], &[6; 32]);
    let s1 = sign(&block, &sk1);
    let s2 = sign(&block, &sk2);
    assert_eq!(verify_beacon_signatures(&block, &vec![0, 1], &vec![s1, s2], &beacons), SignatureCheck::Valid);
    assert_eq!(verify_beacon_signatures(&block, &vec![1, 0], &vec![s1, s2], &beacons), SignatureCheck::Invalid);
    assert_eq!(verify_beacon_signatures(&block, &vec![0, 2], &vec![s1, s2], &beacons), SignatureCheck::UnknownBeacon);
    let mut bad_recid = s2;
    bad_recid[64] = 7;
    assert_eq!(verify_beacon_signatures(&block, &vec![0, 1], &vec![s1, bad_recid], &beacons), SignatureCheck::Unrecoverable);
    // a failing signature comes before an unknown index
    assert_eq!(verify_beacon_signatures(&block, &vec![1, 9], &vec![s1, s2], &beacons), SignatureCheck::Invalid);
    assert_eq!(verify_beacon_signatures(&block, &vec![], &vec![], &beacons), SignatureCheck::Valid);
}

struct UnshieldFixture {
    proxy: Vec<u8>,
    unshield_token: Vec<u8>,
    vault_token: Vec<u8>,
    authority: [u8; 32],
    bump: u8,
    request: UnshieldRequest,
}

fn unshield_fixture() -> UnshieldFixture {
    let sk = libsecp256k1::SecretKey::parse(&[0x11; 32]).unwrap();
    let (authority, bump) = authority();
    let blk_data = [7u8; 32];
    let inst_root = [8u8; 32];
    let block = block_hash(&blk_data, &inst_root);
    let request = UnshieldRequest {
        inst: String::from("unused"),
        height: 38_000,
        inst_paths: Vec::new(),
        inst_path_is_lefts: Vec::new(),
        inst_root,
        blk_data,
        indexes: vec![0],
        signatures: vec![sign(&block, &sk)],
    };
    UnshieldFixture {
        proxy: proxy_data(vec![beacon_key(&sk)]),
        unshield_token: token_account_data(MINT, [0x50; 32]),
        vault_token: token_account_data(MINT, authority),
        authority,
        bump,
        request,
    }
}

fn unshield_accounts(f: &UnshieldFixture) -> UnshieldAccounts<'_> {
    UnshieldAccounts {
        vault_token_account_key: [0x60; 32],
        vault_token_account_data: &f.vault_token,
        unshield_token_account_key: RECEIVER,
        unshield_token_account_data: &f.unshield_token,
        vault_authority_key: f.authority,
        vault_account_key: VAULT_ACCOUNT_KEY,
        vault_account_owner: PROGRAM_ID,
        vault_account_head: Some(1),
        incognito_proxy_key: PROXY_KEY,
        incognito_proxy_owner: PROGRAM_ID,
        incognito_proxy_data: &f.proxy,
    }
}

#[test]
fn unshield_pays_out_once() {
    let f = unshield_fixture();
    let accounts = unshield_accounts(&f);
    let mut vault = Withdraw::new(true);
    let inst = beacon_instruction(30_000);
    assert_eq!(
        decide_unshield(&accounts, &inst, &f.request, &mut vault, f.bump, &PROGRAM_ID),
        Decision::Proceed(30_000)
    );
    assert!(vault.contains_key(&TX_ID));
    assert_eq!(
        decide_unshield(&accounts, &inst, &f.request, &mut vault, f.bump, &PROGRAM_ID),
        Decision::Refuse(ProgramError::Custom(19))
    );
    assert_eq!(vault.map.len(), 1);
}

#[test]
fn unshield_refusals() {
    let f = unshield_fixture();
    let good = unshield_accounts(&f);
    let inst = beacon_instruction(30_000);
    let run = |accounts: &UnshieldAccounts, request: &UnshieldRequest| {
        let mut vault = Withdraw::new(true);
        let d = decide_unshield(accounts, &inst, request, &mut vault, f.bump, &PROGRAM_ID);
        (d, vault.map.len())
    };
    let wrong_vault = UnshieldAccounts { vault_account_key: [1; 32], ..good };
    assert_eq!(run(&wrong_vault, &f.request), (Decision::Refuse(ProgramError::IncorrectProgramId), 0));
    let wrong_receiver = UnshieldAccounts { unshield_token_account_key: [1; 32], ..good };
    assert_eq!(run(&wrong_receiver, &f.request), (Decision::Refuse(ProgramError::Custom(10)), 0));
    let mut uninit = f.proxy.clone();
    uninit[0] = 0;
    let uninit_proxy = UnshieldAccounts { incognito_proxy_data: &uninit, ..good };
    assert_eq!(run(&uninit_proxy, &f.request), (Decision::Refuse(ProgramError::Custom(14)), 0));
    let mut unsigned = f.request.clone();
    unsigned.signatures = Vec::new();
    assert_eq!(run(&good, &unsigned), (Decision::Refuse(ProgramError::Custom(9)), 0));
    let mut forged = f.request.clone();
    forged.blk_data = [0; 32];
    assert_eq!(run(&good, &forged), (Decision::Refuse(ProgramError::Custom(12)), 0));
    let mut unknown = f.request.clone();
    unknown.indexes = vec![3];
    assert_eq!(run(&good, &unknown), (Decision::Halt, 0));
    let empty_vault = UnshieldAccounts { vault_account_head: Some(0), ..good };
    assert_eq!(run(&empty_vault, &f.request), (Decision::Refuse(ProgramError::Custom(18)), 0));
    let no_data = UnshieldAccounts { vault_account_head: None, ..good };
    assert_eq!(run(&no_data, &f.request), (Decision::Halt, 0));
    // after the id is recorded, the authority checks still refuse
    let wrong_authority = UnshieldAccounts { vault_authority_key: [1; 32], ..good };
    assert_eq!(run(&wrong_authority, &f.request), (Decision::Refuse(ProgramError::Custom(8)), 1));
    let other_owner_data = token_account_data(MINT, [5; 32]);
    let wrong_owner = UnshieldAccounts { vault_token_account_data: &other_owner_data, ..good };
    assert_eq!(run(&wrong_owner, &f.request), (Decision::Refuse(ProgramError::Custom(4)), 1));
}

#[test]
fn test_unshield_success() {
    // A signed beacon instruction, given as its raw bytes, pays the amount out
    // of the vault token account and records the transaction id.
    let f = unshield_fixture();
    let accounts = unshield_accounts(&f);
    let mut vault = Withdraw::new(true);
    let inst = beacon_instruction(38_000);
    assert_eq!(
        decide_unshield(&accounts, &inst, &f.request, &mut vault, f.bump, &PROGRAM_ID),
        Decision::Proceed(38_000)
    );
    assert!(vault.contains_key(&TX_ID));
    assert_eq!(vault.map.len(), 1);
}

#[test]
fn unshield_text_instruction_is_refused() {
    // The beacon instruction travels as text, whose encoding cannot begin with
    // the meta type byte 157: the request is refused at the meta type check.
    let f = unshield_fixture();
    let accounts = unshield_accounts(&f);
    let mut request = f.request.clone();
    request.inst = String::from_utf8_lossy(&beacon_instruction(30_000)).into_owned();
    let mut vault = Withdraw::new(true);
    assert_eq!(
        process_unshield(&accounts, &request, &mut vault, f.bump, &PROGRAM_ID),
        Decision::Refuse(ProgramError::Custom(10))
    );
    assert!(vault.map.is_empty());
    request.inst = String::from("short");
    assert_eq!(
        process_unshield(&accounts, &request, &mut vault, f.bump, &PROGRAM_ID),
        Decision::Refuse(ProgramError::Custom(9))
    );
}

#[test]
fn init_beacon_writes_the_list() {
    let info = IncognitoProxy { is_initialized: true, vault: [4; 32], beacons: vec![[1; 64], [2; 64]] };
    let mut data = vec![0u8; INCOGNITO_PROXY_LEN];
    assert_eq!(process_init_beacon(true, true, &mut data, &PROGRAM_ID, &PROGRAM_ID, info.clone()), Decision::Proceed(()));
    assert_eq!(IncognitoProxy::unpack(&data).unwrap(), info);
    let before = data.clone();
    assert_eq!(
        process_init_beacon(true, true, &mut data, &PROGRAM_ID, &PROGRAM_ID, info.clone()),
        Decision::Refuse(ProgramError::Custom(5))
    );
    assert_eq!(data, before);
}

#[test]
fn init_beacon_refusals() {
    let info = IncognitoProxy { is_initialized: true, vault: [4; 32], beacons: vec![[1; 64]] };
    let mut data = vec![0u8; INCOGNITO_PROXY_LEN];
    assert_eq!(
        process_init_beacon(false, true, &mut data, &PROGRAM_ID, &PROGRAM_ID, info.clone()),
        Decision::Refuse(ProgramError::MissingRequiredSignature)
    );
    assert_eq!(
        process_init_beacon(true, false, &mut data, &PROGRAM_ID, &PROGRAM_ID, info.clone()),
        Decision::Refuse(ProgramError::Custom(1))
    );
    assert_eq!(
        process_init_beacon(true, true, &mut data, &[1; 32], &PROGRAM_ID, info.clone()),
        Decision::Refuse(ProgramError::IncorrectProgramId)
    );
    let mut short = vec![0u8; 10];
    assert_eq!(
        process_init_beacon(true, true, &mut short, &PROGRAM_ID, &PROGRAM_ID, info),
        Decision::Refuse(ProgramError::InvalidAccountData)
    );
    let many = IncognitoProxy { is_initialized: true, vault: [4; 32], beacons: vec![[1; 64]; 21] };
    assert_eq!(process_init_beacon(true, true, &mut data, &PROGRAM_ID, &PROGRAM_ID, many), Decision::Halt);
    assert!(data.iter().all(|b| *b == 0));
}

#[test]
fn init_vault_checks_the_map_address() {
    let (pda, bump) = Pubkey::find_program_address(&[b"map"], &Pubkey::new_from_array(PROGRAM_ID));
    let key = pda.to_bytes();
    assert_eq!(check_init_vault(true, &key, true, true, &PROGRAM_ID), Decision::Proceed(bump));
    assert_eq!(
        check_init_vault(false, &key, true, true, &PROGRAM_ID),
        Decision::Refuse(ProgramError::MissingRequiredSignature)
    );
    assert_eq!(check_init_vault(true, &[1; 32], true, true, &PROGRAM_ID), Decision::Refuse(ProgramError::Custom(18)));
    assert_eq!(check_init_vault(true, &key, false, true, &PROGRAM_ID), Decision::Refuse(ProgramError::Custom(18)));
    assert_eq!(check_init_vault(true, &key, true, false, &PROGRAM_ID), Decision::Refuse(ProgramError::Custom(18)));
}

#[test]
fn init_vault_state_once() {
    let mut vault = Withdraw::new(false);
    vault.insert_tx_id(&[1; 32]).unwrap();
    assert_eq!(init_vault_state(&mut vault), Ok(()));
    assert!(vault.is_initialized);
    assert!(vault.map.is_empty());
    assert_eq!(init_vault_state(&mut vault), Err(ProgramError::Custom(5)));
}

#[test]
fn vault_account_checks() {
    assert_eq!(check_vault_account(Some(1), &PROGRAM_ID, &PROGRAM_ID), Decision::Proceed(()));
    assert_eq!(check_vault_account(Some(0), &PROGRAM_ID, &PROGRAM_ID), Decision::Refuse(ProgramError::Custom(18)));
    assert_eq!(check_vault_account(Some(1), &[1; 32], &PROGRAM_ID), Decision::Refuse(ProgramError::Custom(18)));
    assert_eq!(check_vault_account(None, &PROGRAM_ID, &PROGRAM_ID), Decision::Halt);
}

#[test]
fn unshield_stages() {
    let f = unshield_fixture();
    let accounts = unshield_accounts(&f);
    let inst = beacon_instruction(30_000);
    match check_unshield_request(&accounts, &inst, &f.request, &PROGRAM_ID) {
        Decision::Proceed(b) => {
            assert_eq!(b.unshield_amount, 30_000);
            assert_eq!(b.tx_id, TX_ID);
            assert_eq!(release_unshield(&accounts, b.unshield_amount, f.bump, &PROGRAM_ID), Decision::Proceed(30_000));
        }
        other => panic!("expected the checks to pass, got {:?}", other),
    }
    let mut forged = f.request.clone();
    forged.blk_data = [0; 32];
    assert!(matches!(
        check_unshield_request(&accounts, &inst, &forged, &PROGRAM_ID),
        Decision::Refuse(ProgramError::Custom(12))
    ));
    let wrong_authority = UnshieldAccounts { vault_authority_key: [1; 32], ..accounts };
    assert_eq!(
        release_unshield(&wrong_authority, 30_000, f.bump, &PROGRAM_ID),
        Decision::Refuse(ProgramError::Custom(8))
    );
}
