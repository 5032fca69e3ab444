use vstd::prelude::*;
use crate::bytes::{be_value, read_u64_be, read_array32};
use crate::error::{BridgeError, ProgramError, bridge_error};
use crate::runtime::{
    Address, TokenAccountInfo, keccak256, secp256k1_recover_key, spec_keccak256,
    spec_secp256k1_recover, create_program_address, try_find_program_address,
    spec_create_program_address, with_bump, token_program_id, token_program_key,
    unpack_token_account, spec_unpack_token_account, seeds_view, search_outcome,
};
use crate::state::{
    IncognitoProxy, IncognitoProxyView, Withdraw, UnshieldRequest, UnshieldRequestView, spec_unpack_proxy,
    INCOGNITO_PROXY_LEN, MAX_BEACON_ADDRESSES,
};

verus! {

/// The length of the part of a beacon instruction that the bridge reads: meta
/// type, shard id, token, receiver, 24 unused bytes, amount, transaction id.
pub const INST_LEN: usize = 130;

/// The meta type of a beacon instruction that releases tokens.
pub const UNSHIELD_META_TYPE: u8 = 157;

/// The shard the bridge's beacon instructions come from.
pub const UNSHIELD_SHARD_ID: u8 = 1;

/// The address of the associated token account program.
pub const ASSOCIATED_TOKEN_PROGRAM_ID: [u8; 32] = [
    0x8c, 0x97, 0x25, 0x8f, 0x4e, 0x24, 0x89, 0xf1, 0xbb, 0x3d, 0x10, 0x29, 0x14, 0x8e, 0x0d, 0x83,
    0x0b, 0x5a, 0x13, 0x99, 0xda, 0xff, 0x10, 0x84, 0x04, 0x8e, 0x7b, 0xd8, 0xdb, 0xe9, 0xf8, 0x59,
];

/// What the program does at a decision point.
#[derive(Debug, Copy, Clone, PartialEq, Eq)]
pub enum Decision<T> {
    /// Go on, with the value the next step needs.
    Proceed(T),
    /// Fail the instruction with this error.
    Refuse(ProgramError),
    /// Stop the program abruptly, as the runtime does on a panic.
    Halt,
}

/// The fields of a beacon instruction that release tokens.
#[derive(Debug, Copy, Clone, PartialEq, Eq)]
pub struct BeaconInstruction {
    pub meta_type: u8,
    pub shard_id: u8,
    /// The mint of the tokens to release.
    pub token: [u8; 32],
    /// The token account that receives them.
    pub receiver_key: [u8; 32],
    /// How many tokens to release.
    pub unshield_amount: u64,
    /// The id of the unshield transaction.
    pub tx_id: [u8; 32],
}

/// What the beacon instruction `inst` decodes to: at least [`INST_LEN`] bytes,
/// with the unshield meta type and the bridge's shard id.
pub open spec fn parsed_beacon_instruction(inst: Seq<u8>, b: BeaconInstruction) -> bool {
    &&& b.meta_type == inst[0]
    &&& b.shard_id == inst[1]
    &&& b.token@ == inst.subrange(2, 34)
    &&& b.receiver_key@ == inst.subrange(34, 66)
    &&& b.unshield_amount as nat == be_value(inst.subrange(90, 98))
    &&& b.tx_id@ == inst.subrange(98, 130)
}

/// The error a beacon instruction is refused with, if any.
pub open spec fn beacon_instruction_error(inst: Seq<u8>) -> Option<ProgramError> {
    if inst.len() < INST_LEN {
        Some(bridge_error(BridgeError::InvalidBeaconInstruction))
    } else if inst[0] != UNSHIELD_META_TYPE || inst[1] != UNSHIELD_SHARD_ID {
        Some(bridge_error(BridgeError::InvalidKeysInInstruction))
    } else {
        None
    }
}

/// Decodes and checks the beacon instruction carried by an unshield request.
pub fn parse_beacon_instruction(inst: &[u8]) -> (res: Result<BeaconInstruction, ProgramError>)
    ensures
        match beacon_instruction_error(inst@) {
            Some(e) => res == Err::<BeaconInstruction, ProgramError>(e),
            None => res matches Ok(b) && parsed_beacon_instruction(inst@, b),
        },
{
    if inst.len() < INST_LEN {
        return Err(BridgeError::InvalidBeaconInstruction.to_program_error());
    }
    let meta_type = inst[0];
    let shard_id = inst[1];
    let token = read_array32(vstd::slice::slice_subrange(inst, 2, 34));
    let receiver_key = read_array32(vstd::slice::slice_subrange(inst, 34, 66));
    let unshield_amount = read_u64_be(vstd::slice::slice_subrange(inst, 90, 98));
    let tx_id = read_array32(vstd::slice::slice_subrange(inst, 98, 130));
    if meta_type != UNSHIELD_META_TYPE || shard_id != UNSHIELD_SHARD_ID {
        return Err(BridgeError::InvalidKeysInInstruction.to_program_error());
    }
    assert(inst@.subrange(2, 34).take(32) =~= inst@.subrange(2, 34));
    assert(inst@.subrange(34, 66).take(32) =~= inst@.subrange(34, 66));
    assert(inst@.subrange(98, 130).take(32) =~= inst@.subrange(98, 130));
    Ok(BeaconInstruction { meta_type, shard_id, token, receiver_key, unshield_amount, tx_id })
}

/// The error a request with these numbers of indexes, signatures and beacons
/// is refused with, if any: the indexes must match the signatures one to one,
/// and there must be more signatures than two thirds of the beacons.
pub open spec fn signature_count_error(n_indexes: nat, n_signatures: nat, n_beacons: nat) -> Option<ProgramError> {
    if n_indexes != n_signatures {
        Some(bridge_error(BridgeError::InvalidBeaconInstruction))
    } else if n_signatures <= n_beacons * 2 / 3 {
        Some(bridge_error(BridgeError::InvalidNumberOfSignature))
    } else {
        None
    }
}

/// Checks the numbers of indexes and signatures of an unshield request
/// against the number of beacons.
pub fn check_signature_counts(n_indexes: usize, n_signatures: usize, n_beacons: usize) -> (res: Result<(), ProgramError>)
    ensures
        match signature_count_error(n_indexes as nat, n_signatures as nat, n_beacons as nat) {
            Some(e) => res == Err::<(), ProgramError>(e),
            None => res == Ok::<(), ProgramError>(()),
        },
{
    if n_indexes != n_signatures {
        return Err(BridgeError::InvalidBeaconInstruction.to_program_error());
    }
    let threshold: u128 = (n_beacons as u128) * 2 / 3;
    if (n_signatures as u128) <= threshold {
        return Err(BridgeError::InvalidNumberOfSignature.to_program_error());
    }
    Ok(())
}

/// The block hash that beacons sign: Keccak-256 applied twice to the block
/// data followed by the instruction root.
pub open spec fn spec_block_hash(blk_data: Seq<u8>, inst_root: Seq<u8>) -> Seq<u8> {
    spec_keccak256(spec_keccak256(blk_data + inst_root))
}

/// Computes the block hash that beacons sign.
pub fn block_hash(blk_data: &[u8; 32], inst_root: &[u8; 32]) -> (h: [u8; 32])
    ensures
        h@ == spec_block_hash(blk_data@, inst_root@),
{
    let mut blk_data_bytes: Vec<u8> = Vec::new();
    let mut i: usize = 0;
    while i < 32
        invariant
            i <= 32,
            blk_data_bytes@ == blk_data@.take(i as int),
        decreases 32 - i,
    {
        blk_data_bytes.push(blk_data[i]);
        i = i + 1;
        assert(blk_data_bytes@ =~= blk_data@.take(i as int));
    }
    let mut j: usize = 0;
    while j < 32
        invariant
            j <= 32,
            blk_data_bytes@ == blk_data@ + inst_root@.take(j as int),
        decreases 32 - j,
    {
        blk_data_bytes.push(inst_root[j]);
        j = j + 1;
        assert(blk_data_bytes@ =~= blk_data@ + inst_root@.take(j as int));
    }
    assert(blk_data@.take(32) =~= blk_data@);
    assert(inst_root@.take(32) =~= inst_root@);
    let first = keccak256(blk_data_bytes.as_slice());
    keccak256(&first)
}

/// How checking the beacon signatures of a request ends.
#[derive(Debug, Copy, Clone, PartialEq, Eq, Structural)]
pub enum SignatureCheck {
    /// Every signature was made by the beacon its index names.
    Valid,
    /// A signature was made by another key than the beacon its index names.
    Invalid,
    /// No key could be recovered from a signature.
    Unrecoverable,
    /// An index names no beacon.
    UnknownBeacon,
}

/// How checking the signatures from position `i` on ends: each signature's
/// last byte is its recovery id, the key is recovered from the block hash and
/// the first 64 bytes, and it must be the beacon its index names.
pub open spec fn signature_check_from(
    block: Seq<u8>,
    indexes: Seq<u8>,
    signatures: Seq<Seq<u8>>,
    beacons: Seq<Seq<u8>>,
    i: int,
) -> SignatureCheck
    decreases indexes.len() - i,
{
    if i < 0 || i >= indexes.len() {
        SignatureCheck::Valid
    } else {
        let sig = signatures[i];
        let recovered = spec_secp256k1_recover(block, sig[64], sig.take(64));
        if recovered is None {
            SignatureCheck::Unrecoverable
        } else if indexes[i] >= beacons.len() {
            SignatureCheck::UnknownBeacon
        } else if recovered->Some_0 != beacons[indexes[i] as int] {
            SignatureCheck::Invalid
        } else {
            signature_check_from(block, indexes, signatures, beacons, i + 1)
        }
    }
}

/// Checks each signature, in order, against the beacon its index names.
pub fn verify_beacon_signatures(
    block: &[u8; 32],
    indexes: &Vec<u8>,
    signatures: &Vec<[u8; 65]>,
    beacons: &Vec<[u8; 64]>,
) -> (res: SignatureCheck)
    requires
        indexes@.len() == signatures@.len(),
    ensures
        res == signature_check_from(
            block@,
            indexes@,
            signatures@.map_values(|s: [u8; 65]| s@),
            beacons@.map_values(|b: [u8; 64]| b@),
            0,
        ),
{
    let ghost sigs = signatures@.map_values(|s: [u8; 65]| s@);
    let ghost keys = beacons@.map_values(|b: [u8; 64]| b@);
    let mut i: usize = 0;
    while i < indexes.len()
        invariant
            i <= indexes@.len(),
            indexes@.len() == signatures@.len(),
            sigs == signatures@.map_values(|s: [u8; 65]| s@),
            keys == beacons@.map_values(|b: [u8; 64]| b@),
            signature_check_from(block@, indexes@, sigs, keys, 0) == signature_check_from(
                block@,
                indexes@,
                sigs,
                keys,
                i as int,
            ),
        decreases indexes@.len() - i,
    {
        let s_r_v = &signatures[i];
        let (s_r, v) = s_r_v.as_slice().split_at(64);
        assert(s_r@ =~= sigs[i as int].take(64));
        let recovered = secp256k1_recover_key(block.as_slice(), v[0], s_r);
        let key = match recovered {
            Some(k) => k,
            None => return SignatureCheck::Unrecoverable,
        };
        let index_beacon = indexes[i];
        if index_beacon as usize >= beacons.len() {
            return SignatureCheck::UnknownBeacon;
        }
        let beacon_key = &beacons[index_beacon as usize];
        if !same_key64(&key, beacon_key) {
            return SignatureCheck::Invalid;
        }
        i = i + 1;
    }
    SignatureCheck::Valid
}

/// Whether two 64-byte keys are equal.
pub fn same_key64(a: &[u8; 64], b: &[u8; 64]) -> (r: bool)
    ensures
        r == (a@ == b@),
{
    let mut i: usize = 0;
    while i < 64
        invariant
            i <= 64,
            forall|j: int| 0 <= j < i ==> a@[j] == b@[j],
        decreases 64 - i,
    {
        if a[i] != b[i] {
            return false;
        }
        i = i + 1;
    }
    assert(a@ =~= b@);
    true
}

/// Whether two addresses are equal.
pub fn same_key(a: &[u8; 32], b: &[u8; 32]) -> (r: bool)
    ensures
        r == (a@ == b@),
{
    let mut i: usize = 0;
    while i < 32
        invariant
            i <= 32,
            forall|j: int| 0 <= j < i ==> a@[j] == b@[j],
        decreases 32 - i,
    {
        if a[i] != b[i] {
            return false;
        }
        i = i + 1;
    }
    assert(a@ =~= b@);
    true
}

/// What decoding a beacon list account's data without requiring it to be
/// initialized does: data of another length is refused; a count of beacons
/// above [`MAX_BEACON_ADDRESSES`] in well-flagged data stops the program.
pub open spec fn spec_unpack_proxy_unchecked(data: Seq<u8>) -> Decision<IncognitoProxyView> {
    if data.len() != INCOGNITO_PROXY_LEN {
        Decision::Refuse(ProgramError::InvalidAccountData)
    } else if data[0] > 1 {
        Decision::Refuse(ProgramError::InvalidAccountData)
    } else if data[33] > MAX_BEACON_ADDRESSES {
        Decision::Halt
    } else {
        match spec_unpack_proxy(data) {
            Ok(p) => Decision::Proceed(p),
            Err(e) => Decision::Refuse(e),
        }
    }
}

/// `res` is the decision `d` on a beacon list.
pub open spec fn proxy_decision_matches(res: Decision<IncognitoProxy>, d: Decision<IncognitoProxyView>) -> bool {
    match d {
        Decision::Proceed(p) => res matches Decision::Proceed(q) && q@ == p,
        Decision::Refuse(e) => res == Decision::<IncognitoProxy>::Refuse(e),
        Decision::Halt => res == Decision::<IncognitoProxy>::Halt,
    }
}

/// Decodes a beacon list account's data, initialized or not.
pub fn unpack_proxy_unchecked(data: &[u8]) -> (res: Decision<IncognitoProxy>)
    ensures
        proxy_decision_matches(res, spec_unpack_proxy_unchecked(data@)),
{
    if data.len() != IncognitoProxy::LEN {
        return Decision::Refuse(ProgramError::InvalidAccountData);
    }
    if data[0] <= 1 && data[33] as usize > MAX_BEACON_ADDRESSES {
        return Decision::Halt;
    }
    match IncognitoProxy::unpack_unchecked(data) {
        Ok(p) => Decision::Proceed(p),
        Err(e) => Decision::Refuse(e),
    }
}

/// Decodes the beacon list for an unshield request and checks it: it must be
/// initialized, name `vault_account_key` as its vault, and be owned by the program.
pub open spec fn spec_unshield_proxy(
    data: Seq<u8>,
    proxy_owner: Seq<u8>,
    vault_account_key: Seq<u8>,
    program_id: Seq<u8>,
) -> Decision<IncognitoProxyView> {
    match spec_unpack_proxy_unchecked(data) {
        Decision::Proceed(p) => if !p.is_initialized {
            Decision::Refuse(bridge_error(BridgeError::BeaconsUnInitialized))
        } else if p.vault != vault_account_key {
            Decision::Refuse(ProgramError::IncorrectProgramId)
        } else if proxy_owner != program_id {
            Decision::Refuse(ProgramError::IncorrectProgramId)
        } else {
            Decision::Proceed(p)
        },
        other => other,
    }
}

/// Decodes and checks the beacon list for an unshield request.
pub fn check_unshield_proxy(
    data: &[u8],
    proxy_owner: &Address,
    vault_account_key: &Address,
    program_id: &Address,
) -> (res: Decision<IncognitoProxy>)
    ensures
        proxy_decision_matches(
            res,
            spec_unshield_proxy(data@, proxy_owner@, vault_account_key@, program_id@),
        ),
{
    let proxy = match unpack_proxy_unchecked(data) {
        Decision::Proceed(p) => p,
        Decision::Refuse(e) => return Decision::Refuse(e),
        Decision::Halt => return Decision::Halt,
    };
    if !proxy.is_initialized() {
        return Decision::Refuse(BridgeError::BeaconsUnInitialized.to_program_error());
    }
    if !same_key(&proxy.vault, vault_account_key) {
        return Decision::Refuse(ProgramError::IncorrectProgramId);
    }
    if !same_key(proxy_owner, program_id) {
        return Decision::Refuse(ProgramError::IncorrectProgramId);
    }
    Decision::Proceed(proxy)
}

/// The error with which recording a transaction id in the vault is refused,
/// given the vault account's first data byte (`None` for empty data, where
/// the program stops), its owner and the ids already recorded.
pub open spec fn record_tx_id_decision(
    vault_head: Option<u8>,
    vault_owner: Seq<u8>,
    program_id: Seq<u8>,
    recorded: Map<Seq<u8>, bool>,
    tx_id: Seq<u8>,
) -> Decision<()> {
    match spec_vault_account_check(vault_head, vault_owner, program_id) {
        Decision::Proceed(()) => if recorded.contains_key(tx_id) {
            Decision::Refuse(bridge_error(BridgeError::InvalidUnshieldRequestUsed))
        } else {
            Decision::Proceed(())
        },
        other => other,
    }
}

/// What checking the vault account decides, given its first data byte (`None`
/// for empty data, where the program stops) and its owner: it must hold data
/// that does not start with 0 and be owned by the program.
pub open spec fn spec_vault_account_check(vault_head: Option<u8>, vault_owner: Seq<u8>, program_id: Seq<u8>) -> Decision<()> {
    match vault_head {
        None => Decision::Halt,
        Some(h) => if h == 0 || vault_owner != program_id {
            Decision::Refuse(bridge_error(BridgeError::InvalidMapAccount))
        } else {
            Decision::Proceed(())
        },
    }
}

/// Checks the vault account before its record is read.
pub fn check_vault_account(vault_head: Option<u8>, vault_owner: &Address, program_id: &Address) -> (res: Decision<()>)
    ensures
        res == spec_vault_account_check(vault_head, vault_owner@, program_id@),
{
    let head = match vault_head {
        Some(h) => h,
        None => return Decision::Halt,
    };
    if head == 0 || !same_key(vault_owner, program_id) {
        return Decision::Refuse(BridgeError::InvalidMapAccount.to_program_error());
    }
    Decision::Proceed(())
}

/// Records the transaction id of an unshield request in the vault, refusing
/// an id that is already there; the vault changes only when it proceeds.
pub fn record_tx_id(
    vault_head: Option<u8>,
    vault_owner: &Address,
    program_id: &Address,
    vault: &mut Withdraw,
    tx_id: &[u8; 32],
) -> (res: Decision<()>)
    requires
        old(vault).wf(),
    ensures
        res == record_tx_id_decision(vault_head, vault_owner@, program_id@, old(vault).spec_map(), tx_id@),
        final(vault).wf(),
        final(vault).is_initialized == old(vault).is_initialized,
        final(vault).spec_map() == if res is Proceed {
            old(vault).spec_map().insert(tx_id@, true)
        } else {
            old(vault).spec_map()
        },
{
    match check_vault_account(vault_head, vault_owner, program_id) {
        Decision::Proceed(()) => {},
        Decision::Refuse(e) => return Decision::Refuse(e),
        Decision::Halt => return Decision::Halt,
    }
    match vault.insert_tx_id(tx_id) {
        Ok(()) => Decision::Proceed(()),
        Err(e) => Decision::Refuse(e.to_program_error()),
    }
}

/// The seeds of the vault authority: the beacon list's address and a bump seed.
pub open spec fn authority_seeds(proxy_key: Seq<u8>, bump: u8) -> Seq<Seq<u8>> {
    seq![proxy_key, seq![bump]]
}

/// The vault authority for a beacon list address and bump seed, if one can be derived.
pub open spec fn spec_vault_authority(proxy_key: Seq<u8>, bump: u8, program_id: Seq<u8>) -> Option<Seq<u8>> {
    spec_create_program_address(authority_seeds(proxy_key, bump), program_id)
}

/// Derives the vault authority: the program address of the beacon list's
/// address and the bump seed.
pub fn derive_vault_authority(proxy_key: &Address, bump: u8, program_id: &Address) -> (res: Result<Address, ProgramError>)
    ensures
        match spec_vault_authority(proxy_key@, bump, program_id@) {
            Some(a) => res matches Ok(r) && r@ == a,
            None => res == Err::<Address, ProgramError>(ProgramError::InvalidSeeds),
        },
{
    let bump_seed: [u8; 1] = [bump];
    let seeds: [&[u8]; 2] = [proxy_key.as_slice(), bump_seed.as_slice()];
    let seeds_slice = seeds.as_slice();
    assert(seeds_slice@.len() == 2);
    assert(seeds_slice@[0]@ =~= proxy_key@);
    assert(seeds_slice@[1]@ =~= seq![bump]);
    let res = create_program_address(seeds_slice, program_id);
    assert(seeds_view(seeds_slice) =~= authority_seeds(proxy_key@, bump));
    res
}

/// Finds the bump seed of the canonical vault authority of a beacon list: the
/// highest bump from 255 down to 1 for which the authority can be derived.
pub fn find_authority_bump(proxy_key: &Address, program_id: &Address) -> (res: Option<u8>)
    ensures
        match res {
            Some(bump) => {
                &&& 1 <= bump
                &&& spec_vault_authority(proxy_key@, bump, program_id@) is Some
                &&& forall|b: u8| bump < b ==> (#[trigger] spec_vault_authority(proxy_key@, b, program_id@)) is None
            },
            None => forall|b: u8| 1 <= b ==> (#[trigger] spec_vault_authority(proxy_key@, b, program_id@)) is None,
        },
{
    let seeds: [&[u8]; 1] = [proxy_key.as_slice()];
    let seeds_slice = seeds.as_slice();
    assert(seeds_slice@.len() == 1);
    assert(seeds_slice@[0]@ =~= proxy_key@);
    let found = try_find_program_address(seeds_slice, program_id);
    assert(seeds_view(seeds_slice) =~= seq![proxy_key@]);
    let ghost seeds_v = seq![proxy_key@];
    assert(seeds_view(seeds_slice) == seeds_v);
    assert forall|b: u8| #[trigger] spec_vault_authority(proxy_key@, b, program_id@)
        == spec_create_program_address(with_bump(seeds_v, b), program_id@) by {
        assert(with_bump(seeds_v, b) =~= authority_seeds(proxy_key@, b));
    }
    match found {
        Some((_authority, bump)) => Some(bump),
        None => None,
    }
}

/// The accounts of an unshield instruction, as the bridge reads them.
pub struct UnshieldAccounts<'a> {
    /// The vault's token account, which pays out.
    pub vault_token_account_key: Address,
    pub vault_token_account_data: &'a [u8],
    /// The token account that receives the tokens.
    pub unshield_token_account_key: Address,
    pub unshield_token_account_data: &'a [u8],
    /// The account given as the vault authority.
    pub vault_authority_key: Address,
    /// The vault account that records spent transaction ids.
    pub vault_account_key: Address,
    pub vault_account_owner: Address,
    /// The first byte of the vault account's data, if it has any.
    pub vault_account_head: Option<u8>,
    /// The beacon list account.
    pub incognito_proxy_key: Address,
    pub incognito_proxy_owner: Address,
    pub incognito_proxy_data: &'a [u8],
}

/// The accounts of an unshield instruction, as byte sequences.
pub struct UnshieldAccountsView {
    pub vault_token_account_key: Seq<u8>,
    pub vault_token_account_data: Seq<u8>,
    pub unshield_token_account_key: Seq<u8>,
    pub unshield_token_account_data: Seq<u8>,
    pub vault_authority_key: Seq<u8>,
    pub vault_account_key: Seq<u8>,
    pub vault_account_owner: Seq<u8>,
    pub vault_account_head: Option<u8>,
    pub incognito_proxy_key: Seq<u8>,
    pub incognito_proxy_owner: Seq<u8>,
    pub incognito_proxy_data: Seq<u8>,
}

impl<'a> View for UnshieldAccounts<'a> {
    type V = UnshieldAccountsView;

    open spec fn view(&self) -> UnshieldAccountsView {
        UnshieldAccountsView {
            vault_token_account_key: self.vault_token_account_key@,
            vault_token_account_data: self.vault_token_account_data@,
            unshield_token_account_key: self.unshield_token_account_key@,
            unshield_token_account_data: self.unshield_token_account_data@,
            vault_authority_key: self.vault_authority_key@,
            vault_account_key: self.vault_account_key@,
            vault_account_owner: self.vault_account_owner@,
            vault_account_head: self.vault_account_head,
            incognito_proxy_key: self.incognito_proxy_key@,
            incognito_proxy_owner: self.incognito_proxy_owner@,
            incognito_proxy_data: self.incognito_proxy_data@,
        }
    }
}

/// The last steps of an unshield: derive the vault authority from the beacon
/// list's address and `bump`, check it is the account given, and check it
/// owns the vault's token account; then release the instruction's amount.
pub open spec fn spec_unshield_release(a: UnshieldAccountsView, amount: u64, bump: u8, program_id: Seq<u8>) -> Decision<u64> {
    match spec_vault_authority(a.incognito_proxy_key, bump, program_id) {
        None => Decision::Refuse(ProgramError::InvalidSeeds),
        Some(authority) => if authority != a.vault_authority_key {
            Decision::Refuse(bridge_error(BridgeError::InvalidTokenAuthority))
        } else {
            match spec_unpack_token_account(a.vault_token_account_data) {
                Err(e) => Decision::Refuse(e),
                Ok((_mint, owner)) => if owner != authority {
                    Decision::Refuse(bridge_error(BridgeError::InvalidAccountOwner))
                } else {
                    Decision::Proceed(amount)
                },
            }
        },
    }
}

/// The steps of an unshield after the signatures check out: record the
/// transaction id, then release. The flag says whether the id was recorded.
pub open spec fn spec_unshield_record(
    a: UnshieldAccountsView,
    inst: Seq<u8>,
    recorded: Map<Seq<u8>, bool>,
    bump: u8,
    program_id: Seq<u8>,
) -> (Decision<u64>, bool) {
    match record_tx_id_decision(a.vault_account_head, a.vault_account_owner, program_id, recorded, inst.subrange(98, 130)) {
        Decision::Halt => (Decision::Halt, false),
        Decision::Refuse(e) => (Decision::Refuse(e), false),
        Decision::Proceed(_) => (spec_unshield_release(a, be_value(inst.subrange(90, 98)) as u64, bump, program_id), true),
    }
}

/// What the checks of an unshield whose beacon instruction is the bytes
/// `inst` decide, before anything is recorded.
///
/// In order: the beacon list is decoded and checked; the beacon instruction
/// is decoded and checked; the receiving token account must hold the
/// instruction's token and be its receiver; the indexes must match the
/// signatures and outnumber two thirds of the beacons; and every signature
/// must come from the beacon its index names.
pub open spec fn spec_unshield_checks(
    a: UnshieldAccountsView,
    inst: Seq<u8>,
    info: UnshieldRequestView,
    program_id: Seq<u8>,
) -> Decision<()> {
    match spec_unshield_proxy(a.incognito_proxy_data, a.incognito_proxy_owner, a.vault_account_key, program_id) {
        Decision::Halt => Decision::Halt,
        Decision::Refuse(e) => Decision::Refuse(e),
        Decision::Proceed(p) => {
            match beacon_instruction_error(inst) {
                Some(e) => Decision::Refuse(e),
                None => match spec_unpack_token_account(a.unshield_token_account_data) {
                    Err(e) => Decision::Refuse(e),
                    Ok((mint, _owner)) => if inst.subrange(2, 34) != mint {
                        Decision::Refuse(bridge_error(BridgeError::InvalidKeysInInstruction))
                    } else if inst.subrange(34, 66) != a.unshield_token_account_key {
                        Decision::Refuse(bridge_error(BridgeError::InvalidKeysInInstruction))
                    } else {
                        match signature_count_error(info.indexes.len(), info.signatures.len(), p.beacons.len()) {
                            Some(e) => Decision::Refuse(e),
                            None => match signature_check_from(
                                spec_block_hash(info.blk_data, info.inst_root),
                                info.indexes,
                                info.signatures,
                                p.beacons,
                                0,
                            ) {
                                SignatureCheck::Valid => Decision::Proceed(()),
                                SignatureCheck::Invalid => Decision::Refuse(
                                    bridge_error(BridgeError::InvalidBeaconSignature),
                                ),
                                _ => Decision::Halt,
                            },
                        }
                    },
                },
            }
        },
    }
}


/// What an unshield instruction whose beacon instruction is the bytes `inst`
/// does: the decision, and whether the transaction id is recorded in the vault.
///
/// The checks of [`spec_unshield_checks`] come first; then the vault account
/// is checked and the transaction id must be new; then the vault authority
/// must check out (see [`spec_unshield_release`]).
pub open spec fn spec_unshield_inst(
    a: UnshieldAccountsView,
    inst: Seq<u8>,
    info: UnshieldRequestView,
    recorded: Map<Seq<u8>, bool>,
    bump: u8,
    program_id: Seq<u8>,
) -> (Decision<u64>, bool) {
    match spec_unshield_checks(a, inst, info, program_id) {
        Decision::Halt => (Decision::Halt, false),
        Decision::Refuse(e) => (Decision::Refuse(e), false),
        Decision::Proceed(()) => spec_unshield_record(a, inst, recorded, bump, program_id),
    }
}

/// What an unshield instruction does: its beacon instruction is the UTF-8
/// encoding of the request's instruction text.
pub open spec fn spec_unshield(
    a: UnshieldAccountsView,
    info: UnshieldRequestView,
    recorded: Map<Seq<u8>, bool>,
    bump: u8,
    program_id: Seq<u8>,
) -> (Decision<u64>, bool) {
    spec_unshield_inst(a, vstd::utf8::encode_utf8(info.inst), info, recorded, bump, program_id)
}

/// Runs the checks of an unshield whose beacon instruction is the bytes
/// `inst`, up to and including the beacon signatures; on `Proceed` it gives
/// the decoded beacon instruction.
pub fn check_unshield_request(
    accounts: &UnshieldAccounts,
    inst: &[u8],
    unshield_info: &UnshieldRequest,
    program_id: &Address,
) -> (res: Decision<BeaconInstruction>)
    ensures
        match spec_unshield_checks(accounts@, inst@, unshield_info@, program_id@) {
            Decision::Proceed(()) => res matches Decision::Proceed(b) && parsed_beacon_instruction(inst@, b)
                && beacon_instruction_error(inst@) is None,
            Decision::Refuse(e) => res == Decision::<BeaconInstruction>::Refuse(e),
            Decision::Halt => res == Decision::<BeaconInstruction>::Halt,
        },
{
    let incognito_proxy_info = match check_unshield_proxy(
        accounts.incognito_proxy_data,
        &accounts.incognito_proxy_owner,
        &accounts.vault_account_key,
        program_id,
    ) {
        Decision::Proceed(p) => p,
        Decision::Refuse(e) => return Decision::Refuse(e),
        Decision::Halt => return Decision::Halt,
    };
    let beacon_inst = match parse_beacon_instruction(inst) {
        Ok(b) => b,
        Err(e) => return Decision::Refuse(e),
    };
    let unshield_account_info = match unpack_token_account(accounts.unshield_token_account_data) {
        Ok(info) => info,
        Err(e) => return Decision::Refuse(e),
    };
    if !same_key(&beacon_inst.token, &unshield_account_info.mint) {
        return Decision::Refuse(BridgeError::InvalidKeysInInstruction.to_program_error());
    }
    if !same_key(&beacon_inst.receiver_key, &accounts.unshield_token_account_key) {
        return Decision::Refuse(BridgeError::InvalidKeysInInstruction.to_program_error());
    }
    match check_signature_counts(
        unshield_info.indexes.len(),
        unshield_info.signatures.len(),
        incognito_proxy_info.beacons.len(),
    ) {
        Ok(()) => {},
        Err(e) => return Decision::Refuse(e),
    }
    let blk = block_hash(&unshield_info.blk_data, &unshield_info.inst_root);
    match verify_beacon_signatures(
        &blk,
        &unshield_info.indexes,
        &unshield_info.signatures,
        &incognito_proxy_info.beacons,
    ) {
        SignatureCheck::Valid => {},
        SignatureCheck::Invalid => {
            return Decision::Refuse(BridgeError::InvalidBeaconSignature.to_program_error());
        },
        SignatureCheck::Unrecoverable => return Decision::Halt,
        SignatureCheck::UnknownBeacon => return Decision::Halt,
    }
    Decision::Proceed(beacon_inst)
}

/// The last checks of an unshield, after its transaction id is recorded:
/// derive the vault authority, check it is the account given and that it
/// owns the vault's token account. On `Proceed` it gives `amount` back.
pub fn release_unshield(accounts: &UnshieldAccounts, amount: u64, bump: u8, program_id: &Address) -> (res: Decision<u64>)
    ensures
        res == spec_unshield_release(accounts@, amount, bump, program_id@),
{
    let vault_authority_pubkey = match derive_vault_authority(
        &accounts.incognito_proxy_key,
        bump,
        program_id,
    ) {
        Ok(a) => a,
        Err(e) => return Decision::Refuse(e),
    };
    if !same_key(&vault_authority_pubkey, &accounts.vault_authority_key) {
        return Decision::Refuse(BridgeError::InvalidTokenAuthority.to_program_error());
    }
    let vault_token_account_info = match unpack_token_account(accounts.vault_token_account_data) {
        Ok(info) => info,
        Err(e) => return Decision::Refuse(e),
    };
    if !same_key(&vault_token_account_info.owner, &vault_authority_pubkey) {
        return Decision::Refuse(BridgeError::InvalidAccountOwner.to_program_error());
    }
    Decision::Proceed(amount)
}

/// Decides an unshield whose beacon instruction is the bytes `inst`; see
/// [`process_unshield`].
pub fn decide_unshield(
    accounts: &UnshieldAccounts,
    inst: &[u8],
    unshield_info: &UnshieldRequest,
    vault: &mut Withdraw,
    bump: u8,
    program_id: &Address,
) -> (res: Decision<u64>)
    requires
        old(vault).wf(),
    ensures
        res == spec_unshield_inst(accounts@, inst@, unshield_info@, old(vault).spec_map(), bump, program_id@).0,
        final(vault).wf(),
        final(vault).is_initialized == old(vault).is_initialized,
        final(vault).spec_map() == if spec_unshield_inst(
            accounts@,
            inst@,
            unshield_info@,
            old(vault).spec_map(),
            bump,
            program_id@,
        ).1 {
            old(vault).spec_map().insert(inst@.subrange(98, 130), true)
        } else {
            old(vault).spec_map()
        },
{
    let beacon_inst = match check_unshield_request(accounts, inst, unshield_info, program_id) {
        Decision::Proceed(b) => b,
        Decision::Refuse(e) => return Decision::Refuse(e),
        Decision::Halt => return Decision::Halt,
    };
    match record_tx_id(
        accounts.vault_account_head,
        &accounts.vault_account_owner,
        program_id,
        vault,
        &beacon_inst.tx_id,
    ) {
        Decision::Proceed(()) => {},
        Decision::Refuse(e) => return Decision::Refuse(e),
        Decision::Halt => return Decision::Halt,
    }
    release_unshield(accounts, beacon_inst.unshield_amount, bump, program_id)
}

/// Decides an unshield instruction: checks the beacon list, the beacon
/// instruction (the UTF-8 bytes of the request's instruction text), the
/// receiving account and the beacon signatures, records the transaction id in
/// the vault, and checks the vault authority. On `Proceed` the caller
/// transfers the returned amount from the vault's token account to the
/// receiving account, signed by the vault authority.
pub fn process_unshield(
    accounts: &UnshieldAccounts,
    unshield_info: &UnshieldRequest,
    vault: &mut Withdraw,
    bump: u8,
    program_id: &Address,
) -> (res: Decision<u64>)
    requires
        old(vault).wf(),
    ensures
        res == spec_unshield(accounts@, unshield_info@, old(vault).spec_map(), bump, program_id@).0,
        final(vault).wf(),
        final(vault).is_initialized == old(vault).is_initialized,
        final(vault).spec_map() == if spec_unshield(
            accounts@,
            unshield_info@,
            old(vault).spec_map(),
            bump,
            program_id@,
        ).1 {
            old(vault).spec_map().insert(
                vstd::utf8::encode_utf8(unshield_info@.inst).subrange(98, 130),
                true,
            )
        } else {
            old(vault).spec_map()
        },
{
    let inst = unshield_info.inst.as_str().as_bytes();
    decide_unshield(accounts, inst, unshield_info, vault, bump, program_id)
}

/// The accounts of a shield instruction, as the bridge reads them.
pub struct ShieldAccounts<'a> {
    /// The vault's token account, which receives the tokens.
    pub vault_token_account_key: Address,
    pub vault_token_account_owner: Address,
    pub vault_token_account_data: &'a [u8],
    /// The beacon list account.
    pub incognito_proxy_key: Address,
    pub incognito_proxy_owner: Address,
    pub incognito_proxy_data: &'a [u8],
    /// Whether the user who shields signed the transaction.
    pub shield_maker_is_signer: bool,
}

/// The accounts of a shield instruction, as byte sequences.
pub struct ShieldAccountsView {
    pub vault_token_account_key: Seq<u8>,
    pub vault_token_account_owner: Seq<u8>,
    pub vault_token_account_data: Seq<u8>,
    pub incognito_proxy_key: Seq<u8>,
    pub incognito_proxy_owner: Seq<u8>,
    pub incognito_proxy_data: Seq<u8>,
    pub shield_maker_is_signer: bool,
}

impl<'a> View for ShieldAccounts<'a> {
    type V = ShieldAccountsView;

    open spec fn view(&self) -> ShieldAccountsView {
        ShieldAccountsView {
            vault_token_account_key: self.vault_token_account_key@,
            vault_token_account_owner: self.vault_token_account_owner@,
            vault_token_account_data: self.vault_token_account_data@,
            incognito_proxy_key: self.incognito_proxy_key@,
            incognito_proxy_owner: self.incognito_proxy_owner@,
            incognito_proxy_data: self.incognito_proxy_data@,
            shield_maker_is_signer: self.shield_maker_is_signer,
        }
    }
}

/// The seeds of an associated token account: the wallet, the token program
/// and the mint.
pub open spec fn associated_account_seeds(wallet: Seq<u8>, mint: Seq<u8>) -> Seq<Seq<u8>> {
    seq![wallet, token_program_key(), mint]
}

/// What decoding an initialized beacon list account's data does.
pub open spec fn spec_unpack_proxy_initialized(data: Seq<u8>) -> Decision<IncognitoProxyView> {
    match spec_unpack_proxy_unchecked(data) {
        Decision::Proceed(p) => if p.is_initialized {
            Decision::Proceed(p)
        } else {
            Decision::Refuse(ProgramError::UninitializedAccount)
        },
        other => other,
    }
}

/// The steps of a shield after the beacon list is decoded: derive the vault
/// authority, find the authority's associated token account for the vault's
/// mint, and check that it is the vault's token account and that the
/// authority owns it.
pub open spec fn spec_shield_authority(a: ShieldAccountsView, mint: Seq<u8>, owner: Seq<u8>, bump: u8, program_id: Seq<u8>) -> Decision<()> {
    match spec_vault_authority(a.incognito_proxy_key, bump, program_id) {
        None => Decision::Refuse(ProgramError::InvalidSeeds),
        Some(authority) => {
            let seeds = associated_account_seeds(authority, mint);
            if forall|b: u8| 1 <= b ==> (#[trigger] spec_create_program_address(
                with_bump(seeds, b),
                ASSOCIATED_TOKEN_PROGRAM_ID@,
            )) is None {
                Decision::Halt
            } else {
                let bump_found = choose|b: u8| 1 <= b && (#[trigger] spec_create_program_address(
                    with_bump(seeds, b),
                    ASSOCIATED_TOKEN_PROGRAM_ID@,
                )) is Some && forall|c: u8| b < c ==> (#[trigger] spec_create_program_address(
                    with_bump(seeds, c),
                    ASSOCIATED_TOKEN_PROGRAM_ID@,
                )) is None;
                let associated = spec_create_program_address(
                    with_bump(seeds, bump_found),
                    ASSOCIATED_TOKEN_PROGRAM_ID@,
                )->Some_0;
                if associated != a.vault_token_account_key {
                    Decision::Refuse(ProgramError::IncorrectProgramId)
                } else if owner != authority {
                    Decision::Refuse(ProgramError::IncorrectProgramId)
                } else {
                    Decision::Proceed(())
                }
            }
        },
    }
}

/// What a shield instruction decides.
///
/// In order: the user must sign; the beacon list must be owned by the
/// program; the vault's token account must be owned by the token program and
/// decode; the beacon list must decode and be initialized; then the vault
/// authority checks of [`spec_shield_authority`].
pub open spec fn spec_shield(a: ShieldAccountsView, bump: u8, program_id: Seq<u8>) -> Decision<()> {
    if !a.shield_maker_is_signer {
        Decision::Refuse(ProgramError::MissingRequiredSignature)
    } else if a.incognito_proxy_owner != program_id {
        Decision::Refuse(ProgramError::IncorrectProgramId)
    } else if a.vault_token_account_owner != token_program_key() {
        Decision::Refuse(ProgramError::IncorrectProgramId)
    } else {
        match spec_unpack_token_account(a.vault_token_account_data) {
            Err(e) => Decision::Refuse(e),
            Ok((mint, owner)) => match spec_unpack_proxy_initialized(a.incognito_proxy_data) {
                Decision::Halt => Decision::Halt,
                Decision::Refuse(e) => Decision::Refuse(e),
                Decision::Proceed(_p) => spec_shield_authority(a, mint, owner, bump, program_id),
            },
        }
    }
}

/// Decides a shield instruction. On `Proceed` the caller transfers the
/// amount from the user's token account to the vault's, signed by the user.
pub fn process_shield(accounts: &ShieldAccounts, bump: u8, program_id: &Address) -> (res: Decision<[u8; 32]>)
    ensures
        match spec_shield(accounts@, bump, program_id@) {
            Decision::Proceed(()) => res matches Decision::Proceed(mint) && mint@
                == accounts@.vault_token_account_data.subrange(0, 32),
            Decision::Refuse(e) => res == Decision::<[u8; 32]>::Refuse(e),
            Decision::Halt => res == Decision::<[u8; 32]>::Halt,
        },
{
    if !accounts.shield_maker_is_signer {
        return Decision::Refuse(ProgramError::MissingRequiredSignature);
    }
    if !same_key(&accounts.incognito_proxy_owner, program_id) {
        return Decision::Refuse(ProgramError::IncorrectProgramId);
    }
    let token_program = token_program_id();
    if !same_key(&accounts.vault_token_account_owner, &token_program) {
        return Decision::Refuse(ProgramError::IncorrectProgramId);
    }
    let vault_token_account_info = match unpack_token_account(accounts.vault_token_account_data) {
        Ok(info) => info,
        Err(e) => return Decision::Refuse(e),
    };
    let incognito_proxy_info = match unpack_proxy_unchecked(accounts.incognito_proxy_data) {
        Decision::Proceed(p) => p,
        Decision::Refuse(e) => return Decision::Refuse(e),
        Decision::Halt => return Decision::Halt,
    };
    if !incognito_proxy_info.is_initialized() {
        return Decision::Refuse(ProgramError::UninitializedAccount);
    }
    match check_shield_authority(accounts, &vault_token_account_info, bump, program_id) {
        Decision::Proceed(()) => Decision::Proceed(vault_token_account_info.mint),
        Decision::Refuse(e) => Decision::Refuse(e),
        Decision::Halt => Decision::Halt,
    }
}

/// Runs the vault authority checks of a shield for the vault's token account
/// `vault_token`; see [`spec_shield_authority`].
pub fn check_shield_authority(
    accounts: &ShieldAccounts,
    vault_token: &TokenAccountInfo,
    bump: u8,
    program_id: &Address,
) -> (res: Decision<()>)
    ensures
        res == spec_shield_authority(accounts@, vault_token.mint@, vault_token.owner@, bump, program_id@),
{
    let vault_token_account_info = vault_token;
    let token_program = token_program_id();
    let vault_authority_pubkey = match derive_vault_authority(
        &accounts.incognito_proxy_key,
        bump,
        program_id,
    ) {
        Ok(a) => a,
        Err(e) => return Decision::Refuse(e),
    };
    let seeds: [&[u8]; 3] = [
        vault_authority_pubkey.as_slice(),
        token_program.as_slice(),
        vault_token_account_info.mint.as_slice(),
    ];
    let seeds_slice = seeds.as_slice();
    assert(seeds_slice@.len() == 3);
    assert(seeds_slice@[0]@ =~= vault_authority_pubkey@);
    assert(seeds_slice@[1]@ =~= token_program@);
    assert(seeds_slice@[2]@ =~= vault_token_account_info.mint@);
    let ghost seeds_v = associated_account_seeds(vault_authority_pubkey@, vault_token_account_info.mint@);
    assert(seeds_view(seeds_slice) =~= seeds_v);
    let asc = ASSOCIATED_TOKEN_PROGRAM_ID;
    let found = try_find_program_address(seeds_slice, &asc);
    let associated = match found {
        Some((address, _bump)) => address,
        None => return Decision::Halt,
    };
    proof {
        let b = found->Some_0.1;
        assert(1 <= b && spec_create_program_address(with_bump(seeds_v, b), ASSOCIATED_TOKEN_PROGRAM_ID@) is Some
            && forall|c: u8| b < c ==> (#[trigger] spec_create_program_address(
                with_bump(seeds_v, c),
                ASSOCIATED_TOKEN_PROGRAM_ID@,
            )) is None);
        let chosen = choose|b: u8| 1 <= b && (#[trigger] spec_create_program_address(
            with_bump(seeds_v, b),
            ASSOCIATED_TOKEN_PROGRAM_ID@,
        )) is Some && forall|c: u8| b < c ==> (#[trigger] spec_create_program_address(
            with_bump(seeds_v, c),
            ASSOCIATED_TOKEN_PROGRAM_ID@,
        )) is None;
        if chosen < b {
            assert(spec_create_program_address(with_bump(seeds_v, b), ASSOCIATED_TOKEN_PROGRAM_ID@) is None);
        } else if b < chosen {
            assert(spec_create_program_address(with_bump(seeds_v, chosen), ASSOCIATED_TOKEN_PROGRAM_ID@) is None);
        }
    }
    if !same_key(&associated, &accounts.vault_token_account_key) {
        return Decision::Refuse(ProgramError::IncorrectProgramId);
    }
    if !same_key(&vault_token_account_info.owner, &vault_authority_pubkey) {
        return Decision::Refuse(ProgramError::IncorrectProgramId);
    }
    Decision::Proceed(())
}

/// What requiring a beacon list account to be uninitialized does: decode it
/// unchecked, and refuse it if it is initialized.
pub open spec fn spec_assert_uninitialized(data: Seq<u8>) -> Decision<IncognitoProxyView> {
    match spec_unpack_proxy_unchecked(data) {
        Decision::Proceed(p) => if p.is_initialized {
            Decision::Refuse(bridge_error(BridgeError::AccInitialized))
        } else {
            Decision::Proceed(p)
        },
        other => other,
    }
}

/// Decodes a beacon list account that must not be initialized yet.
pub fn assert_uninitialized(data: &[u8]) -> (res: Decision<IncognitoProxy>)
    ensures
        proxy_decision_matches(res, spec_assert_uninitialized(data@)),
{
    let account = match unpack_proxy_unchecked(data) {
        Decision::Proceed(p) => p,
        Decision::Refuse(e) => return Decision::Refuse(e),
        Decision::Halt => return Decision::Halt,
    };
    if account.is_initialized() {
        Decision::Refuse(BridgeError::AccInitialized.to_program_error())
    } else {
        Decision::Proceed(account)
    }
}

/// What initializing a beacon list decides: the initializer must sign, the
/// account must be rent exempt, uninitialized and owned by the program, and
/// the new list must fit in the account.
pub open spec fn spec_init_beacon(
    initializer_is_signer: bool,
    rent_exempt: bool,
    data: Seq<u8>,
    proxy_owner: Seq<u8>,
    program_id: Seq<u8>,
    n_beacons: nat,
) -> Decision<()> {
    if !initializer_is_signer {
        Decision::Refuse(ProgramError::MissingRequiredSignature)
    } else if !rent_exempt {
        Decision::Refuse(bridge_error(BridgeError::NotRentExempt))
    } else {
        match spec_assert_uninitialized(data) {
            Decision::Halt => Decision::Halt,
            Decision::Refuse(e) => Decision::Refuse(e),
            Decision::Proceed(_p) => if proxy_owner != program_id {
                Decision::Refuse(ProgramError::IncorrectProgramId)
            } else if n_beacons > MAX_BEACON_ADDRESSES {
                Decision::Halt
            } else {
                Decision::Proceed(())
            },
        }
    }
}

/// Initializes a beacon list account: checks it, then writes `init_beacon_info`
/// over its data. Whether the account is rent exempt is worked out by the
/// caller. The data changes only when the decision is to proceed.
pub fn process_init_beacon(
    initializer_is_signer: bool,
    rent_exempt: bool,
    data: &mut [u8],
    proxy_owner: &Address,
    program_id: &Address,
    init_beacon_info: IncognitoProxy,
) -> (res: Decision<()>)
    ensures
        res == spec_init_beacon(
            initializer_is_signer,
            rent_exempt,
            old(data)@,
            proxy_owner@,
            program_id@,
            init_beacon_info.beacons@.len(),
        ),
        final(data)@ == if res is Proceed {
            crate::state::spec_pack_proxy(init_beacon_info@, old(data)@)
        } else {
            old(data)@
        },
{
    if !initializer_is_signer {
        return Decision::Refuse(ProgramError::MissingRequiredSignature);
    }
    if !rent_exempt {
        return Decision::Refuse(BridgeError::NotRentExempt.to_program_error());
    }
    let mut incognito_proxy_info = match assert_uninitialized(data) {
        Decision::Proceed(p) => p,
        Decision::Refuse(e) => return Decision::Refuse(e),
        Decision::Halt => return Decision::Halt,
    };
    if !same_key(proxy_owner, program_id) {
        return Decision::Refuse(ProgramError::IncorrectProgramId);
    }
    if init_beacon_info.beacons.len() > MAX_BEACON_ADDRESSES {
        return Decision::Halt;
    }
    incognito_proxy_info.is_initialized = init_beacon_info.is_initialized;
    incognito_proxy_info.vault = init_beacon_info.vault;
    incognito_proxy_info.beacons = init_beacon_info.beacons;
    match IncognitoProxy::pack(incognito_proxy_info, data) {
        Ok(()) => Decision::Proceed(()),
        Err(e) => Decision::Refuse(e),
    }
}

/// What the first part of initializing the vault decides: the initializer
/// must sign, and the vault account must be the program's address for the
/// seed `"map"`, writable and empty. It proceeds with that address's bump
/// seed, with which the caller creates the account.
pub open spec fn spec_init_vault_accounts(
    initializer_is_signer: bool,
    vault_account_key: Seq<u8>,
    vault_is_writable: bool,
    vault_data_is_empty: bool,
    program_id: Seq<u8>,
    res: Decision<u8>,
) -> bool {
    if !initializer_is_signer {
        res == Decision::<u8>::Refuse(ProgramError::MissingRequiredSignature)
    } else if search_outcome(None, seq![map_seed()], program_id) {
        res == Decision::<u8>::Halt
    } else {
        exists|pda: Address, bump: u8| {
            &&& #[trigger] search_outcome(Some((pda, bump)), seq![map_seed()], program_id)
            &&& if pda@ != vault_account_key || !vault_is_writable || !vault_data_is_empty {
                res == Decision::<u8>::Refuse(bridge_error(BridgeError::InvalidMapAccount))
            } else {
                res == Decision::Proceed(bump)
            }
        }
    }
}

/// The seed of the vault account's address.
pub open spec fn map_seed() -> Seq<u8> {
    seq![109u8, 97, 112]
}

/// Checks the accounts for initializing the vault.
pub fn check_init_vault(
    initializer_is_signer: bool,
    vault_account_key: &Address,
    vault_is_writable: bool,
    vault_data_is_empty: bool,
    program_id: &Address,
) -> (res: Decision<u8>)
    ensures
        spec_init_vault_accounts(
            initializer_is_signer,
            vault_account_key@,
            vault_is_writable,
            vault_data_is_empty,
            program_id@,
            res,
        ),
{
    if !initializer_is_signer {
        return Decision::Refuse(ProgramError::MissingRequiredSignature);
    }
    let map: [u8; 3] = [109, 97, 112];
    let seeds: [&[u8]; 1] = [map.as_slice()];
    let seeds_slice = seeds.as_slice();
    assert(seeds_slice@.len() == 1);
    assert(seeds_slice@[0]@ =~= map_seed());
    assert(seeds_view(seeds_slice) =~= seq![map_seed()]);
    let found = try_find_program_address(seeds_slice, program_id);
    let (map_pda, map_bump) = match found {
        Some(p) => p,
        None => return Decision::Halt,
    };
    proof {
        if search_outcome(None, seq![map_seed()], program_id@) {
            let b = map_bump;
            assert(spec_create_program_address(with_bump(seq![map_seed()], b), program_id@) is None);
        }
        assert(search_outcome(Some((map_pda, map_bump)), seq![map_seed()], program_id@));
    }
    if !same_key(&map_pda, vault_account_key) || !vault_is_writable || !vault_data_is_empty {
        return Decision::Refuse(BridgeError::InvalidMapAccount.to_program_error());
    }
    Decision::Proceed(map_bump)
}

/// Sets up a newly created vault record: one already initialized is refused;
/// otherwise it becomes initialized, with no transaction ids.
pub fn init_vault_state(vault: &mut Withdraw) -> (res: Result<(), ProgramError>)
    requires
        old(vault).wf(),
    ensures
        final(vault).wf(),
        old(vault).is_initialized ==> res == Err::<(), ProgramError>(
            bridge_error(BridgeError::AccInitialized),
        ) && *final(vault) == *old(vault),
        !old(vault).is_initialized ==> res == Ok::<(), ProgramError>(()) && final(vault).is_initialized
            && final(vault).spec_map() == Map::<Seq<u8>, bool>::empty(),
{
    if vault.is_initialized() {
        return Err(BridgeError::AccInitialized.to_program_error());
    }
    *vault = Withdraw::new(true);
    Ok(())
}

/// An unshield whose transaction id the vault has recorded is never paid out
/// again, and records nothing: replaying a beacon instruction is refused.
pub proof fn lemma_unshield_replay_refused(
    a: UnshieldAccountsView,
    inst: Seq<u8>,
    info: UnshieldRequestView,
    recorded: Map<Seq<u8>, bool>,
    bump: u8,
    program_id: Seq<u8>,
)
    requires
        recorded.contains_key(inst.subrange(98, 130)),
    ensures
        !(spec_unshield_inst(a, inst, info, recorded, bump, program_id).0 is Proceed),
        !spec_unshield_inst(a, inst, info, recorded, bump, program_id).1,
{
}

/// An unshield that is paid out records its transaction id, which the vault
/// had not recorded, pays the amount its beacon instruction names, carries
/// more signatures than two thirds of the beacons, one per index, and every
/// signature was made by the beacon its index names.
pub proof fn lemma_unshield_paid_out(
    a: UnshieldAccountsView,
    inst: Seq<u8>,
    info: UnshieldRequestView,
    recorded: Map<Seq<u8>, bool>,
    bump: u8,
    program_id: Seq<u8>,
)
    requires
        spec_unshield_inst(a, inst, info, recorded, bump, program_id).0 is Proceed,
    ensures
        spec_unshield_inst(a, inst, info, recorded, bump, program_id).1,
        !recorded.contains_key(inst.subrange(98, 130)),
        spec_unshield_inst(a, inst, info, recorded, bump, program_id).0 == Decision::<u64>::Proceed(
            be_value(inst.subrange(90, 98)) as u64,
        ),
        inst[0] == UNSHIELD_META_TYPE && inst[1] == UNSHIELD_SHARD_ID,
        spec_unshield_proxy(a.incognito_proxy_data, a.incognito_proxy_owner, a.vault_account_key, program_id) matches Decision::Proceed(p)
            && info.indexes.len() == info.signatures.len()
            && info.signatures.len() > p.beacons.len() * 2 / 3
            && signature_check_from(
                spec_block_hash(info.blk_data, info.inst_root),
                info.indexes,
                info.signatures,
                p.beacons,
                0,
            ) == SignatureCheck::Valid,
{
}

/// When every signature checks out, each one was made by the beacon its index
/// names: the key recovered from it is that beacon's key.
pub proof fn lemma_valid_signatures_match_beacons(
    block: Seq<u8>,
    indexes: Seq<u8>,
    signatures: Seq<Seq<u8>>,
    beacons: Seq<Seq<u8>>,
    i: int,
)
    requires
        0 <= i,
        signature_check_from(block, indexes, signatures, beacons, i) == SignatureCheck::Valid,
    ensures
        forall|j: int| i <= j < indexes.len() ==> {
            &&& indexes[j] < beacons.len()
            &&& #[trigger] spec_secp256k1_recover(block, signatures[j][64], signatures[j].take(64))
                == Some(beacons[indexes[j] as int])
        },
    decreases indexes.len() - i,
{
    if i < indexes.len() {
        lemma_valid_signatures_match_beacons(block, indexes, signatures, beacons, i + 1);
    }
}

/// Text never encodes to bytes that begin with the unshield meta type: 157 is
/// a UTF-8 continuation byte, which cannot begin the encoding of a character.
pub proof fn lemma_text_never_starts_with_meta_type(chars: Seq<char>)
    ensures
        vstd::utf8::encode_utf8(chars).len() == 0 || vstd::utf8::encode_utf8(chars)[0] != UNSHIELD_META_TYPE,
{
    if chars.len() > 0 {
        vstd::utf8::encode_utf8_first_scalar(chars);
    }
}

/// Since an unshield request carries its beacon instruction as text, whose
/// encoding cannot begin with the unshield meta type, no unshield request is
/// ever paid out, and none records its transaction id.
pub proof fn lemma_unshield_never_paid_out(
    a: UnshieldAccountsView,
    info: UnshieldRequestView,
    recorded: Map<Seq<u8>, bool>,
    bump: u8,
    program_id: Seq<u8>,
)
    ensures
        !(spec_unshield(a, info, recorded, bump, program_id).0 is Proceed),
        !spec_unshield(a, info, recorded, bump, program_id).1,
{
    lemma_text_never_starts_with_meta_type(info.inst);
}

/// The signed block hash is Keccak-256 applied twice to the block data
/// followed by the instruction root, each taken as it stands.
pub proof fn lemma_block_hash_is_double_keccak(blk_data: Seq<u8>, inst_root: Seq<u8>)
    ensures
        spec_block_hash(blk_data, inst_root) == spec_keccak256(spec_keccak256(blk_data + inst_root)),
{
}

/// The checks of an unshield pass only when: the beacon list account holds
/// 1314 bytes, is initialized (byte 0 is 1), names the vault account at bytes
/// 1..33 and is owned by the program; the beacon instruction has the unshield
/// meta type and shard, its token (bytes 2..34) is the mint of the receiving
/// token account and its receiver (bytes 34..66) is that account; there are as
/// many indexes as signatures and more signatures than two thirds of the
/// beacons (byte 33 of the beacon list); and every signature, over
/// Keccak-256 twice of the block data followed by the instruction root,
/// recovers the key of the beacon its index names (bytes `34 + 64 k ..
/// 98 + 64 k` of the beacon list for index `k`).
pub proof fn lemma_unshield_checks_passed(
    a: UnshieldAccountsView,
    inst: Seq<u8>,
    info: UnshieldRequestView,
    program_id: Seq<u8>,
)
    requires
        spec_unshield_checks(a, inst, info, program_id) is Proceed,
    ensures
        a.incognito_proxy_data.len() == INCOGNITO_PROXY_LEN,
        a.incognito_proxy_data[0] == 1,
        a.incognito_proxy_data.subrange(1, 33) == a.vault_account_key,
        a.incognito_proxy_owner == program_id,
        inst.len() >= INST_LEN,
        inst[0] == UNSHIELD_META_TYPE && inst[1] == UNSHIELD_SHARD_ID,
        spec_unpack_token_account(a.unshield_token_account_data) matches Ok((mint, _owner)) && inst.subrange(2, 34)
            == mint,
        inst.subrange(34, 66) == a.unshield_token_account_key,
        info.indexes.len() == info.signatures.len(),
        info.signatures.len() > a.incognito_proxy_data[33] * 2 / 3,
        forall|j: int|
            0 <= j < info.indexes.len() ==> {
                &&& info.indexes[j] < a.incognito_proxy_data[33]
                &&& #[trigger] spec_secp256k1_recover(
                    spec_keccak256(spec_keccak256(info.blk_data + info.inst_root)),
                    info.signatures[j][64],
                    info.signatures[j].take(64),
                ) == Some(a.incognito_proxy_data.subrange(34 + 64 * info.indexes[j], 98 + 64 * info.indexes[j]))
            },
{
    let p = spec_unshield_proxy(a.incognito_proxy_data, a.incognito_proxy_owner, a.vault_account_key, program_id)->Proceed_0;
    lemma_valid_signatures_match_beacons(
        spec_block_hash(info.blk_data, info.inst_root),
        info.indexes,
        info.signatures,
        p.beacons,
        0,
    );
}

/// Once the beacon list and the beacon instruction check out, a receiving token
/// account whose mint is not the token the beacon instruction names (bytes
/// 2..34) is refused with `InvalidKeysInInstruction`, and nothing is recorded.
pub proof fn lemma_unshield_wrong_mint_refused(
    a: UnshieldAccountsView,
    inst: Seq<u8>,
    info: UnshieldRequestView,
    recorded: Map<Seq<u8>, bool>,
    bump: u8,
    program_id: Seq<u8>,
)
    requires
        spec_unshield_proxy(a.incognito_proxy_data, a.incognito_proxy_owner, a.vault_account_key, program_id) is Proceed,
        inst.len() >= INST_LEN,
        inst[0] == UNSHIELD_META_TYPE && inst[1] == UNSHIELD_SHARD_ID,
        spec_unpack_token_account(a.unshield_token_account_data) matches Ok((mint, _owner)) && inst.subrange(2, 34)
            != mint,
    ensures
        spec_unshield_checks(a, inst, info, program_id) == Decision::<()>::Refuse(
            bridge_error(BridgeError::InvalidKeysInInstruction),
        ),
        spec_unshield_inst(a, inst, info, recorded, bump, program_id) == (
            Decision::<u64>::Refuse(bridge_error(BridgeError::InvalidKeysInInstruction)),
            false,
        ),
{
}

/// An unshield that is paid out passed every check of
/// [`lemma_unshield_checks_passed`]: in particular the receiving token account
/// holds the token the beacon instruction names, and every signature is a
/// beacon's over Keccak-256 twice of the block data and instruction root.
/// Its vault account holds data whose first byte is not 0 and is owned by the
/// program; the vault authority account is the program address of the beacon
/// list's address and the bump seed, and it owns the vault's token account.
pub proof fn lemma_unshield_paid_out_passed_checks(
    a: UnshieldAccountsView,
    inst: Seq<u8>,
    info: UnshieldRequestView,
    recorded: Map<Seq<u8>, bool>,
    bump: u8,
    program_id: Seq<u8>,
)
    requires
        spec_unshield_inst(a, inst, info, recorded, bump, program_id).0 is Proceed,
    ensures
        spec_unshield_checks(a, inst, info, program_id) is Proceed,
        spec_unpack_token_account(a.unshield_token_account_data) matches Ok((mint, _owner)) && inst.subrange(2, 34)
            == mint,
        inst.subrange(34, 66) == a.unshield_token_account_key,
        a.vault_account_head matches Some(h) && h != 0,
        a.vault_account_owner == program_id,
        spec_create_program_address(seq![a.incognito_proxy_key, seq![bump]], program_id) == Some(
            a.vault_authority_key,
        ),
        spec_unpack_token_account(a.vault_token_account_data) matches Ok((_mint, owner)) && owner
            == a.vault_authority_key,
        forall|j: int|
            0 <= j < info.indexes.len() ==> #[trigger] spec_secp256k1_recover(
                spec_keccak256(spec_keccak256(info.blk_data + info.inst_root)),
                info.signatures[j][64],
                info.signatures[j].take(64),
            ) == Some(a.incognito_proxy_data.subrange(34 + 64 * info.indexes[j], 98 + 64 * info.indexes[j])),
{
    lemma_unshield_checks_passed(a, inst, info, program_id);
}

/// Among the bump seeds from 1 up, where one derives a program address there
/// is a highest one that does.
proof fn lemma_highest_bump(seeds: Seq<Seq<u8>>, program_id: Seq<u8>, b0: u8)
    requires
        1 <= b0,
        spec_create_program_address(with_bump(seeds, b0), program_id) is Some,
    ensures
        exists|b: u8|
            1 <= b && (#[trigger] spec_create_program_address(with_bump(seeds, b), program_id)) is Some && forall|
                c: u8,
            | b < c ==> (#[trigger] spec_create_program_address(with_bump(seeds, c), program_id)) is None,
    decreases 255 - b0,
{
    if !(forall|c: u8| b0 < c ==> (#[trigger] spec_create_program_address(with_bump(seeds, c), program_id)) is None) {
        let c = choose|c: u8| b0 < c && (#[trigger] spec_create_program_address(with_bump(seeds, c), program_id)) is Some;
        lemma_highest_bump(seeds, program_id, c);
    }
}

/// A shield proceeds only into the vault authority's associated token account
/// for the vault token account's mint: the user signed; the beacon list is the
/// program's; the vault token account is the token program's; the vault
/// authority is the program address of the beacon list's address and the bump
/// seed; the vault token account's address is the program address, under the
/// associated token program, of the authority, the token program and the mint
/// as stored in the account (bytes 0..32), with the highest bump seed that
/// derives one; and the account's owner (bytes 32..64) is the authority.
pub proof fn lemma_shield_into_associated_account(a: ShieldAccountsView, bump: u8, program_id: Seq<u8>)
    requires
        spec_shield(a, bump, program_id) is Proceed,
    ensures
        a.shield_maker_is_signer,
        a.incognito_proxy_owner == program_id,
        a.vault_token_account_owner == token_program_key(),
        spec_create_program_address(seq![a.incognito_proxy_key, seq![bump]], program_id) matches Some(authority) && {
            let seeds = seq![authority, token_program_key(), a.vault_token_account_data.subrange(0, 32)];
            &&& a.vault_token_account_data.subrange(32, 64) == authority
            &&& exists|b: u8|
                1 <= b && (#[trigger] spec_create_program_address(with_bump(seeds, b), ASSOCIATED_TOKEN_PROGRAM_ID@))
                    == Some(a.vault_token_account_key) && forall|c: u8|
                    b < c ==> (#[trigger] spec_create_program_address(
                        with_bump(seeds, c),
                        ASSOCIATED_TOKEN_PROGRAM_ID@,
                    )) is None
        },
{
    let authority = spec_vault_authority(a.incognito_proxy_key, bump, program_id)->Some_0;
    let mint = a.vault_token_account_data.subrange(0, 32);
    let seeds = associated_account_seeds(authority, mint);
    assert(seeds == seq![authority, token_program_key(), mint]);
    let asc = ASSOCIATED_TOKEN_PROGRAM_ID@;
    if forall|b: u8| 1 <= b ==> (#[trigger] spec_create_program_address(with_bump(seeds, b), asc)) is None {
        assert(false);
    } else {
        let b0 = choose|b: u8| 1 <= b && (#[trigger] spec_create_program_address(with_bump(seeds, b), asc)) is Some;
        lemma_highest_bump(seeds, asc, b0);
    }
}

} // verus!
