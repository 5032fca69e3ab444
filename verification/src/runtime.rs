use vstd::prelude::*;
use crate::error::ProgramError;

verus! {

/// An account address: 32 bytes.
pub type Address = [u8; 32];

/// The Keccak-256 digest of `data`.
pub uninterp spec fn spec_keccak256(data: Seq<u8>) -> Seq<u8>;

/// Hashes `data` with `solana_program::keccak::hash`. Claimed: the digest is
/// the named Keccak-256 digest of the data.
#[verifier::external_body]
pub(crate) fn keccak256(data: &[u8]) -> (digest: [u8; 32])
    ensures
        digest@ == spec_keccak256(data@),
{
    solana_program::keccak::hash(data).to_bytes()
}

/// The 64-byte public key that signed the 32-byte message digest `hash`
/// with the 64-byte signature `signature` and recovery id `recovery_id`, if
/// the inputs are well formed and a key can be recovered.
pub uninterp spec fn spec_secp256k1_recover(hash: Seq<u8>, recovery_id: u8, signature: Seq<u8>) -> Option<Seq<u8>>;

/// Recovers a signer's key with `solana_program::secp256k1_recover::secp256k1_recover`.
/// The digest must be 32 bytes and the signature 64: on chain the runtime
/// reads that many bytes whatever the slices hold. Claimed: the outcome is the
/// named recovery of the arguments, and it fails when the recovery id is 4 or
/// more.
#[verifier::external_body]
pub(crate) fn secp256k1_recover_key(hash: &[u8], recovery_id: u8, signature: &[u8]) -> (key: Option<[u8; 64]>)
    requires
        hash@.len() == 32,
        signature@.len() == 64,
    ensures
        key is Some <==> spec_secp256k1_recover(hash@, recovery_id, signature@) is Some,
        key matches Some(k) ==> k@ == spec_secp256k1_recover(hash@, recovery_id, signature@)->Some_0,
        recovery_id >= 4 ==> key is None,
{
    match solana_program::secp256k1_recover::secp256k1_recover(hash, recovery_id, signature) {
        Ok(k) => Some(k.to_bytes()),
        Err(_) => None,
    }
}

/// The program address derived from `seeds` and `program_id`, if the derived
/// point is off the ed25519 curve.
pub uninterp spec fn spec_create_program_address(seeds: Seq<Seq<u8>>, program_id: Seq<u8>) -> Option<Seq<u8>>;

/// The seeds as byte sequences.
pub open spec fn seeds_view(seeds: &[&[u8]]) -> Seq<Seq<u8>> {
    seeds@.map_values(|s: &[u8]| s@)
}

/// At most 16 seeds of at most 32 bytes each: the limits of program address derivation.
pub open spec fn seeds_within_limits(seeds: Seq<Seq<u8>>) -> bool {
    &&& seeds.len() <= 16
    &&& forall|i: int| 0 <= i < seeds.len() ==> #[trigger] seeds[i].len() <= 32
}

/// `res` is the error `e`.
pub open spec fn refused_with(res: Result<Address, ProgramError>, e: ProgramError) -> bool {
    res == Err::<Address, ProgramError>(e)
}

/// `res` reports the derivation `derived`: the address, or `InvalidSeeds`.
pub open spec fn derivation_outcome(res: Result<Address, ProgramError>, derived: Option<Seq<u8>>) -> bool {
    match derived {
        Some(a) => res matches Ok(r) && r@ == a,
        None => res == Err::<Address, ProgramError>(ProgramError::InvalidSeeds),
    }
}

/// Derives a program address with `Pubkey::create_program_address`. Claimed:
/// too many or too long seeds give `MaxSeedLengthExceeded`; otherwise the
/// outcome is the named derivation, and `InvalidSeeds` where it has none.
#[verifier::external_body]
pub(crate) fn create_program_address(seeds: &[&[u8]], program_id: &Address) -> (res: Result<Address, ProgramError>)
    ensures
        !seeds_within_limits(seeds_view(seeds)) ==> refused_with(res, ProgramError::MaxSeedLengthExceeded),
        seeds_within_limits(seeds_view(seeds)) ==> derivation_outcome(
            res,
            spec_create_program_address(seeds_view(seeds), program_id@),
        ),
{
    let pid = solana_program::pubkey::Pubkey::new_from_array(*program_id);
    match solana_program::pubkey::Pubkey::create_program_address(seeds, &pid) {
        Ok(a) => Ok(a.to_bytes()),
        Err(solana_program::pubkey::PubkeyError::MaxSeedLengthExceeded) => Err(ProgramError::MaxSeedLengthExceeded),
        Err(solana_program::pubkey::PubkeyError::InvalidSeeds) => Err(ProgramError::InvalidSeeds),
        Err(solana_program::pubkey::PubkeyError::IllegalOwner) => Err(ProgramError::IllegalOwner),
    }
}

/// The seeds followed by the one-byte bump seed `bump`.
pub open spec fn with_bump(seeds: Seq<Seq<u8>>, bump: u8) -> Seq<Seq<u8>> {
    seeds.push(seq![bump])
}

/// `res` is what searching the bump seeds 255 down to 1 finds: the first bump
/// with a derivation, and that derivation; or nothing, when no bump has one.
pub open spec fn search_outcome(res: Option<(Address, u8)>, seeds: Seq<Seq<u8>>, program_id: Seq<u8>) -> bool {
    match res {
        Some((a, bump)) => {
            &&& 1 <= bump
            &&& spec_create_program_address(with_bump(seeds, bump), program_id) == Some(a@)
            &&& forall|b: u8| bump < b ==> (#[trigger] spec_create_program_address(
                with_bump(seeds, b),
                program_id,
            )) is None
        },
        None => forall|b: u8| 1 <= b ==> (#[trigger] spec_create_program_address(
            with_bump(seeds, b),
            program_id,
        )) is None,
    }
}

/// Searches for a program address with `Pubkey::try_find_program_address`,
/// which tries the bump seeds 255 down to 1 after the seeds. Claimed, for
/// seeds that leave room for the bump: a result is the derivation with its
/// bump, every higher bump has no derivation, and no result means that no
/// bump from 1 to 255 has one.
#[verifier::external_body]
pub(crate) fn try_find_program_address(seeds: &[&[u8]], program_id: &Address) -> (res: Option<(Address, u8)>)
    ensures
        seeds_view(seeds).len() < 16 && seeds_within_limits(seeds_view(seeds)) ==> search_outcome(
            res,
            seeds_view(seeds),
            program_id@,
        ),
{
    let pid = solana_program::pubkey::Pubkey::new_from_array(*program_id);
    match solana_program::pubkey::Pubkey::try_find_program_address(seeds, &pid) {
        Some((a, bump)) => Some((a.to_bytes(), bump)),
        None => None,
    }
}

/// The address of the token program.
pub open spec fn token_program_key() -> Seq<u8> {
    seq![
        6u8, 221, 246, 225, 215, 101, 161, 147, 217, 203, 225, 70, 206, 235, 121, 172, 28, 180,
        133, 237, 95, 91, 55, 145, 58, 140, 245, 133, 126, 255, 0, 169,
    ]
}

/// The token program's address, `spl_token::id()`. Claimed: it is the
/// address that `TokenkegQfeZyiNwAJbNbGKPFXCWuBvf9Ss623VQ5DA` encodes.
#[verifier::external_body]
pub(crate) fn token_program_id() -> (id: [u8; 32])
    ensures
        id@ == token_program_key(),
{
    spl_token::id().to_bytes()
}

/// The fields of a token account that the bridge reads.
#[derive(Debug, Copy, Clone, PartialEq, Eq)]
pub struct TokenAccountInfo {
    /// The mint of the tokens the account holds.
    pub mint: [u8; 32],
    /// The account's owner.
    pub owner: [u8; 32],
}

/// The four bytes are the tag of an optional field: absent or present.
pub open spec fn option_tag_valid(tag: Seq<u8>) -> bool {
    tag =~= seq![0u8, 0, 0, 0] || tag =~= seq![1u8, 0, 0, 0]
}

/// What the token program's account decoding makes of `data`: a token account
/// is 165 bytes, its optional fields carry valid tags, its state byte is 0, 1
/// or 2, and state 0 means that it is not initialized.
pub open spec fn spec_unpack_token_account(data: Seq<u8>) -> Result<(Seq<u8>, Seq<u8>), ProgramError> {
    if data.len() != 165 {
        Err(ProgramError::InvalidAccountData)
    } else if !option_tag_valid(data.subrange(72, 76)) || data[108] > 2 || !option_tag_valid(
        data.subrange(109, 113),
    ) || !option_tag_valid(data.subrange(129, 133)) {
        Err(ProgramError::InvalidAccountData)
    } else if data[108] == 0 {
        Err(ProgramError::UninitializedAccount)
    } else {
        Ok((data.subrange(0, 32), data.subrange(32, 64)))
    }
}

/// `res` reports the decoding `decoded` of a token account.
pub open spec fn token_account_outcome(
    res: Result<TokenAccountInfo, ProgramError>,
    decoded: Result<(Seq<u8>, Seq<u8>), ProgramError>,
) -> bool {
    match decoded {
        Ok((mint, owner)) => res matches Ok(info) && info.mint@ == mint && info.owner@ == owner,
        Err(e) => res == Err::<TokenAccountInfo, ProgramError>(e),
    }
}

/// Decodes a token account with `spl_token::state::Account::unpack`. Claimed:
/// the outcome is the one [`spec_unpack_token_account`] gives, which is what
/// the token program's source does with the mint and owner fields.
#[verifier::external_body]
pub(crate) fn unpack_token_account(data: &[u8]) -> (res: Result<TokenAccountInfo, ProgramError>)
    ensures
        token_account_outcome(res, spec_unpack_token_account(data@)),
{
    match <spl_token::state::Account as solana_program::program_pack::Pack>::unpack(data) {
        Ok(a) => Ok(TokenAccountInfo { mint: a.mint.to_bytes(), owner: a.owner.to_bytes() }),
        Err(solana_program::program_error::ProgramError::UninitializedAccount) => Err(ProgramError::UninitializedAccount),
        Err(_) => Err(ProgramError::InvalidAccountData),
    }
}

} // verus!
