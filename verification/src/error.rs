use vstd::prelude::*;

verus! {

/// Errors raised by the bridge program.
///
/// Each variant is reported to the runtime as `ProgramError::Custom(code)`,
/// where `code` is the variant's position in this list (see [`BridgeError::code`]).
#[derive(Debug, Copy, Clone, PartialEq, Eq, Structural)]
pub enum BridgeError {
    /// Invalid instruction
    InvalidInstruction,
    /// Not Rent Exempt
    NotRentExempt,
    /// Expected Amount Mismatch
    ExpectedAmountMismatch,
    /// Amount Overflow
    AmountOverflow,
    /// The owner of the input isn't set to the program address generated by the program.
    InvalidAccountOwner,
    /// The list of beacon already initalized
    AccInitialized,
    /// Invalid instruction data passed in.
    InstructionUnpackError,
    /// Transfer token failed.
    TokenTransferFailed,
    /// Invalid authority to transfer token
    InvalidTokenAuthority,
    /// Invalid instruction input
    InvalidBeaconInstruction,
    /// Invalid keys in instruction input
    InvalidKeysInInstruction,
    /// Not enough signatures in inst provided
    InvalidNumberOfSignature,
    /// Invalid beacon signature
    InvalidBeaconSignature,
    /// Invalid bool value
    InvalidBoolValue,
    /// Beacon uninit
    BeaconsUnInitialized,
    /// Block inst merkle tree
    InvalidBeaconMerkleTree,
    /// Invalid sender, receiver
    InvalidTransferTokenData,
    /// Close token account failed.
    CloseTokenAccountFailed,
    /// Invalid map account.
    InvalidMapAccount,
    /// Unshield request used.
    InvalidUnshieldRequestUsed,
    /// Invalid signer.
    InvalidSigner,
    /// Invalid signer token authority.
    InvalidSignerTokenAuth,
    /// Invalid meta type.
    InvalidMetaType,
}

impl BridgeError {
    /// The custom error code of the variant: its position in the declaration.
    pub open spec fn spec_code(self) -> u32 {
        match self {
            BridgeError::InvalidInstruction => 0,
            BridgeError::NotRentExempt => 1,
            BridgeError::ExpectedAmountMismatch => 2,
            BridgeError::AmountOverflow => 3,
            BridgeError::InvalidAccountOwner => 4,
            BridgeError::AccInitialized => 5,
            BridgeError::InstructionUnpackError => 6,
            BridgeError::TokenTransferFailed => 7,
            BridgeError::InvalidTokenAuthority => 8,
            BridgeError::InvalidBeaconInstruction => 9,
            BridgeError::InvalidKeysInInstruction => 10,
            BridgeError::InvalidNumberOfSignature => 11,
            BridgeError::InvalidBeaconSignature => 12,
            BridgeError::InvalidBoolValue => 13,
            BridgeError::BeaconsUnInitialized => 14,
            BridgeError::InvalidBeaconMerkleTree => 15,
            BridgeError::InvalidTransferTokenData => 16,
            BridgeError::CloseTokenAccountFailed => 17,
            BridgeError::InvalidMapAccount => 18,
            BridgeError::InvalidUnshieldRequestUsed => 19,
            BridgeError::InvalidSigner => 20,
            BridgeError::InvalidSignerTokenAuth => 21,
            BridgeError::InvalidMetaType => 22,
        }
    }

    /// The custom error code of the variant: its position in the declaration.
    #[verifier::when_used_as_spec(spec_code)]
    pub fn code(self) -> (c: u32)
        ensures
            c == self.spec_code(),
    {
        match self {
            BridgeError::InvalidInstruction => 0,
            BridgeError::NotRentExempt => 1,
            BridgeError::ExpectedAmountMismatch => 2,
            BridgeError::AmountOverflow => 3,
            BridgeError::InvalidAccountOwner => 4,
            BridgeError::AccInitialized => 5,
            BridgeError::InstructionUnpackError => 6,
            BridgeError::TokenTransferFailed => 7,
            BridgeError::InvalidTokenAuthority => 8,
            BridgeError::InvalidBeaconInstruction => 9,
            BridgeError::InvalidKeysInInstruction => 10,
            BridgeError::InvalidNumberOfSignature => 11,
            BridgeError::InvalidBeaconSignature => 12,
            BridgeError::InvalidBoolValue => 13,
            BridgeError::BeaconsUnInitialized => 14,
            BridgeError::InvalidBeaconMerkleTree => 15,
            BridgeError::InvalidTransferTokenData => 16,
            BridgeError::CloseTokenAccountFailed => 17,
            BridgeError::InvalidMapAccount => 18,
            BridgeError::InvalidUnshieldRequestUsed => 19,
            BridgeError::InvalidSigner => 20,
            BridgeError::InvalidSignerTokenAuth => 21,
            BridgeError::InvalidMetaType => 22,
        }
    }

    /// The name under which the runtime reports errors of this type.
    pub fn type_of() -> (name: &'static str)
        ensures
            name@ == "Bridge Error"@,
    {
        "Bridge Error"
    }
}

/// The errors a program reports to the Solana runtime, as plain values.
///
/// The variants are those of the runtime's program error type, in the same
/// order, without the variant that carries a serializer's message.
#[derive(Debug, Copy, Clone, PartialEq, Eq, Structural)]
pub enum ProgramError {
    Custom(u32),
    InvalidArgument,
    InvalidInstructionData,
    InvalidAccountData,
    AccountDataTooSmall,
    InsufficientFunds,
    IncorrectProgramId,
    MissingRequiredSignature,
    AccountAlreadyInitialized,
    UninitializedAccount,
    NotEnoughAccountKeys,
    AccountBorrowFailed,
    MaxSeedLengthExceeded,
    InvalidSeeds,
    AccountNotRentExempt,
    UnsupportedSysvar,
    IllegalOwner,
    MaxAccountsDataAllocationsExceeded,
    InvalidRealloc,
    MaxInstructionTraceLengthExceeded,
    BuiltinProgramsMustConsumeComputeUnits,
    InvalidAccountOwner,
    ArithmeticOverflow,
}

/// The program error that reports a bridge error: its custom code.
pub open spec fn bridge_error(e: BridgeError) -> ProgramError {
    ProgramError::Custom(e.spec_code())
}

impl BridgeError {
    /// Converts the error into the program error the runtime sees.
    pub fn to_program_error(self) -> (p: ProgramError)
        ensures
            p == bridge_error(self),
    {
        ProgramError::Custom(self.code())
    }
}

impl From<BridgeError> for ProgramError {
    fn from(e: BridgeError) -> (p: ProgramError) {
        e.to_program_error()
    }
}

impl vstd::std_specs::convert::FromSpecImpl<BridgeError> for ProgramError {
    open spec fn obeys_from_spec() -> bool {
        true
    }

    open spec fn from_spec(e: BridgeError) -> ProgramError {
        bridge_error(e)
    }
}

/// Distinct bridge errors are reported with distinct codes, so the code
/// identifies the error.
pub proof fn lemma_error_codes_distinct(a: BridgeError, b: BridgeError)
    requires
        a != b,
    ensures
        a.spec_code() != b.spec_code(),
        bridge_error(a) != bridge_error(b),
{
}

} // verus!
