use solana_bridge::error::{BridgeError, ProgramError};

#[test]
fn error_codes_follow_declaration_order() {
    assert_eq!(BridgeError::InvalidInstruction.code(), 0);
    assert_eq!(BridgeError::AccInitialized.code(), 5);
    assert_eq!(BridgeError::InstructionUnpackError.code(), 6);
    assert_eq!(BridgeError::InvalidKeysInInstruction.code(), 10);
    assert_eq!(BridgeError::InvalidBeaconMerkleTree.code(), 15);
    assert_eq!(BridgeError::InvalidSigner.code(), 20);
    assert_eq!(BridgeError::InvalidMetaType.code(), 22);
    assert_eq!(BridgeError::InvalidUnshieldRequestUsed.code(), 19);
}

#[test]
fn bridge_error_converts_to_custom_program_error() {
    let p: ProgramError = BridgeError::NotRentExempt.into();
    assert_eq!(p, ProgramError::Custom(1));
    assert_eq!(BridgeError::InvalidBeaconSignature.to_program_error(), ProgramError::Custom(12));
}

#[test]
fn error_codes_are_distinct() {
    let all = [
        BridgeError::InvalidInstruction, BridgeError::NotRentExempt, BridgeError::ExpectedAmountMismatch,
        BridgeError::AmountOverflow, BridgeError::InvalidAccountOwner, BridgeError::AccInitialized,
        BridgeError::InstructionUnpackError, BridgeError::TokenTransferFailed, BridgeError::InvalidTokenAuthority,
        BridgeError::InvalidBeaconInstruction, BridgeError::InvalidKeysInInstruction,
        BridgeError::InvalidNumberOfSignature, BridgeError::InvalidBeaconSignature, BridgeError::InvalidBoolValue,
        BridgeError::BeaconsUnInitialized, BridgeError::InvalidBeaconMerkleTree, BridgeError::InvalidTransferTokenData,
        BridgeError::CloseTokenAccountFailed, BridgeError::InvalidMapAccount, BridgeError::InvalidUnshieldRequestUsed,
        BridgeError::InvalidSigner, BridgeError::InvalidSignerTokenAuth, BridgeError::InvalidMetaType,
    ];
    for (i, e) in all.iter().enumerate() {
        assert_eq!(e.code() as usize, i);
    }
}

#[test]
fn error_type_name() {
    assert_eq!(BridgeError::type_of(), "Bridge Error");
}
