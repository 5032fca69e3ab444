use solana_bridge::error::{BridgeError, ProgramError};
use solana_bridge::instruction::BridgeInstruction;

fn unpack_err(input: &[u8]) -> ProgramError {
    match BridgeInstruction::unpack(input) {
        Ok(_) => panic!("expected an error"),
        Err(e) => e,
    }
}

fn shield_data(amount: u64, address: &[u8]) -> Vec<u8> {
    let mut data = vec![0u8];
    data.extend_from_slice(&amount.to_le_bytes());
    data.extend_from_slice(address);
    data
}

#[test]
fn unpack_empty_is_invalid_instruction() {
    assert_eq!(unpack_err(&[]), ProgramError::Custom(0));
}

#[test]
fn unpack_unknown_tag_is_invalid_instruction() {
    assert_eq!(unpack_err(&[2, 0, 0]), ProgramError::Custom(BridgeError::InvalidInstruction.code()));
    assert_eq!(unpack_err(&[255]), ProgramError::Custom(0));
}

#[test]
fn unpack_shield_reads_amount_and_address() {
    let address = [b'a'; 148];
    let data = shield_data(1_000_000, &address);
    match BridgeInstruction::unpack(&data) {
        Ok(BridgeInstruction::Shield { amount, inc_address }) => {
            assert_eq!(amount, 1_000_000);
            assert_eq!(inc_address, "a".repeat(148));
        }
        _ => panic!("expected a shield instruction"),
    }
}

#[test]
fn unpack_shield_amount_is_little_endian() {
    let address = [b'x'; 148];
    let mut data = vec![0u8, 1, 2, 3, 4, 5, 6, 7, 8];
    data.extend_from_slice(&address);
    match BridgeInstruction::unpack(&data) {
        Ok(BridgeInstruction::Shield { amount, .. }) => assert_eq!(amount, 0x0807060504030201),
        _ => panic!("expected a shield instruction"),
    }
}

#[test]
fn unpack_shield_ignores_trailing_bytes() {
    let mut data = shield_data(5, &[b'z'; 148]);
    data.extend_from_slice(&[9, 9, 9]);
    match BridgeInstruction::unpack(&data) {
        Ok(BridgeInstruction::Shield { amount, inc_address }) => {
            assert_eq!(amount, 5);
            assert_eq!(inc_address.len(), 148);
        }
        _ => panic!("expected a shield instruction"),
    }
}

#[test]
fn unpack_shield_too_short() {
    assert_eq!(unpack_err(&[0, 1, 2, 3]), ProgramError::Custom(6));
    let data = shield_data(7, &[b'a'; 147]);
    assert_eq!(unpack_err(&data), ProgramError::Custom(BridgeError::InstructionUnpackError.code()));
}

#[test]
fn unpack_shield_replaces_invalid_utf8() {
    let mut address = [b'a'; 148];
    address[0] = 0xff;
    let data = shield_data(1, &address);
    match BridgeInstruction::unpack(&data) {
        Ok(BridgeInstruction::Shield { inc_address, .. }) => {
            assert!(inc_address.starts_with('\u{FFFD}'));
            assert_eq!(inc_address.chars().count(), 148);
        }
        _ => panic!("expected a shield instruction"),
    }
}

/// Unshield data with every list empty: `inst` text, height, the two list
/// counts, the two roots, and the two remaining list counts.
fn unshield_data(inst: &[u8], height: u64) -> Vec<u8> {
    let mut data = vec![1u8, inst.len() as u8];
    data.extend_from_slice(inst);
    data.extend_from_slice(&height.to_le_bytes());
    data.push(0);
    data.push(0);
    data.extend_from_slice(&[0x11; 32]);
    data.extend_from_slice(&[0x22; 32]);
    data.push(0);
    data.push(0);
    data
}

#[test]
fn unpack_unshield_fields() {
    let data = unshield_data(b"hello", 42);
    match BridgeInstruction::unpack(&data) {
        Ok(BridgeInstruction::UnShield { unshield_info }) => {
            assert_eq!(unshield_info.inst, "hello");
            assert_eq!(unshield_info.height, 42);
            assert!(unshield_info.inst_paths.is_empty());
            assert!(unshield_info.inst_path_is_lefts.is_empty());
            assert_eq!(unshield_info.inst_root, [0x11; 32]);
            assert_eq!(unshield_info.blk_data, [0x22; 32]);
            assert!(unshield_info.indexes.is_empty());
            assert!(unshield_info.signatures.is_empty());
        }
        _ => panic!("expected an unshield instruction"),
    }
}

#[test]
fn unpack_unshield_lists_repeat_the_element_after_their_count() {
    // The path count is 2; the list holds the 32 bytes after the count twice,
    // and the next count is read right after the path count.
    let mut data = vec![1u8, 0];
    data.extend_from_slice(&7u64.to_le_bytes());
    data.push(2); // paths
    data.push(3); // left flags: also the first byte of the path element
    data.push(0); // the flag element
    let mut rest = vec![0x44u8; 63];
    rest.push(2); // index count
    rest.push(9); // index element, also the signature count
    rest.extend_from_slice(&[0x55; 65]);
    data.extend_from_slice(&rest);
    match BridgeInstruction::unpack(&data) {
        Ok(BridgeInstruction::UnShield { unshield_info }) => {
            let mut node = [0u8; 32];
            node[0] = 3;
            node[1] = 0;
            for b in node.iter_mut().skip(2) {
                *b = 0x44;
            }
            assert_eq!(unshield_info.inst_paths, vec![node, node]);
            assert_eq!(unshield_info.inst_path_is_lefts, vec![false, false, false]);
            let mut root = [0x44u8; 32];
            root[0] = 0;
            assert_eq!(unshield_info.inst_root, root);
            assert_eq!(unshield_info.blk_data, [0x44; 32]);
            assert_eq!(unshield_info.indexes, vec![9, 9]);
            assert_eq!(unshield_info.signatures.len(), 9);
            assert_eq!(unshield_info.signatures[0], [0x55; 65]);
        }
        _ => panic!("expected an unshield instruction"),
    }
}

#[test]
fn unpack_unshield_flag_one_reads_false() {
    let mut data = vec![1u8, 0];
    data.extend_from_slice(&0u64.to_le_bytes());
    data.push(0); // paths
    data.push(1); // one flag
    data.push(1); // flag byte 1
    data.extend_from_slice(&[0u8; 63]);
    data.push(0);
    data.push(0);
    match BridgeInstruction::unpack(&data) {
        Ok(BridgeInstruction::UnShield { unshield_info }) => {
            assert_eq!(unshield_info.inst_path_is_lefts, vec![false]);
        }
        _ => panic!("expected an unshield instruction"),
    }
}

#[test]
fn unpack_unshield_bad_flag_is_invalid_account_data() {
    let mut data = vec![1u8, 0];
    data.extend_from_slice(&0u64.to_le_bytes());
    data.push(0); // paths
    data.push(1); // one flag
    data.push(2); // invalid flag byte
    data.extend_from_slice(&[0u8; 70]);
    assert_eq!(unpack_err(&data), ProgramError::InvalidAccountData);
}

#[test]
fn unpack_unshield_truncated() {
    assert_eq!(unpack_err(&[1]), ProgramError::Custom(6));
    assert_eq!(unpack_err(&[1, 5, b'a', b'b']), ProgramError::Custom(6));
    let data = unshield_data(b"abc", 1);
    assert_eq!(unpack_err(&data[..data.len() - 1]), ProgramError::Custom(6));
    assert_eq!(unpack_err(&data[..data.len() - 30]), ProgramError::Custom(6));
    // a signature count with fewer than 65 bytes after it
    let mut short = data.clone();
    let last = short.len() - 1;
    short[last] = 1;
    short.extend_from_slice(&[0u8; 64]);
    assert_eq!(unpack_err(&short), ProgramError::Custom(6));
    short.push(7);
    assert!(BridgeInstruction::unpack(&short).is_ok());
}

#[test]
fn unpack_unshield_path_element_missing() {
    let mut data = vec![1u8, 0];
    data.extend_from_slice(&0u64.to_le_bytes());
    data.push(1);
    data.extend_from_slice(&[0u8; 31]);
    assert_eq!(unpack_err(&data), ProgramError::Custom(6));
}

#[test]
fn unpack_unshield_ignores_trailing_bytes() {
    let data = unshield_data(b"ab", 5);
    let mut longer = data.clone();
    longer.push(0xff);
    match (BridgeInstruction::unpack(&data), BridgeInstruction::unpack(&longer)) {
        (Ok(BridgeInstruction::UnShield { unshield_info: a }), Ok(BridgeInstruction::UnShield { unshield_info: b })) => {
            assert_eq!(a.inst, "ab");
            assert_eq!(a, b);
        }
        _ => panic!("expected two unshield instructions"),
    }
}
