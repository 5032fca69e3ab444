use solana_bridge::error::{BridgeError, ProgramError};
use solana_bridge::state::{
    pack_bool, IncognitoProxy, UnshieldRequest, Withdraw, INCOGNITO_PROXY_LEN, MAX_BEACON_ADDRESSES,
};

fn proxy(n: usize) -> IncognitoProxy {
    let mut beacons = Vec::new();
    for i in 0..n {
        beacons.push([i as u8 + 1; 64]);
    }
    IncognitoProxy { is_initialized: true, vault: [7u8; 32], beacons }
}

#[test]
fn pack_bool_bytes() {
    assert_eq!(pack_bool(true), 1);
    assert_eq!(pack_bool(false), 0);
}

#[test]
fn proxy_layout_constants() {
    assert_eq!(IncognitoProxy::LEN, 1314);
    assert_eq!(INCOGNITO_PROXY_LEN, 1 + 32 + 1 + 64 * MAX_BEACON_ADDRESSES);
    assert_eq!(Withdraw::LEN, 1 + (4 + (33 * 100)));
}

#[test]
fn proxy_pack_layout() {
    let p = proxy(2);
    let mut dst = vec![0xaau8; INCOGNITO_PROXY_LEN];
    p.pack_into_slice(&mut dst);
    assert_eq!(dst[0], 1);
    assert_eq!(&dst[1..33], &[7u8; 32]);
    assert_eq!(dst[33], 2);
    assert_eq!(&dst[34..98], &[1u8; 64][..]);
    assert_eq!(&dst[98..162], &[2u8; 64][..]);
    // bytes after the packed beacons are left as they were
    assert!(dst[162..].iter().all(|b| *b == 0xaa));
}

#[test]
fn proxy_pack_unpack_roundtrip() {
    for n in [0usize, 1, 5, MAX_BEACON_ADDRESSES] {
        let p = proxy(n);
        let mut dst = vec![0u8; INCOGNITO_PROXY_LEN];
        IncognitoProxy::pack(p.clone(), &mut dst).unwrap();
        let q = IncognitoProxy::unpack(&dst).unwrap();
        assert_eq!(p, q);
    }
}

#[test]
fn proxy_unpack_pack_leaves_bytes_unchanged() {
    let mut src = vec![0x5cu8; INCOGNITO_PROXY_LEN];
    src[0] = 0;
    src[33] = 3;
    let p = IncognitoProxy::unpack_unchecked(&src).unwrap();
    assert!(!p.is_initialized);
    assert_eq!(p.beacons.len(), 3);
    let mut dst = src.clone();
    p.pack_into_slice(&mut dst);
    assert_eq!(dst, src);
}

#[test]
fn proxy_unpack_errors() {
    let mut src = vec![0u8; INCOGNITO_PROXY_LEN];
    src[0] = 2;
    assert_eq!(IncognitoProxy::unpack_unchecked(&src), Err(ProgramError::InvalidAccountData));
    assert_eq!(IncognitoProxy::unpack_unchecked(&src[..100]), Err(ProgramError::InvalidAccountData));
    src[0] = 0;
    assert_eq!(IncognitoProxy::unpack(&src), Err(ProgramError::UninitializedAccount));
    src[0] = 1;
    assert!(IncognitoProxy::unpack(&src).unwrap().beacons.is_empty());
}

#[test]
fn proxy_pack_wrong_length() {
    let mut dst = vec![3u8; 10];
    assert_eq!(IncognitoProxy::pack(proxy(1), &mut dst), Err(ProgramError::InvalidAccountData));
    assert_eq!(dst, vec![3u8; 10]);
}

#[test]
fn proxy_unpack_from_longer_slice() {
    let mut src = vec![0u8; INCOGNITO_PROXY_LEN + 5];
    src[0] = 1;
    src[33] = 1;
    let p = IncognitoProxy::unpack_from_slice(&src).unwrap();
    assert!(p.is_initialized());
    assert_eq!(p.beacons, vec![[0u8; 64]]);
}

#[test]
fn withdraw_records_each_id_once() {
    let mut w = Withdraw::new(true);
    assert!(w.is_initialized());
    assert!(!w.contains_key(&[1; 32]));
    assert_eq!(w.insert_tx_id(&[1; 32]), Ok(()));
    assert!(w.contains_key(&[1; 32]));
    assert_eq!(w.insert_tx_id(&[1; 32]), Err(BridgeError::InvalidUnshieldRequestUsed));
    assert_eq!(w.map.len(), 1);
}

#[test]
fn withdraw_keeps_keys_in_order() {
    let mut w = Withdraw::new(true);
    let mut k3 = [0u8; 32];
    k3[31] = 3;
    let mut k1 = [0u8; 32];
    k1[31] = 1;
    let mut k2 = [0u8; 32];
    k2[0] = 0;
    k2[31] = 2;
    let big = [0xffu8; 32];
    w.insert_tx_id(&big).unwrap();
    w.insert_tx_id(&k3).unwrap();
    w.insert_tx_id(&k1).unwrap();
    w.insert_tx_id(&k2).unwrap();
    let keys: Vec<[u8; 32]> = w.map.iter().map(|e| e.0).collect();
    assert_eq!(keys, vec![k1, k2, k3, big]);
    assert!(w.map.iter().all(|e| e.1));
    assert_eq!(w.insert_tx_id(&k2), Err(BridgeError::InvalidUnshieldRequestUsed));
}

#[test]
fn unshield_request_default_is_empty() {
    let r = UnshieldRequest::default();
    assert_eq!(r.height, 0);
    assert!(r.inst.is_empty());
    assert!(r.signatures.is_empty());
}

#[test]
fn withdraw_order_check() {
    let mut w = Withdraw::new(true);
    assert!(w.is_ordered());
    w.insert_tx_id(&[2; 32]).unwrap();
    w.insert_tx_id(&[1; 32]).unwrap();
    assert!(w.is_ordered());
    let unordered = Withdraw { is_initialized: true, map: vec![([2; 32], true), ([1; 32], true)] };
    assert!(!unordered.is_ordered());
    let repeated = Withdraw { is_initialized: true, map: vec![([1; 32], true), ([1; 32], true)] };
    assert!(!repeated.is_ordered());
}
