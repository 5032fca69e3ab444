use vstd::prelude::*;
use crate::bytes::{read_array32, read_array64, write_bytes};
use crate::error::{BridgeError, ProgramError};

verus! {

/// Max number of beacon addresses
pub const MAX_BEACON_ADDRESSES: usize = 20;

/// The length of an account address.
pub const PUBKEY_BYTES: usize = 32;

/// The length of a beacon's secp256k1 public key.
pub const SECP256K1_PUBLIC_KEY_LENGTH: usize = 64;

/// The length of the packed beacon list: 1 + 32 + 1 + 64 * 20.
pub const INCOGNITO_PROXY_LEN: usize = 1314;

/// Incognito proxy stores beacon list
#[derive(Clone, Debug, PartialEq)]
pub struct IncognitoProxy {
    /// init beacon
    pub is_initialized: bool,
    /// vault key
    pub vault: [u8; 32],
    /// beacon list
    pub beacons: Vec<[u8; 64]>,
}

/// The contents of an [`IncognitoProxy`], with every key as a byte sequence.
pub struct IncognitoProxyView {
    pub is_initialized: bool,
    pub vault: Seq<u8>,
    pub beacons: Seq<Seq<u8>>,
}

impl View for IncognitoProxy {
    type V = IncognitoProxyView;

    open spec fn view(&self) -> IncognitoProxyView {
        IncognitoProxyView {
            is_initialized: self.is_initialized,
            vault: self.vault@,
            beacons: self.beacons@.map_values(|b: [u8; 64]| b@),
        }
    }
}

/// The byte that encodes a flag.
pub open spec fn bool_byte(b: bool) -> u8 {
    if b {
        1
    } else {
        0
    }
}

/// Encodes a flag as one byte.
pub fn pack_bool(boolean: bool) -> (b: u8)
    ensures
        b == bool_byte(boolean),
{
    if boolean {
        1
    } else {
        0
    }
}

/// The keys of `keys`, one after the other.
pub open spec fn flatten(keys: Seq<Seq<u8>>) -> Seq<u8>
    decreases keys.len(),
{
    if keys.len() == 0 {
        Seq::empty()
    } else {
        flatten(keys.drop_last()) + keys.last()
    }
}

/// Every key of `keys` is a beacon key of 64 bytes.
pub open spec fn all_beacon_keys(keys: Seq<Seq<u8>>) -> bool {
    forall|i: int| 0 <= i < keys.len() ==> #[trigger] keys[i].len() == SECP256K1_PUBLIC_KEY_LENGTH
}

/// The `i`-th 64-byte beacon slot of a packed beacon list.
pub open spec fn beacon_slot(src: Seq<u8>, i: int) -> Seq<u8> {
    src.subrange(34 + 64 * i, 34 + 64 * i + 64)
}

/// What a packed beacon list `src` decodes to: a flag byte (`0` or `1`), the
/// vault key, the number of beacons, and that many 64-byte beacon keys.
pub open spec fn spec_unpack_proxy(src: Seq<u8>) -> Result<IncognitoProxyView, ProgramError> {
    if src[0] > 1 {
        Err(ProgramError::InvalidAccountData)
    } else {
        Ok(
            IncognitoProxyView {
                is_initialized: src[0] == 1,
                vault: src.subrange(1, 33),
                beacons: Seq::new(src[33] as nat, |i: int| beacon_slot(src, i)),
            },
        )
    }
}

/// The first bytes of a packed beacon list: flag, vault key, number of beacons.
pub open spec fn proxy_header(p: IncognitoProxyView) -> Seq<u8> {
    seq![bool_byte(p.is_initialized)] + p.vault + seq![p.beacons.len() as u8]
}

/// `dst` with the beacon list `p` packed over its first bytes: the header,
/// then the beacon keys; the bytes after them are left as they were.
pub open spec fn spec_pack_proxy(p: IncognitoProxyView, dst: Seq<u8>) -> Seq<u8> {
    proxy_header(p) + flatten(p.beacons) + dst.skip(34 + 64 * p.beacons.len() as int)
}

/// The packed form of a beacon list is fully determined by its contents.
pub open spec fn proxy_packable(p: IncognitoProxyView) -> bool {
    &&& p.vault.len() == PUBKEY_BYTES
    &&& p.beacons.len() <= MAX_BEACON_ADDRESSES
    &&& all_beacon_keys(p.beacons)
}

pub proof fn lemma_flatten_len(keys: Seq<Seq<u8>>)
    requires
        all_beacon_keys(keys),
    ensures
        flatten(keys).len() == 64 * keys.len(),
    decreases keys.len(),
{
    if keys.len() > 0 {
        lemma_flatten_len(keys.drop_last());
    }
}

/// Cutting the flattened keys at 64-byte boundaries gives the keys back.
pub proof fn lemma_flatten_slot(keys: Seq<Seq<u8>>, i: int)
    requires
        all_beacon_keys(keys),
        0 <= i < keys.len(),
    ensures
        flatten(keys).subrange(64 * i, 64 * i + 64) == keys[i],
    decreases keys.len(),
{
    lemma_flatten_len(keys.drop_last());
    if i < keys.len() - 1 {
        lemma_flatten_slot(keys.drop_last(), i);
        assert(flatten(keys).subrange(64 * i, 64 * i + 64) =~= flatten(keys.drop_last()).subrange(
            64 * i,
            64 * i + 64,
        ));
    } else {
        assert(flatten(keys).subrange(64 * i, 64 * i + 64) =~= keys.last());
    }
}

/// Flattening the slots of a packed list gives the bytes they were cut from.
pub proof fn lemma_flatten_slots(src: Seq<u8>, n: nat)
    requires
        34 + 64 * n <= src.len(),
    ensures
        flatten(Seq::new(n, |i: int| beacon_slot(src, i))) == src.subrange(34, 34 + 64 * n as int),
    decreases n,
{
    let slots = Seq::new(n, |i: int| beacon_slot(src, i));
    if n > 0 {
        lemma_flatten_slots(src, (n - 1) as nat);
        assert(slots.drop_last() =~= Seq::new((n - 1) as nat, |i: int| beacon_slot(src, i)));
        assert(src.subrange(34, 34 + 64 * n as int) =~= src.subrange(34, 34 + 64 * (n - 1)) + beacon_slot(
            src,
            n - 1,
        ));
    } else {
        assert(flatten(slots) =~= src.subrange(34, 34));
    }
}

impl IncognitoProxy {
    /// The length of the packed beacon list.
    pub const LEN: usize = 1314;

    /// Whether the beacon list has been initialized.
    pub fn is_initialized(&self) -> (b: bool)
        ensures
            b == self.is_initialized,
    {
        self.is_initialized
    }

    /// Decodes a beacon list from the first [`INCOGNITO_PROXY_LEN`] bytes of `src`.
    pub fn unpack_from_slice(src: &[u8]) -> (res: Result<IncognitoProxy, ProgramError>)
        requires
            src@.len() >= INCOGNITO_PROXY_LEN,
            src@[0] <= 1 ==> src@[33] <= MAX_BEACON_ADDRESSES,
        ensures
            outcome_matches_proxy(res, spec_unpack_proxy(src@)),
    {
        let is_initialized = match src[0] {
            0 => false,
            1 => true,
            _ => return Err(ProgramError::InvalidAccountData),
        };
        let vault_key = vstd::slice::slice_subrange(src, 1, 33);
        let vault = read_array32(vault_key);
        let beacon_len = src[33];
        let mut beacons: Vec<[u8; 64]> = Vec::new();
        let mut offset: usize = 34;
        let mut i: u8 = 0;
        while i < beacon_len
            invariant
                i <= beacon_len,
                beacon_len == src@[33],
                beacon_len <= MAX_BEACON_ADDRESSES,
                src@.len() >= INCOGNITO_PROXY_LEN,
                offset == 34 + 64 * i,
                beacons@.len() == i,
                forall|j: int| 0 <= j < i ==> #[trigger] beacons@[j]@ == beacon_slot(src@, j),
            decreases beacon_len - i,
        {
            let beacon_flat = vstd::slice::slice_subrange(src, offset, offset + 64);
            let new_beacon = read_array64(beacon_flat);
            beacons.push(new_beacon);
            offset = offset + 64;
            i = i + 1;
        }
        assert(vault@ =~= src@.subrange(1, 33));
        let p = IncognitoProxy { is_initialized, vault, beacons };
        assert(p@.beacons =~= Seq::new(src@[33] as nat, |i: int| beacon_slot(src@, i)));
        Ok(p)
    }

    /// Encodes the beacon list into the first [`INCOGNITO_PROXY_LEN`] bytes of `dst`.
    pub fn pack_into_slice(&self, dst: &mut [u8])
        requires
            old(dst)@.len() >= INCOGNITO_PROXY_LEN,
            self.beacons@.len() <= MAX_BEACON_ADDRESSES,
        ensures
            final(dst)@ == spec_pack_proxy(self@, old(dst)@),
    {
        let n = self.beacons.len();
        dst[33] = n as u8;
        dst[0] = pack_bool(self.is_initialized);
        write_bytes(dst, 1, &self.vault);
        proof {
            lemma_beacons_view_keys(self);
        }
        assert(dst@ =~= proxy_header(self@) + flatten(self@.beacons.take(0)) + old(dst)@.skip(34));
        let mut i: usize = 0;
        while i < n
            invariant
                i <= n,
                n == self.beacons@.len(),
                n <= MAX_BEACON_ADDRESSES,
                old(dst)@.len() >= INCOGNITO_PROXY_LEN,
                all_beacon_keys(self@.beacons),
                dst@ == proxy_header(self@) + flatten(self@.beacons.take(i as int)) + old(dst)@.skip(
                    34 + 64 * i,
                ),
            decreases n - i,
        {
            proof {
                lemma_flatten_len(self@.beacons.take(i as int));
                assert(self@.beacons.take(i + 1).drop_last() =~= self@.beacons.take(i as int));
            }
            let ghost before = dst@;
            write_bytes(dst, 34 + 64 * i, &self.beacons[i]);
            assert(dst@ =~= proxy_header(self@) + flatten(self@.beacons.take(i + 1))
                + old(dst)@.skip(34 + 64 * (i + 1)));
            i = i + 1;
        }
        assert(self@.beacons.take(n as int) =~= self@.beacons);
    }

    /// Decodes a beacon list from data of exactly [`INCOGNITO_PROXY_LEN`] bytes.
    pub fn unpack_unchecked(input: &[u8]) -> (res: Result<IncognitoProxy, ProgramError>)
        requires
            input@.len() == INCOGNITO_PROXY_LEN && input@[0] <= 1 ==> input@[33] <= MAX_BEACON_ADDRESSES,
        ensures
            input@.len() != INCOGNITO_PROXY_LEN ==> res == Err::<IncognitoProxy, ProgramError>(
                ProgramError::InvalidAccountData,
            ),
            input@.len() == INCOGNITO_PROXY_LEN ==> outcome_matches_proxy(
                res,
                spec_unpack_proxy(input@),
            ),
    {
        if input.len() != Self::LEN {
            return Err(ProgramError::InvalidAccountData);
        }
        Self::unpack_from_slice(input)
    }

    /// Decodes a beacon list that must be initialized, from data of exactly
    /// [`INCOGNITO_PROXY_LEN`] bytes.
    pub fn unpack(input: &[u8]) -> (res: Result<IncognitoProxy, ProgramError>)
        requires
            input@.len() == INCOGNITO_PROXY_LEN && input@[0] <= 1 ==> input@[33] <= MAX_BEACON_ADDRESSES,
        ensures
            input@.len() != INCOGNITO_PROXY_LEN ==> res == Err::<IncognitoProxy, ProgramError>(
                ProgramError::InvalidAccountData,
            ),
            input@.len() == INCOGNITO_PROXY_LEN ==> match spec_unpack_proxy(input@) {
                Err(e) => res == Err::<IncognitoProxy, ProgramError>(e),
                Ok(p) => if p.is_initialized {
                    res matches Ok(q) && q@ == p
                } else {
                    res == Err::<IncognitoProxy, ProgramError>(ProgramError::UninitializedAccount)
                },
            },
    {
        let value = match Self::unpack_unchecked(input) {
            Ok(v) => v,
            Err(e) => return Err(e),
        };
        if value.is_initialized() {
            Ok(value)
        } else {
            Err(ProgramError::UninitializedAccount)
        }
    }

    /// Encodes the beacon list into data of exactly [`INCOGNITO_PROXY_LEN`] bytes.
    pub fn pack(src: IncognitoProxy, dst: &mut [u8]) -> (res: Result<(), ProgramError>)
        requires
            old(dst)@.len() == INCOGNITO_PROXY_LEN ==> src.beacons@.len() <= MAX_BEACON_ADDRESSES,
        ensures
            old(dst)@.len() != INCOGNITO_PROXY_LEN ==> res == Err::<(), ProgramError>(
                ProgramError::InvalidAccountData,
            ) && final(dst)@ == old(dst)@,
            old(dst)@.len() == INCOGNITO_PROXY_LEN ==> res == Ok::<(), ProgramError>(())
                && final(dst)@ == spec_pack_proxy(src@, old(dst)@),
    {
        if dst.len() != Self::LEN {
            return Err(ProgramError::InvalidAccountData);
        }
        src.pack_into_slice(dst);
        Ok(())
    }
}

/// `res` is the outcome that `spec` describes.
pub open spec fn outcome_matches_proxy(
    res: Result<IncognitoProxy, ProgramError>,
    spec: Result<IncognitoProxyView, ProgramError>,
) -> bool {
    match res {
        Ok(v) => spec == Ok::<IncognitoProxyView, ProgramError>(v@),
        Err(e) => spec == Err::<IncognitoProxyView, ProgramError>(e),
    }
}

proof fn lemma_beacons_view_keys(p: &IncognitoProxy)
    ensures
        all_beacon_keys(p@.beacons),
        p@.vault.len() == PUBKEY_BYTES,
{
}

/// Packing a beacon list and decoding the packed bytes gives the list back.
pub proof fn lemma_pack_unpack_roundtrip(p: IncognitoProxyView, dst: Seq<u8>)
    requires
        proxy_packable(p),
        dst.len() >= INCOGNITO_PROXY_LEN,
    ensures
        spec_pack_proxy(p, dst).len() == dst.len(),
        spec_pack_proxy(p, dst)[33] <= MAX_BEACON_ADDRESSES,
        spec_unpack_proxy(spec_pack_proxy(p, dst)) == Ok::<IncognitoProxyView, ProgramError>(p),
{
    let packed = spec_pack_proxy(p, dst);
    lemma_flatten_len(p.beacons);
    assert(packed.subrange(1, 33) =~= p.vault);
    let beacons = Seq::new(packed[33] as nat, |i: int| beacon_slot(packed, i));
    assert forall|i: int| 0 <= i < p.beacons.len() implies beacons[i] == p.beacons[i] by {
        lemma_flatten_slot(p.beacons, i);
        assert(beacon_slot(packed, i) =~= flatten(p.beacons).subrange(64 * i, 64 * i + 64));
    }
    assert(beacons =~= p.beacons);
}

/// Decoding packed bytes and packing the result over the same bytes leaves them unchanged.
pub proof fn lemma_unpack_pack_roundtrip(src: Seq<u8>)
    requires
        src.len() >= INCOGNITO_PROXY_LEN,
        src[33] <= MAX_BEACON_ADDRESSES,
        spec_unpack_proxy(src) is Ok,
    ensures
        spec_pack_proxy(spec_unpack_proxy(src)->Ok_0, src) == src,
{
    let p = spec_unpack_proxy(src)->Ok_0;
    let n = src[33] as nat;
    lemma_flatten_slots(src, n);
    assert(p.beacons =~= Seq::new(n, |i: int| beacon_slot(src, i)));
    assert(spec_pack_proxy(p, src) =~= src);
}

/// Decoding a beacon list reads each field where the layout puts it, as it
/// stands: the flag from byte 0 (1 is initialized, above 1 is refused), the
/// vault key from bytes 1..33, the number of beacons from byte 33, and beacon
/// `i` from bytes `34 + 64 i .. 98 + 64 i`.
pub proof fn lemma_unpack_proxy_reads_fields(src: Seq<u8>)
    requires
        src.len() == INCOGNITO_PROXY_LEN,
    ensures
        spec_unpack_proxy(src) is Ok <==> src[0] <= 1,
        src[0] > 1 ==> spec_unpack_proxy(src) == Err::<IncognitoProxyView, ProgramError>(
            ProgramError::InvalidAccountData,
        ),
        spec_unpack_proxy(src) matches Ok(p) ==> {
            &&& p.is_initialized == (src[0] == 1)
            &&& p.vault == src.subrange(1, 33)
            &&& p.beacons.len() == src[33]
            &&& forall|i: int|
                0 <= i < p.beacons.len() ==> #[trigger] p.beacons[i] == src.subrange(34 + 64 * i, 98 + 64 * i)
        },
{
}

/// Packing a beacon list writes each field where the layout puts it, as it
/// stands: the flag byte (1 for initialized, 0 otherwise) at byte 0, the vault
/// key at bytes 1..33, the number of beacons at byte 33, beacon `i` at bytes
/// `34 + 64 i .. 98 + 64 i`, and leaves the bytes after the beacons as they were.
pub proof fn lemma_pack_proxy_writes_fields(p: IncognitoProxyView, dst: Seq<u8>)
    requires
        proxy_packable(p),
        dst.len() == INCOGNITO_PROXY_LEN,
    ensures
        spec_pack_proxy(p, dst).len() == dst.len(),
        spec_pack_proxy(p, dst)[0] == (if p.is_initialized { 1u8 } else { 0u8 }),
        spec_pack_proxy(p, dst).subrange(1, 33) == p.vault,
        spec_pack_proxy(p, dst)[33] == p.beacons.len(),
        forall|i: int|
            0 <= i < p.beacons.len() ==> #[trigger] spec_pack_proxy(p, dst).subrange(34 + 64 * i, 98 + 64 * i)
                == p.beacons[i],
        spec_pack_proxy(p, dst).skip(34 + 64 * p.beacons.len() as int) == dst.skip(34 + 64 * p.beacons.len() as int),
{
    let packed = spec_pack_proxy(p, dst);
    lemma_pack_unpack_roundtrip(p, dst);
    lemma_unpack_proxy_reads_fields(packed);
    lemma_flatten_len(p.beacons);
    let n: int = 34 + 64 * p.beacons.len() as int;
    assert(packed.skip(n) =~= dst.skip(n));
}

/// A request to release tokens, as decoded from an unshield instruction.
#[derive(Clone, Debug, Default, PartialEq)]
pub struct UnshieldRequest {
    /// instruction in bytes
    pub inst: String,
    /// beacon height
    pub height: u64,
    /// inst paths to build merkle tree
    pub inst_paths: Vec<[u8; 32]>,
    /// inst path indicator
    pub inst_path_is_lefts: Vec<bool>,
    /// instruction root
    pub inst_root: [u8; 32],
    /// blkData
    pub blk_data: [u8; 32],
    /// signature index
    pub indexes: Vec<u8>,
    /// signature
    pub signatures: Vec<[u8; 65]>,
}

/// The contents of an [`UnshieldRequest`], with every array and vector as a sequence.
pub struct UnshieldRequestView {
    pub inst: Seq<char>,
    pub height: u64,
    pub inst_paths: Seq<Seq<u8>>,
    pub inst_path_is_lefts: Seq<bool>,
    pub inst_root: Seq<u8>,
    pub blk_data: Seq<u8>,
    pub indexes: Seq<u8>,
    pub signatures: Seq<Seq<u8>>,
}

impl View for UnshieldRequest {
    type V = UnshieldRequestView;

    open spec fn view(&self) -> UnshieldRequestView {
        UnshieldRequestView {
            inst: self.inst@,
            height: self.height,
            inst_paths: self.inst_paths@.map_values(|p: [u8; 32]| p@),
            inst_path_is_lefts: self.inst_path_is_lefts@,
            inst_root: self.inst_root@,
            blk_data: self.blk_data@,
            indexes: self.indexes@,
            signatures: self.signatures@.map_values(|s: [u8; 65]| s@),
        }
    }
}

/// `a` comes before `b` in byte-wise lexicographic order (keys of one length).
pub open spec fn key_lt(a: Seq<u8>, b: Seq<u8>) -> bool
    decreases a.len(),
{
    if a.len() == 0 || b.len() == 0 {
        false
    } else if a[0] < b[0] {
        true
    } else if a[0] > b[0] {
        false
    } else {
        key_lt(a.drop_first(), b.drop_first())
    }
}

pub proof fn lemma_key_lt_irreflexive(a: Seq<u8>)
    ensures
        !key_lt(a, a),
    decreases a.len(),
{
    if a.len() > 0 {
        lemma_key_lt_irreflexive(a.drop_first());
    }
}

pub proof fn lemma_key_lt_transitive(a: Seq<u8>, b: Seq<u8>, c: Seq<u8>)
    requires
        key_lt(a, b),
        key_lt(b, c),
    ensures
        key_lt(a, c),
    decreases a.len(),
{
    if a.len() > 0 && b.len() > 0 && c.len() > 0 && a[0] == b[0] && b[0] == c[0] {
        lemma_key_lt_transitive(a.drop_first(), b.drop_first(), c.drop_first());
    }
}

pub proof fn lemma_key_lt_total(a: Seq<u8>, b: Seq<u8>)
    requires
        a.len() == b.len(),
    ensures
        a == b || key_lt(a, b) || key_lt(b, a),
    decreases a.len(),
{
    if a.len() > 0 && a[0] == b[0] {
        lemma_key_lt_total(a.drop_first(), b.drop_first());
        if a.drop_first() == b.drop_first() {
            assert forall|i: int| 0 <= i < a.len() implies a[i] == b[i] by {
                if i > 0 {
                    assert(a[i] == a.drop_first()[i - 1]);
                    assert(b[i] == b.drop_first()[i - 1]);
                }
            }
            assert(a =~= b);
        }
    } else if a.len() == 0 {
        assert(a =~= b);
    }
}

/// The result of comparing two keys.
#[derive(Debug, Copy, Clone, PartialEq, Eq, Structural)]
pub enum KeyOrder {
    Less,
    Equal,
    Greater,
}

/// Compares two keys byte by byte, lexicographically.
pub fn compare_keys(a: &[u8; 32], b: &[u8; 32]) -> (o: KeyOrder)
    ensures
        o == KeyOrder::Less <==> key_lt(a@, b@),
        o == KeyOrder::Equal <==> a@ == b@,
        o == KeyOrder::Greater <==> key_lt(b@, a@),
{
    let mut i: usize = 0;
    assert(a@.skip(0) =~= a@);
    assert(b@.skip(0) =~= b@);
    while i < 32
        invariant
            i <= 32,
            a@.take(i as int) == b@.take(i as int),
            key_lt(a@, b@) == key_lt(a@.skip(i as int), b@.skip(i as int)),
            key_lt(b@, a@) == key_lt(b@.skip(i as int), a@.skip(i as int)),
        decreases 32 - i,
    {
        assert(a@.skip(i as int).drop_first() =~= a@.skip(i + 1));
        assert(b@.skip(i as int).drop_first() =~= b@.skip(i + 1));
        if a[i] < b[i] {
            proof {
                lemma_key_lt_irreflexive(a@);
                if a@ == b@ {
                    assert(a@[i as int] == b@[i as int]);
                }
            }
            return KeyOrder::Less;
        }
        if a[i] > b[i] {
            proof {
                if a@ == b@ {
                    assert(a@[i as int] == b@[i as int]);
                }
            }
            return KeyOrder::Greater;
        }
        assert(a@.take(i + 1) =~= a@.take(i as int).push(a@[i as int]));
        assert(b@.take(i + 1) =~= b@.take(i as int).push(b@[i as int]));
        i = i + 1;
    }
    assert(a@ =~= a@.take(32));
    assert(b@ =~= b@.take(32));
    proof {
        lemma_key_lt_irreflexive(a@);
    }
    KeyOrder::Equal
}

/// The vault's record of spent unshield transaction ids.
///
/// The record keeps its entries ordered by key, each key once, as an ordered
/// map would; see [`Withdraw::wf`].
#[derive(Clone, Debug, PartialEq)]
pub struct Withdraw {
    pub is_initialized: bool,
    /// The recorded transaction ids, each with its flag, in increasing key order.
    pub map: Vec<([u8; 32], bool)>,
}

/// The entries with their keys as byte sequences.
pub open spec fn entry_keys(entries: Seq<([u8; 32], bool)>) -> Seq<Seq<u8>> {
    entries.map_values(|e: ([u8; 32], bool)| e.0@)
}

/// The keys increase strictly along the entries.
pub open spec fn keys_increasing(keys: Seq<Seq<u8>>) -> bool {
    forall|i: int, j: int| 0 <= i < j < keys.len() ==> key_lt(#[trigger] keys[i], #[trigger] keys[j])
}

/// A position of an entry with key `k`.
pub open spec fn entry_index(entries: Seq<([u8; 32], bool)>, k: Seq<u8>) -> int {
    choose|i: int| 0 <= i < entries.len() && #[trigger] entries[i].0@ == k
}

/// The map that the entries describe.
pub open spec fn entries_map(entries: Seq<([u8; 32], bool)>) -> Map<Seq<u8>, bool> {
    Map::new(
        |k: Seq<u8>| exists|i: int| 0 <= i < entries.len() && #[trigger] entries[i].0@ == k,
        |k: Seq<u8>| entries[entry_index(entries, k)].1,
    )
}

proof fn lemma_entries_map_at(entries: Seq<([u8; 32], bool)>, i: int)
    requires
        keys_increasing(entry_keys(entries)),
        0 <= i < entries.len(),
    ensures
        entries_map(entries).contains_key(entries[i].0@),
        entries_map(entries)[entries[i].0@] == entries[i].1,
{
    let k = entries[i].0@;
    assert(entry_keys(entries)[i] == k);
    assert(entries_map(entries).contains_key(k));
    let j = entry_index(entries, k);
    assert(entry_keys(entries)[j] == k);
    lemma_key_lt_irreflexive(k);
    if j < i {
        assert(key_lt(entry_keys(entries)[j], entry_keys(entries)[i]));
    } else if i < j {
        assert(key_lt(entry_keys(entries)[i], entry_keys(entries)[j]));
    }
    assert(j == i);
    assert(entries_map(entries)[k] == entries[j].1);
}

impl Withdraw {
    /// The length of the vault account's data: flag, count, and 100 records of
    /// a 32-byte key and a flag.
    pub const LEN: usize = 3305;

    /// The entries are ordered by key, each key once.
    pub open spec fn wf(&self) -> bool {
        keys_increasing(entry_keys(self.map@))
    }

    /// The recorded transaction ids, with their flags.
    pub open spec fn spec_map(&self) -> Map<Seq<u8>, bool> {
        entries_map(self.map@)
    }

    /// A vault record with the given flag and no transaction ids.
    pub fn new(is_initialized: bool) -> (w: Withdraw)
        ensures
            w.wf(),
            w.is_initialized == is_initialized,
            w.spec_map() == Map::<Seq<u8>, bool>::empty(),
    {
        let w = Withdraw { is_initialized, map: Vec::new() };
        assert(w.spec_map() =~= Map::<Seq<u8>, bool>::empty());
        w
    }

    /// Whether the vault record has been initialized.
    pub fn is_initialized(&self) -> (b: bool)
        ensures
            b == self.is_initialized,
    {
        self.is_initialized
    }

    /// Whether the entries are ordered by key, each key once (see [`Withdraw::wf`]).
    pub fn is_ordered(&self) -> (b: bool)
        ensures
            b == self.wf(),
    {
        let n = self.map.len();
        if n == 0 {
            return true;
        }
        let mut k: usize = 1;
        while k < n
            invariant
                1 <= k <= n,
                n == self.map@.len(),
                forall|i: int, j: int|
                    0 <= i < j < k ==> key_lt(#[trigger] entry_keys(self.map@)[i], #[trigger] entry_keys(self.map@)[j]),
            decreases n - k,
        {
            let o = compare_keys(&self.map[k - 1].0, &self.map[k].0);
            assert(entry_keys(self.map@)[k - 1] == self.map@[k - 1].0@);
            assert(entry_keys(self.map@)[k as int] == self.map@[k as int].0@);
            match o {
                KeyOrder::Less => {},
                _ => return false,
            }
            assert forall|i: int, j: int| 0 <= i < j < k + 1 implies key_lt(
                #[trigger] entry_keys(self.map@)[i],
                #[trigger] entry_keys(self.map@)[j],
            ) by {
                if j == k as int && i < k - 1 {
                    lemma_key_lt_transitive(
                        entry_keys(self.map@)[i],
                        entry_keys(self.map@)[k - 1],
                        entry_keys(self.map@)[j],
                    );
                }
            }
            k = k + 1;
        }
        true
    }

    /// The position at which `key` stands or would stand in the ordered entries.
    fn find(&self, key: &[u8; 32]) -> (res: (usize, bool))
        requires
            self.wf(),
        ensures
            res.0 <= self.map@.len(),
            forall|j: int| 0 <= j < res.0 ==> key_lt(#[trigger] self.map@[j].0@, key@),
            res.1 ==> res.0 < self.map@.len() && self.map@[res.0 as int].0@ == key@,
            !res.1 ==> res.0 < self.map@.len() ==> key_lt(key@, self.map@[res.0 as int].0@),
    {
        let mut i: usize = 0;
        while i < self.map.len()
            invariant
                i <= self.map@.len(),
                forall|j: int| 0 <= j < i ==> key_lt(#[trigger] self.map@[j].0@, key@),
            decreases self.map@.len() - i,
        {
            match compare_keys(&self.map[i].0, key) {
                KeyOrder::Less => {},
                KeyOrder::Equal => {
                    return (i, true);
                },
                KeyOrder::Greater => {
                    return (i, false);
                },
            }
            i = i + 1;
        }
        (i, false)
    }

    /// Whether `key` is recorded.
    pub fn contains_key(&self, key: &[u8; 32]) -> (b: bool)
        requires
            self.wf(),
        ensures
            b == self.spec_map().contains_key(key@),
    {
        let (i, found) = self.find(key);
        proof {
            if found {
                lemma_entries_map_at(self.map@, i as int);
            } else if self.spec_map().contains_key(key@) {
                let j = choose|j: int| 0 <= j < self.map@.len() && #[trigger] self.map@[j].0@ == key@;
                assert(entry_keys(self.map@)[j] == key@);
                lemma_key_lt_irreflexive(key@);
                if j >= i as int && (i as int) < self.map@.len() {
                    if j > i as int {
                        assert(entry_keys(self.map@)[i as int] == self.map@[i as int].0@);
                        lemma_key_lt_transitive(key@, self.map@[i as int].0@, key@);
                    }
                }
            }
        }
        found
    }

    /// Records `key` with flag `value`; the caller has checked that the key is
    /// not recorded yet.
    fn insert_new(&mut self, key: [u8; 32], value: bool)
        requires
            old(self).wf(),
            !old(self).spec_map().contains_key(key@),
        ensures
            final(self).wf(),
            final(self).is_initialized == old(self).is_initialized,
            final(self).spec_map() == old(self).spec_map().insert(key@, value),
    {
        let ghost old_map = self.map@;
        let (i, found) = self.find(&key);
        proof {
            if found {
                lemma_entries_map_at(self.map@, i as int);
            }
        }
        self.map.insert(i, (key, value));
        let ghost new_map = self.map@;
        assert(new_map =~= old_map.insert(i as int, (key, value)));
        assert forall|a: int, b: int| 0 <= a < b < new_map.len() implies key_lt(
            #[trigger] entry_keys(new_map)[a],
            #[trigger] entry_keys(new_map)[b],
        ) by {
            let ka = entry_keys(new_map)[a];
            let kb = entry_keys(new_map)[b];
            if a < i && b < i {
                assert(entry_keys(old_map)[a] == ka && entry_keys(old_map)[b] == kb);
            } else if a < i && b == i {
                assert(old_map[a].0@ == ka);
            } else if a < i && b > i {
                assert(entry_keys(old_map)[a] == ka && entry_keys(old_map)[b - 1] == kb);
            } else if a == i {
                assert(entry_keys(old_map)[b - 1] == kb);
                assert(entry_keys(old_map)[i as int] == old_map[i as int].0@);
                if b - 1 > i {
                    lemma_key_lt_transitive(key@, old_map[i as int].0@, kb);
                }
            } else {
                assert(entry_keys(old_map)[a - 1] == ka && entry_keys(old_map)[b - 1] == kb);
            }
        }
        assert forall|k: Seq<u8>| #[trigger] entries_map(new_map).contains_key(k) implies entries_map(
            old_map,
        ).insert(key@, value).contains_key(k) by {
            let j = choose|j: int| 0 <= j < new_map.len() && #[trigger] new_map[j].0@ == k;
            if j < i {
                assert(old_map[j].0@ == k);
            } else if j > i {
                assert(old_map[j - 1].0@ == k);
            }
        }
        assert forall|k: Seq<u8>| #[trigger] entries_map(old_map).insert(key@, value).contains_key(
            k,
        ) implies entries_map(new_map).contains_key(k) by {
            if k == key@ {
                assert(new_map[i as int].0@ == k);
            } else {
                let j = choose|j: int| 0 <= j < old_map.len() && #[trigger] old_map[j].0@ == k;
                if j < i {
                    assert(new_map[j].0@ == k);
                } else {
                    assert(new_map[j + 1].0@ == k);
                }
            }
        }
        assert forall|k: Seq<u8>| #[trigger] self.spec_map().contains_key(k) implies self.spec_map()[k]
            == old(self).spec_map().insert(key@, value)[k] by {
            let j = choose|j: int| 0 <= j < new_map.len() && #[trigger] new_map[j].0@ == k;
            lemma_entries_map_at(new_map, j);
            if j < i {
                lemma_entries_map_at(old_map, j);
            } else if j > i {
                lemma_entries_map_at(old_map, j - 1);
            }
        }
        assert(self.spec_map() =~= old(self).spec_map().insert(key@, value));
    }

    /// Records the unshield transaction id `key` as spent; a key that is
    /// already recorded is refused and leaves the record unchanged.
    pub fn insert_tx_id(&mut self, key: &[u8; 32]) -> (res: Result<(), BridgeError>)
        requires
            old(self).wf(),
        ensures
            final(self).wf(),
            final(self).is_initialized == old(self).is_initialized,
            old(self).spec_map().contains_key(key@) ==> res == Err::<(), BridgeError>(
                BridgeError::InvalidUnshieldRequestUsed,
            ) && *final(self) == *old(self),
            !old(self).spec_map().contains_key(key@) ==> res == Ok::<(), BridgeError>(())
                && final(self).spec_map() == old(self).spec_map().insert(key@, true),
    {
        if self.contains_key(key) {
            return Err(BridgeError::InvalidUnshieldRequestUsed);
        }
        self.insert_new(*key, true);
        Ok(())
    }
}

/// Once a transaction id is recorded, the record holds it, so recording the
/// same id again is refused (see [`Withdraw::insert_tx_id`]); the ids recorded
/// before stay recorded.
pub proof fn lemma_recorded_id_refused(before: Withdraw, after: Withdraw, key: Seq<u8>, other: Seq<u8>)
    requires
        before.wf(),
        after.spec_map() == before.spec_map().insert(key, true),
    ensures
        after.spec_map().contains_key(key),
        before.spec_map().contains_key(other) ==> after.spec_map().contains_key(other),
{
}

} // verus!
