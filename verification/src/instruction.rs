use vstd::prelude::*;
use crate::bytes::{le_value, read_u64_le, read_array32, read_array65};
use crate::error::{BridgeError, ProgramError, bridge_error};
use crate::state::{UnshieldRequest, UnshieldRequestView};

verus! {

/// Instructions supported by the bridge program.
pub enum BridgeInstruction {
    /// shield
    Shield {
        /// shield info
        amount: u64,
        inc_address: String,
    },
    /// unshield
    UnShield {
        /// unshield info
        unshield_info: UnshieldRequest,
    },
}

/// The contents of a [`BridgeInstruction`].
pub enum InstructionView {
    Shield { amount: u64, inc_address: Seq<char> },
    UnShield { unshield_info: UnshieldRequestView },
}

impl View for BridgeInstruction {
    type V = InstructionView;

    open spec fn view(&self) -> InstructionView {
        match self {
            BridgeInstruction::Shield { amount, inc_address } => InstructionView::Shield {
                amount: *amount,
                inc_address: inc_address@,
            },
            BridgeInstruction::UnShield { unshield_info } => InstructionView::UnShield {
                unshield_info: unshield_info@,
            },
        }
    }
}

/// The text that the standard library makes of `bytes` when it decodes them as
/// UTF-8 and puts the replacement character in place of each invalid sequence.
pub uninterp spec fn spec_utf8_lossy(bytes: Seq<u8>) -> Seq<char>;

/// Every byte is an ASCII character.
pub open spec fn all_ascii(bytes: Seq<u8>) -> bool {
    forall|i: int| 0 <= i < bytes.len() ==> #[trigger] bytes[i] < 128
}

/// The text that `bytes` decode to: ASCII bytes are the same characters,
/// valid UTF-8 is its decoding, and other bytes are the standard library's
/// decoding with replacement characters.
pub open spec fn lossy_text(bytes: Seq<u8>) -> Seq<char> {
    if all_ascii(bytes) {
        bytes.map_values(|b: u8| b as char)
    } else if vstd::utf8::valid_utf8(bytes) {
        vstd::utf8::decode_utf8(bytes)
    } else {
        spec_utf8_lossy(bytes)
    }
}

/// Decodes `bytes` as UTF-8, replacing invalid sequences, by
/// `String::from_utf8_lossy`. Claimed: the result is the named decoding of the
/// bytes; valid UTF-8 comes out as its decoding, unchanged; and bytes that are
/// all ASCII come out as the same characters.
#[verifier::external_body]
fn utf8_lossy(bytes: &[u8]) -> (s: String)
    ensures
        s@ == spec_utf8_lossy(bytes@),
        vstd::utf8::valid_utf8(bytes@) ==> s@ == vstd::utf8::decode_utf8(bytes@),
        all_ascii(bytes@) ==> s@ == bytes@.map_values(|b: u8| b as char),
{
    String::from_utf8_lossy(bytes).into_owned()
}

/// The length of the address text in a shield instruction.
pub const INC_ADDRESS_LEN: usize = 148;

/// The error for instruction data that ends too early.
pub open spec fn unpack_error() -> ProgramError {
    bridge_error(BridgeError::InstructionUnpackError)
}

/// `n` copies of `x`.
pub open spec fn repeat<T>(x: T, n: nat) -> Seq<T> {
    Seq::new(n, |i: int| x)
}

/// What a shield instruction's data after the tag decodes to.
pub open spec fn spec_unpack_shield(r: Seq<u8>) -> Result<InstructionView, ProgramError> {
    if r.len() < 8 + INC_ADDRESS_LEN {
        Err(unpack_error())
    } else {
        Ok(
            InstructionView::Shield {
                amount: le_value(r.take(8)) as u64,
                inc_address: lossy_text(r.subrange(8, 8 + INC_ADDRESS_LEN)),
            },
        )
    }
}

/// What an unshield instruction's data after the tag decodes to.
///
/// The fields are read in order. Each list is given by a one-byte count
/// followed by one element, which the list holds `count` times (when the count
/// is not zero): the element is read at the position after the count, and the
/// next field is read from that same position.
pub open spec fn spec_unpack_unshield(r0: Seq<u8>) -> Result<InstructionView, ProgramError> {
    if r0.len() < 1 {
        Err(unpack_error())
    } else {
        let inst_len = r0[0] as int;
        let r1 = r0.skip(1);
        if r1.len() < inst_len {
            Err(unpack_error())
        } else {
            let inst = lossy_text(r1.take(inst_len));
            let r2 = r1.skip(inst_len);
            if r2.len() < 8 {
                Err(unpack_error())
            } else {
                let height = le_value(r2.take(8)) as u64;
                let r3 = r2.skip(8);
                spec_unpack_unshield_lists(r3, inst, height)
            }
        }
    }
}

/// The part of [`spec_unpack_unshield`] that follows the height.
pub open spec fn spec_unpack_unshield_lists(r3: Seq<u8>, inst: Seq<char>, height: u64) -> Result<
    InstructionView,
    ProgramError,
> {
    if r3.len() < 1 {
        Err(unpack_error())
    } else {
        let n_paths = r3[0];
        let r4 = r3.skip(1);
        if n_paths > 0 && r4.len() < 32 {
            Err(unpack_error())
        } else if r4.len() < 1 {
            Err(unpack_error())
        } else {
            let inst_paths = repeat(r4.take(32), n_paths as nat);
            let n_lefts = r4[0];
            let r5 = r4.skip(1);
            if n_lefts > 0 && r5.len() < 1 {
                Err(unpack_error())
            } else if n_lefts > 0 && r5[0] > 1 {
                Err(ProgramError::InvalidAccountData)
            } else if r5.len() < 64 {
                Err(unpack_error())
            } else {
                let lefts = repeat(false, n_lefts as nat);
                let inst_root = r5.take(32);
                let blk_data = r5.subrange(32, 64);
                let r7 = r5.skip(64);
                if r7.len() < 1 {
                    Err(unpack_error())
                } else {
                    let n_indexes = r7[0];
                    let r8 = r7.skip(1);
                    if n_indexes > 0 && r8.len() < 1 {
                        Err(unpack_error())
                    } else if r8.len() < 1 {
                        Err(unpack_error())
                    } else {
                        let indexes = repeat(r8[0], n_indexes as nat);
                        let n_sigs = r8[0];
                        let r9 = r8.skip(1);
                        if n_sigs > 0 && r9.len() < 65 {
                            Err(unpack_error())
                        } else {
                            Ok(
                                InstructionView::UnShield {
                                    unshield_info: UnshieldRequestView {
                                        inst,
                                        height,
                                        inst_paths,
                                        inst_path_is_lefts: lefts,
                                        inst_root,
                                        blk_data,
                                        indexes,
                                        signatures: repeat(r9.take(65), n_sigs as nat),
                                    },
                                },
                            )
                        }
                    }
                }
            }
        }
    }
}

/// What the instruction data `input` decodes to: a tag byte (`0` for shield,
/// `1` for unshield) and the fields of that instruction.
pub open spec fn spec_unpack(input: Seq<u8>) -> Result<InstructionView, ProgramError> {
    if input.len() == 0 {
        Err(bridge_error(BridgeError::InvalidInstruction))
    } else if input[0] == 0 {
        spec_unpack_shield(input.drop_first())
    } else if input[0] == 1 {
        spec_unpack_unshield(input.drop_first())
    } else {
        Err(bridge_error(BridgeError::InvalidInstruction))
    }
}

/// `res` is the outcome that `spec` describes.
pub open spec fn outcome_matches<T: View>(res: Result<T, ProgramError>, spec: Result<T::V, ProgramError>) -> bool {
    match res {
        Ok(v) => spec == Ok::<T::V, ProgramError>(v@),
        Err(e) => spec == Err::<T::V, ProgramError>(e),
    }
}

impl BridgeInstruction {
    /// Unpacks a byte buffer into a [BridgeInstruction](enum.BridgeInstruction.html).
    pub fn unpack(input: &[u8]) -> (res: Result<Self, ProgramError>)
        ensures
            outcome_matches(res, spec_unpack(input@)),
    {
        if input.len() == 0 {
            return Err(BridgeError::InvalidInstruction.to_program_error());
        }
        let tag = input[0];
        let rest = vstd::slice::slice_subrange(input, 1, input.len());
        assert(rest@ =~= input@.drop_first());
        if tag == 0 {
            let (amount, rest) = match Self::unpack_u64(rest) {
                Ok(p) => p,
                Err(e) => return Err(e),
            };
            let (inc_address, _rest) = match Self::unpack_str(rest, INC_ADDRESS_LEN) {
                Ok(p) => p,
                Err(e) => return Err(e),
            };
            proof {
                assert(input@.drop_first().skip(8).take(INC_ADDRESS_LEN as int) =~= input@.drop_first().subrange(8, 8 + INC_ADDRESS_LEN));
            }
            Ok(Self::Shield { amount, inc_address })
        } else if tag == 1 {
            Self::unpack_unshield(rest)
        } else {
            Err(BridgeError::InvalidInstruction.to_program_error())
        }
    }

    /// Unpacks the fields of an unshield instruction.
    fn unpack_unshield(r0: &[u8]) -> (res: Result<Self, ProgramError>)
        ensures
            outcome_matches(res, spec_unpack_unshield(r0@)),
    {
        let (inst_len, r1) = match Self::unpack_u8(r0) {
            Ok(p) => p,
            Err(e) => return Err(e),
        };
        let (inst, r2) = match Self::unpack_str(r1, inst_len as usize) {
            Ok(p) => p,
            Err(e) => return Err(e),
        };
        let (height, r3) = match Self::unpack_u64(r2) {
            Ok(p) => p,
            Err(e) => return Err(e),
        };
        Self::unpack_unshield_lists(r3, inst, height)
    }

    /// Unpacks the lists and roots of an unshield instruction, after its height.
    #[verifier::loop_isolation(false)]
    fn unpack_unshield_lists(r3: &[u8], inst: String, height: u64) -> (res: Result<Self, ProgramError>)
        ensures
            outcome_matches(res, spec_unpack_unshield_lists(r3@, inst@, height)),
    {
        let (inst_paths_len, rest) = match Self::unpack_u8(r3) {
            Ok(p) => p,
            Err(e) => return Err(e),
        };
        let mut inst_paths: Vec<[u8; 32]> = Vec::new();
        let mut i: u8 = 0;
        while i < inst_paths_len
            invariant
                i <= inst_paths_len,
                rest@.len() >= 32 || i == 0,
                inst_paths@.len() == i,
                forall|j: int| 0 <= j < i ==> #[trigger] inst_paths@[j]@ == rest@.take(32),
            decreases inst_paths_len - i,
        {
            let (inst_node, _rest) = match Self::unpack_bytes32(rest) {
                Ok(p) => p,
                Err(e) => return Err(e),
            };
            inst_paths.push(inst_node);
            i = i + 1;
        }
        let (inst_paths_is_left_len, rest) = match Self::unpack_u8(rest) {
            Ok(p) => p,
            Err(e) => return Err(e),
        };
        let mut inst_path_is_lefts: Vec<bool> = Vec::new();
        let mut i: u8 = 0;
        while i < inst_paths_is_left_len
            invariant
                i <= inst_paths_is_left_len,
                i > 0 ==> rest@.len() >= 1 && rest@[0] <= 1,
                inst_path_is_lefts@ =~= repeat(false, i as nat),
            decreases inst_paths_is_left_len - i,
        {
            let (inst_paths_is_left, _rest) = match Self::unpack_bool(rest) {
                Ok(p) => p,
                Err(e) => return Err(e),
            };
            inst_path_is_lefts.push(inst_paths_is_left);
            i = i + 1;
        }
        let (inst_root, rest) = match Self::unpack_bytes32(rest) {
            Ok(p) => p,
            Err(e) => return Err(e),
        };
        let (blk_data, rest) = match Self::unpack_bytes32(rest) {
            Ok(p) => p,
            Err(e) => return Err(e),
        };
        let (indexes_len, rest) = match Self::unpack_u8(rest) {
            Ok(p) => p,
            Err(e) => return Err(e),
        };
        let mut indexes: Vec<u8> = Vec::new();
        let mut i: u8 = 0;
        while i < indexes_len
            invariant
                i <= indexes_len,
                rest@.len() >= 1 || i == 0,
                indexes@.len() == i,
                forall|j: int| 0 <= j < i ==> #[trigger] indexes@[j] == rest@[0],
            decreases indexes_len - i,
        {
            let (index, _rest) = match Self::unpack_u8(rest) {
                Ok(p) => p,
                Err(e) => return Err(e),
            };
            indexes.push(index);
            i = i + 1;
        }
        let (signature_len, rest) = match Self::unpack_u8(rest) {
            Ok(p) => p,
            Err(e) => return Err(e),
        };
        let mut signatures: Vec<[u8; 65]> = Vec::new();
        let mut i: u8 = 0;
        while i < signature_len
            invariant
                i <= signature_len,
                rest@.len() >= 65 || i == 0,
                signatures@.len() == i,
                forall|j: int| 0 <= j < i ==> #[trigger] signatures@[j]@ == rest@.take(65),
            decreases signature_len - i,
        {
            let (signature, _rest) = match Self::unpack_bytes65(rest) {
                Ok(p) => p,
                Err(e) => return Err(e),
            };
            signatures.push(signature);
            i = i + 1;
        }
        assert(inst_paths@.map_values(|p: [u8; 32]| p@) =~= repeat(
            r3@.skip(1).take(32),
            inst_paths_len as nat,
        ));
        let ghost r5 = r3@.skip(1).skip(1);
        assert(r5.skip(32).take(32) =~= r5.subrange(32, 64));
        assert(r5.skip(32).skip(32) =~= r5.skip(64));
        assert(indexes@ =~= repeat(r5.skip(64).skip(1)[0], indexes_len as nat));
        assert(inst_path_is_lefts@ =~= repeat(false, inst_paths_is_left_len as nat));
        assert(signatures@.map_values(|s: [u8; 65]| s@) =~= repeat(
            rest@.take(65),
            signature_len as nat,
        ));
        Ok(
            Self::UnShield {
                unshield_info: UnshieldRequest {
                    inst,
                    height,
                    inst_paths,
                    inst_path_is_lefts,
                    inst_root,
                    blk_data,
                    indexes,
                    signatures,
                },
            },
        )
    }

    /// Reads a little-endian `u64` from the front of `input`.
    fn unpack_u64(input: &[u8]) -> (res: Result<(u64, &[u8]), ProgramError>)
        ensures
            input@.len() < 8 ==> res == Err::<(u64, &[u8]), ProgramError>(unpack_error()),
            input@.len() >= 8 ==> (res matches Ok((v, rest)) && v as nat == le_value(input@.take(8))
                && rest@ == input@.skip(8)),
    {
        if input.len() < 8 {
            return Err(BridgeError::InstructionUnpackError.to_program_error());
        }
        let (bytes, rest) = input.split_at(8);
        let value = read_u64_le(bytes);
        Ok((value, rest))
    }

    /// Reads `len` bytes from the front of `input` as text.
    fn unpack_str(input: &[u8], len: usize) -> (res: Result<(String, &[u8]), ProgramError>)
        ensures
            input@.len() < len ==> res == Err::<(String, &[u8]), ProgramError>(unpack_error()),
            input@.len() >= len ==> (res matches Ok((s, rest)) && s@ == lossy_text(
                input@.take(len as int),
            ) && rest@ == input@.skip(len as int)),
    {
        if input.len() < len {
            return Err(BridgeError::InstructionUnpackError.to_program_error());
        }
        let (bytes, rest) = input.split_at(len);
        let output = utf8_lossy(bytes);
        Ok((output, rest))
    }

    /// Reads one byte from the front of `input`.
    fn unpack_u8(input: &[u8]) -> (res: Result<(u8, &[u8]), ProgramError>)
        ensures
            input@.len() < 1 ==> res == Err::<(u8, &[u8]), ProgramError>(unpack_error()),
            input@.len() >= 1 ==> (res matches Ok((v, rest)) && v == input@[0] && rest@
                == input@.skip(1)),
    {
        if input.len() == 0 {
            return Err(BridgeError::InstructionUnpackError.to_program_error());
        }
        let (bytes, rest) = input.split_at(1);
        Ok((bytes[0], rest))
    }

    /// Reads 32 bytes from the front of `input`.
    fn unpack_bytes32(input: &[u8]) -> (res: Result<([u8; 32], &[u8]), ProgramError>)
        ensures
            input@.len() < 32 ==> res == Err::<([u8; 32], &[u8]), ProgramError>(unpack_error()),
            input@.len() >= 32 ==> (res matches Ok((v, rest)) && v@ == input@.take(32) && rest@
                == input@.skip(32)),
    {
        if input.len() < 32 {
            return Err(BridgeError::InstructionUnpackError.to_program_error());
        }
        let (bytes, rest) = input.split_at(32);
        Ok((read_array32(bytes), rest))
    }

    /// Reads 65 bytes from the front of `input`.
    fn unpack_bytes65(input: &[u8]) -> (res: Result<([u8; 65], &[u8]), ProgramError>)
        ensures
            input@.len() < 65 ==> res == Err::<([u8; 65], &[u8]), ProgramError>(unpack_error()),
            input@.len() >= 65 ==> (res matches Ok((v, rest)) && v@ == input@.take(65) && rest@
                == input@.skip(65)),
    {
        if input.len() < 65 {
            return Err(BridgeError::InstructionUnpackError.to_program_error());
        }
        let (bytes, rest) = input.split_at(65);
        Ok((read_array65(bytes), rest))
    }

    /// Reads a flag byte from the front of `input`; both `0` and `1` read as `false`.
    fn unpack_bool(input: &[u8]) -> (res: Result<(bool, &[u8]), ProgramError>)
        ensures
            input@.len() < 1 ==> res == Err::<(bool, &[u8]), ProgramError>(unpack_error()),
            input@.len() >= 1 && input@[0] > 1 ==> res == Err::<(bool, &[u8]), ProgramError>(
                ProgramError::InvalidAccountData,
            ),
            input@.len() >= 1 && input@[0] <= 1 ==> (res matches Ok((v, rest)) && v == false
                && rest@ == input@.skip(1)),
    {
        let (value, rest) = match Self::unpack_u8(input) {
            Ok(p) => p,
            Err(e) => return Err(e),
        };
        match value {
            0 => Ok((false, rest)),
            1 => Ok((false, rest)),
            _ => Err(ProgramError::InvalidAccountData),
        }
    }
}


proof fn lemma_append_prefix(a: Seq<u8>, e: Seq<u8>, k: int)
    requires
        0 <= k <= a.len(),
    ensures
        (a + e).take(k) == a.take(k),
        (a + e).skip(k) == a.skip(k) + e,
{
    assert((a + e).take(k) =~= a.take(k));
    assert((a + e).skip(k) =~= a.skip(k) + e);
}

proof fn lemma_unshield_lists_ignore_trailing_bytes(r3: Seq<u8>, e: Seq<u8>, inst: Seq<char>, height: u64)
    requires
        spec_unpack_unshield_lists(r3, inst, height) is Ok,
    ensures
        spec_unpack_unshield_lists(r3 + e, inst, height) == spec_unpack_unshield_lists(r3, inst, height),
{
    lemma_append_prefix(r3, e, 1);
    let r4 = r3.skip(1);
    lemma_append_prefix(r4, e, 1);
    let n_paths = r3[0];
    if n_paths > 0 {
        lemma_append_prefix(r4, e, 32);
    }
    assert(repeat((r4 + e).take(32), n_paths as nat) =~= repeat(r4.take(32), n_paths as nat));
    let r5 = r4.skip(1);
    lemma_append_prefix(r5, e, 32);
    lemma_append_prefix(r5, e, 64);
    assert((r5 + e).subrange(32, 64) =~= r5.subrange(32, 64));
    let r7 = r5.skip(64);
    lemma_append_prefix(r7, e, 1);
    let r8 = r7.skip(1);
    lemma_append_prefix(r8, e, 1);
    let r9 = r8.skip(1);
    let n_sigs = r8[0];
    if n_sigs > 0 {
        lemma_append_prefix(r9, e, 65);
    }
    assert(repeat((r9 + e).take(65), n_sigs as nat) =~= repeat(r9.take(65), n_sigs as nat));
}

proof fn lemma_unshield_ignores_trailing_bytes(r0: Seq<u8>, e: Seq<u8>)
    requires
        spec_unpack_unshield(r0) is Ok,
    ensures
        spec_unpack_unshield(r0 + e) == spec_unpack_unshield(r0),
{
    lemma_append_prefix(r0, e, 1);
    let inst_len = r0[0] as int;
    let r1 = r0.skip(1);
    lemma_append_prefix(r1, e, inst_len);
    let r2 = r1.skip(inst_len);
    lemma_append_prefix(r2, e, 8);
    let r3 = r2.skip(8);
    lemma_unshield_lists_ignore_trailing_bytes(r3, e, lossy_text(r1.take(inst_len)), le_value(r2.take(8)) as u64);
}

/// Data that is empty or whose tag byte is neither 0 (shield) nor 1
/// (unshield) is refused with `InvalidInstruction`.
pub proof fn lemma_unpack_unknown_tag(input: Seq<u8>)
    requires
        input.len() == 0 || input[0] > 1,
    ensures
        spec_unpack(input) == Err::<InstructionView, ProgramError>(bridge_error(BridgeError::InvalidInstruction)),
{
}

/// A shield instruction is tag 0 followed by at least 156 bytes: the amount is
/// the little-endian value of bytes 1..9, and the address is the text of
/// bytes 9..157. Shorter data is refused with `InstructionUnpackError`.
pub proof fn lemma_unpack_shield_fields(input: Seq<u8>)
    requires
        input.len() > 0,
        input[0] == 0,
    ensures
        input.len() < 157 ==> spec_unpack(input) == Err::<InstructionView, ProgramError>(
            bridge_error(BridgeError::InstructionUnpackError),
        ),
        input.len() >= 157 ==> (spec_unpack(input) matches Ok(InstructionView::Shield { amount, inc_address })
            && amount as nat == le_value(input.subrange(1, 9))
            && inc_address == lossy_text(input.subrange(9, 157))),
{
    let r = input.drop_first();
    if input.len() >= 157 {
        assert(r.take(8) =~= input.subrange(1, 9));
        assert(r.subrange(8, 8 + INC_ADDRESS_LEN) =~= input.subrange(9, 157));
        crate::bytes::lemma_le_value_bound(input.subrange(1, 9));
        crate::bytes::lemma_byte_bound_8();
    }
}

/// The fields of a decoded unshield instruction, where `n` is the text length
/// at byte 1: the text is bytes `2 .. 2 + n`; the height is the little-endian
/// value of the 8 bytes after it; byte `10 + n` counts the paths, each the 32
/// bytes from `11 + n`; byte `11 + n` counts the left flags, all false; the
/// instruction root is bytes `12 + n .. 44 + n` and the block data bytes
/// `44 + n .. 76 + n`; byte `76 + n` counts the indexes, each byte `77 + n`;
/// and byte `77 + n` counts the signatures, each the 65 bytes from `78 + n`.
pub proof fn lemma_unpack_unshield_fields(input: Seq<u8>)
    requires
        spec_unpack(input) matches Ok(InstructionView::UnShield { .. }),
    ensures
        input[0] == 1,
        spec_unpack(input) matches Ok(InstructionView::UnShield { unshield_info: info }) && {
            let n = input[1] as int;
            &&& input.len() >= 78 + n
            &&& info.inst == lossy_text(input.subrange(2, 2 + n))
            &&& info.height as nat == le_value(input.subrange(2 + n, 10 + n))
            &&& info.inst_paths.len() == input[10 + n]
            &&& (forall|i: int| 0 <= i < info.inst_paths.len() ==> #[trigger] info.inst_paths[i]
                == input.subrange(11 + n, 43 + n))
            &&& info.inst_path_is_lefts.len() == input[11 + n]
            &&& (forall|i: int| 0 <= i < info.inst_path_is_lefts.len() ==> !#[trigger] info.inst_path_is_lefts[i])
            &&& info.inst_root == input.subrange(12 + n, 44 + n)
            &&& info.blk_data == input.subrange(44 + n, 76 + n)
            &&& info.indexes.len() == input[76 + n]
            &&& (forall|i: int| 0 <= i < info.indexes.len() ==> #[trigger] info.indexes[i] == input[77 + n])
            &&& info.signatures.len() == input[77 + n]
            &&& (forall|i: int| 0 <= i < info.signatures.len() ==> #[trigger] info.signatures[i]
                == input.subrange(78 + n, 143 + n))
        },
{
    let r0 = input.drop_first();
    let n = input[1] as int;
    let r1 = r0.skip(1);
    let r2 = r1.skip(n);
    let r3 = r2.skip(8);
    let r4 = r3.skip(1);
    let r5 = r4.skip(1);
    let r7 = r5.skip(64);
    let r8 = r7.skip(1);
    let r9 = r8.skip(1);
    assert(r1.take(n) =~= input.subrange(2, 2 + n));
    assert(r2.take(8) =~= input.subrange(2 + n, 10 + n));
    crate::bytes::lemma_le_value_bound(input.subrange(2 + n, 10 + n));
    crate::bytes::lemma_byte_bound_8();
    if r3[0] > 0 {
        assert(r4.take(32) =~= input.subrange(11 + n, 43 + n));
    }
    assert(r5.take(32) =~= input.subrange(12 + n, 44 + n));
    assert(r5.subrange(32, 64) =~= input.subrange(44 + n, 76 + n));
    if r8[0] > 0 {
        assert(r9.take(65) =~= input.subrange(78 + n, 143 + n));
    }
    assert(r3[0] == input[10 + n]);
    assert(r4[0] == input[11 + n]);
    assert(r7[0] == input[76 + n]);
    assert(r8[0] == input[77 + n]);
}

/// Bytes after the fields of an instruction are ignored: data that decodes
/// decodes to the same instruction with any bytes appended.
pub proof fn lemma_unpack_ignores_trailing_bytes(input: Seq<u8>, extra: Seq<u8>)
    requires
        spec_unpack(input) is Ok,
    ensures
        spec_unpack(input + extra) == spec_unpack(input),
{
    lemma_append_prefix(input, extra, 1);
    assert((input + extra).drop_first() =~= input.drop_first() + extra);
    assert((input + extra)[0] == input[0]);
    let r = input.drop_first();
    if input[0] == 0 {
        lemma_append_prefix(r, extra, 8);
        lemma_append_prefix(r, extra, 8 + INC_ADDRESS_LEN);
        assert((r + extra).subrange(8, 8 + INC_ADDRESS_LEN) =~= r.subrange(8, 8 + INC_ADDRESS_LEN));
    } else {
        lemma_unshield_ignores_trailing_bytes(r, extra);
    }
}

} // verus!
