//! What a verifier script makes of its three witnesses before the proof check.

use vstd::prelude::*;
use crate::hash::{FixedHash, TaggedHash};
use crate::packed::{decode_items, decode_proof_items, views};
use crate::witness::{
    decode_leaves, decode_leaves_spec, leaf_views, le_u64, parse_root_witness, ROOT_WITNESS_LEN,
};

verus! {

/// Capacity in bytes of the buffers that a verifier loads the proof and the
/// leaves into.
pub const WITNESS_BUFFER_LEN: usize = 32768;

/// Why a verifier's witnesses cannot be checked.
#[derive(Debug, Clone, Copy, PartialEq, Eq, Structural)]
pub enum InputError {
    /// The root witness is not exactly 40 bytes long.
    RootLength,
    /// The proof or the leaves witness holds a value that is cut short.
    Malformed,
}

/// The decoded witnesses of the reference verifier.
pub struct ReferenceInputs {
    pub mmr_size: u64,
    pub root: FixedHash,
    pub proof_items: Vec<FixedHash>,
    pub leaves: Vec<(u64, FixedHash)>,
}

/// Decodes the reference verifier's witnesses: the 40-byte root witness, the raw
/// proof and the packed leaves. A root witness of any other length is refused
/// first; then a proof or leaves buffer with a value cut short.
pub fn decode_reference_inputs(root_buf: &[u8], proof_buf: &[u8], leaves_buf: &[u8]) -> (r:
    Result<ReferenceInputs, InputError>)
    ensures
        root_buf@.len() != ROOT_WITNESS_LEN <==> r == Err::<ReferenceInputs, InputError>(
            InputError::RootLength,
        ),
        root_buf@.len() == ROOT_WITNESS_LEN ==> (r == Err::<ReferenceInputs, InputError>(
            InputError::Malformed) <==> (decode_items(proof_buf@) is None || decode_leaves_spec(
            leaves_buf@,
        ) is None)),
        r matches Ok(inp) ==> inp.mmr_size == le_u64(root_buf@) && inp.root@ == root_buf@.subrange(
            8,
            40,
        ) && decode_items(proof_buf@) == Some(views(inp.proof_items@)) && decode_leaves_spec(
            leaves_buf@,
        ) == Some(leaf_views(inp.leaves@)),
{
    let (mmr_size, root) = match parse_root_witness(root_buf) {
        Some(x) => x,
        None => {
            return Err(InputError::RootLength);
        },
    };
    let leaves = match decode_leaves(leaves_buf) {
        Ok(l) => l,
        Err(_) => {
            return Err(InputError::Malformed);
        },
    };
    let proof_items = match decode_proof_items(proof_buf) {
        Ok(p) => p,
        Err(_) => {
            return Err(InputError::Malformed);
        },
    };
    Ok(ReferenceInputs { mmr_size, root, proof_items, leaves })
}

/// Decodes a root witness into the MMR size and the root in the inline form.
/// Any length but 40 is refused.
pub fn parse_tagged_root_witness(buf: &[u8]) -> (r: Option<(u64, TaggedHash)>)
    ensures
        r is None <==> buf@.len() != ROOT_WITNESS_LEN,
        r matches Some((size, root)) ==> size == le_u64(buf@) && root is Fixed && root@
            == buf@.subrange(8, 40),
{
    match parse_root_witness(buf) {
        Some((size, root)) => Some((size, TaggedHash::from_fixed(root.0.as_slice()))),
        None => None,
    }
}

} // verus!
