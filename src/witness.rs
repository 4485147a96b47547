//! The root witness (MMR size and root) and the packed leaves witness.

use vstd::prelude::*;
use crate::hash::{lemma_pack_unpack, pack_spec, unpack_spec, CodecError, FixedHash, MAX_PACKED_LEN};

verus! {

/// Length in bytes of a root witness: an 8-byte size, then a 32-byte root.
pub const ROOT_WITNESS_LEN: usize = 40;

/// The unsigned integer whose little-endian bytes are `b[0..8]`.
pub open spec fn le_u64(b: Seq<u8>) -> u64
    recommends
        b.len() >= 8,
{
    (b[0] as u64) | ((b[1] as u64) << 8u64) | ((b[2] as u64) << 16u64) | ((b[3] as u64) << 24u64)
        | ((b[4] as u64) << 32u64) | ((b[5] as u64) << 40u64) | ((b[6] as u64) << 48u64) | ((
    b[7] as u64) << 56u64)
}

/// The eight little-endian bytes of `v`.
pub open spec fn u64_le_bytes(v: u64) -> Seq<u8> {
    seq![
        (v & 0xff) as u8,
        ((v >> 8u64) & 0xff) as u8,
        ((v >> 16u64) & 0xff) as u8,
        ((v >> 24u64) & 0xff) as u8,
        ((v >> 32u64) & 0xff) as u8,
        ((v >> 40u64) & 0xff) as u8,
        ((v >> 48u64) & 0xff) as u8,
        ((v >> 56u64) & 0xff) as u8,
    ]
}

/// Reading back the little-endian bytes of an integer gives the integer.
pub proof fn lemma_le_u64_round_trip(v: u64, rest: Seq<u8>)
    ensures
        le_u64(u64_le_bytes(v) + rest) == v,
{
    let b = u64_le_bytes(v) + rest;
    let b0 = (v & 0xff) as u8;
    let b1 = ((v >> 8u64) & 0xff) as u8;
    let b2 = ((v >> 16u64) & 0xff) as u8;
    let b3 = ((v >> 24u64) & 0xff) as u8;
    let b4 = ((v >> 32u64) & 0xff) as u8;
    let b5 = ((v >> 40u64) & 0xff) as u8;
    let b6 = ((v >> 48u64) & 0xff) as u8;
    let b7 = ((v >> 56u64) & 0xff) as u8;
    assert(b[0] == b0 && b[1] == b1 && b[2] == b2 && b[3] == b3 && b[4] == b4 && b[5] == b5
        && b[6] == b6 && b[7] == b7);
    assert((b0 as u64) | ((b1 as u64) << 8u64) | ((b2 as u64) << 16u64) | ((b3 as u64) << 24u64)
        | ((b4 as u64) << 32u64) | ((b5 as u64) << 40u64) | ((b6 as u64) << 48u64) | ((
    b7 as u64) << 56u64) == v) by (bit_vector)
        requires
            b0 == (v & 0xff) as u8,
            b1 == ((v >> 8u64) & 0xff) as u8,
            b2 == ((v >> 16u64) & 0xff) as u8,
            b3 == ((v >> 24u64) & 0xff) as u8,
            b4 == ((v >> 32u64) & 0xff) as u8,
            b5 == ((v >> 40u64) & 0xff) as u8,
            b6 == ((v >> 48u64) & 0xff) as u8,
            b7 == ((v >> 56u64) & 0xff) as u8,
    ;
}

/// Reads the little-endian integer in `b[start..start + 8]`.
fn read_le_u64(b: &[u8], start: usize) -> (r: u64)
    requires
        start + 8 <= b@.len(),
    ensures
        r == le_u64(b@.subrange(start as int, b@.len() as int)),
{
    let ghost s = b@.subrange(start as int, b@.len() as int);
    assert(s[0] == b@[start as int] && s[1] == b@[start + 1] && s[2] == b@[start + 2] && s[3]
        == b@[start + 3] && s[4] == b@[start + 4] && s[5] == b@[start + 5] && s[6] == b@[start
        + 6] && s[7] == b@[start + 7]);
    (b[start] as u64) | ((b[start + 1] as u64) << 8u64) | ((b[start + 2] as u64) << 16u64) | ((
    b[start + 3] as u64) << 24u64) | ((b[start + 4] as u64) << 32u64) | ((b[start + 5] as u64)
        << 40u64) | ((b[start + 6] as u64) << 48u64) | ((b[start + 7] as u64) << 56u64)
}

/// Appends the little-endian bytes of `v` to `out`.
fn push_le_u64(out: &mut Vec<u8>, v: u64)
    ensures
        final(out)@ == old(out)@ + u64_le_bytes(v),
{
    out.push((v & 0xff) as u8);
    out.push(((v >> 8u64) & 0xff) as u8);
    out.push(((v >> 16u64) & 0xff) as u8);
    out.push(((v >> 24u64) & 0xff) as u8);
    out.push(((v >> 32u64) & 0xff) as u8);
    out.push(((v >> 40u64) & 0xff) as u8);
    out.push(((v >> 48u64) & 0xff) as u8);
    out.push(((v >> 56u64) & 0xff) as u8);
    assert(out@ =~= old(out)@ + u64_le_bytes(v));
}

/// Appends `src` to `out`.
fn push_all(out: &mut Vec<u8>, src: &[u8])
    ensures
        final(out)@ == old(out)@ + src@,
{
    let mut i: usize = 0;
    while i < src.len()
        invariant
            i <= src@.len(),
            out@ == old(out)@ + src@.subrange(0, i as int),
        decreases src@.len() - i,
    {
        out.push(src[i]);
        i = i + 1;
        assert(out@ =~= old(out)@ + src@.subrange(0, i as int));
    }
    assert(src@.subrange(0, src@.len() as int) =~= src@);
}

/// Decodes a root witness: exactly 40 bytes, the little-endian MMR size in the
/// first 8 and the root in the last 32. Any other length is refused.
pub fn parse_root_witness(buf: &[u8]) -> (r: Option<(u64, FixedHash)>)
    ensures
        r is None <==> buf@.len() != ROOT_WITNESS_LEN,
        r matches Some((size, root)) ==> size == le_u64(buf@) && root@ == buf@.subrange(8, 40),
{
    if buf.len() != ROOT_WITNESS_LEN {
        return None;
    }
    let size = read_le_u64(buf, 0);
    assert(buf@.subrange(0, buf@.len() as int) =~= buf@);
    let mut root: Vec<u8> = Vec::with_capacity(32);
    let mut i: usize = 8;
    while i < ROOT_WITNESS_LEN
        invariant
            buf@.len() == ROOT_WITNESS_LEN,
            8 <= i <= ROOT_WITNESS_LEN,
            root@ == buf@.subrange(8, i as int),
        decreases ROOT_WITNESS_LEN - i,
    {
        root.push(buf[i]);
        i = i + 1;
        assert(root@ =~= buf@.subrange(8, i as int));
    }
    Some((size, FixedHash(root)))
}

/// Encodes a root witness: the little-endian MMR size followed by the 32-byte root.
pub fn encode_root_witness(mmr_size: u64, root: &FixedHash) -> (r: Vec<u8>)
    requires
        root@.len() == 32,
    ensures
        r@ == u64_le_bytes(mmr_size) + root@,
        r@.len() == ROOT_WITNESS_LEN,
{
    let mut out: Vec<u8> = Vec::with_capacity(ROOT_WITNESS_LEN);
    push_le_u64(&mut out, mmr_size);
    push_all(&mut out, root.0.as_slice());
    assert(out@ =~= u64_le_bytes(mmr_size) + root@);
    out
}

/// Encoding a root witness and decoding it gives back the size and the root.
pub proof fn lemma_root_witness_round_trip(mmr_size: u64, root: Seq<u8>)
    requires
        root.len() == 32,
    ensures
        (u64_le_bytes(mmr_size) + root).len() == ROOT_WITNESS_LEN,
        le_u64(u64_le_bytes(mmr_size) + root) == mmr_size,
        (u64_le_bytes(mmr_size) + root).subrange(8, 40) == root,
{
    lemma_le_u64_round_trip(mmr_size, root);
    assert((u64_le_bytes(mmr_size) + root).subrange(8, 40) =~= root);
}

/// The wire form of one leaf: its little-endian position, then its packed hash.
pub open spec fn pack_leaf_spec(pos: u64, h: Seq<u8>) -> Seq<u8> {
    u64_le_bytes(pos) + pack_spec(h)
}

/// Reads one leaf from the front of `data`: its position and hash, and the
/// number of bytes it took; `None` when `data` ends too early.
pub open spec fn unpack_leaf_spec(data: Seq<u8>) -> Option<((u64, Seq<u8>), nat)> {
    if data.len() < 8 {
        None
    } else {
        match unpack_spec(data.subrange(8, data.len() as int)) {
            None => None,
            Some((h, n)) => Some(((le_u64(data), h), 8 + n)),
        }
    }
}

/// The leaves that a packed leaves buffer holds, front to back, or `None` when
/// some leaf in it is cut short.
pub open spec fn decode_leaves_spec(data: Seq<u8>) -> Option<Seq<(u64, Seq<u8>)>>
    decreases data.len(),
{
    if data.len() == 0 {
        Some(Seq::empty())
    } else {
        match unpack_leaf_spec(data) {
            None => None,
            Some((leaf, n)) => if 0 < n <= data.len() {
                match decode_leaves_spec(data.subrange(n as int, data.len() as int)) {
                    None => None,
                    Some(rest) => Some(seq![leaf] + rest),
                }
            } else {
                None
            },
        }
    }
}

/// The wire forms of `leaves`, concatenated in order.
pub open spec fn concat_leaves(leaves: Seq<(u64, Seq<u8>)>) -> Seq<u8>
    decreases leaves.len(),
{
    if leaves.len() == 0 {
        Seq::empty()
    } else {
        pack_leaf_spec(leaves[0].0, leaves[0].1) + concat_leaves(
            leaves.subrange(1, leaves.len() as int),
        )
    }
}

/// The positions and byte views of a sequence of leaves.
pub open spec fn leaf_views(ls: Seq<(u64, FixedHash)>) -> Seq<(u64, Seq<u8>)> {
    ls.map_values(|l: (u64, FixedHash)| (l.0, l.1@))
}

/// Whether every leaf's hash fits the two-byte length prefix.
pub open spec fn leaves_packable(ls: Seq<(u64, Seq<u8>)>) -> bool {
    forall|i: int| 0 <= i < ls.len() ==> (#[trigger] ls[i]).1.len() <= MAX_PACKED_LEN
}

proof fn lemma_concat_leaves_push(ls: Seq<(u64, Seq<u8>)>, x: (u64, Seq<u8>))
    ensures
        concat_leaves(ls.push(x)) == concat_leaves(ls) + pack_leaf_spec(x.0, x.1),
    decreases ls.len(),
{
    if ls.len() == 0 {
        assert(ls.push(x).subrange(1, 1) =~= Seq::<(u64, Seq<u8>)>::empty());
        assert(concat_leaves(ls.push(x).subrange(1, 1)) =~= Seq::<u8>::empty());
        assert(ls.push(x)[0] == x);
        assert(concat_leaves(ls.push(x)) =~= pack_leaf_spec(x.0, x.1));
    } else {
        let tail = ls.subrange(1, ls.len() as int);
        assert(ls.push(x).subrange(1, ls.len() + 1 as int) =~= tail.push(x));
        lemma_concat_leaves_push(tail, x);
        assert(concat_leaves(ls.push(x)) =~= concat_leaves(ls) + pack_leaf_spec(x.0, x.1));
    }
}

proof fn lemma_unpack_leaf_front(pos: u64, h: Seq<u8>, rest: Seq<u8>)
    requires
        h.len() <= MAX_PACKED_LEN,
    ensures
        unpack_leaf_spec(pack_leaf_spec(pos, h) + rest) == Some(((pos, h), 8 + h.len() + 2)),
        (pack_leaf_spec(pos, h) + rest).subrange(
            (8 + h.len() + 2) as int,
            (pack_leaf_spec(pos, h) + rest).len() as int,
        ) == rest,
{
    let d = pack_leaf_spec(pos, h) + rest;
    lemma_le_u64_round_trip(pos, pack_spec(h) + rest);
    assert(d =~= u64_le_bytes(pos) + (pack_spec(h) + rest));
    assert(d.subrange(8, d.len() as int) =~= pack_spec(h) + rest);
    lemma_pack_unpack(h, rest);
    assert(d.subrange((8 + h.len() + 2) as int, d.len() as int) =~= rest);
}

/// Packing leaves whose hashes each fit the prefix, and decoding the result,
/// gives back the same positions and hashes in the same order.
pub proof fn lemma_leaves_round_trip(ls: Seq<(u64, Seq<u8>)>)
    requires
        leaves_packable(ls),
    ensures
        decode_leaves_spec(concat_leaves(ls)) == Some(ls),
    decreases ls.len(),
{
    if ls.len() > 0 {
        let tail = ls.subrange(1, ls.len() as int);
        let rest = concat_leaves(tail);
        assert(leaves_packable(tail)) by {
            assert forall|i: int| 0 <= i < tail.len() implies (#[trigger] tail[i]).1.len()
                <= MAX_PACKED_LEN by {
                assert(tail[i] == ls[i + 1]);
            }
        }
        assert(ls[0].1.len() <= MAX_PACKED_LEN);
        lemma_unpack_leaf_front(ls[0].0, ls[0].1, rest);
        lemma_leaves_round_trip(tail);
        assert(seq![ls[0]] + tail =~= ls);
    }
}

/// Packs leaves as consecutive (position, packed hash) entries. Fails when some
/// hash is longer than 65535 bytes.
pub fn pack_leaves(leaves: &Vec<(u64, FixedHash)>) -> (r: Result<Vec<u8>, CodecError>)
    ensures
        match r {
            Ok(out) => leaves_packable(leaf_views(leaves@)) && out@ == concat_leaves(
                leaf_views(leaves@),
            ),
            Err(_) => !leaves_packable(leaf_views(leaves@)),
        },
{
    let mut out: Vec<u8> = Vec::new();
    let mut i: usize = 0;
    while i < leaves.len()
        invariant
            i <= leaves@.len(),
            leaves_packable(leaf_views(leaves@).subrange(0, i as int)),
            out@ == concat_leaves(leaf_views(leaves@).subrange(0, i as int)),
        decreases leaves@.len() - i,
    {
        let ghost prefix = leaf_views(leaves@).subrange(0, i as int);
        let ghost lv = leaf_views(leaves@)[i as int];
        let (pos, h) = &leaves[i];
        match h.pack() {
            Ok(p) => {
                push_le_u64(&mut out, *pos);
                push_all(&mut out, p.as_slice());
                proof {
                    lemma_concat_leaves_push(prefix, lv);
                    assert(leaf_views(leaves@).subrange(0, i + 1) =~= prefix.push(lv));
                }
            },
            Err(e) => {
                return Err(e);
            },
        }
        i = i + 1;
    }
    assert(leaf_views(leaves@).subrange(0, i as int) =~= leaf_views(leaves@));
    Ok(out)
}

/// Decodes a packed leaves buffer: every (position, hash) entry in `data`, in
/// order. Fails when some entry is cut short.
pub fn decode_leaves(data: &[u8]) -> (r: Result<Vec<(u64, FixedHash)>, CodecError>)
    ensures
        match decode_leaves_spec(data@) {
            None => r is Err,
            Some(ls) => r matches Ok(v) && leaf_views(v@) == ls,
        },
{
    let mut out: Vec<(u64, FixedHash)> = Vec::new();
    let mut idx: usize = 0;
    assert(data@.subrange(0, data@.len() as int) =~= data@);
    assert(leaf_views(out@) =~= Seq::<(u64, Seq<u8>)>::empty());
    proof {
        if let Some(rest) = decode_leaves_spec(data@) {
            assert(leaf_views(out@) + rest =~= rest);
        }
    }
    while idx < data.len()
        invariant
            idx <= data@.len(),
            decode_leaves_spec(data@) == match decode_leaves_spec(
                data@.subrange(idx as int, data@.len() as int),
            ) {
                None => None,
                Some(rest) => Some(leaf_views(out@) + rest),
            },
        decreases data@.len() - idx,
    {
        let ghost before = data@.subrange(idx as int, data@.len() as int);
        if data.len() - idx < 8 {
            return Err(CodecError::UnpackEof);
        }
        let pos = read_le_u64(data, idx);
        let rest = &data[idx + 8..data.len()];
        assert(rest@ =~= before.subrange(8, before.len() as int));
        let (h, n) = match FixedHash::unpack(rest) {
            Ok(x) => x,
            Err(e) => {
                return Err(e);
            },
        };
        let ghost old_out = out@;
        let ghost leaf = (pos, h@);
        out.push((pos, h));
        proof {
            assert(before.subrange(0, before.len() as int) =~= before);
            assert(data@.subrange(idx as int, data@.len() as int).subrange(0, data@.len() - idx)
                =~= before);
            assert(unpack_leaf_spec(before) == Some((leaf, 8 + n as nat)));
            assert(before.subrange(8 + n, before.len() as int) =~= data@.subrange(
                idx + 8 + n,
                data@.len() as int,
            ));
            assert(leaf_views(out@) =~= leaf_views(old_out) + seq![leaf]);
            match decode_leaves_spec(data@.subrange(idx + 8 + n, data@.len() as int)) {
                None => {},
                Some(tail) => {
                    assert(leaf_views(old_out) + (seq![leaf] + tail) =~= leaf_views(out@)
                        + tail);
                },
            }
        }
        idx = idx + 8 + n;
    }
    assert(leaf_views(out@) + Seq::<(u64, Seq<u8>)>::empty() =~= leaf_views(out@));
    Ok(out)
}

} // verus!
