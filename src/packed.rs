//! The raw proof: packed hash values laid end to end, read until the buffer ends.

use vstd::prelude::*;
use crate::hash::{lemma_pack_unpack, pack_spec, unpack_spec, CodecError, FixedHash, MAX_PACKED_LEN};

verus! {

/// The values that a buffer of packed hash values holds, front to back, or
/// `None` when some value in it is cut short.
pub open spec fn decode_items(data: Seq<u8>) -> Option<Seq<Seq<u8>>>
    decreases data.len(),
{
    if data.len() == 0 {
        Some(Seq::empty())
    } else {
        match unpack_spec(data) {
            None => None,
            Some((h, n)) => if 0 < n <= data.len() {
                match decode_items(data.subrange(n as int, data.len() as int)) {
                    None => None,
                    Some(rest) => Some(seq![h] + rest),
                }
            } else {
                None
            },
        }
    }
}

/// The packed forms of `items`, concatenated in order.
pub open spec fn concat_packed(items: Seq<Seq<u8>>) -> Seq<u8>
    decreases items.len(),
{
    if items.len() == 0 {
        Seq::empty()
    } else {
        pack_spec(items[0]) + concat_packed(items.subrange(1, items.len() as int))
    }
}

/// The byte views of a sequence of hash values.
pub open spec fn views(hs: Seq<FixedHash>) -> Seq<Seq<u8>> {
    hs.map_values(|h: FixedHash| h@)
}

/// Whether every value fits the two-byte length prefix.
pub open spec fn all_packable(items: Seq<Seq<u8>>) -> bool {
    forall|i: int| 0 <= i < items.len() ==> (#[trigger] items[i]).len() <= MAX_PACKED_LEN
}

proof fn lemma_concat_push(items: Seq<Seq<u8>>, x: Seq<u8>)
    ensures
        concat_packed(items.push(x)) == concat_packed(items) + pack_spec(x),
    decreases items.len(),
{
    if items.len() == 0 {
        assert(items.push(x).subrange(1, 1) =~= Seq::<Seq<u8>>::empty());
        assert(concat_packed(items.push(x).subrange(1, 1)) =~= Seq::<u8>::empty());
        assert(items.push(x)[0] == x);
        assert(concat_packed(items.push(x)) =~= pack_spec(x));
    } else {
        let tail = items.subrange(1, items.len() as int);
        assert(items.push(x).subrange(1, items.len() + 1 as int) =~= tail.push(x));
        lemma_concat_push(tail, x);
        assert(concat_packed(items.push(x)) =~= concat_packed(items) + pack_spec(x));
    }
}

/// Concatenating the packed forms of values that each fit the prefix, and
/// decoding the result, gives back the same values in the same order.
pub proof fn lemma_items_round_trip(items: Seq<Seq<u8>>)
    requires
        all_packable(items),
    ensures
        decode_items(concat_packed(items)) == Some(items),
    decreases items.len(),
{
    if items.len() > 0 {
        let tail = items.subrange(1, items.len() as int);
        let d = concat_packed(items);
        let rest = concat_packed(tail);
        assert(all_packable(tail)) by {
            assert forall|i: int| 0 <= i < tail.len() implies (#[trigger] tail[i]).len()
                <= MAX_PACKED_LEN by {
                assert(tail[i] == items[i + 1]);
            }
        }
        assert(items[0].len() <= MAX_PACKED_LEN);
        lemma_pack_unpack(items[0], rest);
        lemma_items_round_trip(tail);
        let n = items[0].len() + 2;
        assert(d.subrange(n as int, d.len() as int) =~= rest);
        assert(seq![items[0]] + tail =~= items);
    }
}

/// A reader of packed hash values over a byte buffer, front to back.
pub struct PackedProofs<'a> {
    index: usize,
    data: &'a [u8],
}

impl<'a> PackedProofs<'a> {
    /// The bytes being read.
    pub closed spec fn bytes(&self) -> Seq<u8> {
        self.data@
    }

    /// How many bytes have been read.
    pub closed spec fn position(&self) -> nat {
        self.index as nat
    }

    /// The bytes not yet read.
    pub open spec fn remaining(&self) -> Seq<u8> {
        self.bytes().subrange(self.position() as int, self.bytes().len() as int)
    }

    /// Whether the position lies within the buffer.
    pub open spec fn wf(&self) -> bool {
        self.position() <= self.bytes().len()
    }

    /// A reader at the start of `data`.
    pub fn new(data: &'a [u8]) -> (r: Self)
        ensures
            r.bytes() == data@,
            r.position() == 0,
            r.wf(),
    {
        PackedProofs { index: 0, data }
    }

    /// The next value: `None` at the end of the buffer; an error, with the
    /// position left as it was, when the value there is cut short; else the
    /// value, with the position moved past it.
    pub fn next(&mut self) -> (r: Option<Result<FixedHash, CodecError>>)
        requires
            old(self).wf(),
        ensures
            final(self).wf(),
            final(self).bytes() == old(self).bytes(),
            old(self).remaining().len() == 0 ==> r is None && final(self).position()
                == old(self).position(),
            old(self).remaining().len() > 0 ==> match unpack_spec(old(self).remaining()) {
                None => r matches Some(Err(_)) && final(self).position() == old(self).position(),
                Some((h, n)) => r matches Some(Ok(v)) && v@ == h && final(self).position()
                    == old(self).position() + n,
            },
    {
        if self.index >= self.data.len() {
            return None;
        }
        let rest = &self.data[self.index..self.data.len()];
        match FixedHash::unpack(rest) {
            Ok((item, size)) => {
                self.index = self.index + size;
                Some(Ok(item))
            },
            Err(e) => Some(Err(e)),
        }
    }
}

/// Decodes a raw proof: every packed hash value in `data`, in order. Fails when
/// some value is cut short.
pub fn decode_proof_items(data: &[u8]) -> (r: Result<Vec<FixedHash>, CodecError>)
    ensures
        match decode_items(data@) {
            None => r is Err,
            Some(items) => r matches Ok(v) && views(v@) == items,
        },
{
    let mut reader = PackedProofs::new(data);
    let mut out: Vec<FixedHash> = Vec::new();
    assert(reader.remaining() =~= data@);
    assert(views(out@) =~= Seq::<Seq<u8>>::empty());
    proof {
        if let Some(rest) = decode_items(data@) {
            assert(views(out@) + rest =~= rest);
        }
    }
    loop
        invariant
            reader.wf(),
            reader.bytes() == data@,
            decode_items(data@) == match decode_items(reader.remaining()) {
                None => None,
                Some(rest) => Some(views(out@) + rest),
            },
        decreases reader.remaining().len(),
    {
        let ghost before = reader.remaining();
        let ghost pos = reader.position();
        proof {
            if before.len() > 0 {
                if let Some((h, n)) = unpack_spec(before) {
                    assert(before.subrange(n as int, before.len() as int) =~= data@.subrange(
                        (pos + n) as int,
                        data@.len() as int,
                    ));
                }
            }
        }
        match reader.next() {
            None => {
                assert(views(out@) + Seq::<Seq<u8>>::empty() =~= views(out@));
                return Ok(out);
            },
            Some(Err(e)) => {
                return Err(e);
            },
            Some(Ok(item)) => {
                let ghost old_out = out@;
                out.push(item);
                proof {
                    let (h, n) = unpack_spec(before).unwrap();
                    assert(views(out@) =~= views(old_out) + seq![h]);
                    match decode_items(reader.remaining()) {
                        None => {},
                        Some(rest) => {
                            assert(views(old_out) + (seq![h] + rest) =~= views(out@) + rest);
                        },
                    }
                }
            },
        }
    }
}

/// Packs each proof item and concatenates the results in order: the raw proof.
/// Fails when some item is longer than 65535 bytes.
pub fn pack_proof_items(items: &Vec<FixedHash>) -> (r: Result<Vec<u8>, CodecError>)
    ensures
        match r {
            Ok(out) => all_packable(views(items@)) && out@ == concat_packed(views(items@)),
            Err(_) => !all_packable(views(items@)),
        },
{
    let mut out: Vec<u8> = Vec::new();
    let mut i: usize = 0;
    while i < items.len()
        invariant
            i <= items@.len(),
            all_packable(views(items@).subrange(0, i as int)),
            out@ == concat_packed(views(items@).subrange(0, i as int)),
        decreases items@.len() - i,
    {
        let ghost prefix = views(items@).subrange(0, i as int);
        match items[i].pack() {
            Ok(p) => {
                let mut j: usize = 0;
                let ghost start = out@;
                while j < p.len()
                    invariant
                        j <= p@.len(),
                        out@ == start + p@.subrange(0, j as int),
                    decreases p@.len() - j,
                {
                    out.push(p[j]);
                    j = j + 1;
                    assert(out@ =~= start + p@.subrange(0, j as int));
                }
                assert(p@.subrange(0, p@.len() as int) =~= p@);
                proof {
                    lemma_concat_push(prefix, items@[i as int]@);
                    assert(views(items@).subrange(0, i + 1) =~= prefix.push(items@[i as int]@));
                }
            },
            Err(e) => {
                assert(views(items@)[i as int] == items@[i as int]@);
                return Err(e);
            },
        }
        i = i + 1;
    }
    assert(views(items@).subrange(0, i as int) =~= views(items@));
    Ok(out)
}

} // verus!
