//! Hash values and their length-prefixed wire form.

use vstd::prelude::*;

verus! {

/// Largest byte length that fits the two-byte length prefix.
pub const MAX_PACKED_LEN: usize = 65535;

/// Error raised when a hash value cannot be packed or unpacked.
#[derive(Debug, Clone, Copy, PartialEq, Eq, Structural)]
pub enum CodecError {
    /// The input ended before a complete value, or a value is too long to pack.
    UnpackEof,
}

/// The length encoded by the two-byte little-endian prefix of `data`.
pub open spec fn prefix_len(data: Seq<u8>) -> nat
    recommends
        data.len() >= 2,
{
    data[0] as nat + 256 * data[1] as nat
}

/// The wire form of a hash value: two little-endian length bytes, then the bytes.
pub open spec fn pack_spec(h: Seq<u8>) -> Seq<u8> {
    seq![(h.len() % 256) as u8, (h.len() / 256) as u8] + h
}

/// Reads one length-prefixed value from the front of `data`: the value and the
/// number of bytes it took, or `None` when `data` ends too early.
pub open spec fn unpack_spec(data: Seq<u8>) -> Option<(Seq<u8>, nat)> {
    if data.len() < 2 || data.len() < 2 + prefix_len(data) {
        None
    } else {
        Some((data.subrange(2, 2 + prefix_len(data) as int), 2 + prefix_len(data)))
    }
}

/// Packing a value of at most 65535 bytes and unpacking the result, whatever
/// follows it, gives back the same bytes and consumes exactly two more bytes
/// than the value holds.
pub proof fn lemma_pack_unpack(h: Seq<u8>, rest: Seq<u8>)
    requires
        h.len() <= MAX_PACKED_LEN,
    ensures
        unpack_spec(pack_spec(h) + rest) == Some((h, h.len() + 2)),
{
    let d = pack_spec(h) + rest;
    assert(prefix_len(d) == h.len());
    assert(d.subrange(2, 2 + h.len() as int) =~= h);
}

/// Copies `data[start..end]` into a new vector.
fn copy_range(data: &[u8], start: usize, end: usize) -> (r: Vec<u8>)
    requires
        start <= end <= data@.len(),
    ensures
        r@ == data@.subrange(start as int, end as int),
{
    let mut r: Vec<u8> = Vec::with_capacity(end - start);
    let mut i: usize = start;
    while i < end
        invariant
            start <= i <= end <= data@.len(),
            r@ == data@.subrange(start as int, i as int),
        decreases end - i,
    {
        r.push(data[i]);
        i = i + 1;
        assert(r@ =~= data@.subrange(start as int, i as int));
    }
    r
}

/// Packs `bytes` into its wire form, failing when it is longer than 65535 bytes.
fn pack_bytes(bytes: &[u8]) -> (r: Result<Vec<u8>, CodecError>)
    ensures
        match r {
            Ok(out) => bytes@.len() <= MAX_PACKED_LEN && out@ == pack_spec(bytes@),
            Err(_) => bytes@.len() > MAX_PACKED_LEN,
        },
{
    let n = bytes.len();
    if n > MAX_PACKED_LEN {
        return Err(CodecError::UnpackEof);
    }
    let mut out: Vec<u8> = Vec::with_capacity(n + 2);
    out.push((n % 256) as u8);
    out.push((n / 256) as u8);
    let ghost head = out@;
    let mut i: usize = 0;
    while i < n
        invariant
            n == bytes@.len(),
            i <= n,
            head == seq![(n % 256) as u8, (n / 256) as u8],
            out@ == head + bytes@.subrange(0, i as int),
        decreases n - i,
    {
        out.push(bytes[i]);
        i = i + 1;
        assert(out@ =~= head + bytes@.subrange(0, i as int));
    }
    assert(bytes@.subrange(0, n as int) =~= bytes@);
    Ok(out)
}

/// Reads one length-prefixed value from the front of `data`.
fn unpack_bytes(data: &[u8]) -> (r: Result<(Vec<u8>, usize), CodecError>)
    ensures
        match unpack_spec(data@) {
            None => r is Err,
            Some((h, n)) => r matches Ok((v, m)) && v@ == h && m == n,
        },
{
    if data.len() < 2 {
        return Err(CodecError::UnpackEof);
    }
    let len = data[0] as usize + 256 * (data[1] as usize);
    if data.len() - 2 < len {
        return Err(CodecError::UnpackEof);
    }
    let v = copy_range(data, 2, 2 + len);
    Ok((v, 2 + len))
}

/// A hash value held as a heap vector of bytes.
#[derive(Clone, Debug, PartialEq)]
pub struct FixedHash(pub Vec<u8>);

impl View for FixedHash {
    type V = Seq<u8>;

    open spec fn view(&self) -> Seq<u8> {
        self.0@
    }
}

impl FixedHash {
    /// The bytes of the value.
    pub fn as_bytes(&self) -> (r: &[u8])
        ensures
            r@ == self@,
    {
        self.0.as_slice()
    }

    /// Packs the value into its wire form; fails when it is longer than 65535 bytes.
    pub fn pack(&self) -> (r: Result<Vec<u8>, CodecError>)
        ensures
            match r {
                Ok(out) => self@.len() <= MAX_PACKED_LEN && out@ == pack_spec(self@),
                Err(_) => self@.len() > MAX_PACKED_LEN,
            },
    {
        pack_bytes(self.as_bytes())
    }

    /// Reads one value from the front of `data`, with the number of bytes it took.
    /// Fails when fewer than two bytes remain, or fewer than the prefix announces.
    pub fn unpack(data: &[u8]) -> (r: Result<(FixedHash, usize), CodecError>)
        ensures
            match unpack_spec(data@) {
                None => r is Err,
                Some((h, n)) => r matches Ok((v, m)) && v@ == h && m == n,
            },
    {
        match unpack_bytes(data) {
            Ok((v, n)) => Ok((FixedHash(v), n)),
            Err(e) => Err(e),
        }
    }
}


/// A hash value held either inline as exactly 32 bytes or on the heap at any
/// other length. The two forms share one wire encoding.
#[derive(Clone, Debug)]
pub enum TaggedHash {
    Fixed(Box<[u8; 32]>),
    Dynamic(Vec<u8>),
}

impl View for TaggedHash {
    type V = Seq<u8>;

    open spec fn view(&self) -> Seq<u8> {
        match self {
            TaggedHash::Fixed(d) => d@,
            TaggedHash::Dynamic(d) => d@,
        }
    }
}

/// Whichever form holds the bytes, a tagged hash packs as its bytes do, so two
/// tagged hashes with the same bytes have the same wire form.
pub proof fn lemma_tag_transparent(a: TaggedHash, b: TaggedHash)
    requires
        a@ == b@,
    ensures
        pack_spec(a@) == pack_spec(b@),
{
}

impl TaggedHash {
    /// The inline form of the 32 bytes in `s`.
    pub fn from_fixed(s: &[u8]) -> (r: TaggedHash)
        requires
            s@.len() == 32,
        ensures
            r is Fixed,
            r@ == s@,
    {
        let mut a: [u8; 32] = [0u8; 32];
        let mut i: usize = 0;
        while i < 32
            invariant
                s@.len() == 32,
                i <= 32,
                forall|j: int| 0 <= j < i ==> a@[j] == s@[j],
            decreases 32 - i,
        {
            a[i] = s[i];
            i = i + 1;
        }
        assert(a@ =~= s@);
        TaggedHash::Fixed(Box::new(a))
    }

    /// The bytes of the value, whichever form holds them.
    pub fn as_bytes(&self) -> (r: &[u8])
        ensures
            r@ == self@,
    {
        match self {
            TaggedHash::Fixed(d) => d.as_slice(),
            TaggedHash::Dynamic(d) => d.as_slice(),
        }
    }

    /// Packs the value into its wire form; fails when it is longer than 65535 bytes.
    pub fn pack(&self) -> (r: Result<Vec<u8>, CodecError>)
        ensures
            match r {
                Ok(out) => self@.len() <= MAX_PACKED_LEN && out@ == pack_spec(self@),
                Err(_) => self@.len() > MAX_PACKED_LEN,
            },
    {
        pack_bytes(self.as_bytes())
    }

    /// Reads one value from the front of `data`, with the number of bytes it took;
    /// a value of exactly 32 bytes comes back inline, any other on the heap.
    pub fn unpack(data: &[u8]) -> (r: Result<(TaggedHash, usize), CodecError>)
        ensures
            match unpack_spec(data@) {
                None => r is Err,
                Some((h, n)) => r matches Ok((v, m)) && v@ == h && m == n && (v is Fixed
                    <==> h.len() == 32),
            },
    {
        match unpack_bytes(data) {
            Ok((v, n)) => {
                if v.len() == 32 {
                    Ok((TaggedHash::from_fixed(v.as_slice()), n))
                } else {
                    Ok((TaggedHash::Dynamic(v), n))
                }
            },
            Err(e) => Err(e),
        }
    }
}

} // verus!
