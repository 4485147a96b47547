use mmr_verifier::hash::{CodecError, FixedHash, TaggedHash};
use mmr_verifier::packed::{decode_proof_items, pack_proof_items, PackedProofs};

#[test]
fn pack_then_unpack_gives_back_the_value() {
    let h = FixedHash(vec![1, 2, 3]);
    let packed = h.pack().unwrap();
    assert_eq!(packed, vec![3, 0, 1, 2, 3]);
    let (back, used) = FixedHash::unpack(&packed).unwrap();
    assert_eq!(back, h);
    assert_eq!(back.as_bytes(), &[1u8, 2, 3][..]);
    assert_eq!(used, 5);
}

#[test]
fn unpack_consumes_only_its_own_bytes() {
    let mut data = FixedHash(vec![9; 4]).pack().unwrap();
    data.extend_from_slice(&[7, 7, 7]);
    let (back, used) = FixedHash::unpack(&data).unwrap();
    assert_eq!(back.0, vec![9; 4]);
    assert_eq!(used, 6);
}

#[test]
fn pack_prefix_is_little_endian() {
    let packed = FixedHash(vec![0xaa; 300]).pack().unwrap();
    assert_eq!(&packed[0..2], &[44, 1]);
    assert_eq!(packed.len(), 302);
}

#[test]
fn pack_empty_value() {
    let packed = FixedHash(vec![]).pack().unwrap();
    assert_eq!(packed, vec![0, 0]);
    let (back, used) = FixedHash::unpack(&packed).unwrap();
    assert!(back.0.is_empty());
    assert_eq!(used, 2);
}

#[test]
fn pack_largest_value() {
    let h = FixedHash(vec![5; 65535]);
    let packed = h.pack().unwrap();
    assert_eq!(&packed[0..2], &[0xff, 0xff]);
    let (back, used) = FixedHash::unpack(&packed).unwrap();
    assert_eq!(back, h);
    assert_eq!(used, 65537);
}

#[test]
fn pack_refuses_too_long_value() {
    assert_eq!(FixedHash(vec![0; 65536]).pack(), Err(CodecError::UnpackEof));
}

#[test]
fn unpack_refuses_short_input() {
    assert_eq!(FixedHash::unpack(&[]), Err(CodecError::UnpackEof));
    assert_eq!(FixedHash::unpack(&[5]), Err(CodecError::UnpackEof));
    assert_eq!(FixedHash::unpack(&[3, 0, 1, 2]), Err(CodecError::UnpackEof));
    assert!(FixedHash::unpack(&[3, 0, 1, 2, 3]).is_ok());
}

#[test]
fn tagged_forms_pack_alike() {
    let bytes = [0x11u8; 32];
    let fixed = TaggedHash::from_fixed(&bytes);
    let dynamic = TaggedHash::Dynamic(bytes.to_vec());
    assert!(matches!(fixed, TaggedHash::Fixed(_)));
    assert_eq!(fixed.pack().unwrap(), dynamic.pack().unwrap());
    assert_eq!(fixed.pack().unwrap(), FixedHash(bytes.to_vec()).pack().unwrap());
}

#[test]
fn tagged_unpack_picks_form_by_length() {
    let data32 = FixedHash(vec![3; 32]).pack().unwrap();
    let (h, n) = TaggedHash::unpack(&data32).unwrap();
    assert!(matches!(h, TaggedHash::Fixed(_)));
    assert_eq!(h.as_bytes(), &[3u8; 32][..]);
    assert_eq!(n, 34);

    let data31 = FixedHash(vec![4; 31]).pack().unwrap();
    let (h, n) = TaggedHash::unpack(&data31).unwrap();
    assert!(matches!(h, TaggedHash::Dynamic(_)));
    assert_eq!(h.as_bytes(), &[4u8; 31][..]);
    assert_eq!(n, 33);

    assert!(TaggedHash::unpack(&[32, 0, 1]).is_err());
}

#[test]
fn proof_reader_walks_items_in_order() {
    let data = vec![1, 0, 7, 2, 0, 8, 9];
    let mut reader = PackedProofs::new(&data);
    assert_eq!(reader.next(), Some(Ok(FixedHash(vec![7]))));
    assert_eq!(reader.next(), Some(Ok(FixedHash(vec![8, 9]))));
    assert_eq!(reader.next(), None);
}

#[test]
fn proof_reader_stops_on_cut_value() {
    let data = vec![1, 0, 7, 5, 0, 8];
    let mut reader = PackedProofs::new(&data);
    assert_eq!(reader.next(), Some(Ok(FixedHash(vec![7]))));
    assert_eq!(reader.next(), Some(Err(CodecError::UnpackEof)));
    assert_eq!(reader.next(), Some(Err(CodecError::UnpackEof)));
}

#[test]
fn raw_proof_round_trip() {
    let items = vec![FixedHash(vec![1; 32]), FixedHash(vec![]), FixedHash(vec![2; 7])];
    let bytes = pack_proof_items(&items).unwrap();
    assert_eq!(bytes.len(), 34 + 2 + 9);
    assert_eq!(decode_proof_items(&bytes).unwrap(), items);
    assert_eq!(decode_proof_items(&[]).unwrap(), Vec::<FixedHash>::new());
    assert!(decode_proof_items(&bytes[..bytes.len() - 1]).is_err());
}

#[test]
fn raw_proof_refuses_too_long_item() {
    let items = vec![FixedHash(vec![1; 3]), FixedHash(vec![0; 65536])];
    assert_eq!(pack_proof_items(&items), Err(CodecError::UnpackEof));
}
