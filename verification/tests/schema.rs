use rgb25::armor::{decode, from_armored};
use rgb25::builder::{rgb25, rgb25_from, standard_types, SchemaError, TypeRegistry};
use rgb25::rgb25::rgb25_expected_id;
use sha2::{Digest, Sha256};

#[test]
fn iface_creation() {
    rgb25();
}

#[test]
fn iface_id() {
    let computed = rgb25().iface_id();
    println!("computed id: {:?}", computed.bytes);
    assert_eq!(rgb25_expected_id().bytes, computed.bytes);
}

const RGB25_ARMORED: &str = "-----BEGIN RGB INTERFACE-----\n01055247423235060c6275726e6564537570706c790100000000000000030764657461696c730400000000000000010c697373756564537570706c79010000000000000000046e616d6506000000000000000009707265636973696f6e070000000000000000057465726d73020000000000000000020a61737365744f776e6572010002096275726e526967687400010300010500000000000000050764657461696c73010c697373756564537570706c7900046e616d650009707265636973696f6e00057465726d7300010a61737365744f776e657202000301030402046275726e01010300000000000000010c6275726e6564537570706c790001096275726e52696768740001096275726e526967687401000301030500087472616e73666572000000010a61737365744f776e657202010a61737365744f776e657202000102010a61737365744f776e65720005010e737570706c794d69736d6174636864737570706c7920737065636966696564206173206120676c6f62616c20706172616d6574657220646f65736e2774206d61746368207468652069737375656420737570706c7920616c6c6f636174656420746f20746865206173736574206f776e657273020f6e6f6e457175616c416d6f756e7473457468652073756d206f66207370656e742061737365747320646f65736e277420657175616c20746f207468652073756d206f662061737365747320696e206f757470757473030c696e76616c696450726f6f661d7468652070726f76696465642070726f6f6620697320696e76616c69640414696e73756666696369656e745265736572766573327265736572766520697320696e73756666696369656e7420746f20636f7665722074686520697373756564206173736574730514696e73756666696369656e74436f7665726167655874686520636c61696d656420616d6f756e74206f66206275726e656420617373657473206973206e6f7420636f7665726564206279207468652061737365747320696e20746865206f7065726174696f6e20696e7075747301087472616e736665720100000000000000\n-----END RGB INTERFACE-----\n";

#[test]
fn iface_bindle() {
    let armored = rgb25().to_armored();
    let text = String::from_utf8(armored).unwrap();
    println!("armored:\n{}", text);
    assert_eq!(text, RGB25_ARMORED);
}

#[test]
fn determinism_rebuild() {
    let a = rgb25();
    let b = rgb25();
    assert_eq!(a, b);
    assert_eq!(a.iface_id().bytes, b.iface_id().bytes);
    assert_eq!(a.encode(), b.encode());
}

#[test]
fn builder_matches_standard_registry() {
    let types = standard_types();
    let built = rgb25_from(&types).unwrap();
    assert_eq!(built, rgb25());
}

#[test]
fn builder_rejects_empty_registry() {
    let empty = TypeRegistry { id: 7, entries: Vec::new() };
    assert_eq!(rgb25_from(&empty), Err(SchemaError::UnknownType));
}

#[test]
fn schema_is_well_formed() {
    assert!(rgb25().check_wf());
}

#[test]
fn check_wf_rejects_unsorted_keys() {
    let mut s = rgb25();
    let first = s.global_state.remove(0);
    s.global_state.push(first);
    assert!(!s.check_wf());
}

#[test]
fn check_wf_rejects_zero_error_code() {
    let mut s = rgb25();
    s.errors[0].0.code = 0;
    assert!(!s.check_wf());
}

#[test]
fn encode_decode_round_trip() {
    let s = rgb25();
    let bytes = s.encode();
    let back = decode(&bytes).unwrap();
    assert_eq!(back, s);
}

#[test]
fn armor_round_trip() {
    let s = rgb25();
    let text = s.to_armored();
    let back = from_armored(&text).unwrap();
    assert_eq!(back, s);
    assert_eq!(back.to_armored(), text);
}

#[test]
fn decode_rejects_garbage() {
    assert!(decode(b"not a schema").is_none());
    assert!(decode(b"").is_none());
    assert!(from_armored(b"junk").is_none());
    assert!(from_armored(b"").is_none());
}

#[test]
fn decode_rejects_unclosed_schema() {
    let mut s = rgb25();
    s.genesis.errors.push(9);
    assert!(s.check_wf());
    assert!(!s.check_closed());
    let bytes = s.encode();
    assert!(decode(&bytes).is_none());
}

#[test]
fn schema_is_closed() {
    assert!(rgb25().check_closed());
}

#[test]
fn decode_rejects_trailing_bytes() {
    let mut bytes = rgb25().encode();
    bytes.push(0);
    assert!(decode(&bytes).is_none());
}

#[test]
fn identity_is_sha256_of_encoding() {
    let s = rgb25();
    let expected: Vec<u8> = Sha256::digest(s.encode().as_slice()).to_vec();
    assert_eq!(s.iface_id().bytes, expected);
}

#[test]
fn identities_differ_for_different_registries() {
    let a = rgb25();
    let mut types = standard_types();
    types.id = 99;
    let b = rgb25_from(&types).unwrap();
    assert_ne!(a.iface_id().bytes, b.iface_id().bytes);
}
