use rgb25::contract::{Amount, AssetTerms, ContractIface, StateAtom};
use rgb25::identity::IfaceId;
use rgb25::rgb25::{rgb25_expected_id, BindingError, Rgb25};

fn fixture_state() -> ContractIface {
    ContractIface {
        iface_id: rgb25_expected_id(),
        global: vec![
            (b"name".to_vec(), vec![StateAtom::Text(b"Test asset".to_vec())]),
            (b"details".to_vec(), vec![]),
            (b"precision".to_vec(), vec![StateAtom::Byte(2)]),
            (b"issuedSupply".to_vec(), vec![StateAtom::Num(1000)]),
            (
                b"terms".to_vec(),
                vec![StateAtom::Terms(AssetTerms { text: b"terms text".to_vec(), media: None })],
            ),
        ],
    }
}

#[test]
fn binding_rejects_foreign_identity() {
    let mut state = fixture_state();
    state.iface_id = IfaceId::from_array([0xab; 32]);
    match Rgb25::with(state) {
        Err(BindingError::Mismatch) => {},
        Ok(_) => panic!("binding must fail on a foreign identity"),
    }
}

#[test]
fn binding_accepts_matching_identity() {
    assert!(Rgb25::with(fixture_state()).is_ok());
}

#[test]
fn name_reads_single_value() {
    let w = Rgb25::with(fixture_state()).unwrap();
    assert_eq!(w.name().0, b"Test asset".to_vec());
}

#[test]
fn details_absent() {
    let w = Rgb25::with(fixture_state()).unwrap();
    assert!(w.details().is_none());
}

#[test]
fn details_present() {
    let mut state = fixture_state();
    state.global[1].1 = vec![StateAtom::Text(b"Some details".to_vec())];
    let w = Rgb25::with(state).unwrap();
    assert_eq!(w.details().unwrap().0, b"Some details".to_vec());
}

#[test]
fn precision_reads_single_value() {
    let w = Rgb25::with(fixture_state()).unwrap();
    assert_eq!(w.precision().0, 2);
}

#[test]
fn total_issued_supply_sums_values() {
    let w = Rgb25::with(fixture_state()).unwrap();
    assert_eq!(w.total_issued_supply(), Amount(1000));
}

#[test]
fn burned_supply_absent_is_zero() {
    let w = Rgb25::with(fixture_state()).unwrap();
    assert_eq!(w.total_burned_supply(), Amount(0));
}

#[test]
fn burned_supply_empty_list_is_zero() {
    let mut state = fixture_state();
    state.global.push((b"burnedSupply".to_vec(), vec![]));
    let w = Rgb25::with(state).unwrap();
    assert_eq!(w.total_burned_supply(), Amount(0));
}

#[test]
fn burned_supply_sums_three_and_five_to_eight() {
    let mut state = fixture_state();
    state.global.push((b"burnedSupply".to_vec(), vec![StateAtom::Num(3), StateAtom::Num(5)]));
    let w = Rgb25::with(state).unwrap();
    assert_eq!(w.total_burned_supply(), Amount(8));
}

#[test]
fn contract_data_reads_terms() {
    let w = Rgb25::with(fixture_state()).unwrap();
    let terms = w.contract_data();
    assert_eq!(terms.text, b"terms text".to_vec());
    assert!(terms.media.is_none());
}

#[test]
fn amount_zero_is_additive_identity() {
    assert_eq!(Amount::zero(), Amount(0));
}
