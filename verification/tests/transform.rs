use xorio::Xor;

#[test]
fn round_trip_restores_data() {
    let x = Xor::new_with_xor_bytes((), vec![7u8, 1, 9]);
    let data: Vec<u8> = vec![0, 1, 2, 3, 250, 255, 128, 64, 9];
    let encoded = x.transform(&data);
    let decoded = x.transform(&encoded);
    assert_eq!(decoded, data);
}

#[test]
fn double_apply_in_place_is_identity() {
    let x = Xor::new_with_xor_bytes((), vec![0x13u8, 0x37]);
    let original: Vec<u8> = vec![10, 20, 30, 40, 50];
    let mut buf = original.clone();
    x.transform_in_place(&mut buf);
    x.transform_in_place(&mut buf);
    assert_eq!(buf, original);
}

#[test]
fn default_key_matches_explicit_0x55() {
    let default_key = Xor::new(());
    let explicit = Xor::new_with_xor_bytes((), vec![0x55u8]);
    let data: Vec<u8> = vec![0, 1, 0x54, 0x55, 0x56, 0xFF];
    assert_eq!(default_key.transform(&data), explicit.transform(&data));
    assert_eq!(default_key.xor_bytes, vec![0x55u8]);
}

#[test]
fn pair_key_collapses_to_folded_byte() {
    let pair = Xor::new_with_xor_bytes((), vec![0x01u8, 0x02]);
    let folded = Xor::new_with_xor_bytes((), vec![0x01u8 ^ 0x02]);
    let data: Vec<u8> = vec![0x00, 0x03, 0x7F, 0x80, 0xFF];
    assert_eq!(pair.transform(&data), folded.transform(&data));
}

#[test]
fn transform_reports_full_length() {
    let x = Xor::new(());
    let data: Vec<u8> = vec![9u8; 1000];
    assert_eq!(x.transform(&data).len(), 1000);
    let empty: Vec<u8> = vec![];
    assert_eq!(x.transform(&empty).len(), 0);
}

#[test]
fn skipping_a_prefix_commutes_with_the_transform() {
    let x = Xor::new_with_xor_bytes((), vec![0xA5u8]);
    let data: Vec<u8> = vec![1, 2, 3, 4, 5, 6, 7, 8];
    let whole = x.transform(&data);
    let tail = x.transform(&data[3..]);
    assert_eq!(&whole[3..], &tail[..]);
}

#[test]
fn write_scenario_key_55() {
    let x = Xor::new_with_xor_bytes((), vec![0x55u8]);
    let data: Vec<u8> = vec![0x00, 0xFF, 0x55];
    assert_eq!(x.transform(&data), vec![0x55u8, 0xAA, 0x00]);
}

#[test]
fn write_scenario_two_byte_key_masks_as_their_xor() {
    let x = Xor::new_with_xor_bytes((), vec![0x01u8, 0x02]);
    let data: Vec<u8> = vec![0x03];
    assert_eq!(x.transform(&data), vec![0x00u8]);
}

#[test]
fn read_scenario_default_key() {
    let x = Xor::new(());
    let mut buf: Vec<u8> = vec![0x55, 0xAA];
    x.transform_in_place(&mut buf);
    assert_eq!(buf, vec![0x00u8, 0xFF]);
}

#[test]
fn empty_key_leaves_bytes_unchanged() {
    let x = Xor::new_with_xor_bytes((), vec![]);
    let data: Vec<u8> = vec![1, 2, 3];
    assert_eq!(x.transform(&data), data);
    assert_eq!(x.effective_mask(), 0);
}

#[test]
fn effective_mask_folds_all_key_bytes() {
    assert_eq!(Xor::new(()).effective_mask(), 0x55);
    let x = Xor::new_with_xor_bytes((), vec![0x01u8, 0x02, 0x03]);
    assert_eq!(x.effective_mask(), 0x00);
    let y = Xor::new_with_xor_bytes((), vec![0xF0u8, 0x0F]);
    assert_eq!(y.effective_mask(), 0xFF);
}

#[test]
fn wrapping_keeps_the_inner_stream() {
    let x = Xor::new(vec![1u8, 2, 3]);
    assert_eq!(x.inner, vec![1u8, 2, 3]);
    let y = Xor::new_with_xor_bytes(42u8, vec![0x10]);
    assert_eq!(y.inner, 42);
}
