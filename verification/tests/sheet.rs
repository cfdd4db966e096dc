use rjtd::sheet::parse_doc_item_info;

#[test]
fn parses_doc_item_info_synthetic() {
    let mut data = Vec::new();
    data.extend_from_slice(&2u32.to_le_bytes());

    data.extend_from_slice(&1u32.to_le_bytes());
    let name1 = "午後の授業".encode_utf16().collect::<Vec<_>>();
    data.extend_from_slice(&(name1.len() as u32).to_le_bytes());
    for u in name1 {
        data.extend_from_slice(&u.to_le_bytes());
    }
    data.extend_from_slice(&3u32.to_le_bytes());
    data.extend_from_slice(&[0u8; 26]);

    data.extend_from_slice(&1u32.to_le_bytes());
    let name2 = "活版所".encode_utf16().collect::<Vec<_>>();
    data.extend_from_slice(&(name2.len() as u32).to_le_bytes());
    for u in name2 {
        data.extend_from_slice(&u.to_le_bytes());
    }
    data.extend_from_slice(&4u32.to_le_bytes());
    data.extend_from_slice(&[0u8; 26]);

    let res = parse_doc_item_info(&data).unwrap();
    assert_eq!(res.len(), 2);
    assert_eq!(res[0], ("午後の授業".to_string(), 3));
    assert_eq!(res[1], ("活版所".to_string(), 4));
}
