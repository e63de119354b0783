use bustubx::codec::{BPlusTreePageCodec, BPlusTreePageTypeCodec, CommonCodec, BPlusTreeLeafPageHeaderCodec, BPlusTreeInternalPageHeaderCodec};
use bustubx::index_page::{
    BPlusTreeInternalPage, BPlusTreeInternalPageHeader, BPlusTreeLeafPage, BPlusTreeLeafPageHeader,
    BPlusTreePage, BPlusTreePageType,
};
use bustubx::{BustubxError, Column, DataType, Rid, ScalarValue, Schema, Tuple, BUSTUBX_PAGE_SIZE};

fn two_column_schema() -> Schema {
    Schema::new(vec![
        Column::new("a".to_string(), DataType::Int8, true),
        Column::new("b".to_string(), DataType::Int32, true),
    ])
}

#[test]
fn index_page_codec() {
    let schema = two_column_schema();
    let tuple1 = Tuple::new(schema.clone(), vec![1i8.into(), 1i32.into()]);
    let rid1 = Rid::new(1, 1);
    let tuple2 = Tuple::new(schema.clone(), vec![2i8.into(), 2i32.into()]);
    let rid2 = Rid::new(2, 2);

    let mut leaf_page = BPlusTreeLeafPage::new(schema.clone(), 100);
    leaf_page.insert(tuple1.clone(), rid1);
    leaf_page.insert(tuple2.clone(), rid2);
    let page = BPlusTreePage::Leaf(leaf_page);
    let (new_page, _) =
        BPlusTreePageCodec::decode(&BPlusTreePageCodec::encode(&page), schema.clone()).unwrap();
    assert_eq!(new_page, page);

    let mut internal_page = BPlusTreeInternalPage::new(schema.clone(), 100);
    internal_page.insert(Tuple::empty(schema.clone()), 1);
    internal_page.insert(tuple1, 2);
    internal_page.insert(tuple2, 3);
    let page = BPlusTreePage::Internal(internal_page);
    let (new_page, _) =
        BPlusTreePageCodec::decode(&BPlusTreePageCodec::encode(&page), schema.clone()).unwrap();
    assert_eq!(new_page, page);
}

#[test]
fn encoded_page_has_exact_layout() {
    let schema = Schema::new(vec![Column::new("k".to_string(), DataType::Int16, false)]);
    let mut leaf = BPlusTreeLeafPage::new(schema.clone(), 7);
    leaf.insert(Tuple::new(schema.clone(), vec![ScalarValue::Int16(Some(-2))]), Rid::new(3, 4));
    let bytes = BPlusTreePageCodec::encode(&BPlusTreePage::Leaf(leaf));
    assert_eq!(bytes.len(), BUSTUBX_PAGE_SIZE);
    let expected_prefix: Vec<u8> = vec![
        0, 0, 0, 1, // leaf tag
        0, 0, 0, 1, // current size
        0, 0, 0, 7, // max size
        255, 255, 255, 255, // no next leaf
        0, 255, 254, // key: not null, -2
        0, 0, 0, 3, 0, 0, 0, 4, // rid
    ];
    assert_eq!(&bytes[..expected_prefix.len()], &expected_prefix[..]);
    assert!(bytes[expected_prefix.len()..].iter().all(|b| *b == 0));
}

#[test]
fn nulls_and_all_types_round_trip() {
    let schema = Schema::new(vec![
        Column::new("a".to_string(), DataType::Boolean, true),
        Column::new("b".to_string(), DataType::Int16, true),
        Column::new("c".to_string(), DataType::Int64, true),
    ]);
    let mut leaf = BPlusTreeLeafPage::new(schema.clone(), 10);
    leaf.insert(
        Tuple::new(schema.clone(), vec![true.into(), ScalarValue::Int16(None), (-5i64).into()]),
        Rid::new(9, 0),
    );
    leaf.insert(Tuple::empty(schema.clone()), Rid::new(1, 2));
    let page = BPlusTreePage::Leaf(leaf);
    let (decoded, n) =
        BPlusTreePageCodec::decode(&BPlusTreePageCodec::encode(&page), schema.clone()).unwrap();
    assert_eq!(n, BUSTUBX_PAGE_SIZE);
    assert_eq!(decoded, page);
}

#[test]
fn leaf_insert_keeps_key_order() {
    let schema = Schema::new(vec![Column::new("k".to_string(), DataType::Int32, false)]);
    let mut leaf = BPlusTreeLeafPage::new(schema.clone(), 10);
    for k in [5i32, 1, 3] {
        leaf.insert(Tuple::new(schema.clone(), vec![k.into()]), Rid::new(k as u32, 0));
    }
    let keys: Vec<ScalarValue> = leaf.array.iter().map(|(t, _)| t.data[0]).collect();
    assert_eq!(keys, vec![1i32.into(), 3i32.into(), 5i32.into()]);
    assert_eq!(leaf.header.current_size, 3);
    assert_eq!(leaf.look_up(&Tuple::new(schema.clone(), vec![3i32.into()])), Some(Rid::new(3, 0)));
    assert_eq!(leaf.look_up(&Tuple::new(schema.clone(), vec![4i32.into()])), None);
}

#[test]
fn internal_insert_keeps_first_entry() {
    let schema = Schema::new(vec![Column::new("k".to_string(), DataType::Int32, false)]);
    let mut node = BPlusTreeInternalPage::new(schema.clone(), 10);
    node.insert(Tuple::new(schema.clone(), vec![100i32.into()]), 7);
    node.insert(Tuple::new(schema.clone(), vec![9i32.into()]), 8);
    node.insert(Tuple::new(schema.clone(), vec![3i32.into()]), 9);
    let children: Vec<u32> = node.array.iter().map(|(_, p)| *p).collect();
    assert_eq!(children, vec![7, 9, 8]);
}

#[test]
fn decode_rejects_wrong_size() {
    let schema = two_column_schema();
    let r = BPlusTreePageCodec::decode(&[0u8; 10], schema);
    assert_eq!(r, Err(BustubxError::PageSizeMismatch(10)));
}

#[test]
fn decode_rejects_unknown_page_type() {
    let schema = two_column_schema();
    let mut bytes = vec![0u8; BUSTUBX_PAGE_SIZE];
    bytes[3] = 3;
    let r = BPlusTreePageCodec::decode(&bytes, schema);
    assert_eq!(r, Err(BustubxError::InvalidPageType(3)));
}

#[test]
fn decode_rejects_truncated_entries() {
    let schema = two_column_schema();
    let mut bytes = vec![0u8; BUSTUBX_PAGE_SIZE];
    bytes[3] = 1;
    bytes[4] = 0xff; // far more entries than fit
    bytes[8] = 0xff; // and a maximum that allows them
    let r = BPlusTreePageCodec::decode(&bytes, schema);
    assert_eq!(r, Err(BustubxError::TruncatedData));
}

#[test]
fn decode_rejects_size_above_maximum() {
    let schema = Schema::empty();
    let mut bytes = vec![0u8; BUSTUBX_PAGE_SIZE];
    bytes[3] = 1;
    bytes[7] = 1; // one entry, maximum zero
    let r = BPlusTreePageCodec::decode(&bytes, schema.clone());
    assert_eq!(r, Err(BustubxError::InvalidPageSize(1, 0)));
    bytes[3] = 2;
    bytes[7] = 3;
    bytes[11] = 2;
    let r = BPlusTreePageCodec::decode(&bytes, schema);
    assert_eq!(r, Err(BustubxError::InvalidPageSize(3, 2)));
}

#[test]
fn decoded_keys_carry_the_schema() {
    let schema = two_column_schema();
    let mut leaf = BPlusTreeLeafPage::new(schema.clone(), 4);
    leaf.insert(Tuple::new(schema.clone(), vec![3i8.into(), 4i32.into()]), Rid::new(1, 2));
    let bytes = BPlusTreePageCodec::encode(&BPlusTreePage::Leaf(leaf));
    match BPlusTreePageCodec::decode(&bytes, schema.clone()).unwrap().0 {
        BPlusTreePage::Leaf(p) => assert_eq!(p.array[0].0.schema, schema),
        BPlusTreePage::Internal(_) => panic!("decoded a leaf image as an internal page"),
    }
}

#[test]
fn header_codecs() {
    let h = BPlusTreeLeafPageHeader {
        page_type: BPlusTreePageType::LeafPage,
        current_size: 2,
        max_size: 300,
        next_page_id: 5,
    };
    let bytes = BPlusTreeLeafPageHeaderCodec::encode(&h);
    assert_eq!(bytes, vec![0, 0, 0, 1, 0, 0, 0, 2, 0, 0, 1, 44, 0, 0, 0, 5]);
    assert_eq!(BPlusTreeLeafPageHeaderCodec::decode(&bytes), Ok((h, 16)));
    let ih = BPlusTreeInternalPageHeader {
        page_type: BPlusTreePageType::InternalPage,
        current_size: 1,
        max_size: 4,
    };
    let bytes = BPlusTreeInternalPageHeaderCodec::encode(&ih);
    assert_eq!(bytes, vec![0, 0, 0, 2, 0, 0, 0, 1, 0, 0, 0, 4]);
    assert_eq!(BPlusTreeInternalPageHeaderCodec::decode(&bytes), Ok((ih, 12)));
    assert_eq!(BPlusTreePageTypeCodec::decode(&[0, 0, 0, 2]), Ok((BPlusTreePageType::InternalPage, 4)));
    assert_eq!(BPlusTreePageTypeCodec::decode(&[0, 0, 0]), Err(BustubxError::TruncatedData));
    assert_eq!(BPlusTreePageTypeCodec::encode(&BPlusTreePageType::LeafPage), vec![0, 0, 0, 1]);
    assert_eq!(CommonCodec::encode_u32(0x01020304), vec![1, 2, 3, 4]);
}

fn int_key(schema: &Schema, k: i32) -> Tuple {
    Tuple::new(schema.clone(), vec![k.into()])
}

#[test]
fn overflowing_leaf_splits_in_halves() {
    let schema = Schema::new(vec![Column::new("k".to_string(), DataType::Int32, false)]);
    let mut leaf = BPlusTreeLeafPage::new(schema.clone(), 4);
    for k in 1..=5 {
        leaf.insert(int_key(&schema, k), Rid::new(k as u32, 0));
    }
    assert!(leaf.header.current_size > leaf.header.max_size);
    let upper = leaf.split_upper_half();
    assert_eq!(leaf.header.current_size, 3);
    assert_eq!(upper.len(), 2);
    assert_eq!(upper[0].0, int_key(&schema, 4));

    let mut root = BPlusTreeInternalPage::new(schema.clone(), 4);
    root.insert(Tuple::empty(schema.clone()), 10);
    root.insert(upper[0].0.clone(), 11);
    assert_eq!(root.header.current_size, 2);
    assert_eq!(root.look_up(&int_key(&schema, 2)), 10);
    assert_eq!(root.look_up(&int_key(&schema, 4)), 11);
    assert_eq!(root.look_up(&int_key(&schema, 9)), 11);
}

#[test]
fn internal_split_and_look_up() {
    let schema = Schema::new(vec![Column::new("k".to_string(), DataType::Int32, false)]);
    let mut node = BPlusTreeInternalPage::new(schema.clone(), 4);
    node.insert(Tuple::empty(schema.clone()), 1);
    for (k, child) in [(10, 2u32), (20, 3), (30, 4), (40, 5)] {
        node.insert(int_key(&schema, k), child);
    }
    assert_eq!(node.look_up(&int_key(&schema, 5)), 1);
    assert_eq!(node.look_up(&int_key(&schema, 10)), 2);
    assert_eq!(node.look_up(&int_key(&schema, 25)), 3);
    assert_eq!(node.look_up(&int_key(&schema, 99)), 5);
    let upper = node.split_upper_half();
    assert_eq!(node.header.current_size, 3);
    assert_eq!(upper.iter().map(|(_, c)| *c).collect::<Vec<_>>(), vec![4, 5]);
}

#[test]
fn leaf_remove() {
    let schema = Schema::new(vec![Column::new("k".to_string(), DataType::Int32, false)]);
    let mut leaf = BPlusTreeLeafPage::new(schema.clone(), 4);
    for k in [3, 1, 2] {
        leaf.insert(int_key(&schema, k), Rid::new(k as u32, 1));
    }
    assert!(leaf.remove(&int_key(&schema, 2)));
    assert!(!leaf.remove(&int_key(&schema, 2)));
    assert_eq!(leaf.header.current_size, 2);
    assert_eq!(leaf.look_up(&int_key(&schema, 1)), Some(Rid::new(1, 1)));
    assert_eq!(leaf.look_up(&int_key(&schema, 2)), None);
    assert!(leaf.remove(&int_key(&schema, 1)));
    assert!(leaf.remove(&int_key(&schema, 3)));
    assert_eq!(leaf.header.current_size, 0);
    assert!(leaf.array.is_empty());
}

#[test]
fn keys_compare_lexicographically() {
    let schema = two_column_schema();
    let a = Tuple::new(schema.clone(), vec![1i8.into(), 5i32.into()]);
    let b = Tuple::new(schema.clone(), vec![1i8.into(), 7i32.into()]);
    let c = Tuple::new(schema.clone(), vec![2i8.into(), (-1i32).into()]);
    let n = Tuple::empty(schema.clone());
    assert_eq!(a.compare(&b), -1);
    assert_eq!(b.compare(&a), 1);
    assert_eq!(b.compare(&c), -1);
    assert_eq!(a.compare(&a), 0);
    assert_eq!(n.compare(&a), -1);
    assert_eq!(ScalarValue::Int8(None).compare(&ScalarValue::Int8(Some(-128))), -1);
}

#[test]
fn underflowing_leaf_borrows_from_right_sibling() {
    let schema = Schema::new(vec![Column::new("k".to_string(), DataType::Int32, false)]);
    let mut left = BPlusTreeLeafPage::new(schema.clone(), 4);
    let mut right = BPlusTreeLeafPage::new(schema.clone(), 4);
    for k in [1, 2] {
        left.insert(int_key(&schema, k), Rid::new(k as u32, 0));
    }
    for k in [3, 4, 5] {
        right.insert(int_key(&schema, k), Rid::new(k as u32, 0));
    }
    let mut parent = BPlusTreeInternalPage::new(schema.clone(), 4);
    parent.insert(Tuple::empty(schema.clone()), 1);
    parent.insert(int_key(&schema, 3), 2);

    assert!(left.remove(&int_key(&schema, 1)));
    assert_eq!(left.header.current_size, 1);
    left.borrow_from_right(&mut right);
    parent.set_key_at(1, right.array[0].0.clone());
    assert_eq!(left.header.current_size, 2);
    assert_eq!(right.header.current_size, 2);
    assert_eq!(left.look_up(&int_key(&schema, 3)), Some(Rid::new(3, 0)));
    assert_eq!(parent.array[1].0, int_key(&schema, 4));
    assert_eq!(parent.array[1].1, 2);
    assert_eq!(parent.look_up(&int_key(&schema, 3)), 1);
    assert_eq!(parent.look_up(&int_key(&schema, 4)), 2);

    right.borrow_from_left(&mut left);
    assert_eq!(right.array[0].0, int_key(&schema, 3));
    assert_eq!(left.header.current_size, 1);
}

#[test]
fn merging_leaves_concatenates_and_relinks() {
    let schema = Schema::new(vec![Column::new("k".to_string(), DataType::Int32, false)]);
    let mut left = BPlusTreeLeafPage::new(schema.clone(), 4);
    let mut right = BPlusTreeLeafPage::new(schema.clone(), 4);
    left.insert(int_key(&schema, 1), Rid::new(1, 0));
    right.insert(int_key(&schema, 2), Rid::new(2, 0));
    right.header.next_page_id = 77;
    left.header.next_page_id = 5;
    left.merge(right);
    assert_eq!(left.header.current_size, 2);
    assert_eq!(left.header.next_page_id, 77);

    let mut parent = BPlusTreeInternalPage::new(schema.clone(), 4);
    parent.insert(Tuple::empty(schema.clone()), 4);
    parent.insert(int_key(&schema, 2), 5);
    let (sep, child) = parent.remove_at(1);
    assert_eq!((sep, child), (int_key(&schema, 2), 5));
    assert_eq!(parent.header.current_size, 1);
}
