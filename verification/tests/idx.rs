use mnist_idx::error::MnistError;
use mnist_idx::idx::{ElementScalar, ElementType, IdxReader};

/// The header bytes for a `u8` tensor of shape [2, 3] followed by six scalars.
fn two_by_three_u8() -> Vec<u8> {
    vec![
        0x00, 0x00, 0x08, 0x02, // reserved, tag u8, two dimensions
        0x00, 0x00, 0x00, 0x02, // outer dimension: 2
        0x00, 0x00, 0x00, 0x03, // inner dimension: 3
        1, 2, 3, 4, 5, 6,
    ]
}

#[test]
fn parses_concrete_two_by_three() {
    let reader = IdxReader::new(two_by_three_u8()).unwrap();
    assert_eq!(reader.element_type(), ElementType::U8);
    assert_eq!(reader.dimensions().as_slice(), &[2u32, 3u32]);
    assert_eq!(reader.num_elems(), 6);
    assert_eq!(reader.item_size(), 3);
}

#[test]
fn concrete_file_yields_two_items() {
    let mut reader = IdxReader::new(two_by_three_u8()).unwrap();
    let mut items = Vec::new();
    reader.read_items_to_end::<u8>(&mut items).unwrap();
    assert_eq!(items.len(), 2);
    assert_eq!(items[0].data().as_slice(), &[1u8, 2, 3]);
    assert_eq!(items[1].data().as_slice(), &[4u8, 5, 6]);
    assert_eq!(items[0].dimensions().as_slice(), &[3u32]);
    assert_eq!(items[0].total_elements(), 3);
    assert_eq!(items[0].width(), Some(3));
    assert_eq!(items[0].height(), None);
}

#[test]
fn flat_sequence_round_trip() {
    let reader = IdxReader::new(two_by_three_u8()).unwrap();
    let num = reader.num_elems();
    let mut elements = reader.elements::<u8>();
    let mut seen = Vec::new();
    for _ in 0..num {
        match elements.next() {
            Some(Ok(v)) => seen.push(v),
            other => panic!("expected a value, got {:?}", other),
        }
    }
    assert_eq!(seen, vec![1u8, 2, 3, 4, 5, 6]);
    assert!(elements.next().is_none());
    assert!(elements.next().is_none());
}

#[test]
fn flat_collect_to_end() {
    let reader = IdxReader::new(two_by_three_u8()).unwrap();
    let mut elements = reader.elements::<u8>();
    let all = elements.collect_to_end().unwrap();
    assert_eq!(all, vec![1u8, 2, 3, 4, 5, 6]);
    assert!(elements.next().is_none());
}

#[test]
fn items_sequence_round_trip() {
    let reader = IdxReader::new(two_by_three_u8()).unwrap();
    let mut items = reader.items::<u8>();
    let first = items.next().unwrap().unwrap();
    assert_eq!(first.data().as_slice(), &[1u8, 2, 3]);
    let second = items.next().unwrap().unwrap();
    assert_eq!(second.data().as_slice(), &[4u8, 5, 6]);
    assert!(items.next().is_none());
}

#[test]
fn items_collect_to_end() {
    let reader = IdxReader::new(two_by_three_u8()).unwrap();
    let mut items = reader.items::<u8>();
    let all = items.collect_to_end().unwrap();
    assert_eq!(all.len(), 2);
    assert_eq!(all[0].data().as_slice(), &[1u8, 2, 3]);
    assert_eq!(all[1].data().as_slice(), &[4u8, 5, 6]);
    assert_eq!(all[0].total_elements(), 3);
    assert_eq!(all[1].total_elements(), 3);
}

#[test]
fn type_mismatch_is_invalid_element_type() {
    // The file declares u8; every other scalar kind must be refused, and
    // nothing may be reinterpreted.
    assert_eq!(
        <i8 as ElementScalar>::is_elem_type_compatible(ElementType::U8),
        Err(MnistError::InvalidElementType)
    );
    assert_eq!(
        <i16 as ElementScalar>::is_elem_type_compatible(ElementType::U8),
        Err(MnistError::InvalidElementType)
    );
    assert_eq!(<u8 as ElementScalar>::is_elem_type_compatible(ElementType::U8), Ok(()));

    let mut reader = IdxReader::new(two_by_three_u8()).unwrap();
    let mut buf: Vec<i16> = vec![0; 3];
    assert_eq!(reader.read_elements(&mut buf), Err(MnistError::InvalidElementType));
    assert_eq!(buf, vec![0i16; 3]);
    assert_eq!(reader.read_item::<i32>().unwrap_err(), MnistError::InvalidElementType);
    // The matching kind still works afterwards: nothing was consumed.
    let mut ok_buf: Vec<u8> = vec![0; 6];
    assert_eq!(reader.read_elements(&mut ok_buf), Ok(()));
    assert_eq!(ok_buf, vec![1u8, 2, 3, 4, 5, 6]);
}

#[test]
fn truncated_mid_scalar_surfaces_an_error() {
    // An i16 tensor of shape [2] whose payload holds one and a half scalars:
    // the first pull succeeds, the next surfaces the failure.
    let data = vec![0x00, 0x00, 0x0b, 0x01, 0x00, 0x00, 0x00, 0x02, 0x01, 0x02, 0x03];
    let reader = IdxReader::new(data).unwrap();
    let mut elements = reader.elements::<i16>();
    assert_eq!(elements.next(), Some(Ok(0x0102)));
    assert_eq!(elements.next(), Some(Err(MnistError::UnexpectedEof)));
}

#[test]
fn truncated_collect_surfaces_an_error() {
    let data = vec![0x00, 0x00, 0x0b, 0x01, 0x00, 0x00, 0x00, 0x02, 0x01, 0x02, 0x03];
    let reader = IdxReader::new(data).unwrap();
    let mut elements = reader.elements::<i16>();
    assert_eq!(elements.collect_to_end(), Err(MnistError::UnexpectedEof));
}

#[test]
fn truncation_on_item_boundary_completes() {
    // Shape [3, 2] but only two whole items of payload: every complete item
    // is returned and the end is not an error.
    let data = vec![
        0x00, 0x00, 0x08, 0x02, 0x00, 0x00, 0x00, 0x03, 0x00, 0x00, 0x00, 0x02, 1, 2, 3, 4,
    ];
    let mut reader = IdxReader::new(data).unwrap();
    let mut items = Vec::new();
    assert_eq!(reader.read_items_to_end::<u8>(&mut items), Ok(()));
    assert_eq!(items.len(), 2);
    assert_eq!(items[0].data().as_slice(), &[1u8, 2]);
    assert_eq!(items[1].data().as_slice(), &[3u8, 4]);
}

#[test]
fn truncation_mid_item_fails_bulk_read() {
    // Shape [3, 2] with two whole items and one spare byte: the bulk reader
    // must not return a short result silently.
    let data = vec![
        0x00, 0x00, 0x08, 0x02, 0x00, 0x00, 0x00, 0x03, 0x00, 0x00, 0x00, 0x02, 1, 2, 3, 4, 5,
    ];
    let mut reader = IdxReader::new(data).unwrap();
    let mut items = Vec::new();
    assert_eq!(reader.read_items_to_end::<u8>(&mut items), Err(MnistError::UnexpectedEof));
    // The complete items read before the failure remain appended.
    assert_eq!(items.len(), 2);
    assert_eq!(items[0].data().as_slice(), &[1u8, 2]);
    assert_eq!(items[1].data().as_slice(), &[3u8, 4]);
}

#[test]
fn short_read_stops_at_the_element_boundary() {
    // An i16 tensor of shape [3] whose payload holds two and a half scalars:
    // the bulk read fails at the third scalar and leaves the cursor right
    // after the second, so only the odd tail byte remains.
    let data = vec![0x00, 0x00, 0x0b, 0x01, 0x00, 0x00, 0x00, 0x03, 0x00, 0x01, 0x00, 0x02, 0x7f];
    let mut reader = IdxReader::new(data).unwrap();
    let mut buf: Vec<i16> = vec![0; 3];
    assert_eq!(reader.read_elements(&mut buf), Err(MnistError::UnexpectedEof));
    assert_eq!(reader.read_bytes_to_end(), vec![0x7f]);
}

#[test]
fn nonzero_reserved_field_is_invalid_format() {
    let data = vec![0x00, 0x01, 0x08, 0x02, 0x00, 0x00, 0x00, 0x02, 0x00, 0x00, 0x00, 0x03, 1, 2];
    match IdxReader::new(data) {
        Err(MnistError::InvalidFormat) => {},
        other => panic!("expected an invalid-format failure, got {:?}", other.is_ok()),
    }
    // A reserved field wrong only in its first byte must fail too.
    let data = vec![0x01, 0x00, 0x08, 0x00];
    assert!(matches!(IdxReader::new(data), Err(MnistError::InvalidFormat)));
}

#[test]
fn unrecognised_tag_is_rejected() {
    // A tag byte the format does not know marks the file malformed; the
    // invalid-element-type error is reserved for a caller's kind mismatch.
    let data = vec![0x00, 0x00, 0xff, 0x00];
    assert!(matches!(IdxReader::new(data), Err(MnistError::InvalidFormat)));
    assert_eq!(ElementType::from_value(0xff), Err(MnistError::InvalidFormat));
    assert_eq!(ElementType::from_value(0x0a), Err(MnistError::InvalidFormat));
}

#[test]
fn recognised_tags_map_to_their_kinds() {
    assert_eq!(ElementType::from_value(0x08), Ok(ElementType::U8));
    assert_eq!(ElementType::from_value(0x09), Ok(ElementType::I8));
    assert_eq!(ElementType::from_value(0x0b), Ok(ElementType::I16));
    assert_eq!(ElementType::from_value(0x0c), Ok(ElementType::I32));
    assert_eq!(ElementType::from_value(0x0d), Ok(ElementType::F32));
    assert_eq!(ElementType::from_value(0x0e), Ok(ElementType::F64));
}

#[test]
fn scalar_kind_widths() {
    assert_eq!(ElementType::U8.size_in_bytes(), 1);
    assert_eq!(ElementType::I8.size_in_bytes(), 1);
    assert_eq!(ElementType::I16.size_in_bytes(), 2);
    assert_eq!(ElementType::I32.size_in_bytes(), 4);
    assert_eq!(ElementType::F32.size_in_bytes(), 4);
    assert_eq!(ElementType::F64.size_in_bytes(), 8);
}

#[test]
fn header_shorter_than_mandatory_is_eof() {
    assert!(matches!(IdxReader::new(vec![0x00]), Err(MnistError::UnexpectedEof)));
    assert!(matches!(IdxReader::new(vec![0x00, 0x00]), Err(MnistError::UnexpectedEof)));
    assert!(matches!(IdxReader::new(vec![0x00, 0x00, 0x08]), Err(MnistError::UnexpectedEof)));
    // Declared two dimensions, gave only one size.
    let data = vec![0x00, 0x00, 0x08, 0x02, 0x00, 0x00, 0x00, 0x02];
    assert!(matches!(IdxReader::new(data), Err(MnistError::UnexpectedEof)));
}

#[test]
fn big_endian_signed_decoding() {
    // An i16 tensor of shape [2]: 0xfffe is -2, 0x7fff is 32767.
    let data = vec![0x00, 0x00, 0x0b, 0x01, 0x00, 0x00, 0x00, 0x02, 0xff, 0xfe, 0x7f, 0xff];
    let reader = IdxReader::new(data).unwrap();
    let mut elements = reader.elements::<i16>();
    assert_eq!(elements.next(), Some(Ok(-2)));
    assert_eq!(elements.next(), Some(Ok(32767)));
    assert!(elements.next().is_none());

    // An i32 tensor of shape [1]: 0x80000001 is -2147483647.
    let data = vec![0x00, 0x00, 0x0c, 0x01, 0x00, 0x00, 0x00, 0x01, 0x80, 0x00, 0x00, 0x01];
    let reader = IdxReader::new(data).unwrap();
    let mut elements = reader.elements::<i32>();
    assert_eq!(elements.next(), Some(Ok(-2147483647)));
    assert!(elements.next().is_none());
}

#[test]
fn big_endian_dimension_sizes() {
    // A dimension size with four distinct bytes: 0x01020304 is 16909060.
    let data = vec![0x00, 0x00, 0x08, 0x01, 0x01, 0x02, 0x03, 0x04];
    let reader = IdxReader::new(data).unwrap();
    assert_eq!(reader.dimensions().as_slice(), &[16909060u32]);
}

#[test]
fn signed_bytes_decode_as_twos_complement() {
    let data = vec![0x00, 0x00, 0x09, 0x01, 0x00, 0x00, 0x00, 0x02, 0xff, 0x7f];
    let reader = IdxReader::new(data).unwrap();
    let mut elements = reader.elements::<i8>();
    assert_eq!(elements.next(), Some(Ok(-1)));
    assert_eq!(elements.next(), Some(Ok(127)));
    assert!(elements.next().is_none());
}

#[test]
fn rank_zero_file_holds_one_scalar() {
    let data = vec![0x00, 0x00, 0x08, 0x00, 42];
    let reader = IdxReader::new(data).unwrap();
    assert_eq!(reader.num_elems(), 1);
    assert_eq!(reader.item_size(), 1);
    assert!(reader.dimensions().is_empty());
    let mut elements = reader.elements::<u8>();
    assert_eq!(elements.next(), Some(Ok(42)));
    assert!(elements.next().is_none());
}

#[test]
fn rank_one_items_are_single_scalars() {
    let data = vec![0x00, 0x00, 0x08, 0x01, 0x00, 0x00, 0x00, 0x03, 7, 8, 9];
    let mut reader = IdxReader::new(data).unwrap();
    assert_eq!(reader.item_size(), 1);
    let item = reader.read_item::<u8>().unwrap();
    assert_eq!(item.data().as_slice(), &[7u8]);
    assert!(item.dimensions().is_empty());
    assert_eq!(item.total_elements(), 1);
    assert_eq!(item.width(), None);
    assert_eq!(item.height(), None);
}

#[test]
fn zero_outer_dimension_holds_nothing() {
    let data = vec![0x00, 0x00, 0x08, 0x02, 0x00, 0x00, 0x00, 0x00, 0x00, 0x00, 0x00, 0x03];
    let mut reader = IdxReader::new(data).unwrap();
    assert_eq!(reader.num_elems(), 0);
    assert_eq!(reader.item_size(), 3);
    let mut items = Vec::new();
    assert_eq!(reader.read_items_to_end::<u8>(&mut items), Ok(()));
    assert!(items.is_empty());
}

#[test]
fn read_bytes_to_end_hands_out_the_payload() {
    let mut reader = IdxReader::new(two_by_three_u8()).unwrap();
    assert_eq!(reader.read_bytes_to_end(), vec![1u8, 2, 3, 4, 5, 6]);
    assert!(reader.read_bytes_to_end().is_empty());
}

#[test]
fn items_carry_height_for_three_dimensional_files() {
    // Shape [1, 2, 2]: one item of shape [2, 2].
    let data = vec![
        0x00, 0x00, 0x08, 0x03, 0x00, 0x00, 0x00, 0x01, 0x00, 0x00, 0x00, 0x02, 0x00, 0x00, 0x00,
        0x02, 9, 8, 7, 6,
    ];
    let mut reader = IdxReader::new(data).unwrap();
    let item = reader.read_item::<u8>().unwrap();
    assert_eq!(item.dimensions().as_slice(), &[2u32, 2u32]);
    assert_eq!(item.width(), Some(2));
    assert_eq!(item.height(), Some(2));
    assert_eq!(item.total_elements(), 4);
    assert_eq!(item.data().as_slice(), &[9u8, 8, 7, 6]);
}

#[test]
fn items_can_be_edited_in_place() {
    let mut reader = IdxReader::new(two_by_three_u8()).unwrap();
    let mut item = reader.read_item::<u8>().unwrap();
    item.data_mut()[0] = 100;
    assert_eq!(item.data().as_slice(), &[100u8, 2, 3]);
    assert_eq!(item.dimensions().as_slice(), &[3u32]);
}

#[test]
fn error_descriptions() {
    assert_eq!(MnistError::UnexpectedEof.description(), "unexpected end of data");
    assert_eq!(MnistError::InvalidFormat.description(), "invalid format");
    assert_eq!(MnistError::InvalidElementType.description(), "invalid element type");
    assert_eq!(MnistError::Parse.description(), "unable to parse");
}
