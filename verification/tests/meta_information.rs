use dicom_parser::attribute::Attribute;
use dicom_parser::error::Error;
use dicom_parser::meta_information::find_element_index;
use dicom_parser::meta_information::get_element;
use dicom_parser::meta_information::parse;
use dicom_parser::meta_information::strip_padding;
use dicom_parser::tag::Tag;
use dicom_parser::vr::VR;

fn make_preamble_and_prefix() -> Vec<u8> {
    let mut bytes = vec![];
    bytes.resize(132, 0);
    bytes[128] = 'D' as u8;
    bytes[129] = 'I' as u8;
    bytes[130] = 'C' as u8;
    bytes[131] = 'M' as u8;

    bytes
}

fn make_p10_header() -> Vec<u8> {
    let mut bytes = make_preamble_and_prefix();
    bytes.extend_from_slice(&vec![0x02, 0x00, 0x00, 0x00, b'U', b'L', 4, 0, 0, 0, 0, 0]);
    bytes.extend_from_slice(&vec![
        0x02, 0x00, 0x01, 0x00, b'O', b'B', 0, 0, 2, 0, 0, 0, 0, 1,
    ]);
    bytes.extend_from_slice(&vec![0x02, 0x00, 0x02, 0x00, b'U', b'I', 2, 0, b'1', 0]);
    bytes.extend_from_slice(&vec![0x02, 0x00, 0x03, 0x00, b'U', b'I', 2, 0, b'2', 0]);
    bytes.extend_from_slice(&vec![0x02, 0x00, 0x10, 0x00, b'U', b'I', 2, 0, b'3', 0]);
    bytes.extend_from_slice(&vec![0x02, 0x00, 0x12, 0x00, b'U', b'I', 2, 0, b'4', 0]);

    let length = bytes.len() as u32;
    bytes[140] = (length & 0xff) as u8;
    bytes[141] = (length >> 8 & 0xff) as u8;

    bytes
}

fn uid_attribute(element: u16, length: u32) -> Attribute {
    Attribute { tag: Tag::new(2, element), vr: Some(VR::UI), length }
}

#[test]
fn find_element_index_works() {
    let attributes = vec![uid_attribute(0x02, 2), uid_attribute(0x10, 2), uid_attribute(0x02, 4)];
    assert_eq!(find_element_index(&attributes, Tag::new(0x002, 0x002)), Ok(0));
    assert_eq!(find_element_index(&attributes, Tag::new(0x002, 0x010)), Ok(1));
    assert_eq!(find_element_index(&attributes, Tag::new(0x002, 0x012)), Err(()));
    assert_eq!(find_element_index(&[], Tag::new(0x002, 0x002)), Err(()));
}

#[test]
fn valid_meta_information() {
    let bytes = make_p10_header();
    let meta = parse(&bytes).unwrap();
    assert_eq!(meta.attributes.len(), 6);
}

#[test]
fn minimal_meta_header_gives_the_four_uids() {
    let bytes = make_p10_header();
    let meta = parse(&bytes).unwrap();
    assert_eq!(meta.attributes.len(), 6);
    assert_eq!(meta.data.len(), 6);
    assert_eq!(meta.media_storage_sop_class_uid, "1");
    assert_eq!(meta.media_storage_sop_instance_uid, "2");
    assert_eq!(meta.transfer_syntax_uid, "3");
    assert_eq!(meta.implementation_class_uid, "4");
    assert_eq!(meta.end_position, bytes.len());
    assert_eq!(meta.end_position, 132 + 12 + 14 + 4 * 10);
    assert_eq!(
        meta.attributes[1],
        Attribute { tag: Tag::new(2, 1), vr: Some(VR::OB), length: 2 }
    );
    assert_eq!(meta.data[1], vec![0, 1]);
    assert_eq!(meta.data[2], vec![b'1', 0]);
}

#[test]
fn prefix_only_is_not_dicom() {
    let bytes = make_preamble_and_prefix();
    assert_eq!(parse(&bytes).unwrap_err(), Error::NotDicom);
    let mut bytes = make_preamble_and_prefix();
    bytes[0] = 1;
    assert_eq!(parse(&bytes).unwrap_err(), Error::NotDicom);
}

#[test]
fn missing_prefix_is_not_dicom() {
    let mut bytes = make_p10_header();
    bytes[128] = b'X';
    assert_eq!(parse(&bytes).unwrap_err(), Error::NotDicom);
    assert_eq!(parse(&[]).unwrap_err(), Error::NotDicom);
}

#[test]
fn meta_information_ends_at_first_attribute_of_another_group() {
    let mut bytes = make_p10_header();
    let end = bytes.len();
    bytes.extend_from_slice(&vec![0x08, 0x00, 0x05, 0x00, b'C', b'S', 2, 0, b'I', b'S']);
    let meta = parse(&bytes).unwrap();
    assert_eq!(meta.attributes.len(), 6);
    assert_eq!(meta.end_position, end);
}

#[test]
fn truncated_last_attribute_is_not_collected() {
    let mut bytes = make_p10_header();
    let end = bytes.len();
    bytes.extend_from_slice(&vec![0x02, 0x00, 0x13, 0x00, b'S', b'H', 4, 0, b'A', b'B']);
    let meta = parse(&bytes).unwrap();
    assert_eq!(meta.attributes.len(), 6);
    assert_eq!(meta.end_position, end);
}

#[test]
fn missing_uid_is_reported_with_its_tag() {
    let mut bytes = make_preamble_and_prefix();
    bytes.extend_from_slice(&vec![0x02, 0x00, 0x02, 0x00, b'U', b'I', 2, 0, b'1', 0]);
    bytes.extend_from_slice(&vec![0x02, 0x00, 0x03, 0x00, b'U', b'I', 2, 0, b'2', 0]);
    bytes.extend_from_slice(&vec![0x02, 0x00, 0x12, 0x00, b'U', b'I', 2, 0, b'4', 0]);
    assert_eq!(
        parse(&bytes).unwrap_err(),
        Error::MissingMetaElement(Tag::new(0x0002, 0x0010))
    );
    let mut bytes = make_preamble_and_prefix();
    bytes.extend_from_slice(&vec![0x02, 0x00, 0x10, 0x00, b'U', b'I', 2, 0, b'3', 0]);
    assert_eq!(
        parse(&bytes).unwrap_err(),
        Error::MissingMetaElement(Tag::new(0x0002, 0x0002))
    );
}

#[test]
fn uid_that_is_not_utf8_is_malformed() {
    let mut bytes = make_preamble_and_prefix();
    bytes.extend_from_slice(&vec![0x02, 0x00, 0x02, 0x00, b'U', b'I', 2, 0, 0xff, 0xfe]);
    bytes.extend_from_slice(&vec![0x02, 0x00, 0x03, 0x00, b'U', b'I', 2, 0, b'2', 0]);
    bytes.extend_from_slice(&vec![0x02, 0x00, 0x10, 0x00, b'U', b'I', 2, 0, b'3', 0]);
    bytes.extend_from_slice(&vec![0x02, 0x00, 0x12, 0x00, b'U', b'I', 2, 0, b'4', 0]);
    assert_eq!(parse(&bytes).unwrap_err(), Error::MalformedUid);
}

#[test]
fn padding_is_stripped_only_when_last_byte_is_zero() {
    assert_eq!(strip_padding(&[b'1', 0]), &[b'1']);
    assert_eq!(strip_padding(&[b'1', b'2']), &[b'1', b'2']);
    assert_eq!(strip_padding(&[0, b'2']), &[0, b'2']);
    assert_eq!(strip_padding(&[b'1', 0, 0]), &[b'1', 0]);
    assert_eq!(strip_padding(&[]), &[] as &[u8]);
}

#[test]
fn get_element_reads_the_first_match_without_padding() {
    let attributes = vec![uid_attribute(0x02, 4), uid_attribute(0x10, 3), uid_attribute(0x02, 2)];
    let data = vec![vec![b'1', b'.', b'2', 0], vec![b'1', b'.', b'3'], vec![b'9', 0]];
    assert_eq!(get_element(&attributes, &data, Tag::new(2, 2)), Ok(String::from("1.2")));
    assert_eq!(get_element(&attributes, &data, Tag::new(2, 0x10)), Ok(String::from("1.3")));
    assert_eq!(
        get_element(&attributes, &data, Tag::new(2, 3)),
        Err(Error::MissingMetaElement(Tag::new(2, 3)))
    );
    let data = vec![vec![0xc3, 0x28], vec![], vec![]];
    assert_eq!(get_element(&attributes, &data, Tag::new(2, 2)), Err(Error::MalformedUid));
    let data = vec![vec![0xc3, 0xa9, 0], vec![], vec![]];
    assert_eq!(get_element(&attributes, &data, Tag::new(2, 2)), Ok(String::from("\u{e9}")));
    assert_eq!(get_element(&attributes, &data, Tag::new(2, 0x10)), Ok(String::new()));
}

#[test]
fn uid_has_no_trailing_nul_unless_the_value_ended_in_two() {
    let attributes = vec![uid_attribute(0x02, 2), uid_attribute(0x03, 3), uid_attribute(0x10, 1)];
    let data = vec![vec![b'1', 0], vec![b'1', 0, 0], vec![0]];
    let uid = get_element(&attributes, &data, Tag::new(2, 2)).unwrap();
    assert_eq!(uid, "1");
    assert!(!uid.ends_with('\0'));
    let uid = get_element(&attributes, &data, Tag::new(2, 3)).unwrap();
    assert_eq!(uid, "1\0");
    let uid = get_element(&attributes, &data, Tag::new(2, 0x10)).unwrap();
    assert_eq!(uid, "");
}
