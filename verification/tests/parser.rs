use dicom_parser::attribute::Attribute;
use dicom_parser::encoding::Encoding;
use dicom_parser::error::Error;
use dicom_parser::handler::Control;
use dicom_parser::handler::Handler;
use dicom_parser::handler::Recorder;
use dicom_parser::parser::attribute::is_encapsulated_pixel_data;
use dicom_parser::parser::attribute::is_sequence;
use dicom_parser::parser::attribute::is_sequence_tag;
use dicom_parser::parser::attribute::make_parser;
use dicom_parser::parser::attribute::parse_attribute;
use dicom_parser::parser::attribute::AttributeParser;
use dicom_parser::parser::data::DataParser;
use dicom_parser::parser::data_set::parse_full;
use dicom_parser::parser::data_undefined_length::find_delimiter;
use dicom_parser::parser::data_undefined_length::DataUndefinedLengthParser;
use dicom_parser::parser::encapsulated_pixel_data::EncapsulatedPixelDataParser;
use dicom_parser::parser::sequence::SequenceParser;
use dicom_parser::parser::sequence_undefined_length::parse_sequence_item;
use dicom_parser::parser::sequence_undefined_length::SequenceUndefinedLengthParser;
use dicom_parser::parser::Action;
use dicom_parser::parser::Advance;
use dicom_parser::parser::Change;
use dicom_parser::parser::ParseResult;
use dicom_parser::parser::Status;
use dicom_parser::parser::Step;
use dicom_parser::parser::SubParser;
use dicom_parser::tag::Tag;
use dicom_parser::vr::VR;

const ELE: Encoding = Encoding::ExplicitLittleEndian;

struct Log {
    events: Vec<String>,
    cancel_at: Option<Tag>,
    cancel_fragment: Option<usize>,
    fragments: usize,
}

impl Log {
    fn new() -> Log {
        Log { events: vec![], cancel_at: None, cancel_fragment: None, fragments: 0 }
    }

    fn cancelling(tag: Tag) -> Log {
        Log { events: vec![], cancel_at: Some(tag), cancel_fragment: None, fragments: 0 }
    }
}

fn name(attribute: &Attribute) -> String {
    format!("{:04X},{:04X}", attribute.tag.group, attribute.tag.element)
}

impl Handler for Log {
    fn element(&mut self, attribute: &Attribute) -> Control {
        self.events.push(format!("element {}", name(attribute)));
        if self.cancel_at == Some(attribute.tag) {
            Control::Cancel
        } else {
            Control::Continue
        }
    }

    fn value(&mut self, attribute: &Attribute, bytes: &[u8]) {
        self.events.push(format!("value {} {:?}", name(attribute), bytes));
    }

    fn start_sequence(&mut self, attribute: &Attribute) {
        self.events.push(format!("start_sequence {}", name(attribute)));
    }

    fn start_sequence_item(&mut self, attribute: &Attribute) {
        self.events.push(format!("start_sequence_item {}", name(attribute)));
    }

    fn end_sequence_item(&mut self, attribute: &Attribute) {
        self.events.push(format!("end_sequence_item {}", name(attribute)));
    }

    fn end_sequence(&mut self, attribute: &Attribute) {
        self.events.push(format!("end_sequence {}", name(attribute)));
    }

    fn basic_offset_table(&mut self, attribute: &Attribute, bytes: &[u8]) -> Control {
        self.events.push(format!("basic_offset_table {} {:?}", name(attribute), bytes));
        Control::Continue
    }

    fn pixel_data_fragment(&mut self, attribute: &Attribute, bytes: &[u8]) -> Control {
        self.events.push(format!("pixel_data_fragment {} {:?}", name(attribute), bytes));
        self.fragments += 1;
        if self.cancel_fragment == Some(self.fragments) {
            Control::Cancel
        } else {
            Control::Continue
        }
    }
}

fn short_element(element: u8, value: &[u8]) -> Vec<u8> {
    let mut bytes = vec![0x08, 0x00, element, 0x00, b'C', b'S', value.len() as u8, 0];
    bytes.extend_from_slice(value);
    bytes
}

fn sequence_header(element: u8, length: u32) -> Vec<u8> {
    let mut bytes = vec![0x08, 0x00, element, 0x00, b'S', b'Q', 0, 0];
    bytes.extend_from_slice(&length.to_le_bytes());
    bytes
}

fn item_header(length: u32) -> Vec<u8> {
    let mut bytes = vec![0xfe, 0xff, 0x00, 0xe0];
    bytes.extend_from_slice(&length.to_le_bytes());
    bytes
}

fn item_delimiter() -> Vec<u8> {
    vec![0xfe, 0xff, 0x0d, 0xe0, 0, 0, 0, 0]
}

fn sequence_delimiter() -> Vec<u8> {
    vec![0xfe, 0xff, 0xdd, 0xe0, 0, 0, 0, 0]
}

fn concat(parts: &[Vec<u8>]) -> Vec<u8> {
    let mut bytes = vec![];
    for part in parts {
        bytes.extend_from_slice(part);
    }
    bytes
}

fn events_of(encoding: Encoding, bytes: &[u8]) -> (Result<ParseResult, Error>, Vec<String>) {
    let mut recorder = Recorder::new(Log::new());
    let result = parse_full(encoding, &mut recorder, bytes);
    (result, recorder.into_handler().events)
}

fn undefined_sequence_stream() -> Vec<u8> {
    concat(&[
        short_element(0x05, b"IS"),
        sequence_header(0x06, 0xffff_ffff),
        item_header(0xffff_ffff),
        short_element(0x07, b"AB"),
        item_delimiter(),
        item_header(10),
        short_element(0x08, b"CD"),
        sequence_delimiter(),
        short_element(0x09, b"EF"),
    ])
}

fn undefined_sequence_events() -> Vec<String> {
    vec![
        "element 0008,0005",
        "value 0008,0005 [73, 83]",
        "element 0008,0006",
        "start_sequence 0008,0006",
        "start_sequence_item 0008,0006",
        "element 0008,0007",
        "value 0008,0007 [65, 66]",
        "end_sequence_item 0008,0006",
        "start_sequence_item 0008,0006",
        "element 0008,0008",
        "value 0008,0008 [67, 68]",
        "end_sequence_item 0008,0006",
        "end_sequence 0008,0006",
        "element 0008,0009",
        "value 0008,0009 [69, 70]",
    ]
    .into_iter()
    .map(String::from)
    .collect()
}

#[test]
fn undefined_length_sequence_delivers_items_in_order() {
    let bytes = undefined_sequence_stream();
    let (result, events) = events_of(ELE, &bytes);
    assert_eq!(result, Ok(ParseResult::complete(bytes.len())));
    assert_eq!(events, undefined_sequence_events());
}

#[test]
fn defined_length_sequence_delivers_items_in_order() {
    let bytes = concat(&[
        sequence_header(0x06, 36),
        item_header(10),
        short_element(0x07, b"AB"),
        item_header(10),
        short_element(0x08, b"CD"),
        short_element(0x09, b"EF"),
    ]);
    let (result, events) = events_of(ELE, &bytes);
    assert_eq!(result, Ok(ParseResult::complete(bytes.len())));
    let expected: Vec<String> = vec![
        "element 0008,0006",
        "start_sequence 0008,0006",
        "start_sequence_item 0008,0006",
        "element 0008,0007",
        "value 0008,0007 [65, 66]",
        "end_sequence_item 0008,0006",
        "start_sequence_item 0008,0006",
        "element 0008,0008",
        "value 0008,0008 [67, 68]",
        "end_sequence_item 0008,0006",
        "end_sequence 0008,0006",
        "element 0008,0009",
        "value 0008,0009 [69, 70]",
    ]
    .into_iter()
    .map(String::from)
    .collect();
    assert_eq!(events, expected);
}

#[test]
fn nested_sequences_are_matched() {
    let inner = concat(&[
        sequence_header(0x10, 0xffff_ffff),
        item_header(10),
        short_element(0x11, b"AB"),
        sequence_delimiter(),
    ]);
    let bytes = concat(&[
        sequence_header(0x06, (8 + inner.len() + 8) as u32),
        item_header(0xffff_ffff),
        inner,
        item_delimiter(),
        short_element(0x09, b"EF"),
    ]);
    let (result, events) = events_of(ELE, &bytes);
    assert_eq!(result, Ok(ParseResult::complete(bytes.len())));
    let expected: Vec<String> = vec![
        "element 0008,0006",
        "start_sequence 0008,0006",
        "start_sequence_item 0008,0006",
        "element 0008,0010",
        "start_sequence 0008,0010",
        "start_sequence_item 0008,0010",
        "element 0008,0011",
        "value 0008,0011 [65, 66]",
        "end_sequence_item 0008,0010",
        "end_sequence 0008,0010",
        "end_sequence_item 0008,0006",
        "end_sequence 0008,0006",
        "element 0008,0009",
        "value 0008,0009 [69, 70]",
    ]
    .into_iter()
    .map(String::from)
    .collect();
    assert_eq!(events, expected);
    let starts = events.iter().filter(|e| e.starts_with("start_sequence_item")).count();
    let ends = events.iter().filter(|e| e.starts_with("end_sequence_item")).count();
    assert_eq!(starts, 2);
    assert_eq!(starts, ends);
}

#[test]
fn empty_sequence_of_defined_length() {
    let bytes = concat(&[sequence_header(0x06, 0), short_element(0x09, b"EF")]);
    let (result, events) = events_of(ELE, &bytes);
    assert_eq!(result, Ok(ParseResult::complete(bytes.len())));
    assert_eq!(
        events,
        vec![
            "element 0008,0006",
            "start_sequence 0008,0006",
            "end_sequence 0008,0006",
            "element 0008,0009",
            "value 0008,0009 [69, 70]",
        ]
    );
}

#[test]
fn undefined_length_without_value_representation_is_told_apart_by_look_ahead() {
    let ile = Encoding::ImplicitLittleEndian;
    let sequence = concat(&[
        vec![0x08, 0x00, 0x06, 0x00, 0xff, 0xff, 0xff, 0xff],
        item_header(10),
        vec![0x08, 0x00, 0x07, 0x00, 2, 0, 0, 0, b'A', b'B'],
        sequence_delimiter(),
    ]);
    let (result, events) = events_of(ile, &sequence);
    assert_eq!(result, Ok(ParseResult::complete(sequence.len())));
    assert_eq!(
        events,
        vec![
            "element 0008,0006",
            "start_sequence 0008,0006",
            "start_sequence_item 0008,0006",
            "element 0008,0007",
            "value 0008,0007 [65, 66]",
            "end_sequence_item 0008,0006",
            "end_sequence 0008,0006",
        ]
    );
    let data = concat(&[
        vec![0x08, 0x00, 0x06, 0x00, 0xff, 0xff, 0xff, 0xff],
        vec![1, 2, 3, 4, 5, 6, 7, 8, 9],
        item_delimiter(),
    ]);
    let (result, events) = events_of(ile, &data);
    assert_eq!(result, Ok(ParseResult::complete(data.len())));
    assert_eq!(
        events,
        vec!["element 0008,0006", "value 0008,0006 [1, 2, 3, 4, 5, 6, 7, 8, 9]"]
    );
}

#[test]
fn look_ahead_needs_eight_bytes_after_the_header() {
    let ile = Encoding::ImplicitLittleEndian;
    let bytes = concat(&[vec![0x08, 0x00, 0x06, 0x00, 0xff, 0xff, 0xff, 0xff], vec![1, 2, 3]]);
    let (result, events) = events_of(ile, &bytes);
    assert_eq!(result, Ok(ParseResult::incomplete(8)));
    assert_eq!(events, vec!["element 0008,0006"]);
}

#[test]
fn encapsulated_pixel_data_delivers_offset_table_and_fragments() {
    let bytes = concat(&[
        vec![0xe0, 0x7f, 0x10, 0x00, b'O', b'B', 0, 0, 0xff, 0xff, 0xff, 0xff],
        item_header(0),
        item_header(4),
        vec![1, 2, 3, 4],
        item_header(4),
        vec![5, 6, 7, 8],
        sequence_delimiter(),
    ]);
    let (result, events) = events_of(ELE, &bytes);
    assert_eq!(result, Ok(ParseResult::complete(bytes.len())));
    assert_eq!(
        events,
        vec![
            "element 7FE0,0010",
            "basic_offset_table 7FE0,0010 []",
            "pixel_data_fragment 7FE0,0010 [1, 2, 3, 4]",
            "pixel_data_fragment 7FE0,0010 [5, 6, 7, 8]",
        ]
    );
}

#[test]
fn cancelled_fragment_is_not_consumed() {
    let bytes = concat(&[
        vec![0xe0, 0x7f, 0x10, 0x00, b'O', b'B', 0, 0, 0xff, 0xff, 0xff, 0xff],
        item_header(0),
        item_header(4),
        vec![1, 2, 3, 4],
        item_header(4),
        vec![5, 6, 7, 8],
        sequence_delimiter(),
    ]);
    let mut log = Log::new();
    log.cancel_fragment = Some(2);
    let mut recorder = Recorder::new(log);
    let result = parse_full(ELE, &mut recorder, &bytes);
    assert_eq!(result, Ok(ParseResult::cancelled(12 + 8 + 12)));
    assert_eq!(recorder.handler().events.len(), 4);
}

#[test]
fn pixel_data_item_of_undefined_length_is_malformed() {
    let bytes = concat(&[
        vec![0xe0, 0x7f, 0x10, 0x00, b'O', b'B', 0, 0, 0xff, 0xff, 0xff, 0xff],
        item_header(0xffff_ffff),
    ]);
    let (result, _) = events_of(ELE, &bytes);
    assert_eq!(result, Err(Error::MalformedSequence));
    let bytes = concat(&[
        vec![0xe0, 0x7f, 0x10, 0x00, b'O', b'B', 0, 0, 0xff, 0xff, 0xff, 0xff],
        short_element(0x05, b"IS"),
    ]);
    let (result, _) = events_of(ELE, &bytes);
    assert_eq!(result, Err(Error::MalformedSequence));
}

#[test]
fn cancel_on_an_element_stops_at_its_header() {
    let bytes = concat(&[
        short_element(0x05, b"IS"),
        short_element(0x06, b"AB"),
        short_element(0x07, b"CD"),
    ]);
    let mut recorder = Recorder::new(Log::cancelling(Tag::new(8, 6)));
    let result = parse_full(ELE, &mut recorder, &bytes);
    assert_eq!(result, Ok(ParseResult::cancelled(10)));
    assert_eq!(
        recorder.into_handler().events,
        vec!["element 0008,0005", "value 0008,0005 [73, 83]", "element 0008,0006"]
    );
}

#[test]
fn cancel_inside_a_sequence_stops_at_the_header_of_the_element() {
    let bytes = undefined_sequence_stream();
    let mut recorder = Recorder::new(Log::cancelling(Tag::new(8, 8)));
    let result = parse_full(ELE, &mut recorder, &bytes);
    assert_eq!(result, Ok(ParseResult::cancelled(10 + 12 + 8 + 10 + 8 + 8)));
    let events = recorder.into_handler().events;
    assert_eq!(events.len(), 10);
    assert_eq!(events[..], undefined_sequence_events()[..10]);
}

#[test]
fn one_byte_at_a_time_gives_the_same_events() {
    let bytes = undefined_sequence_stream();
    let mut recorder = Recorder::new(Log::new());
    let mut parser = AttributeParser::default();
    let mut consumed = 0;
    let mut available = 0;
    let mut attributes = 0;
    loop {
        let result = parser.parse(ELE, &mut recorder, &bytes[consumed..available]).unwrap();
        consumed += result.bytes_consumed;
        match result.status {
            Status::Complete => {
                attributes += 1;
                assert!(parser.is_idle());
            }
            Status::Incomplete => {
                if available == bytes.len() {
                    break;
                }
                available += 1;
            }
            Status::Cancelled => unreachable!(),
        }
    }
    assert_eq!(consumed, bytes.len());
    assert_eq!(attributes, 3);
    assert_eq!(recorder.into_handler().events, undefined_sequence_events());
}

#[test]
fn attribute_parser_parses_one_attribute_per_call() {
    let bytes = concat(&[short_element(0x05, b"IS"), short_element(0x06, b"AB")]);
    let mut recorder = Recorder::new(Log::new());
    let mut parser = AttributeParser::default();
    assert!(parser.is_idle());
    let result = parser.parse(ELE, &mut recorder, &bytes);
    assert_eq!(result, Ok(ParseResult::complete(10)));
    assert_eq!(recorder.handler().events.len(), 2);
    let result = parser.parse(ELE, &mut recorder, &bytes[10..]);
    assert_eq!(result, Ok(ParseResult::complete(10)));
    let result = parser.parse(ELE, &mut recorder, &bytes[20..]);
    assert_eq!(result, Ok(ParseResult::incomplete(0)));
    assert_eq!(recorder.handler().events.len(), 4);
}

#[test]
fn defined_length_value_waits_for_all_its_bytes() {
    let bytes = short_element(0x05, b"ISIS");
    let mut recorder = Recorder::new(Log::new());
    let mut parser = AttributeParser::default();
    assert_eq!(parser.parse(ELE, &mut recorder, &bytes[..5]), Ok(ParseResult::incomplete(0)));
    assert_eq!(parser.parse(ELE, &mut recorder, &bytes[..10]), Ok(ParseResult::incomplete(8)));
    assert!(!parser.is_idle());
    assert_eq!(recorder.handler().events, vec!["element 0008,0005"]);
    assert_eq!(parser.parse(ELE, &mut recorder, &bytes[8..11]), Ok(ParseResult::incomplete(0)));
    assert_eq!(parser.parse(ELE, &mut recorder, &bytes[8..]), Ok(ParseResult::complete(4)));
    assert_eq!(
        recorder.handler().events,
        vec!["element 0008,0005", "value 0008,0005 [73, 83, 73, 83]"]
    );
}

#[test]
fn short_item_header_is_incomplete() {
    let bytes = concat(&[sequence_header(0x06, 0xffff_ffff), vec![0xfe, 0xff, 0x00, 0xe0]]);
    let (result, events) = events_of(ELE, &bytes);
    assert_eq!(result, Ok(ParseResult::incomplete(12)));
    assert_eq!(events, vec!["element 0008,0006", "start_sequence 0008,0006"]);
    let bytes = concat(&[sequence_header(0x06, 18), vec![0xfe, 0xff, 0x00, 0xe0]]);
    let (result, _) = events_of(ELE, &bytes);
    assert_eq!(result, Ok(ParseResult::incomplete(12)));
}

#[test]
fn wrong_item_tag_is_malformed() {
    let bytes = concat(&[sequence_header(0x06, 0xffff_ffff), short_element(0x07, b"AB")]);
    let (result, events) = events_of(ELE, &bytes);
    assert_eq!(result, Err(Error::MalformedSequence));
    assert_eq!(events, vec!["element 0008,0006", "start_sequence 0008,0006"]);
}

#[test]
fn item_longer_than_its_sequence_is_malformed() {
    let bytes = concat(&[sequence_header(0x06, 18), item_header(11), short_element(0x07, b"AB")]);
    let (result, _) = events_of(ELE, &bytes);
    assert_eq!(result, Err(Error::MalformedSequence));
}

#[test]
fn value_longer_than_its_item_is_malformed() {
    let bytes = concat(&[
        sequence_header(0x06, 18),
        item_header(10),
        short_element(0x07, b"ABCD"),
    ]);
    let (result, events) = events_of(ELE, &bytes);
    assert_eq!(result, Err(Error::MalformedSequence));
    assert_eq!(events.last().unwrap(), "element 0008,0007");
}

#[test]
fn nesting_beyond_the_limit_is_too_deep() {
    let mut bytes = vec![];
    for _ in 0..40 {
        bytes.extend_from_slice(&sequence_header(0x06, 0xffff_ffff));
        bytes.extend_from_slice(&item_header(0xffff_ffff));
    }
    let (result, _) = events_of(ELE, &bytes);
    assert_eq!(result, Err(Error::TooDeep));

    let mut bytes = vec![];
    for _ in 0..31 {
        bytes.extend_from_slice(&sequence_header(0x06, 0xffff_ffff));
        bytes.extend_from_slice(&item_header(0xffff_ffff));
    }
    let (result, events) = events_of(ELE, &bytes);
    assert_eq!(result, Ok(ParseResult::incomplete(bytes.len())));
    assert_eq!(events.len(), 31 * 3);
}

#[test]
fn incomplete_data_set_reports_what_was_consumed() {
    let bytes = concat(&[short_element(0x05, b"IS"), vec![0x08, 0x00, 0x06]]);
    let (result, events) = events_of(ELE, &bytes);
    assert_eq!(result, Ok(ParseResult::incomplete(10)));
    assert_eq!(events.len(), 2);
    let (result, events) = events_of(ELE, &[]);
    assert_eq!(result, Ok(ParseResult::complete(0)));
    assert_eq!(events.len(), 0);
}

#[test]
fn parse_attribute_reads_each_form_of_header() {
    let short = short_element(0x05, b"IS");
    assert_eq!(
        parse_attribute(ELE, &short),
        Ok((8, Attribute { tag: Tag::new(8, 5), vr: Some(VR::CS), length: 2 }))
    );
    let long = vec![0x08, 0x00, 0x06, 0x00, b'O', b'W', 0, 0, 0x04, 0x03, 0x02, 0x01];
    assert_eq!(
        parse_attribute(ELE, &long),
        Ok((12, Attribute { tag: Tag::new(8, 6), vr: Some(VR::OW), length: 0x01020304 }))
    );
    assert!(parse_attribute(ELE, &long[..11]).is_err());
    assert!(parse_attribute(ELE, &short[..5]).is_err());
    assert!(parse_attribute(ELE, &short[..7]).is_err());
    let item = item_header(0x0a0b0c0d);
    assert_eq!(
        parse_attribute(ELE, &item),
        Ok((8, Attribute { tag: Tag::new(0xfffe, 0xe000), vr: None, length: 0x0a0b0c0d }))
    );
    assert!(parse_attribute(ELE, &item[..7]).is_err());
    let other_control = vec![0xfe, 0xff, 0x01, 0x00, 1, 0, 0, 0];
    assert_eq!(
        parse_attribute(ELE, &other_control),
        Ok((8, Attribute { tag: Tag::new(0xfffe, 0x0001), vr: None, length: 1 }))
    );
    let implicit = vec![0x08, 0x00, 0x05, 0x00, 2, 1, 0, 0];
    assert_eq!(
        parse_attribute(Encoding::ImplicitLittleEndian, &implicit),
        Ok((8, Attribute { tag: Tag::new(8, 5), vr: None, length: 258 }))
    );
    let big = vec![0x00, 0x08, 0x00, 0x05, b'C', b'S', 1, 2];
    assert_eq!(
        parse_attribute(Encoding::ExplicitBigEndian, &big),
        Ok((8, Attribute { tag: Tag::new(8, 5), vr: Some(VR::CS), length: 258 }))
    );
}

#[test]
fn predicates_on_tags_and_attributes() {
    assert!(is_sequence_tag(Tag::new(0xfffe, 0xe000)));
    assert!(is_sequence_tag(Tag::new(0xfffe, 0xe00d)));
    assert!(is_sequence_tag(Tag::new(0xfffe, 0xe0dd)));
    assert!(is_sequence_tag(Tag::new(0xfffe, 0x0000)));
    assert!(!is_sequence_tag(Tag::new(0xfffd, 0xe000)));
    let pixel = Attribute { tag: Tag::new(0x7fe0, 0x0010), vr: Some(VR::OB), length: 0xffff_ffff };
    assert!(is_encapsulated_pixel_data(&pixel));
    assert!(!is_encapsulated_pixel_data(&Attribute { length: 16, ..pixel }));
    assert!(!is_encapsulated_pixel_data(&Attribute { tag: Tag::new(0x7fe0, 0x0011), ..pixel }));
    assert!(is_sequence(ELE, &item_header(0)));
    assert!(!is_sequence(ELE, &item_header(0)[..7]));
    assert!(!is_sequence(ELE, &item_delimiter()));
    assert!(!is_sequence(Encoding::ExplicitBigEndian, &item_header(0)));
    assert!(is_sequence(Encoding::ExplicitBigEndian, &[0xff, 0xfe, 0xe0, 0x00, 0, 0, 0, 0]));
}

#[test]
fn parse_sequence_item_gives_the_length_of_the_item() {
    assert_eq!(parse_sequence_item(ELE, &item_header(0x01020304)), Ok(0x01020304));
    assert_eq!(parse_sequence_item(ELE, &item_header(0xffff_ffff)), Ok(0xffff_ffff));
    assert_eq!(parse_sequence_item(ELE, &item_delimiter()), Err(Error::MalformedSequence));
    assert_eq!(
        parse_sequence_item(ELE, &[0xfe, 0xff, 0x00, 0xe0]),
        Err(Error::InsufficientBytes)
    );
    assert_eq!(parse_sequence_item(ELE, &item_header(4)[..7]), Err(Error::InsufficientBytes));
    assert_eq!(parse_sequence_item(ELE, &item_delimiter()[..7]), Err(Error::InsufficientBytes));
    assert_eq!(parse_sequence_item(ELE, &[]), Err(Error::InsufficientBytes));
    assert_eq!(
        parse_sequence_item(Encoding::ExplicitBigEndian, &[0xff, 0xfe, 0xe0, 0x00, 0, 0, 1, 2]),
        Ok(258)
    );
}

#[test]
fn make_parser_chooses_by_attribute_and_look_ahead() {
    let sq = Attribute { tag: Tag::new(8, 6), vr: Some(VR::SQ), length: 20 };
    assert_eq!(
        make_parser(ELE, sq, &[], Some(100)),
        SubParser::Sequence(SequenceParser { attribute: sq, outer: Some(80) })
    );
    assert_eq!(
        make_parser(ELE, sq, &[], None),
        SubParser::Sequence(SequenceParser { attribute: sq, outer: None })
    );
    let sq_undefined = Attribute { length: 0xffff_ffff, ..sq };
    assert_eq!(
        make_parser(ELE, sq_undefined, &[], None),
        SubParser::SequenceUndefinedLength(SequenceUndefinedLengthParser {
            attribute: sq_undefined
        })
    );
    let pixel = Attribute { tag: Tag::new(0x7fe0, 0x0010), vr: Some(VR::OB), length: 0xffff_ffff };
    assert_eq!(
        make_parser(ELE, pixel, &item_header(0), None),
        SubParser::EncapsulatedPixelData(EncapsulatedPixelDataParser {
            attribute: pixel,
            first: true
        })
    );
    let un = Attribute { tag: Tag::new(8, 6), vr: Some(VR::UN), length: 0xffff_ffff };
    assert_eq!(
        make_parser(ELE, un, &item_header(0), None),
        SubParser::SequenceUndefinedLength(SequenceUndefinedLengthParser { attribute: un })
    );
    assert_eq!(
        make_parser(ELE, un, &item_delimiter(), None),
        SubParser::DataUndefinedLength(DataUndefinedLengthParser { attribute: un })
    );
    let plain = Attribute { tag: Tag::new(8, 6), vr: Some(VR::CS), length: 2 };
    assert_eq!(
        make_parser(ELE, plain, &item_header(0), None),
        SubParser::Data(DataParser { attribute: plain })
    );
}

#[test]
fn find_delimiter_finds_the_first_one() {
    let bytes = concat(&[vec![1, 2, 3], item_delimiter(), item_delimiter()]);
    assert_eq!(find_delimiter(ELE, &bytes), Some(3));
    assert_eq!(find_delimiter(ELE, &bytes[..10]), None);
    assert_eq!(find_delimiter(ELE, &bytes[..11]), Some(3));
    assert_eq!(find_delimiter(ELE, &bytes[4..]), Some(7));
    assert_eq!(find_delimiter(ELE, &[]), None);
    assert_eq!(find_delimiter(Encoding::ExplicitBigEndian, &bytes), None);
}

#[test]
fn steps_of_the_value_parsers() {
    let plain = Attribute { tag: Tag::new(8, 6), vr: Some(VR::CS), length: 2 };
    let data = DataParser::new(plain);
    assert_eq!(data.parse(&[1], Some(10)), Step::Incomplete);
    assert_eq!(
        data.parse(&[1, 2, 3], Some(10)),
        Step::Advance(Advance {
            action: Action::Value { attribute: plain, start: 0, end: 2 },
            consumed: 2,
            change: Change::Pop,
            limit: Some(8),
        })
    );
    let un = Attribute { tag: Tag::new(8, 6), vr: Some(VR::UN), length: 0xffff_ffff };
    let undefined = DataUndefinedLengthParser::new(un);
    let bytes = concat(&[vec![1, 2, 3], item_delimiter()]);
    assert_eq!(undefined.parse(ELE, &bytes[..10], None), Step::Incomplete);
    assert_eq!(
        undefined.parse(ELE, &bytes, None),
        Step::Advance(Advance {
            action: Action::Value { attribute: un, start: 0, end: 3 },
            consumed: 11,
            change: Change::Pop,
            limit: None,
        })
    );
}

#[test]
fn byte_by_byte_is_one_call_on_everything() {
    let streams = vec![
        short_element(0x05, b"ISIS"),
        concat(&[
            sequence_header(0x06, 0xffff_ffff),
            item_header(0xffff_ffff),
            short_element(0x07, b"AB"),
            item_delimiter(),
            item_header(10),
            short_element(0x08, b"CD"),
            sequence_delimiter(),
        ]),
        concat(&[
            vec![0xe0, 0x7f, 0x10, 0x00, b'O', b'B', 0, 0, 0xff, 0xff, 0xff, 0xff],
            item_header(0),
            item_header(4),
            vec![1, 2, 3, 4],
            sequence_delimiter(),
        ]),
        concat(&[sequence_header(0x06, 18), item_header(10), short_element(0x07, b"AB")]),
        concat(&[sequence_header(0x06, 18), item_header(10), short_element(0x07, b"ABCD")]),
        concat(&[short_element(0x05, b"IS"), short_element(0x06, b"AB")]),
        vec![0x08, 0x00, 0x05],
        vec![],
    ];
    for bytes in streams {
        let mut whole = Recorder::new(Log::new());
        let mut at_once = AttributeParser::default();
        let expected = at_once.parse(ELE, &mut whole, &bytes);

        let mut single = Recorder::new(Log::new());
        let mut fed = AttributeParser::default();
        let result = fed.parse_byte_by_byte(ELE, &mut single, &bytes);

        assert_eq!(result, expected);
        assert_eq!(fed.is_idle(), at_once.is_idle());
        assert_eq!(single.into_handler().events, whole.into_handler().events);
    }
}

#[test]
fn byte_by_byte_stops_where_the_handler_cancels() {
    let bytes = concat(&[
        sequence_header(0x06, 0xffff_ffff),
        item_header(10),
        short_element(0x08, b"CD"),
        sequence_delimiter(),
    ]);
    let mut whole = Recorder::new(Log::cancelling(Tag::new(8, 8)));
    let expected = AttributeParser::default().parse(ELE, &mut whole, &bytes);
    assert_eq!(expected, Ok(ParseResult::cancelled(20)));
    let mut single = Recorder::new(Log::cancelling(Tag::new(8, 8)));
    let result = AttributeParser::default().parse_byte_by_byte(ELE, &mut single, &bytes);
    assert_eq!(result, expected);
    assert_eq!(single.into_handler().events, whole.into_handler().events);
}
