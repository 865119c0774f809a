use crate::attribute::Attribute;
use crate::encoding::Encoding;
use crate::error::Error;
use crate::parser::attribute::parse_attribute;
use crate::parser::attribute::spec_parse_attribute;
use crate::prefix::detect;
use crate::prefix::spec_detect;
use crate::prefix::PREFIX_LENGTH;
use crate::tag::Tag;
use vstd::prelude::*;
use vstd::slice::slice_subrange;
use vstd::slice::slice_to_vec;
use vstd::utf8::decode_utf8;
use vstd::utf8::decode_utf8_encode_utf8;
use vstd::utf8::encode_utf8;
use vstd::utf8::valid_utf8;

verus! {

/// What the meta-information of a file says: the four unique identifiers,
/// the offset in the file at which the data set starts, and the attributes
/// of group 2 with their values, in file order.
#[derive(Debug)]
pub struct MetaInformation {
    pub media_storage_sop_class_uid: String,
    pub media_storage_sop_instance_uid: String,
    pub transfer_syntax_uid: String,
    pub implementation_class_uid: String,
    pub end_position: usize,
    pub attributes: Vec<Attribute>,
    pub data: Vec<Vec<u8>>,
}

/// The mathematical content of a `MetaInformation`.
pub struct MetaModel {
    pub media_storage_sop_class_uid: Seq<char>,
    pub media_storage_sop_instance_uid: Seq<char>,
    pub transfer_syntax_uid: Seq<char>,
    pub implementation_class_uid: Seq<char>,
    pub end_position: nat,
    pub attributes: Seq<Attribute>,
    pub data: Seq<Seq<u8>>,
}

/// The values held by a sequence of vectors.
pub open spec fn values_of(data: Seq<Vec<u8>>) -> Seq<Seq<u8>> {
    data.map_values(|value: Vec<u8>| value@)
}

impl View for MetaInformation {
    type V = MetaModel;

    open spec fn view(&self) -> MetaModel {
        MetaModel {
            media_storage_sop_class_uid: self.media_storage_sop_class_uid@,
            media_storage_sop_instance_uid: self.media_storage_sop_instance_uid@,
            transfer_syntax_uid: self.transfer_syntax_uid@,
            implementation_class_uid: self.implementation_class_uid@,
            end_position: self.end_position as nat,
            attributes: self.attributes@,
            data: values_of(self.data@),
        }
    }
}

/// An attribute of the meta-information as it lies in the file: its header,
/// and the offsets at which its value starts and ends.
pub struct MetaElement {
    pub attribute: Attribute,
    pub start: nat,
    pub end: nat,
}

/// The tag of the media storage SOP class UID.
pub open spec fn media_storage_sop_class_uid_tag() -> Tag {
    Tag { group: 0x0002, element: 0x0002 }
}

/// The tag of the media storage SOP instance UID.
pub open spec fn media_storage_sop_instance_uid_tag() -> Tag {
    Tag { group: 0x0002, element: 0x0003 }
}

/// The tag of the transfer syntax UID.
pub open spec fn transfer_syntax_uid_tag() -> Tag {
    Tag { group: 0x0002, element: 0x0010 }
}

/// The tag of the implementation class UID.
pub open spec fn implementation_class_uid_tag() -> Tag {
    Tag { group: 0x0002, element: 0x0012 }
}

/// The attribute of the meta-information that starts at `position`, if one
/// does: a header in explicit little-endian encoding, of group 2 and of
/// defined length, whose value lies within the file.
pub open spec fn spec_next_element(bytes: Seq<u8>, position: nat) -> Option<MetaElement> {
    if position > bytes.len() {
        None
    } else {
        match spec_parse_attribute(Encoding::ExplicitLittleEndian, bytes.skip(position as int)) {
            Err(_) => None,
            Ok((header_bytes, attribute)) => {
                let start = (position + header_bytes) as nat;
                let end = (start + attribute.length) as nat;
                if attribute.tag.group == 2 && !attribute.spec_has_undefined_length() && end
                    <= bytes.len() {
                    Some(MetaElement { attribute, start, end })
                } else {
                    None
                }
            },
        }
    }
}

/// The attributes of the meta-information from `position` on: one after
/// the other, up to the first place at which none starts.
pub open spec fn spec_elements(bytes: Seq<u8>, position: nat) -> Seq<MetaElement>
    decreases bytes.len() - position,
{
    match spec_next_element(bytes, position) {
        None => Seq::empty(),
        Some(element) => seq![element] + spec_elements(bytes, element.end),
    }
}

/// The index of the first attribute from `from` on that has the tag `tag`.
pub open spec fn spec_find_element_index(attributes: Seq<Attribute>, tag: Tag, from: int) -> Option<
    int,
>
    decreases attributes.len() - from,
{
    if from < 0 || from >= attributes.len() {
        None
    } else if attributes[from].tag == tag {
        Some(from)
    } else {
        spec_find_element_index(attributes, tag, from + 1)
    }
}

/// What `spec_find_element_index` finds has the tag, and nothing before it
/// has; where it finds nothing, nothing has the tag.
pub proof fn lemma_find_element_index(attributes: Seq<Attribute>, tag: Tag, from: int)
    requires
        0 <= from,
    ensures
        match spec_find_element_index(attributes, tag, from) {
            Some(index) => {
                &&& from <= index < attributes.len()
                &&& attributes[index].tag == tag
                &&& forall|i: int| from <= i < index ==> attributes[i].tag != tag
            },
            None => forall|i: int| from <= i < attributes.len() ==> attributes[i].tag != tag,
        },
    decreases attributes.len() - from,
{
    if from < attributes.len() && attributes[from].tag != tag {
        lemma_find_element_index(attributes, tag, from + 1);
    }
}

/// Finds the first attribute with the tag `tag`.
pub fn find_element_index(attributes: &[Attribute], tag: Tag) -> (result: Result<usize, ()>)
    ensures
        match result {
            Ok(index) => spec_find_element_index(attributes@, tag, 0) == Some(index as int),
            Err(_) => spec_find_element_index(attributes@, tag, 0) is None,
        },
{
    let mut index: usize = 0;
    while index < attributes.len()
        invariant
            index <= attributes.len(),
            spec_find_element_index(attributes@, tag, 0) == spec_find_element_index(
                attributes@,
                tag,
                index as int,
            ),
        decreases attributes.len() - index,
    {
        if attributes[index].tag == tag {
            return Ok(index);
        }
        index = index + 1;
    }
    Err(())
}

/// A value without its padding: without its last byte where that byte is
/// zero.
pub open spec fn spec_strip_padding(value: Seq<u8>) -> Seq<u8> {
    if value.len() > 0 && value.last() == 0 {
        value.drop_last()
    } else {
        value
    }
}

pub fn strip_padding(value: &[u8]) -> (stripped: &[u8])
    ensures
        stripped@ == spec_strip_padding(value@),
{
    let len: usize = value.len();
    if len > 0 && value[len - 1] == 0 {
        slice_subrange(value, 0, len - 1)
    } else {
        value
    }
}

/// The value ends in two zero bytes, so that one zero byte is left when the
/// padding is taken off.
pub open spec fn ends_in_two_zeros(value: Seq<u8>) -> bool {
    value.len() >= 2 && value[value.len() - 1] == 0 && value[value.len() - 2] == 0
}

/// Text that ends in a NUL character is encoded as bytes that end in a
/// zero byte.
pub proof fn lemma_encoded_nul_is_zero(text: Seq<char>)
    requires
        text.len() > 0,
        text.last() == '\0',
    ensures
        encode_utf8(text).len() > 0,
        encode_utf8(text).last() == 0,
    decreases text.len(),
{
    let rest = text.drop_first();
    if rest.len() == 0 {
        assert((0u32 & 0x7F) as u8 == 0u8) by (bit_vector);
        assert(encode_utf8(rest) =~= Seq::<u8>::empty());
        assert(encode_utf8(text) =~= seq![0u8]);
    } else {
        assert(rest.last() == text.last());
        lemma_encoded_nul_is_zero(rest);
    }
}

/// A unique identifier has no trailing NUL character, unless its value
/// ended in two zero bytes.
pub proof fn lemma_uid_has_no_trailing_nul(value: Seq<u8>)
    requires
        valid_utf8(spec_strip_padding(value)),
        !ends_in_two_zeros(value),
    ensures
        decode_utf8(spec_strip_padding(value)).len() == 0 || decode_utf8(
            spec_strip_padding(value),
        ).last() != '\0',
{
    let stripped = spec_strip_padding(value);
    let uid = decode_utf8(stripped);
    if uid.len() > 0 && uid.last() == '\0' {
        lemma_encoded_nul_is_zero(uid);
        decode_utf8_encode_utf8(stripped);
    }
}

/// `std::str::from_utf8`: the bytes as text, where they are valid UTF-8,
/// and nothing where they are not.  The text is then what the bytes decode
/// to.
#[verifier::external_body]
fn str_from_utf8(bytes: &[u8]) -> (text: Option<&str>)
    ensures
        text is Some <==> valid_utf8(bytes@),
        text matches Some(s) ==> s@ == decode_utf8(bytes@),
{
    std::str::from_utf8(bytes).ok()
}

/// The unique identifier that the first attribute with the tag `tag`
/// holds: its value without padding, decoded as UTF-8.
pub open spec fn spec_get_element(attributes: Seq<Attribute>, data: Seq<Seq<u8>>, tag: Tag) -> Result<
    Seq<char>,
    Error,
> {
    match spec_find_element_index(attributes, tag, 0) {
        None => Err(Error::MissingMetaElement(tag)),
        Some(index) => {
            let value = spec_strip_padding(data[index]);
            if valid_utf8(value) {
                Ok(decode_utf8(value))
            } else {
                Err(Error::MalformedUid)
            }
        },
    }
}

/// The unique identifier that is read from the attributes has no trailing
/// NUL character, unless the value it is read from ended in two zero bytes.
pub proof fn lemma_get_element_has_no_trailing_nul(
    attributes: Seq<Attribute>,
    data: Seq<Seq<u8>>,
    tag: Tag,
)
    requires
        spec_get_element(attributes, data, tag) is Ok,
        !ends_in_two_zeros(data[spec_find_element_index(attributes, tag, 0)->0]),
    ensures
        ({
            let uid = spec_get_element(attributes, data, tag)->Ok_0;
            uid.len() == 0 || uid.last() != '\0'
        }),
{
    lemma_uid_has_no_trailing_nul(data[spec_find_element_index(attributes, tag, 0)->0]);
}

/// Reads the unique identifier with the tag `tag` from the attributes and
/// their values.
pub fn get_element(attributes: &[Attribute], data: &[Vec<u8>], tag: Tag) -> (result: Result<
    String,
    Error,
>)
    requires
        attributes@.len() == data@.len(),
    ensures
        match result {
            Ok(uid) => spec_get_element(attributes@, values_of(data@), tag) == Ok::<
                Seq<char>,
                Error,
            >(uid@),
            Err(error) => spec_get_element(attributes@, values_of(data@), tag) == Err::<
                Seq<char>,
                Error,
            >(error),
        },
{
    match find_element_index(attributes, tag) {
        Err(_) => Err(Error::MissingMetaElement(tag)),
        Ok(index) => {
            proof {
                lemma_find_element_index(attributes@, tag, 0);
            }
            let value = strip_padding(data[index].as_slice());
            match str_from_utf8(value) {
                None => Err(Error::MalformedUid),
                Some(text) => Ok(text.to_owned()),
            }
        },
    }
}

/// The headers of a sequence of elements.
pub open spec fn attributes_of(elements: Seq<MetaElement>) -> Seq<Attribute> {
    elements.map_values(|element: MetaElement| element.attribute)
}

/// The values of a sequence of elements, cut from the file.
pub open spec fn data_of(bytes: Seq<u8>, elements: Seq<MetaElement>) -> Seq<Seq<u8>> {
    elements.map_values(|element: MetaElement| bytes.subrange(element.start as int, element.end as int))
}

/// The meta-information of the file `bytes`.
///
/// - `NotDicom` where the file does not start with a preamble and the
///   letters `DICM`, or no attribute of group 2 follows them.
/// - Otherwise the four unique identifiers are read, in the order media
///   storage SOP class, media storage SOP instance, transfer syntax,
///   implementation class; the first that is missing or malformed is the
///   error.
/// - Otherwise the meta-information ends where the last attribute of
///   group 2 ends.
pub open spec fn spec_parse(bytes: Seq<u8>) -> Result<MetaModel, Error> {
    let elements = spec_elements(bytes, 132);
    let attributes = attributes_of(elements);
    let data = data_of(bytes, elements);
    if !spec_detect(bytes) || elements.len() == 0 {
        Err(Error::NotDicom)
    } else {
        match spec_get_element(attributes, data, media_storage_sop_class_uid_tag()) {
            Err(error) => Err(error),
            Ok(media_storage_sop_class_uid) => match spec_get_element(
                attributes,
                data,
                media_storage_sop_instance_uid_tag(),
            ) {
                Err(error) => Err(error),
                Ok(media_storage_sop_instance_uid) => match spec_get_element(
                    attributes,
                    data,
                    transfer_syntax_uid_tag(),
                ) {
                    Err(error) => Err(error),
                    Ok(transfer_syntax_uid) => match spec_get_element(
                        attributes,
                        data,
                        implementation_class_uid_tag(),
                    ) {
                        Err(error) => Err(error),
                        Ok(implementation_class_uid) => Ok(
                            MetaModel {
                                media_storage_sop_class_uid,
                                media_storage_sop_instance_uid,
                                transfer_syntax_uid,
                                implementation_class_uid,
                                end_position: elements.last().end,
                                attributes,
                                data,
                            },
                        ),
                    },
                },
            },
        }
    }
}

/// Reads the attribute of the meta-information that starts at `position`.
fn next_element(bytes: &[u8], position: usize) -> (found: Option<(Attribute, usize, usize)>)
    requires
        position <= bytes.len(),
    ensures
        match found {
            Some((attribute, start, end)) => {
                &&& position < end <= bytes.len()
                &&& start <= end
                &&& spec_next_element(bytes@, position as nat) == Some(
                    MetaElement { attribute, start: start as nat, end: end as nat },
                )
            },
            None => spec_next_element(bytes@, position as nat) is None,
        },
{
    let rest = slice_subrange(bytes, position, bytes.len());
    match parse_attribute(Encoding::ExplicitLittleEndian, rest) {
        Err(_) => None,
        Ok((header_bytes, attribute)) => {
            if attribute.tag.group != 2 || attribute.has_undefined_length() || rest.len()
                - header_bytes < attribute.length as usize {
                None
            } else {
                let start: usize = position + header_bytes;
                let end: usize = start + attribute.length as usize;
                Some((attribute, start, end))
            }
        },
    }
}

/// Reads the meta-information of a file.
pub fn parse(bytes: &[u8]) -> (result: Result<MetaInformation, Error>)
    ensures
        match result {
            Ok(meta) => spec_parse(bytes@) == Ok::<MetaModel, Error>(meta@),
            Err(error) => spec_parse(bytes@) == Err::<MetaModel, Error>(error),
        },
        result matches Ok(meta) ==> 132 < meta.end_position <= bytes.len(),
{
    if !detect(bytes) {
        return Err(Error::NotDicom);
    }
    let mut attributes: Vec<Attribute> = Vec::new();
    let mut data: Vec<Vec<u8>> = Vec::new();
    let mut position: usize = PREFIX_LENGTH;
    let mut done: bool = false;
    let ghost mut elements: Seq<MetaElement> = Seq::empty();
    proof {
        assert(elements + spec_elements(bytes@, position as nat) =~= spec_elements(bytes@, 132));
        assert(attributes@ =~= attributes_of(elements));
        assert(values_of(data@) =~= data_of(bytes@, elements));
    }
    while !done
        invariant
            132 <= position <= bytes.len(),
            attributes@.len() == elements.len(),
            data@.len() == elements.len(),
            spec_elements(bytes@, 132) == elements + spec_elements(bytes@, position as nat),
            done ==> spec_next_element(bytes@, position as nat) is None,
            attributes@ == attributes_of(elements),
            values_of(data@) == data_of(bytes@, elements),
            elements.len() > 0 ==> elements.last().end == position,
        decreases bytes.len() - position + (if done { 0int } else { 1int }),
    {
        match next_element(bytes, position) {
            None => {
                done = true;
            },
            Some((attribute, start, end)) => {
                let value = slice_to_vec(slice_subrange(bytes, start, end));
                proof {
                    let element = MetaElement { attribute, start: start as nat, end: end as nat };
                    let longer = elements.push(element);
                    assert(longer + spec_elements(bytes@, end as nat) =~= elements + spec_elements(
                        bytes@,
                        position as nat,
                    ));
                    assert(attributes@.push(attribute) =~= attributes_of(longer));
                    assert forall|i: int| 0 <= i < longer.len() implies values_of(
                        data@.push(value),
                    )[i] == #[trigger] data_of(bytes@, longer)[i] by {
                        if i < elements.len() {
                            assert(values_of(data@)[i] == data_of(bytes@, elements)[i]);
                            assert(data@.push(value)[i] == data@[i]);
                        } else {
                            assert(data@.push(value)[i] == value);
                        }
                    }
                    assert(values_of(data@.push(value)) =~= data_of(bytes@, longer));
                    elements = longer;
                }
                attributes.push(attribute);
                data.push(value);
                position = end;
            },
        }
    }
    proof {
        assert(elements =~= spec_elements(bytes@, 132));
    }
    if attributes.len() == 0 {
        return Err(Error::NotDicom);
    }
    let media_storage_sop_class_uid = match get_element(
        attributes.as_slice(),
        data.as_slice(),
        Tag::new(0x0002, 0x0002),
    ) {
        Ok(uid) => uid,
        Err(error) => {
            return Err(error);
        },
    };
    let media_storage_sop_instance_uid = match get_element(
        attributes.as_slice(),
        data.as_slice(),
        Tag::new(0x0002, 0x0003),
    ) {
        Ok(uid) => uid,
        Err(error) => {
            return Err(error);
        },
    };
    let transfer_syntax_uid = match get_element(
        attributes.as_slice(),
        data.as_slice(),
        Tag::new(0x0002, 0x0010),
    ) {
        Ok(uid) => uid,
        Err(error) => {
            return Err(error);
        },
    };
    let implementation_class_uid = match get_element(
        attributes.as_slice(),
        data.as_slice(),
        Tag::new(0x0002, 0x0012),
    ) {
        Ok(uid) => uid,
        Err(error) => {
            return Err(error);
        },
    };
    Ok(
        MetaInformation {
            media_storage_sop_class_uid,
            media_storage_sop_instance_uid,
            transfer_syntax_uid,
            implementation_class_uid,
            end_position: position,
            attributes,
            data,
        },
    )
}

} // verus!
