use crate::event::Attribute;
use crate::event::AttributeView;
use crate::event::attributes_view;
use crate::text::str_eq;
use percent_encoding::percent_decode;
use vstd::prelude::*;
use vstd::string::StringSliceAdditionalSpecFns;
use vstd::utf8::*;

verus! {

/// The value of a hexadecimal digit given as an ASCII byte.
pub open spec fn hex_value(b: u8) -> Option<int> {
    if 0x30 <= b <= 0x39 {
        Some(b - 0x30)
    } else if 0x41 <= b <= 0x46 {
        Some(b - 0x41 + 10)
    } else if 0x61 <= b <= 0x66 {
        Some(b - 0x61 + 10)
    } else {
        None
    }
}

/// Whether the bytes begin with a percent sign and two hexadecimal digits.
pub open spec fn starts_with_escape(bytes: Seq<u8>) -> bool {
    &&& bytes.len() >= 3
    &&& bytes[0] == 0x25
    &&& hex_value(bytes[1]) is Some
    &&& hex_value(bytes[2]) is Some
}

/// Percent-decoding: each percent sign that two hexadecimal digits follow
/// becomes the byte they spell; every other byte stays.
pub open spec fn percent_decoded(bytes: Seq<u8>) -> Seq<u8>
    decreases bytes.len(),
{
    if bytes.len() == 0 {
        seq![]
    } else if starts_with_escape(bytes) {
        seq![(hex_value(bytes[1])->0 * 16 + hex_value(bytes[2])->0) as u8] + percent_decoded(
            bytes.skip(3),
        )
    } else {
        seq![bytes[0]] + percent_decoded(bytes.skip(1))
    }
}

/// The text that `String::from_utf8_lossy` makes of these bytes: the text
/// they encode, with U+FFFD in place of what is not UTF-8.
pub uninterp spec fn utf8_lossy(bytes: Seq<u8>) -> Seq<char>;

/// The text that bytes decode to: the text they encode where they are
/// UTF-8, else what lossy decoding makes of them.
pub open spec fn decoded_text(bytes: Seq<u8>) -> Seq<char> {
    if valid_utf8(bytes) {
        decode_utf8(bytes)
    } else {
        utf8_lossy(bytes)
    }
}

/// What an attribute value stands for once it is percent-decoded.
pub open spec fn decoded_value(raw: Seq<char>) -> Seq<char> {
    decoded_text(percent_decoded(encode_utf8(raw)))
}

/// `percent_decode` of the `percent_encoding` crate on the bytes of `value`,
/// then `decode_utf8_lossy` on what came out, which is
/// `String::from_utf8_lossy`. Bytes that are UTF-8 decode to the text they
/// encode.
#[verifier::external_body]
fn percent_decode_lossy(value: &str) -> (r: String)
    ensures
        r@ == utf8_lossy(percent_decoded(encode_utf8(value@))),
        valid_utf8(percent_decoded(encode_utf8(value@))) ==> r@ == decode_utf8(
            percent_decoded(encode_utf8(value@)),
        ),
{
    percent_decode(value.as_bytes()).decode_utf8_lossy().into_owned()
}

/// Whether a value holds no percent sign, so that decoding leaves it as it is.
pub open spec fn is_plain(raw: Seq<char>) -> bool {
    !encode_utf8(raw).contains(0x25u8)
}

/// Bytes without a percent sign decode to themselves.
pub proof fn lemma_percent_decoded_plain(bytes: Seq<u8>)
    requires
        !bytes.contains(0x25u8),
    ensures
        percent_decoded(bytes) == bytes,
    decreases bytes.len(),
{
    if bytes.len() > 0 {
        assert(bytes[0] != 0x25u8);
        assert forall|b: u8| bytes.skip(1).contains(b) implies bytes.contains(b) by {
            let k = choose|k: int| 0 <= k < bytes.skip(1).len() && bytes.skip(1)[k] == b;
            assert(bytes[k + 1] == b);
        }
        lemma_percent_decoded_plain(bytes.skip(1));
        assert(seq![bytes[0]] + bytes.skip(1) =~= bytes);
    } else {
        assert(bytes =~= seq![]);
    }
}

/// The value, as written, of the first attribute called `name`.
pub open spec fn raw_value(attributes: Seq<AttributeView>, name: Seq<char>) -> Option<Seq<char>>
    decreases attributes.len(),
{
    if attributes.len() == 0 {
        None
    } else if attributes[0].name == name {
        Some(attributes[0].value)
    } else {
        raw_value(attributes.skip(1), name)
    }
}

/// The decoded value of the first attribute called `name`.
pub open spec fn attribute_value(attributes: Seq<AttributeView>, name: Seq<char>) -> Option<
    Seq<char>,
> {
    match raw_value(attributes, name) {
        Some(raw) => Some(decoded_value(raw)),
        None => None,
    }
}

/// A value without a percent sign decodes to itself.
pub proof fn lemma_plain_value_decodes_to_itself(raw: Seq<char>)
    requires
        is_plain(raw),
    ensures
        decoded_value(raw) == raw,
{
    lemma_percent_decoded_plain(encode_utf8(raw));
    encode_utf8_valid_utf8(raw);
    encode_utf8_decode_utf8(raw);
}

/// Looks for an attribute by its local name and gives its value,
/// percent-decoded. Where several attributes have the name, the first
/// counts. Where the decoded bytes are UTF-8, the value is the text they
/// encode; a value without a percent sign is given as it is written.
pub fn get_attribute(attributes: &Vec<Attribute>, name: &str) -> (r: Option<String>)
    ensures
        r is Some == attribute_value(attributes_view(attributes@), name@) is Some,
        r matches Some(v) ==> Some(v@) == attribute_value(attributes_view(attributes@), name@),
        r matches Some(v) ==> (raw_value(attributes_view(attributes@), name@) matches Some(raw) && (
        valid_utf8(percent_decoded(encode_utf8(raw))) ==> v@ == decode_utf8(
            percent_decoded(encode_utf8(raw)),
        )) && (is_plain(raw) ==> v@ == raw)),
{
    let ghost all = attributes_view(attributes@);
    let mut i: usize = 0;
    assert(all.skip(0) =~= all);
    while i < attributes.len()
        invariant
            i <= attributes.len(),
            all == attributes_view(attributes@),
            raw_value(all, name@) == raw_value(all.skip(i as int), name@),
        decreases attributes.len() - i,
    {
        let attr = &attributes[i];
        assert(all.skip(i as int)[0] == attr@);
        if str_eq(attr.name.as_str(), name) {
            let value = percent_decode_lossy(attr.value.as_str());
            proof {
                if is_plain(attr.value@) {
                    lemma_plain_value_decodes_to_itself(attr.value@);
                }
            }
            return Some(value);
        }
        assert(all.skip(i as int).skip(1) =~= all.skip(i + 1));
        i += 1;
    }
    None
}

} // verus!
