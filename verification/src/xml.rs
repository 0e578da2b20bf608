//! Trusted boundary to the XML tokenizer.  The reader is built and stepped
//! here, each event converted at once into a plain [`Token`]; everything done
//! with tokens is verified code.

use vstd::prelude::*;

use quick_xml::events::Event;

use crate::extract::Token;

verus! {

#[verifier::external_type_specification]
#[verifier::external_body]
#[verifier::reject_recursive_types(R)]
pub struct ExReader<R>(quick_xml::Reader<R>);

/// Relies on `quick_xml::Reader::from_reader`: a tokenizer over the given
/// bytes.  Unmatched end tags are tolerated, since a shard is a fragment of a
/// larger document and may close tags that it did not open.
#[verifier::external_body]
pub fn xml_reader<'a>(data: &'a [u8]) -> quick_xml::Reader<&'a [u8]> {
    let mut reader = quick_xml::Reader::from_reader(data);
    reader.config_mut().allow_unmatched_ends = true;
    reader
}

/// Relies on `quick_xml::Reader::read_event_into`: the next markup event of
/// the input, `Eof` at its end, or an error for malformed markup; each event
/// is converted to a plain token on the spot.  What comes back depends on the
/// reader's progress through its input, so nothing is promised of the
/// outcome; the verified state machine handles every token.
#[verifier::external_body]
pub fn read_token(reader: &mut quick_xml::Reader<&[u8]>, buf: &mut Vec<u8>) -> Token {
    buf.clear();
    match reader.read_event_into(buf) {
        Ok(Event::Start(e)) => Token::Open(e.name().as_ref().to_string()),
        Ok(Event::End(e)) => Token::Close(e.name().as_ref().to_string()),
        Ok(Event::Empty(e)) => Token::Empty(e.name().as_ref().to_string()),
        Ok(Event::Text(e)) => Token::Text(e.into_inner().into_owned()),
        Ok(Event::GeneralRef(e)) => Token::Ref(e.into_inner().into_owned()),
        Ok(Event::Eof) => Token::Eof,
        Ok(_) => Token::Other,
        Err(_) => Token::Malformed(reader.buffer_position()),
    }
}

/// Relies on `quick_xml::Reader::buffer_position`: the byte offset the
/// tokenizer has reached in its input.
#[verifier::external_body]
pub fn reader_position(reader: &quick_xml::Reader<&[u8]>) -> u64 {
    reader.buffer_position()
}

} // verus!
