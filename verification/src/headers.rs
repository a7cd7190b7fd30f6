//! Header fields: an ordered list of name and value pairs, looked up by
//! name without regard to the case of ASCII letters.

use vstd::prelude::*;
use vstd::string::*;
use vstd::utf8::*;
use crate::text::{eq_ignore_ascii_case, eq_ignore_case};

verus! {

/// A header field as the bytes of its name and of its value.
pub type FieldModel = (Seq<u8>, Seq<u8>);

/// The model of one header field.
pub open spec fn field_model(field: (String, String)) -> FieldModel {
    (encode_utf8(field.0@), encode_utf8(field.1@))
}

/// The model of a header list: the fields in their order, duplicates kept.
pub open spec fn headers_model(headers: Seq<(String, String)>) -> Seq<FieldModel> {
    headers.map_values(|field: (String, String)| field_model(field))
}

/// The value of the first field at or after `from` whose name is `name` but
/// for the case of ASCII letters.
pub open spec fn spec_header_value(headers: Seq<FieldModel>, name: Seq<u8>, from: int) -> Option<
    Seq<u8>,
>
    decreases headers.len() - from,
{
    if from < 0 || from >= headers.len() {
        None
    } else if eq_ignore_case(headers[from].0, name) {
        Some(headers[from].1)
    } else {
        spec_header_value(headers, name, from + 1)
    }
}

/// Looks up the first field named `name`.
pub fn header_value<'a>(headers: &'a [(String, String)], name: &str) -> (value: Option<&'a str>)
    ensures
        match value {
            Some(v) => spec_header_value(headers_model(headers@), name.spec_bytes(), 0) == Some(
                v.spec_bytes(),
            ),
            None => spec_header_value(headers_model(headers@), name.spec_bytes(), 0) is None,
        },
{
    let wanted = name.as_bytes();
    let ghost model = headers_model(headers@);
    let mut i: usize = 0;
    while i < headers.len()
        invariant
            i <= headers.len(),
            model == headers_model(headers@),
            wanted@ == name.spec_bytes(),
            spec_header_value(model, wanted@, 0) == spec_header_value(model, wanted@, i as int),
        decreases headers.len() - i,
    {
        let field = &headers[i];
        if eq_ignore_ascii_case(field.0.as_str().as_bytes(), wanted) {
            return Some(field.1.as_str());
        }
        i += 1;
    }
    None
}

} // verus!
