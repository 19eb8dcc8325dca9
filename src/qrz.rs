use vstd::prelude::*;
use vstd::string::*;

verus! {

#[verifier::external_type_specification]
#[verifier::external_body]
pub struct ExQrzXmlClient(qrz_xml::QrzXmlClient);

/// A session with the QRZ.com callsign directory.
pub struct QrzClient {
    pub client: qrz_xml::QrzXmlClient,
}

/// The name fields of one directory record.
#[derive(Debug, Clone)]
pub struct CallsignInfo {
    pub fname: Option<String>,
    pub name: Option<String>,
    pub nickname: Option<String>,
}

/// The field is present and holds at least one character.
pub open spec fn filled(field: Option<String>) -> bool {
    field matches Some(s) && s@.len() > 0
}

/// The name a record offers: its nickname, else its first name, else its
/// full name, skipping fields that are missing or empty.
pub open spec fn display_name_spec(info: CallsignInfo) -> Option<Seq<char>> {
    if filled(info.nickname) {
        Some(info.nickname->Some_0@)
    } else if filled(info.fname) {
        Some(info.fname->Some_0@)
    } else if filled(info.name) {
        Some(info.name->Some_0@)
    } else {
        None
    }
}

fn filled_text(field: &Option<String>) -> (r: Option<String>)
    ensures
        r is Some <==> filled(*field),
        r matches Some(s) ==> s@ == field->Some_0@,
{
    match field {
        Some(s) => {
            if s.as_str().unicode_len() > 0 {
                Some(s.clone())
            } else {
                None
            }
        },
        None => None,
    }
}

impl QrzClient {
    /// The best display name in a directory record: nickname, then first
    /// name, then full name; `None` when all three are missing or empty.
    pub fn get_display_name(info: &CallsignInfo) -> (r: Option<String>)
        ensures
            r is None <==> display_name_spec(*info) is None,
            r matches Some(s) ==> display_name_spec(*info) == Some(s@),
    {
        if let Some(s) = filled_text(&info.nickname) {
            return Some(s);
        }
        if let Some(s) = filled_text(&info.fname) {
            return Some(s);
        }
        filled_text(&info.name)
    }
}

} // verus!
