//! Online firmware version check.
//!
//! NinjaForce compares versions server-side; the protocol itself exposes no
//! version feed. The endpoint is the one their web panel calls: undocumented, so
//! that it could change or vanish without warning. Every failure is soft --
//! callers still get the installed versions.

use vstd::prelude::*;
use vstd::string::*;

use crate::text::{decimal, in_upper_case, push_decimal, to_upper};

verus! {

pub const API: &'static str = "https://api.ninjaforce.co/firmware/get_latest_version";

/// Not a credential: a constant shipped in NinjaForce's public JavaScript.
pub const AUTH: &'static str = "ninjaforce:win";

/// Where to ask for a product's latest firmware.
///
/// The endpoint wants the product id in decimal; hex spellings return 404.
pub fn request_url(product_id: u16) -> (url: String)
    ensures
        url@ == API@ + "?pid="@ + decimal(product_id as nat),
{
    let mut url = API.to_owned();
    url.append("?pid=");
    push_decimal(&mut url, product_id as u64);
    url
}

/// What the endpoint answers.
#[derive(Debug, Clone)]
pub struct Reply {
    pub success: bool,
    pub data: Option<String>,
}

/// The latest version that an answer names, if it names one. No answer at all
/// names none.
pub open spec fn named_version(reply: Option<Reply>) -> Option<Seq<char>> {
    match reply {
        Some(Reply { success: true, data: Some(version) }) => if version@.len() > 0 {
            Some(version@)
        } else {
            None
        },
        _ => None,
    }
}

/// Latest firmware string that an answer names, in upper case, or `None` if
/// unknown.
pub fn latest_for(reply: Option<Reply>) -> (version: Option<String>)
    ensures
        match version {
            Some(version) => named_version(reply) matches Some(named) && version@ == in_upper_case(
                named,
            ),
            None => named_version(reply) is None,
        },
{
    match reply {
        Some(Reply { success: true, data: Some(version) }) => if version.as_str().is_empty() {
            None
        } else {
            Some(to_upper(version.as_str()))
        },
        _ => None,
    }
}

/// The latest version is known exactly where the endpoint says that it succeeded
/// and names one, and is then the one it names.
pub proof fn lemma_named_version(success: bool, data: String)
    ensures
        named_version(None) is None,
        named_version(Some(Reply { success, data: None })) is None,
        named_version(Some(Reply { success: false, data: Some(data) })) is None,
        success && data@.len() > 0 ==> named_version(Some(Reply { success, data: Some(data) }))
            == Some(data@),
        data@.len() == 0 ==> named_version(Some(Reply { success, data: Some(data) })) is None,
{
}

} // verus!
