//! The order book of a symbol, driven by the events of a day.
pub mod book;
pub mod chain;
pub mod data;
pub mod laws;
pub mod stat;
pub mod trajectory;

use vstd::prelude::*;
use vstd::string::StringExecFns;
use crate::text::{fields_of, nth_field};

pub use crate::nasdaq::interval_loc;

verus! {

/// The name under which the files of all channels of a day are put
/// together: the name of one of them without its channel.
pub open spec fn without_channel_id(file_name: Seq<char>) -> Option<Seq<char>> {
    if fields_of(file_name, '_').len() > 5 {
        Some("EQY_US_ARCA_IBF_"@ + fields_of(file_name, '_')[5])
    } else {
        None
    }
}

/// The name of a file of the feed without its channel: the date, which is
/// the sixth part of the name between its underscores, behind what the names
/// of all files of the feed begin with. Nothing where the name has no sixth
/// part.
pub fn delete_channel_id(file_name: &str) -> (name: Option<String>)
    ensures
        match name {
            Some(n) => without_channel_id(file_name@) == Some(n@),
            None => without_channel_id(file_name@) is None,
        },
{
    match nth_field(file_name, '_', 5) {
        Some(date) => {
            let mut name = "EQY_US_ARCA_IBF_".to_owned();
            name.append(date.as_str());
            Some(name)
        },
        None => None,
    }
}

} // verus!
