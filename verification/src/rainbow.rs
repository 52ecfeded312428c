//! Names of released binaries: a name and a tag.

use vstd::prelude::*;

use crate::error::{error, fault, outcome, Error, ErrorKind, Fault};
use crate::text::{cat4, pieces, split};

verus! {

/// The name and the tag in `name:tag`.
pub open spec fn name_and_tag(name: Seq<char>) -> Result<(Seq<char>, Seq<char>), Fault> {
    let parts = pieces(name, ':');
    if parts.len() != 2 {
        Err(fault(ErrorKind::InvalidData, "invalid data"@))
    } else {
        Ok((parts[0], parts[1]))
    }
}

pub fn parse(name: &str) -> (r: Result<(String, String), Error>)
    ensures
        outcome(r) == name_and_tag(name@),
{
    let parts = split(name, ':');
    if parts.len() != 2 {
        return Err(error(ErrorKind::InvalidData, "invalid data".to_owned()));
    }
    Ok((parts[0].clone(), parts[1].clone()))
}

/// Where the tag of a binary is found.
pub open spec fn tag_location(name: Seq<char>, tag: Seq<char>) -> Seq<char> {
    "https://storage.googleapis.com/rainbow-binaries/"@ + name + "/tags/"@ + tag
}

pub fn tag_url(name: &str, tag: &str) -> (r: String)
    ensures
        r@ == tag_location(name@, tag@),
{
    cat4("https://storage.googleapis.com/rainbow-binaries/", name, "/tags/", tag)
}

} // verus!
