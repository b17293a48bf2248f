//! A verified core of the SAFE Network client tools: XOR-URL encoding, NRS maps,
//! files maps, an in-memory vault, and the command-line helpers around them.
use vstd::prelude::*;

pub mod error;
pub mod text;
pub mod xorurl;
pub mod nrs;
pub mod helpers;
pub mod authd;
pub mod table;
pub mod files;
pub mod coins;
pub mod bls;
pub mod fake_scl;
pub mod notifs;
pub mod node;
pub mod config;
pub mod safe;
pub mod containers;
pub mod cli;
pub mod entropy;

verus! {

/// Returns the singular or the plural form of a word, depending on a count.
pub fn pluralize<'a>(singular: &'a str, plural: &'a str, count: u64) -> (res: &'a str)
    ensures
        res@ == (if count == 1 { singular@ } else { plural@ }),
{
    if count == 1 {
        singular
    } else {
        plural
    }
}

} // verus!
