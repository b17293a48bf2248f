//! The command-line tool's settings: the networks it knows, each with the location
//! of its connection information.
use vstd::prelude::*;

use crate::table::{keys_sorted, table_get, table_insert, table_remove, table_view};
use crate::text::{has_prefix, owned, push_str, str_starts_with};

verus! {

/// Name of the settings file.
pub const CONFIG_FILENAME: &'static str = "config.json";

/// Name of the folder that caches connection information of networks.
pub const CONFIG_NETWORKS_DIRNAME: &'static str = "networks";

/// The settings: each network's name with the location of its connection
/// information (the last occurrence of a name wins).
#[derive(Debug, Default)]
pub struct ConfigSettings {
    pub networks: Vec<(String, String)>,
}

impl ConfigSettings {
    /// The networks, by name, with their locations.
    pub open spec fn networks_view(&self) -> Map<Seq<char>, Seq<char>> {
        table_view(self.networks@).map_values(|l: String| l@)
    }

    /// Whether the network names come in increasing order, each once, as in the
    /// settings file's map.
    pub open spec fn wf(&self) -> bool {
        keys_sorted(self.networks@)
    }

    /// Settings without any network.
    pub fn new() -> (res: ConfigSettings)
        ensures
            res.networks_view() == Map::<Seq<char>, Seq<char>>::empty(),
            res.wf(),
    {
        let res = ConfigSettings { networks: Vec::new() };
        proof {
            assert(res.networks_view() =~= Map::empty());
        }
        res
    }

    /// Records the location of a network's connection information, in place of
    /// the one recorded, if any.
    pub fn add_network(&mut self, network_name: &str, location: &str)
        ensures
            final(self).networks_view() == old(self).networks_view().insert(network_name@, location@),
            old(self).wf() ==> final(self).wf(),
    {
        let ghost before = self.networks@;
        table_insert(&mut self.networks, owned(network_name), owned(location));
        proof {
            assert(self.networks_view() =~= old(self).networks_view().insert(network_name@, location@));
        }
    }

    /// Forgets a network, and returns the location that was recorded for it, if any.
    pub fn remove_network(&mut self, network_name: &str) -> (res: Option<String>)
        ensures
            final(self).networks_view() == old(self).networks_view().remove(network_name@),
            old(self).wf() ==> final(self).wf(),
            match old(self).networks_view().get(network_name@) {
                Some(l) => res matches Some(r) && r@ == l,
                None => res is None,
            },
    {
        let location = match table_get(&self.networks, network_name) {
            Some(l) => Some(l.clone()),
            None => None,
        };
        table_remove(&mut self.networks, network_name);
        proof {
            assert(self.networks_view() =~= old(self).networks_view().remove(network_name@));
        }
        location
    }

    /// The location recorded for a network, if any.
    pub fn network_location(&self, network_name: &str) -> (res: Option<String>)
        ensures
            match self.networks_view().get(network_name@) {
                Some(l) => res matches Some(r) && r@ == l,
                None => res is None,
            },
    {
        match table_get(&self.networks, network_name) {
            Some(l) => Some(l.clone()),
            None => None,
        }
    }
}

/// Whether connection information is to be fetched over the network (its location
/// starts with `http`) rather than read from a local file.
pub fn is_remote_location(location: &str) -> (res: bool)
    ensures
        res == has_prefix(location@, "http"@),
{
    str_starts_with(location, "http")
}

/// The name of the file that caches a network's connection information.
pub fn conn_info_cache_file_name(network_name: &str) -> (res: String)
    ensures
        res@ == network_name@ + "_node_connection_info.config"@,
{
    let mut res = owned(network_name);
    push_str(&mut res, "_node_connection_info.config");
    res
}

/// Where connection information is read from, before it is read: a remote
/// location cannot be fetched, as self updates are disabled; a local one is read
/// from its file.
pub fn conn_info_source(location: &str) -> (res: Result<(), String>)
    ensures
        has_prefix(location@, "http"@) ==> (res matches Err(m) && m@ == "Self updates are disabled"@),
        !has_prefix(location@, "http"@) ==> res is Ok,
{
    if is_remote_location(location) {
        Err(owned("Self updates are disabled"))
    } else {
        Ok(())
    }
}

} // verus!
