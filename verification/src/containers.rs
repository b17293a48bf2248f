//! Files containers and NRS map containers in the vault. A container is published
//! sequenced append-only data: each entry holds one version of a map, serialised,
//! keyed by the time it was stored.
use vstd::prelude::*;

use crate::error::{Error, Result};
use crate::fake_scl::{ad_view, key_of, AppendOnlyDataRawData};
use crate::files::{ERROR_MSG_NO_FILES_CONTAINER_FOUND, FILES_CONTAINER_TYPE_TAG};
use crate::nrs::NRS_MAP_TYPE_TAG;
use crate::safe::{url_fields, Safe};
use crate::text::{hex_of, owned, push_str};
use crate::xorurl::{readable_url, url_decoded, xorurl_text, SafeContentType, SafeDataType, XorName, XorUrlEncoder, XorUrlView};

verus! {

/// The message of the error for an address that holds no NRS map container.
pub const ERROR_MSG_NO_NRS_MAP_FOUND: &'static str = "No NRS Map found at this address";

/// The one entry of a new version of a container: the serialised map keyed by the
/// time.
pub open spec fn container_entry(now: Seq<char>, data: Seq<u8>) -> Seq<(Seq<u8>, Seq<u8>)> {
    seq![(vstd::utf8::encode_utf8(now), data)]
}

/// What reading the latest version of a container gives: its version and value,
/// or nothing for a container without entries.
pub open spec fn latest_data(d: Seq<(Seq<u8>, Seq<u8>)>) -> Option<(u64, Seq<u8>)> {
    if d.len() == 0 {
        None
    } else {
        Some(((d.len() - 1) as u64, d.last().1))
    }
}

/// A copy of some bytes.
fn copy_bytes(v: &[u8]) -> (res: Vec<u8>)
    ensures
        res@ == v@,
{
    let mut res: Vec<u8> = Vec::new();
    let mut i: usize = 0;
    while i < v.len()
        invariant
            i <= v@.len(),
            res@ == v@.take(i as int),
        decreases v@.len() - i,
    {
        res.push(v[i]);
        proof {
            assert(res@ =~= v@.take(i + 1));
        }
        i = i + 1;
    }
    proof {
        assert(v@.take(v@.len() as int) =~= v@);
    }
    res
}

/// The entries of a new version of a container.
fn new_entry(now: &str, data: &[u8]) -> (res: Vec<AppendOnlyDataRawData>)
    ensures
        ad_view(res@) == container_entry(now@, data@),
        res@.len() == 1,
{
    let mut res: Vec<AppendOnlyDataRawData> = Vec::new();
    res.push((copy_bytes(now.as_bytes()), copy_bytes(data)));
    proof {
        assert(ad_view(res@) =~= container_entry(now@, data@));
    }
    res
}

/// The outcome of reading the latest version of the container under a XoR name:
/// an absent container is `not_found`, an empty one has version 0 and no value.
fn container_latest(safe: &Safe, xorname: XorName, type_tag: u64) -> (res: core::result::Result<
    Option<(u64, Vec<u8>)>,
    Option<Error>,
>)
    ensures
        match safe.safe_app.append_only_data().get(key_of(xorname)) {
            None => res == Err::<Option<(u64, Vec<u8>)>, Option<Error>>(None),
            Some(d) => match latest_data(d) {
                None => res == Ok::<Option<(u64, Vec<u8>)>, Option<Error>>(None),
                Some((v, val)) => res matches Ok(Some((rv, rval))) && rv == v && rval@ == val,
            },
        },
{
    match safe.safe_app.get_latest_seq_append_only_data(xorname, type_tag) {
        Ok((version, (_key, value))) => Ok(Some((version, value))),
        Err(Error::EmptyContent(_)) => Ok(None),
        Err(Error::ContentNotFound(_)) => Err(None),
        Err(err) => Err(Some(err)),
    }
}

impl Safe {
    /// Stores a new files container whose first version is the serialised files
    /// map given, keyed by `now`, under a random XoR name; returns its XOR-URL.
    pub fn files_container_put(&mut self, now: &str, serialised_files_map: &[u8]) -> (res: Result<String>)
        ensures
            res matches Ok(url) && exists|x: Seq<u8>|
                #![trigger hex_of(x)]
                x.len() == 32 && url@ == xorurl_text(
                    url_fields(
                        x,
                        FILES_CONTAINER_TYPE_TAG,
                        SafeDataType::PublishedSeqAppendOnlyData,
                        SafeContentType::FilesContainer,
                    ),
                    old(self).xorurl_base@,
                ) && readable_url(
                    url@,
                    url_fields(
                        x,
                        FILES_CONTAINER_TYPE_TAG,
                        SafeDataType::PublishedSeqAppendOnlyData,
                        SafeContentType::FilesContainer,
                    ),
                    old(self).xorurl_base@,
                ) && final(self).safe_app.append_only_data() == old(self).safe_app.append_only_data().insert(
                    hex_of(x),
                    container_entry(now@, serialised_files_map@),
                ),
            final(self).xorurl_base == old(self).xorurl_base,
            final(self).safe_app.balances() == old(self).safe_app.balances(),
            final(self).safe_app.immutable_data() == old(self).safe_app.immutable_data(),
    {
        let data = new_entry(now, serialised_files_map);
        let xorname = match self.safe_app.put_seq_append_only_data(data, None, FILES_CONTAINER_TYPE_TAG, None) {
            Ok(x) => x,
            Err(e) => {
                return Err(e);
            },
        };
        let res = XorUrlEncoder::encode(
            xorname,
            FILES_CONTAINER_TYPE_TAG,
            SafeDataType::PublishedSeqAppendOnlyData,
            SafeContentType::FilesContainer,
            None,
            self.xorurl_base.as_str(),
        );
        proof {
            reveal_strlit("");
            assert(xorname.0@.len() == 32);
        }
        res
    }

    /// The version and the serialised files map of the latest version of the files
    /// container at a XOR-URL; an empty container has version 0 and no map.
    pub fn files_container_latest_data(&self, xorurl: &str) -> (res: core::result::Result<
        (u64, Option<Vec<u8>>),
        String,
    >)
        ensures
            match url_decoded(xorurl@) {
                None => res is Err,
                Some(v) => match self.safe_app.append_only_data().get(hex_of(v.xorname)) {
                    None => res matches Err(m) && m@ == "No FilesContainer found at this address"@,
                    Some(d) => match latest_data(d) {
                        None => res matches Ok((0, None)),
                        Some((ver, val)) => res matches Ok((rv, Some(rval))) && rv == ver && rval@ == val,
                    },
                },
            },
    {
        let encoder = match XorUrlEncoder::from_url(xorurl) {
            Ok(e) => e,
            Err(e) => {
                return Err(e.to_display_string());
            },
        };
        proof {
        }
        match container_latest(self, encoder.xorname(), FILES_CONTAINER_TYPE_TAG) {
            Ok(Some((version, value))) => Ok((version, Some(value))),
            Ok(None) => Ok((0, None)),
            Err(None) => Err(owned(ERROR_MSG_NO_FILES_CONTAINER_FOUND)),
            Err(Some(err)) => {
                let mut msg = owned("Failed to get current version: ");
                push_str(&mut msg, err.to_display_string().as_str());
                Err(msg)
            },
        }
    }

    /// Adds a version to the files container at a XOR-URL: the serialised files
    /// map given, keyed by `now`. Returns the new version.
    pub fn files_container_append(&mut self, xorurl: &str, now: &str, serialised_files_map: &[u8]) -> (res:
        core::result::Result<u64, String>)
        requires
            match url_decoded(xorurl@) {
                Some(v) => old(self).safe_app.append_only_data().contains_key(hex_of(v.xorname)) ==> 1
                    <= old(self).safe_app.append_only_data()[hex_of(v.xorname)].len() < usize::MAX,
                None => true,
            },
        ensures
            final(self).xorurl_base == old(self).xorurl_base,
            final(self).safe_app.balances() == old(self).safe_app.balances(),
            final(self).safe_app.immutable_data() == old(self).safe_app.immutable_data(),
            match url_decoded(xorurl@) {
                None => res is Err && *final(self) == *old(self),
                Some(v) => match old(self).safe_app.append_only_data().get(
                    hex_of(v.xorname),
                ) {
                    None => (res matches Err(m) && m@ == "No FilesContainer found at this address"@)
                        && final(self).safe_app.append_only_data() == old(self).safe_app.append_only_data(),
                    Some(d) => res == Ok::<u64, String>(d.len() as u64) && final(self).safe_app.append_only_data()
                        == old(self).safe_app.append_only_data().insert(
                        hex_of(v.xorname),
                        d + container_entry(now@, serialised_files_map@),
                    ),
                },
            },
    {
        let encoder = match XorUrlEncoder::from_url(xorurl) {
            Ok(e) => e,
            Err(e) => {
                return Err(e.to_display_string());
            },
        };
        proof {
            assert(url_decoded(xorurl@) == Some(encoder@));
        }
        let xorname = encoder.xorname();
        let type_tag = encoder.type_tag();
        let current_version = match self.safe_app.get_current_seq_append_only_data_version(xorname, type_tag) {
            Ok(v) => v,
            Err(Error::ContentNotFound(_)) => {
                return Err(owned(ERROR_MSG_NO_FILES_CONTAINER_FOUND));
            },
            Err(err) => {
                let mut msg = owned("Failed to get current version: ");
                push_str(&mut msg, err.to_display_string().as_str());
                return Err(msg);
            },
        };
        let data = new_entry(now, serialised_files_map);
        match self.safe_app.append_seq_append_only_data(data, current_version + 1, xorname, type_tag) {
            Ok(v) => Ok(v),
            Err(e) => Err(e.to_display_string()),
        }
    }

    /// Stores a new NRS map container under the XoR name of its public name, whose
    /// first version is the serialised NRS map given, keyed by `now`; returns its
    /// XOR-URL.
    pub fn nrs_map_container_put(&mut self, nrs_xorname: XorName, now: &str, serialised_nrs_map: &[u8]) -> (res:
        Result<String>)
        ensures
            res matches Ok(url) && url@ == xorurl_text(
                url_fields(
                    nrs_xorname.0@,
                    NRS_MAP_TYPE_TAG,
                    SafeDataType::PublishedSeqAppendOnlyData,
                    SafeContentType::NrsMapContainer,
                ),
                old(self).xorurl_base@,
            ),
            res matches Ok(url) && readable_url(
                url@,
                url_fields(
                    nrs_xorname.0@,
                    NRS_MAP_TYPE_TAG,
                    SafeDataType::PublishedSeqAppendOnlyData,
                    SafeContentType::NrsMapContainer,
                ),
                old(self).xorurl_base@,
            ),
            final(self).safe_app.append_only_data() == old(self).safe_app.append_only_data().insert(
                key_of(nrs_xorname),
                container_entry(now@, serialised_nrs_map@),
            ),
            final(self).xorurl_base == old(self).xorurl_base,
            final(self).safe_app.balances() == old(self).safe_app.balances(),
            final(self).safe_app.immutable_data() == old(self).safe_app.immutable_data(),
    {
        let data = new_entry(now, serialised_nrs_map);
        let xorname = match self.safe_app.put_seq_append_only_data(data, Some(nrs_xorname), NRS_MAP_TYPE_TAG, None) {
            Ok(x) => x,
            Err(e) => {
                return Err(e);
            },
        };
        let res = XorUrlEncoder::encode(
            xorname,
            NRS_MAP_TYPE_TAG,
            SafeDataType::PublishedSeqAppendOnlyData,
            SafeContentType::NrsMapContainer,
            None,
            self.xorurl_base.as_str(),
        );
        proof {
            reveal_strlit("");
        }
        res
    }

    /// The version and the serialised NRS map of the latest version of the NRS map
    /// container at a XOR-URL; an empty container has version 0 and no map.
    pub fn nrs_map_container_latest_data(&self, xorurl: &str) -> (res: Result<(u64, Option<Vec<u8>>)>)
        ensures
            match url_decoded(xorurl@) {
                None => res matches Err(Error::InvalidXorUrl(_)),
                Some(v) => match self.safe_app.append_only_data().get(hex_of(v.xorname)) {
                    None => res matches Err(Error::ContentNotFound(m)) && m@ == "No NRS Map found at this address"@,
                    Some(d) => match latest_data(d) {
                        None => res matches Ok((0, None)),
                        Some((ver, val)) => res matches Ok((rv, Some(rval))) && rv == ver && rval@ == val,
                    },
                },
            },
    {
        let encoder = match XorUrlEncoder::from_url(xorurl) {
            Ok(e) => e,
            Err(e) => {
                return Err(e);
            },
        };
        proof {
        }
        match container_latest(self, encoder.xorname(), NRS_MAP_TYPE_TAG) {
            Ok(Some((version, value))) => Ok((version, Some(value))),
            Ok(None) => Ok((0, None)),
            Err(None) => Err(Error::ContentNotFound(owned(ERROR_MSG_NO_NRS_MAP_FOUND))),
            Err(Some(err)) => {
                let mut msg = owned("Failed to get current version: ");
                push_str(&mut msg, err.to_display_string().as_str());
                Err(Error::NetDataError(msg))
            },
        }
    }
}

/// A container read after it is stored gives back the map stored, as version 0.
pub proof fn lemma_container_read_after_put(
    before: Map<Seq<char>, Seq<(Seq<u8>, Seq<u8>)>>,
    key: Seq<char>,
    now: Seq<char>,
    data: Seq<u8>,
)
    ensures
        latest_data(before.insert(key, container_entry(now, data))[key]) == Some((0u64, data)),
{
}

/// A container read after a version is added to it gives back the map added, under
/// the version that adding it returned.
pub proof fn lemma_container_read_after_append(d: Seq<(Seq<u8>, Seq<u8>)>, now: Seq<char>, data: Seq<u8>)
    requires
        d.len() < u64::MAX,
    ensures
        latest_data(d + container_entry(now, data)) == Some((d.len() as u64, data)),
{
    let e = d + container_entry(now, data);
    assert(e.len() == d.len() + 1);
    assert(e.last() == (vstd::utf8::encode_utf8(now), data));
}

/// An NRS map container read back by the XOR-URL that storing it returned (in a
/// base other than `base64`) gives the serialised map stored, as version 0.
pub proof fn lemma_nrs_container_reads_back(
    before: Map<Seq<char>, Seq<(Seq<u8>, Seq<u8>)>>,
    url: Seq<char>,
    nrs_xorname: XorName,
    base: Seq<char>,
    now: Seq<char>,
    data: Seq<u8>,
)
    requires
        readable_url(
            url,
            url_fields(
                nrs_xorname.0@,
                NRS_MAP_TYPE_TAG,
                SafeDataType::PublishedSeqAppendOnlyData,
                SafeContentType::NrsMapContainer,
            ),
            base,
        ),
        base != "base64"@,
    ensures
        url_decoded(url) matches Some(v) && hex_of(v.xorname) == key_of(nrs_xorname) && latest_data(
            before.insert(key_of(nrs_xorname), container_entry(now, data))[hex_of(v.xorname)],
        ) == Some((0u64, data)),
{
}

/// A files container read back by the XOR-URL that storing it returned (in a base
/// other than `base64`) gives the serialised files map stored, as version 0.
pub proof fn lemma_files_container_reads_back(
    before: Map<Seq<char>, Seq<(Seq<u8>, Seq<u8>)>>,
    url: Seq<char>,
    x: Seq<u8>,
    base: Seq<char>,
    now: Seq<char>,
    data: Seq<u8>,
)
    requires
        readable_url(
            url,
            url_fields(
                x,
                FILES_CONTAINER_TYPE_TAG,
                SafeDataType::PublishedSeqAppendOnlyData,
                SafeContentType::FilesContainer,
            ),
            base,
        ),
        base != "base64"@,
    ensures
        url_decoded(url) matches Some(v) && latest_data(before.insert(hex_of(x), container_entry(now, data))[hex_of(
            v.xorname,
        )]) == Some((0u64, data)),
{
}

} // verus!
