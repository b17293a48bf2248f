//! The API over the in-memory vault: keys with coin balances, transfers between
//! them, immutable data and sequences, each addressed by a XOR-URL.
use vstd::prelude::*;

use crate::bls::{
    bls_public_key_of, bls_public_key_valid, public_key_bytes_valid, public_key_of_secret, random_key_pair_bytes,
    random_tx_id, PK_SIZE,
};
use crate::coins::{
    coins_parse, coins_parse_overflows, remainder_part, units_part, coins_text, coins_to_string, invalid_amount_message, parse_coins_amount,
    CoinsParse,
};
use crate::error::{Error, Result};
use crate::fake_scl::{
    ad_view, hex_bytes, key_of, key_of_pk, lemma_parse_hex_roundtrip, parse_hex, pk_xorname, transfer_status,
    transfer_values, xorname_from_pk, AppendOnlyDataRawData, SafeAppFake, SafeKey, TransferFailure,
};
use crate::helpers::{vec_to_hex, xorname_to_hex};
use crate::nrs::sha3_256_digest;
use crate::text::{decimal, first_index_of, hex_of, owned, push_decimal, push_str};
use crate::xorurl::{
    data_type_name, invalid_version_message, split_url_version, url_before_query, url_content_version,
    lemma_plain_url, lemma_version_url, readable_url, url_decoded, xorurl_text, SafeContentType, SafeDataType, XorName, XorUrlEncoder,
    XorUrlView, XOR_URL_VERSION_1,
};

verus! {

/// Type tag of the append-only data that holds a public sequence.
pub const PUBLIC_SEQUENCE_TYPE_TAG: u64 = 1_200;

/// A BLS key pair, each key as a hex text.
#[derive(Debug, Clone)]
pub struct BlsKeyPair {
    pub pk: String,
    pub sk: String,
}

/// The outcome of reading a register at `url`, in the user's terms: an empty
/// register, or a missing one, is reported with its own message; anything else
/// is passed on.
pub fn fetch_register_value<T>(url: &str, data: Result<T>) -> (res: Result<T>)
    ensures
        match data {
            Ok(d) => res == Ok::<T, Error>(d),
            Err(Error::EmptyContent(_)) => res matches Err(Error::EmptyContent(m)) && m@ == "Register found at \""@
                + url@ + "\" was empty"@,
            Err(Error::ContentNotFound(_)) => res matches Err(Error::ContentNotFound(m)) && m@
                == "No Register found at this address"@,
            Err(e) => res == Err::<T, Error>(e),
        },
{
    match data {
        Ok(d) => Ok(d),
        Err(Error::EmptyContent(_)) => {
            let mut msg = owned("Register found at \"");
            push_str(&mut msg, url);
            push_str(&mut msg, "\" was empty");
            Err(Error::EmptyContent(msg))
        },
        Err(Error::ContentNotFound(_)) => Err(Error::ContentNotFound(owned("No Register found at this address"))),
        Err(other) => Err(other),
    }
}

/// The API: a vault, and the base in which it writes XOR-URLs.
pub struct Safe {
    pub safe_app: SafeAppFake,
    pub xorurl_base: String,
}

/// The fields of a XOR-URL without a path.
pub open spec fn url_fields(
    xorname: Seq<u8>,
    type_tag: u64,
    data_type: SafeDataType,
    content_type: SafeContentType,
) -> XorUrlView {
    XorUrlView {
        version: XOR_URL_VERSION_1,
        xorname,
        type_tag,
        data_type,
        content_type,
        path: Seq::empty(),
    }
}

/// The time, in nanoseconds, as an RFC 3339 text in UTC
/// (`chrono::Utc::now().to_rfc3339_opts(SecondsFormat::Nanos, true)`). Nothing is
/// stated of it: it is read from the clock.
#[verifier::external_body]
pub fn gen_timestamp_nanos() -> String {
    chrono::Utc::now().to_rfc3339_opts(chrono::SecondsFormat::Nanos, true)
}

/// A copy of some bytes.
fn bytes_of(v: &[u8]) -> (res: Vec<u8>)
    ensures
        res@ == v@,
{
    let mut res: Vec<u8> = Vec::new();
    let mut i: usize = 0;
    while i < v.len()
        invariant
            i <= v@.len(),
            res@ == v@.take(i as int),
        decreases v@.len() - i,
    {
        res.push(v[i]);
        proof {
            assert(res@ =~= v@.take(i + 1));
        }
        i = i + 1;
    }
    proof {
        assert(v@.take(v@.len() as int) =~= v@);
    }
    res
}

/// The message of the error for the XOR-URL of a sequence that holds no entry.
pub open spec fn empty_sequence_message(url: Seq<char>) -> Seq<char> {
    "Sequence found at \""@ + url + "\" was empty"@
}

/// What reading the sequence at a URL gives, over the vault's append-only data:
/// the entry of the version that the URL asks for with `?v=`, else the latest one,
/// or the error.
pub open spec fn sequence_get_outcome(
    store: Map<Seq<char>, Seq<(Seq<u8>, Seq<u8>)>>,
    url: Seq<char>,
    res: Result<(u64, Vec<u8>)>,
) -> bool {
    match url_content_version(url) {
        Err(value) => res matches Err(Error::InvalidInput(m)) && m@ == invalid_version_message(value),
        Ok(ver) => match url_decoded(url_before_query(url)) {
            None => res matches Err(Error::InvalidXorUrl(_)),
            Some(v) => match store.get(hex_of(v.xorname)) {
                None => match ver {
                    None => res matches Err(Error::ContentNotFound(m)) && m@
                        == "No Sequence found at this address"@,
                    Some(_) => res matches Err(Error::ContentNotFound(m)) && m@
                        == "Sequenced AppendOnlyData not found at Xor name: "@ + hex_of(v.xorname),
                },
                Some(d) => match ver {
                    None => if d.len() == 0 {
                        res matches Err(Error::EmptyContent(m)) && m@ == empty_sequence_message(url)
                    } else {
                        res matches Ok((version, value)) && version == d.len() - 1 && value@
                            == d.last().1
                    },
                    Some(n) => if n < d.len() {
                        res matches Ok((version, value)) && version == n && value@ == d[n as int].1
                    } else {
                        res matches Err(Error::VersionNotFound(m)) && m@ == invalid_sequence_version_message(
                            n,
                            url,
                        )
                    },
                },
            },
        },
    }
}

/// The message of the error for a version that a sequence does not have.
pub open spec fn invalid_sequence_version_message(n: u64, url: Seq<char>) -> Seq<char> {
    "Version '"@ + decimal(n as nat) + "' is invalid for the Sequence found at \""@ + url + "\""@
}

/// The entries of a new sequence: the data given, if any, keyed by `t`.
pub open spec fn first_entries(data: Option<&[u8]>, t: Seq<u8>) -> Seq<(Seq<u8>, Seq<u8>)> {
    match data {
        Some(d) => seq![(t, d@)],
        None => Seq::empty(),
    }
}

/// The entries of a sequence after appending `data` keyed by `t`.
pub open spec fn appended_entries(entries: Seq<(Seq<u8>, Seq<u8>)>, t: Seq<u8>, data: Seq<u8>) -> Seq<
    (Seq<u8>, Seq<u8>),
> {
    entries.push((t, data))
}

impl Safe {
    /// An API over an empty vault, writing XOR-URLs in the base given.
    pub fn new(xorurl_base: &str) -> (res: Safe)
        ensures
            res.xorurl_base@ == xorurl_base@,
            res.safe_app.wf(),
            res.safe_app.balances() == Map::<Seq<char>, crate::fake_scl::SafeKey>::empty(),
            res.safe_app.immutable_data() == Map::<Seq<char>, Seq<u8>>::empty(),
            res.safe_app.append_only_data() == Map::<Seq<char>, Seq<(Seq<u8>, Seq<u8>)>>::empty(),
    {
        Safe { safe_app: SafeAppFake::new(), xorurl_base: owned(xorurl_base) }
    }

    /// There is no network to connect to: always succeeds.
    pub fn connect(&mut self, app_id: &str, auth_credentials: Option<&str>) -> (res: Result<()>)
        ensures
            res is Ok,
            *final(self) == *old(self),
    {
        self.safe_app.connect(app_id, auth_credentials)
    }

    /// Publishes immutable data, and returns its XOR-URL.
    pub fn files_put_published_immutable(&mut self, data: &[u8]) -> (res: Result<String>)
        ensures
            res matches Ok(url) && url@ == xorurl_text(
                url_fields(sha3_256_digest(data@), 0, SafeDataType::PublishedImmutableData, SafeContentType::Raw),
                old(self).xorurl_base@,
            ) && readable_url(
                url@,
                url_fields(sha3_256_digest(data@), 0, SafeDataType::PublishedImmutableData, SafeContentType::Raw),
                old(self).xorurl_base@,
            ),
            final(self).safe_app.immutable_data() == old(self).safe_app.immutable_data().insert(
                hex_of(sha3_256_digest(data@)),
                data@,
            ),
            final(self).xorurl_base == old(self).xorurl_base,
            final(self).safe_app.balances() == old(self).safe_app.balances(),
            final(self).safe_app.append_only_data() == old(self).safe_app.append_only_data(),
    {
        let xorname = match self.safe_app.files_put_published_immutable(data, false) {
            Ok(x) => x,
            Err(e) => {
                return Err(e);
            },
        };
        let res = XorUrlEncoder::encode(
            xorname,
            0,
            SafeDataType::PublishedImmutableData,
            SafeContentType::Raw,
            None,
            self.xorurl_base.as_str(),
        );
        proof {
            reveal_strlit("");
        }
        res
    }

    /// The immutable data at a XOR-URL.
    pub fn files_get_published_immutable(&self, xorurl: &str) -> (res: Result<Vec<u8>>)
        ensures
            match url_decoded(xorurl@) {
                None => res matches Err(Error::InvalidXorUrl(_)),
                Some(v) => match self.safe_app.immutable_data().get(hex_of(v.xorname)) {
                    None => res matches Err(Error::NetDataError(m)) && m@
                        == "No ImmutableData found at this address"@,
                    Some(d) => res matches Ok(r) && r@ == d,
                },
            },
    {
        let encoder = match XorUrlEncoder::from_url(xorurl) {
            Ok(e) => e,
            Err(e) => {
                return Err(e);
            },
        };
        self.safe_app.files_get_published_immutable(encoder.xorname(), None)
    }

    /// Creates a public sequence, holding the data given, if any, as its first entry
    /// (keyed by the time), under a random XoR name; returns its XOR-URL.
    pub fn sequence_create(&mut self, data: Option<&[u8]>) -> (res: Result<String>)
        ensures
            res matches Ok(url) && exists|x: Seq<u8>, t: Seq<u8>|
                #![trigger hex_of(x), first_entries(data, t)]
                url@ == xorurl_text(
                    url_fields(x, PUBLIC_SEQUENCE_TYPE_TAG, SafeDataType::PublishedSeqAppendOnlyData, SafeContentType::Raw),
                    old(self).xorurl_base@,
                ) && readable_url(
                    url@,
                    url_fields(x, PUBLIC_SEQUENCE_TYPE_TAG, SafeDataType::PublishedSeqAppendOnlyData, SafeContentType::Raw),
                    old(self).xorurl_base@,
                ) && x.len() == 32 && final(self).safe_app.append_only_data() == old(self).safe_app.append_only_data().insert(
                    hex_of(x),
                    first_entries(data, t),
                ),
            final(self).xorurl_base == old(self).xorurl_base,
            final(self).safe_app.balances() == old(self).safe_app.balances(),
            final(self).safe_app.immutable_data() == old(self).safe_app.immutable_data(),
    {
        let mut seq_data: Vec<AppendOnlyDataRawData> = Vec::new();
        let ghost mut t: Seq<u8> = Seq::empty();
        if let Some(d) = data {
            let now = gen_timestamp_nanos();
            let key = bytes_of(now.as_str().as_bytes());
            proof {
                t = key@;
            }
            seq_data.push((key, bytes_of(d)));
        }
        let ghost sv = ad_view(seq_data@);
        proof {
            assert(sv =~= first_entries(data, t));
        }
        let xorname = match self.safe_app.put_seq_append_only_data(seq_data, None, PUBLIC_SEQUENCE_TYPE_TAG, None) {
            Ok(x) => x,
            Err(e) => {
                return Err(e);
            },
        };
        let res = XorUrlEncoder::encode(
            xorname,
            PUBLIC_SEQUENCE_TYPE_TAG,
            SafeDataType::PublishedSeqAppendOnlyData,
            SafeContentType::Raw,
            None,
            self.xorurl_base.as_str(),
        );
        proof {
            reveal_strlit("");
            assert(xorname.0@.len() == 32);
        }
        res
    }

    /// The latest entry's version and value of the public sequence under a XoR
    /// name; `url` is the address named in the errors.
    fn sequence_latest(&self, url: &str, xorname: XorName, type_tag: u64) -> (res: Result<(u64, Vec<u8>)>)
        ensures
            match self.safe_app.append_only_data().get(hex_of(xorname.0@)) {
                None => res matches Err(Error::ContentNotFound(m)) && m@ == "No Sequence found at this address"@,
                Some(d) => if d.len() == 0 {
                    res matches Err(Error::EmptyContent(m)) && m@ == empty_sequence_message(url@)
                } else {
                    res matches Ok((version, value)) && version == d.len() - 1 && value@ == d.last().1
                },
            },
    {
        match self.safe_app.get_latest_seq_append_only_data(xorname, type_tag) {
            Ok((version, (_key, value))) => Ok((version, value)),
            Err(Error::EmptyContent(_)) => {
                let mut msg = owned("Sequence found at \"");
                push_str(&mut msg, url);
                push_str(&mut msg, "\" was empty");
                Err(Error::EmptyContent(msg))
            },
            Err(Error::ContentNotFound(_)) => Err(
                Error::ContentNotFound(owned("No Sequence found at this address")),
            ),
            Err(Error::VersionNotFound(msg)) => Err(Error::VersionNotFound(msg)),
            Err(err) => {
                let mut msg = owned("Failed to get current version: ");
                push_str(&mut msg, err.to_display_string().as_str());
                Err(Error::NetDataError(msg))
            },
        }
    }

    /// The version and value of an entry of the public sequence at a URL: the one
    /// of the version that the URL asks for with `?v=`, else the latest one.
    pub fn sequence_get(&self, url: &str) -> (res: Result<(u64, Vec<u8>)>)
        ensures
            sequence_get_outcome(self.safe_app.append_only_data(), url@, res),
    {
        let (base_url, version) = match split_url_version(url) {
            Ok(parts) => parts,
            Err(e) => {
                return Err(e);
            },
        };
        let encoder = match XorUrlEncoder::from_url(base_url.as_str()) {
            Ok(e) => e,
            Err(e) => {
                return Err(e);
            },
        };
        match version {
            None => self.sequence_latest(url, encoder.xorname(), encoder.type_tag()),
            Some(n) => match self.safe_app.get_seq_append_only_data(encoder.xorname(), encoder.type_tag(), n) {
                Ok((_key, value)) => Ok((n, value)),
                Err(Error::VersionNotFound(_)) => {
                    let mut msg = owned("Version '");
                    push_decimal(&mut msg, n);
                    push_str(&mut msg, "' is invalid for the Sequence found at \"");
                    push_str(&mut msg, url);
                    push_str(&mut msg, "\"");
                    Err(Error::VersionNotFound(msg))
                },
                Err(e) => Err(e),
            },
        }
    }

    /// Appends data, keyed by the time, to the public sequence at a XOR-URL, and
    /// returns the new entry's version. A URL that asks for a version is refused.
    pub fn sequence_append(&mut self, url: &str, data: &[u8]) -> (res: Result<u64>)
        requires
            match url_decoded(url_before_query(url@)) {
                Some(v) => old(self).safe_app.append_only_data().contains_key(hex_of(v.xorname)) ==> old(
                    self,
                ).safe_app.append_only_data()[hex_of(v.xorname)].len() < usize::MAX,
                None => true,
            },
        ensures
            final(self).xorurl_base == old(self).xorurl_base,
            final(self).safe_app.balances() == old(self).safe_app.balances(),
            final(self).safe_app.immutable_data() == old(self).safe_app.immutable_data(),
            match url_content_version(url@) {
                Err(value) => (res matches Err(Error::InvalidInput(m)) && m@ == invalid_version_message(value))
                    && *final(self) == *old(self),
                Ok(Some(_)) => (res matches Err(Error::InvalidInput(m)) && m@
                    == "The target URL cannot cannot contain a version: "@ + url@) && *final(self) == *old(self),
                Ok(None) => match url_decoded(url_before_query(url@)) {
                    None => (res matches Err(Error::InvalidXorUrl(_))) && *final(self) == *old(self),
                    Some(v) => match old(self).safe_app.append_only_data().get(hex_of(v.xorname)) {
                        None => res matches Err(Error::ContentNotFound(m)) && m@
                            == "No Sequence found at this address"@ && final(self).safe_app.append_only_data()
                            == old(self).safe_app.append_only_data(),
                        Some(d) => if d.len() == 0 {
                            (res matches Err(Error::EmptyContent(m)) && m@ == empty_sequence_message(url@))
                                && final(self).safe_app.append_only_data() == old(self).safe_app.append_only_data()
                        } else {
                            res == Ok::<u64, Error>(d.len() as u64) && exists|t: Seq<u8>|
                                final(self).safe_app.append_only_data() == old(self).safe_app.append_only_data().insert(
                                    hex_of(v.xorname),
                                    #[trigger] appended_entries(d, t, data@),
                                )
                        },
                    },
                },
            },
    {
        let (base_url, version) = match split_url_version(url) {
            Ok(parts) => parts,
            Err(e) => {
                return Err(e);
            },
        };
        if version.is_some() {
            let mut msg = owned("The target URL cannot cannot contain a version: ");
            push_str(&mut msg, url);
            return Err(Error::InvalidInput(msg));
        }
        let encoder = match XorUrlEncoder::from_url(base_url.as_str()) {
            Ok(e) => e,
            Err(e) => {
                return Err(e);
            },
        };
        let (current_version, _) = match self.sequence_latest(url, encoder.xorname(), encoder.type_tag()) {
            Ok(r) => r,
            Err(e) => {
                return Err(e);
            },
        };
        let now = gen_timestamp_nanos();
        let key = bytes_of(now.as_str().as_bytes());
        let ghost t = key@;
        let mut seq_data: Vec<AppendOnlyDataRawData> = Vec::new();
        seq_data.push((key, bytes_of(data)));
        let ghost sv = ad_view(seq_data@);
        proof {
            assert(sv =~= seq![(t, data@)]);
        }
        let xorname = encoder.xorname();
        let type_tag = encoder.type_tag();
        let res = self.safe_app.append_seq_append_only_data(seq_data, current_version + 1, xorname, type_tag);
        proof {
            let k = hex_of(xorname.0@);
            let d = old(self).safe_app.append_only_data()[k];
            assert(d + sv =~= appended_entries(d, t, data@));
        }
        res
    }

    /// A new random BLS key pair, each key as a hex text.
    pub fn keypair(&self) -> (res: Result<BlsKeyPair>)
        ensures
            match res {
                Ok(kp) => key_pair_holds(kp),
                Err(e) => e matches Error::Unexpected(m) && m@ == keygen_error_message(),
            },
    {
        match random_key_pair_bytes() {
            Some((sk, pk)) => {
                proof {
                    lemma_parse_hex_roundtrip(sk@);
                    lemma_parse_hex_roundtrip(pk@);
                }
                Ok(BlsKeyPair { pk: vec_to_hex(pk), sk: vec_to_hex(sk) })
            },
            None => Err(Error::Unexpected(owned("Failed to serialise the secret key"))),
        }
    }

    /// Creates a key with a random key pair and gives it a balance of
    /// `preload_amount` test coins; returns the key's XOR-URL and the key pair.
    pub fn keys_create_preload_test_coins(&mut self, preload_amount: &str) -> (res: Result<
        (String, Option<BlsKeyPair>),
    >)
        requires
            !coins_parse_overflows(preload_amount@),
        ensures
            final(self).xorurl_base == old(self).xorurl_base,
            final(self).safe_app.append_only_data() == old(self).safe_app.append_only_data(),
            final(self).safe_app.immutable_data() == old(self).safe_app.immutable_data(),
            match coins_parse(preload_amount@) {
                CoinsParse::Nanos(n) => match res {
                    Ok((url, kp)) => kp matches Some(k) && key_pair_holds(k) && url@ == safekey_url(
                        key_pair_pk(k),
                        old(self).xorurl_base@,
                    ) && readable_url(url@, safekey_fields(key_pair_pk(k)), old(self).xorurl_base@) && final(self).safe_app.balance_values() == old(self).safe_app.balance_values().insert(
                        key_of_pk(key_pair_pk(k)),
                        n as u64,
                    ),
                    Err(e) => (e matches Error::Unexpected(m) && m@ == keygen_error_message()) && *final(self)
                        == *old(self),
                },
                p => (res matches Err(Error::InvalidAmount(m)) && m@ == invalid_amount_message(preload_amount@, p))
                    && *final(self) == *old(self),
            },
    {
        let amount = match parse_coins_amount(preload_amount) {
            Ok(a) => a,
            Err(e) => {
                return Err(e);
            },
        };
        let key_pair = match self.keypair() {
            Ok(kp) => kp,
            Err(e) => {
                return Err(e);
            },
        };
        let pk = parse_hex(key_pair.pk.as_str());
        let ghost before = self.safe_app.balance_values();
        let xorname = match self.safe_app.allocate_test_coins(pk.as_slice(), amount) {
            Ok(x) => x,
            Err(e) => {
                return Err(e);
            },
        };
        proof {
            assert(self.safe_app.balance_values() =~= before.insert(key_of_pk(pk@), amount));
        }
        let url = match XorUrlEncoder::encode(
            xorname,
            0,
            SafeDataType::CoinBalance,
            SafeContentType::Raw,
            None,
            self.xorurl_base.as_str(),
        ) {
            Ok(u) => u,
            Err(e) => {
                return Err(e);
            },
        };
        proof {
            reveal_strlit("");
        }
        Ok((url, Some(key_pair)))
    }

    /// The balance, as a text of coins, of the key whose secret key is given in
    /// hex.
    pub fn keys_balance_from_sk(&self, sk: &str) -> (res: Result<String>)
        ensures
            match sk_hex_public_key(sk@) {
                None => res matches Err(Error::InvalidInput(m)) && m@ == sk_undecodable_message(),
                Some(p) => match self.safe_app.balance_values().get(key_of_pk(p)) {
                    Some(b) => res matches Ok(s) && s@ == coins_text(b as nat),
                    None => res matches Err(Error::ContentNotFound(m)) && m@
                        == "No SafeKey found at specified location"@,
                },
            },
    {
        let pk = match public_key_from_sk_hex(sk) {
            Some(pk) => pk,
            None => {
                return Err(Error::InvalidInput(owned("Failed to deserialize provided secret key")));
            },
        };
        match self.safe_app.get_balance_from_sk(pk.as_slice()) {
            Ok(coins) => Ok(coins_to_string(coins)),
            Err(_) => Err(Error::ContentNotFound(owned("No SafeKey found at specified location"))),
        }
    }

    /// Checks that a XOR-URL is that of the key of the secret key given in hex, and
    /// returns the hex text of its public key.
    pub fn validate_sk_for_url(&self, sk: &str, url: &str) -> (res: Result<String>)
        ensures
            match sk_hex_public_key(sk@) {
                None => res matches Err(Error::InvalidInput(m)) && m@ == "Invalid secret key provided"@,
                Some(p) => match url_decoded(url@) {
                    None => res matches Err(Error::InvalidXorUrl(_)),
                    Some(v) => if v.xorname == pk_xorname(p) {
                        res matches Ok(s) && s@ == hex_of(p)
                    } else {
                        res matches Err(Error::InvalidInput(m)) && m@ == url_mismatch_message()
                    },
                },
            },
    {
        let pk = match public_key_from_sk_hex(sk) {
            Some(pk) => pk,
            None => {
                return Err(Error::InvalidInput(owned("Invalid secret key provided")));
            },
        };
        let encoder = match XorUrlEncoder::from_url(url) {
            Ok(e) => e,
            Err(e) => {
                return Err(e);
            },
        };
        let derived_xorname = xorname_from_pk(pk.as_slice());
        if !encoder.xorname().equals(&derived_xorname) {
            Err(
                Error::InvalidInput(
                    owned(
                        "The URL doesn't correspond to the public key derived from the provided secret key",
                    ),
                ),
            )
        } else {
            Ok(vec_to_hex(pk))
        }
    }

    /// The balance of the key of the secret key given in hex, once the XOR-URL is
    /// checked to be that key's.
    pub fn keys_balance_from_url(&self, url: &str, sk: &str) -> (res: Result<String>)
        ensures
            match sk_hex_public_key(sk@) {
                None => res matches Err(Error::InvalidInput(m)) && m@ == "Invalid secret key provided"@,
                Some(p) => match url_decoded(url@) {
                    None => res matches Err(Error::InvalidXorUrl(_)),
                    Some(v) => if v.xorname == pk_xorname(p) {
                        match self.safe_app.balance_values().get(key_of_pk(p)) {
                            Some(b) => res matches Ok(s) && s@ == coins_text(b as nat),
                            None => res matches Err(Error::ContentNotFound(m)) && m@
                                == "No SafeKey found at specified location"@,
                        }
                    } else {
                        res matches Err(Error::InvalidInput(m)) && m@ == url_mismatch_message()
                    },
                },
            },
    {
        match self.validate_sk_for_url(sk, url) {
            Ok(_) => self.keys_balance_from_sk(sk),
            Err(e) => Err(e),
        }
    }

    /// Creates a key with a balance of `preload_amount` coins (none when not given),
    /// paid, with one nano coin more for the creation, by the key of the secret key
    /// `from` when given. The key's owner is the public key `pk` when given (in hex),
    /// else a new random key pair, which is returned. Returns the key's XOR-URL.
    pub fn keys_create(&mut self, from: Option<&str>, preload_amount: Option<&str>, pk: Option<&str>) -> (res:
        Result<(String, Option<BlsKeyPair>)>)
        requires
            keys_create_admits(str_opt(from), str_opt(preload_amount)),
        ensures
            final(self).xorurl_base == old(self).xorurl_base,
            final(self).safe_app.fake_vault.txs == old(self).safe_app.fake_vault.txs,
            final(self).safe_app.append_only_data() == old(self).safe_app.append_only_data(),
            final(self).safe_app.immutable_data() == old(self).safe_app.immutable_data(),
            keys_create_outcome(
                old(self).safe_app.balances(),
                final(self).safe_app.balances(),
                old(self).xorurl_base@,
                str_opt(from),
                str_opt(preload_amount),
                str_opt(pk),
                res,
            ),
    {
        let payer: Option<Vec<u8>> = match from {
            Some(sk) => match public_key_from_sk_hex(sk) {
                Some(p) => Some(p),
                None => {
                    return Err(
                        Error::InvalidInput(
                            owned(
                                "The source of funds needs to be a secret key. The secret key provided is invalid",
                            ),
                        ),
                    );
                },
            },
            None => None,
        };
        let amount_text = match preload_amount {
            Some(a) => a,
            None => "0.0",
        };
        proof {
            reveal_strlit("0.0");
        }
        let amount = match parse_coins_amount(amount_text) {
            Ok(a) => a,
            Err(e) => {
                return Err(e);
            },
        };
        let (owner, key_pair): (Vec<u8>, Option<BlsKeyPair>) = match pk {
            Some(pk_str) => {
                let bytes = parse_hex(pk_str);
                if bytes.len() != PK_SIZE || !public_key_bytes_valid(bytes.as_slice()) {
                    return Err(Error::InvalidInput(owned("Invalid public key bytes")));
                }
                (bytes, None)
            },
            None => {
                let kp = match self.keypair() {
                    Ok(kp) => kp,
                    Err(e) => {
                        return Err(e);
                    },
                };
                (parse_hex(kp.pk.as_str()), Some(kp))
            },
        };
        let payer_ref: Option<&[u8]> = match &payer {
            Some(p) => Some(p.as_slice()),
            None => None,
        };
        let xorname = match self.safe_app.create_balance(payer_ref, owner.as_slice(), amount) {
            Ok(x) => x,
            Err(Error::InvalidAmount(_)) => {
                let mut msg = owned("The amount '");
                push_str(&mut msg, coins_to_string(amount).as_str());
                push_str(&mut msg, "' specified for the transfer is invalid");
                return Err(Error::InvalidAmount(msg));
            },
            Err(Error::NotEnoughBalance(_)) => {
                return Err(Error::NotEnoughBalance(owned("Not enough balance at 'source' for the operation")));
            },
            Err(other) => {
                let mut msg = owned("Unexpected error when attempting to create Key: ");
                push_str(&mut msg, other.to_display_string().as_str());
                return Err(Error::Unexpected(msg));
            },
        };
        let url = match XorUrlEncoder::encode(
            xorname,
            0,
            SafeDataType::CoinBalance,
            SafeContentType::Raw,
            None,
            self.xorurl_base.as_str(),
        ) {
            Ok(u) => u,
            Err(e) => {
                return Err(e);
            },
        };
        proof {
            reveal_strlit("");
        }
        Ok((url, key_pair))
    }

    /// Transfers `amount` coins to the key at `to_url`, from the key of the secret
    /// key `from_sk` when given, under the transfer id given (a random one when
    /// none is); returns the id. The destination must be a key; the vault's errors
    /// are reported in the user's terms.
    pub fn keys_transfer(&mut self, amount: &str, from_sk: Option<&str>, to_url: &str, tx_id: Option<u64>) -> (res:
        Result<u64>)
        requires
            !coins_parse_overflows(amount@),
        ensures
            final(self).xorurl_base == old(self).xorurl_base,
            final(self).safe_app.append_only_data() == old(self).safe_app.append_only_data(),
            final(self).safe_app.immutable_data() == old(self).safe_app.immutable_data(),
            match coins_parse(amount@) {
                CoinsParse::Nanos(n) => match url_decoded(to_url@) {
                    None => (res matches Err(Error::InvalidXorUrl(_))) && *final(self) == *old(self),
                    Some(v) => if v.content_type == SafeContentType::Raw && v.data_type
                        == SafeDataType::CoinBalance {
                        (match from_sk {
                            Some(sk) => match sk_hex_public_key(sk@) {
                                None => (res matches Err(Error::InvalidInput(m)) && m@ == sk_undecodable_message())
                                    && *final(self) == *old(self),
                                Some(p) => keys_transfer_done(
                                    old(self).safe_app.balance_values(),
                                    final(self).safe_app.balance_values(),
                                    n as u64,
                                    amount@,
                                    Some(p),
                                    hex_of(v.xorname),
                                    tx_id,
                                    res,
                                ),
                            },
                            None => keys_transfer_done(
                                old(self).safe_app.balance_values(),
                                final(self).safe_app.balance_values(),
                                n as u64,
                                amount@,
                                None,
                                hex_of(v.xorname),
                                tx_id,
                                res,
                            ),
                        }) && ((from_sk is None || sk_hex_public_key(from_sk->0@) is Some) ==> exists|t: u64|
                            (tx_id matches Some(g) ==> t == g) && #[trigger] transfer_recorded(
                                old(self).safe_app.transfers(),
                                final(self).safe_app.transfers(),
                                n as u64,
                                hex_of(v.xorname),
                                t,
                            ))
                    } else if v.content_type == SafeContentType::Wallet {
                        res matches Err(Error::ContentError(m)) && m@ == wallet_destination_message()
                            && *final(self) == *old(self)
                    } else {
                        (res matches Err(Error::InvalidInput(m)) && m@
                            == "The destination URL doesn't target a SafeKey or Wallet, target is: "@
                            + content_type_name(v.content_type) + " ("@ + data_type_name(v.data_type) + ")"@)
                            && *final(self) == *old(self)
                    },
                },
                p => (res matches Err(Error::InvalidAmount(m)) && m@ == invalid_amount_message(amount@, p))
                    && *final(self) == *old(self),
            },
    {
        let amount_nanos = match parse_coins_amount(amount) {
            Ok(a) => a,
            Err(e) => {
                return Err(e);
            },
        };
        let encoder = match XorUrlEncoder::from_url(to_url) {
            Ok(e) => e,
            Err(e) => {
                return Err(e);
            },
        };
        let content_type = encoder.content_type();
        let data_type = encoder.data_type();
        let to_xorname = if content_type == SafeContentType::Raw && data_type == SafeDataType::CoinBalance {
            encoder.xorname()
        } else if content_type == SafeContentType::Wallet {
            return Err(Error::ContentError(owned("Transfers to a Wallet are not supported by this vault")));
        } else {
            let mut msg = owned("The destination URL doesn't target a SafeKey or Wallet, target is: ");
            push_str(&mut msg, content_type_debug(content_type));
            push_str(&mut msg, " (");
            push_str(&mut msg, data_type.name().as_str());
            push_str(&mut msg, ")");
            return Err(Error::InvalidInput(msg));
        };
        proof {
        }
        let tx = match tx_id {
            Some(t) => t,
            None => random_tx_id(),
        };
        let payer: Option<Vec<u8>> = match from_sk {
            Some(sk) => match public_key_from_sk_hex(sk) {
                Some(p) => Some(p),
                None => {
                    return Err(Error::InvalidInput(owned("Failed to deserialize provided secret key")));
                },
            },
            None => None,
        };
        let payer_ref: Option<&[u8]> = match &payer {
            Some(p) => Some(p.as_slice()),
            None => None,
        };
        let ghost before_tx = self.safe_app.transfers();
        let outcome = self.safe_app.safecoin_transfer_to_xorname(payer_ref, to_xorname, tx, amount_nanos);
        proof {
            assert(transfer_recorded(before_tx, self.safe_app.transfers(), amount_nanos, key_of(to_xorname), tx));
        }
        match outcome {
            Err(Error::InvalidAmount(_)) => {
                let mut msg = owned("The amount '");
                push_str(&mut msg, amount);
                push_str(&mut msg, "' specified for the transfer is invalid");
                Err(Error::InvalidAmount(msg))
            },
            Err(Error::NotEnoughBalance(_)) => {
                let msg = match from_sk {
                    Some(_) => owned("Not enough balance for the transfer at provided source SafeKey"),
                    None => owned("Not enough balance for the transfer at Account's default SafeKey"),
                };
                Err(Error::NotEnoughBalance(msg))
            },
            Err(other) => {
                let mut msg = owned("Unexpected error when attempting to transfer: ");
                push_str(&mut msg, other.to_display_string().as_str());
                Err(Error::Unexpected(msg))
            },
            Ok(t) => Ok(t.id),
        }
    }
}

/// The rendering of the vault's error for a key without a balance.
pub open spec fn not_found_rendered() -> Seq<char> {
    "[Error] "@ + "ContentNotFound"@ + " - "@ + "SafeKey data not found"@
}

/// The message of the error for a transfer to a Wallet, whose default balance
/// this vault cannot look up.
pub open spec fn wallet_destination_message() -> Seq<char> {
    "Transfers to a Wallet are not supported by this vault"@
}

/// The name of a content type, as its `Debug` rendering gives it.
pub open spec fn content_type_name(ct: SafeContentType) -> Seq<char> {
    match ct {
        SafeContentType::Raw => "Raw"@,
        SafeContentType::Wallet => "Wallet"@,
        SafeContentType::FilesContainer => "FilesContainer"@,
        SafeContentType::NrsMapContainer => "NrsMapContainer"@,
    }
}

/// The name of a content type, as its `Debug` rendering gives it.
pub fn content_type_debug(ct: SafeContentType) -> (res: &'static str)
    ensures
        res@ == content_type_name(ct),
{
    match ct {
        SafeContentType::Raw => "Raw",
        SafeContentType::Wallet => "Wallet",
        SafeContentType::FilesContainer => "FilesContainer",
        SafeContentType::NrsMapContainer => "NrsMapContainer",
    }
}

/// Whether `res` is what a transfer to the key under `to` reports: the id when the
/// vault makes the transfer (the one given, if any); a zero amount, in the user's
/// words; a short paying balance, naming the paying key; any other failure as
/// unexpected.
pub open spec fn keys_transfer_outcome(
    values: Map<Seq<char>, u64>,
    amount: u64,
    amount_text: Seq<char>,
    payer: Option<Seq<u8>>,
    to: Seq<char>,
    tx_id: Option<u64>,
    res: Result<u64>,
) -> bool {
    if amount == 0 {
        res matches Err(Error::InvalidAmount(m)) && m@ == "The amount '"@ + amount_text
            + "' specified for the transfer is invalid"@
    } else {
        match transfer_values(values, payer_key(payer), to, amount).1 {
            None => match tx_id {
                Some(t) => res == Ok::<u64, Error>(t),
                None => res is Ok,
            },
            Some(TransferFailure::SourceShort(_)) => res matches Err(Error::NotEnoughBalance(m)) && m@ == (
            if payer is Some {
                "Not enough balance for the transfer at provided source SafeKey"@
            } else {
                "Not enough balance for the transfer at Account's default SafeKey"@
            }),
            Some(TransferFailure::NoSource) => res matches Err(Error::Unexpected(m)) && m@
                == "Unexpected error when attempting to transfer: "@ + not_found_rendered(),
            Some(TransferFailure::NoDestination) => res matches Err(Error::Unexpected(m)) && m@
                == "Unexpected error when attempting to transfer: "@ + not_found_rendered(),
            Some(TransferFailure::Overflow) => res matches Err(Error::Unexpected(m)) && m@
                == "Unexpected error when attempting to transfer: "@ + ("[Error] "@ + "Unexpected"@ + " - "@
                + crate::fake_scl::overflow_message()),
        }
    }
}

/// The outcome of a transfer, and the balances after it: those of the vault's
/// transfer, or the same ones for a zero amount.
pub open spec fn keys_transfer_done(
    before: Map<Seq<char>, u64>,
    after: Map<Seq<char>, u64>,
    amount: u64,
    amount_text: Seq<char>,
    payer: Option<Seq<u8>>,
    to: Seq<char>,
    tx_id: Option<u64>,
    res: Result<u64>,
) -> bool {
    &&& keys_transfer_outcome(before, amount, amount_text, payer, to, tx_id, res)
    &&& after == (if amount == 0 {
        before
    } else {
        transfer_values(before, payer_key(payer), to, amount).0
    })
}

/// The transfer records after a transfer of `amount` to the key under `to` under
/// the id `t`: the status of the transfer is recorded under the id, whatever its
/// outcome; a zero amount records nothing.
pub open spec fn transfer_recorded(
    before: Map<Seq<char>, Map<Seq<char>, Seq<char>>>,
    after: Map<Seq<char>, Map<Seq<char>, Seq<char>>>,
    amount: u64,
    to: Seq<char>,
    t: u64,
) -> bool {
    if amount == 0 {
        after == before
    } else {
        let recorded = if before.contains_key(to) {
            before[to]
        } else {
            Map::empty()
        };
        after == before.insert(to, recorded.insert(decimal(t as nat), transfer_status(amount)))
    }
}

/// The key, in the vault's tables, of a paying public key.
pub open spec fn payer_key(payer: Option<Seq<u8>>) -> Option<Seq<char>> {
    match payer {
        Some(p) => Some(key_of_pk(p)),
        None => None,
    }
}

/// The view of an optional string.
pub open spec fn str_opt(s: Option<&str>) -> Option<Seq<char>> {
    match s {
        Some(t) => Some(t@),
        None => None,
    }
}

/// The public key of a secret key written in hex, if the text is one.
pub open spec fn sk_hex_public_key(sk: Seq<char>) -> Option<Seq<u8>> {
    bls_public_key_of(hex_bytes(sk))
}

/// Whether a key pair is one: its secret key, read back from hex, gives its public
/// key, of 48 bytes; both texts are the lower-case hex of their bytes.
pub open spec fn key_pair_holds(kp: BlsKeyPair) -> bool {
    &&& sk_hex_public_key(kp.sk@) == Some(hex_bytes(kp.pk@))
    &&& hex_bytes(kp.pk@).len() == PK_SIZE
    &&& hex_of(hex_bytes(kp.pk@)) == kp.pk@
    &&& hex_of(hex_bytes(kp.sk@)) == kp.sk@
}

/// The bytes of a key pair's public key.
pub open spec fn key_pair_pk(kp: BlsKeyPair) -> Seq<u8> {
    hex_bytes(kp.pk@)
}

/// The message of the error for a key pair that could not be written out.
pub open spec fn keygen_error_message() -> Seq<char> {
    "Failed to serialise the secret key"@
}

/// The message of the error for a secret key that is not one.
pub open spec fn sk_undecodable_message() -> Seq<char> {
    "Failed to deserialize provided secret key"@
}

/// The message of the error for a XOR-URL that is not the key of a secret key.
pub open spec fn url_mismatch_message() -> Seq<char> {
    "The URL doesn't correspond to the public key derived from the provided secret key"@
}

/// The XOR-URL of the key owned by a public key.
pub open spec fn safekey_url(pk: Seq<u8>, base: Seq<char>) -> Seq<char> {
    xorurl_text(safekey_fields(pk), base)
}

/// The fields of the XOR-URL of the key owned by a public key.
pub open spec fn safekey_fields(pk: Seq<u8>) -> XorUrlView {
    url_fields(pk_xorname(pk), 0, SafeDataType::CoinBalance, SafeContentType::Raw)
}

/// The public key of a secret key written in hex, if the text is one.
fn public_key_from_sk_hex(sk: &str) -> (res: Option<Vec<u8>>)
    ensures
        match res {
            Some(pk) => sk_hex_public_key(sk@) == Some(pk@),
            None => sk_hex_public_key(sk@) is None,
        },
{
    let bytes = parse_hex(sk);
    public_key_of_secret(bytes.as_slice())
}

/// The amount of a new key: the one given, or none.
pub open spec fn preload_text(preload: Option<Seq<char>>) -> Seq<char> {
    match preload {
        Some(a) => a,
        None => "0.0"@,
    }
}

/// The inputs on which creating a key does not overflow: reading the amount, and,
/// with a paying key, adding the creation cost to it.
pub open spec fn keys_create_admits(from: Option<Seq<char>>, preload: Option<Seq<char>>) -> bool {
    &&& !coins_parse_overflows(preload_text(preload))
    &&& match payer_of(from) {
        Some(Some(_)) => !(coins_parse(preload_text(preload)) matches CoinsParse::Nanos(n) && n >= u64::MAX),
        _ => true,
    }
}

/// The paying key of a creation: `None` when the secret key given is not one,
/// else the public key of the paying key pair, if any.
pub open spec fn payer_of(from: Option<Seq<char>>) -> Option<Option<Seq<u8>>> {
    match from {
        None => Some(None),
        Some(sk) => match sk_hex_public_key(sk) {
            None => None,
            Some(p) => Some(Some(p)),
        },
    }
}

/// Whether the paying balance, if any, covers the amount and the creation cost.
pub open spec fn payer_accepted(before: Map<Seq<char>, SafeKey>, payer: Option<Seq<u8>>, n: nat) -> bool {
    match payer {
        None => true,
        Some(q) => before.contains_key(key_of_pk(q)) && before[key_of_pk(q)].value >= n + 1,
    }
}

/// The error of a creation whose paying balance is missing or short.
pub open spec fn payer_refused(before: Map<Seq<char>, SafeKey>, payer: Option<Seq<u8>>, res: Result<
    (String, Option<BlsKeyPair>),
>) -> bool {
    match payer {
        None => false,
        Some(q) => if !before.contains_key(key_of_pk(q)) {
            res matches Err(Error::Unexpected(m)) && m@ == "Unexpected error when attempting to create Key: "@
                + not_found_rendered()
        } else {
            res matches Err(Error::NotEnoughBalance(m)) && m@ == "Not enough balance at 'source' for the operation"@
        },
    }
}

/// The balances after a new key owned by `owner` gets `n` nano coins, paid by
/// the paying key, if any, with one nano coin more: every other balance is
/// unchanged.
pub open spec fn balance_created(
    before: Map<Seq<char>, SafeKey>,
    after: Map<Seq<char>, SafeKey>,
    payer: Option<Seq<u8>>,
    n: nat,
    owner: Seq<u8>,
) -> bool {
    let k = key_of_pk(owner);
    &&& after.contains_key(k) && after[k].value == n && after[k].owner@ == owner
    &&& forall|q: Seq<char>| q != k && payer_key(payer) != Some(q) ==> #[trigger] after.get(q) == before.get(q)
    &&& match payer {
        Some(pp) => key_of_pk(pp) != k ==> {
            &&& after.contains_key(key_of_pk(pp))
            &&& after[key_of_pk(pp)].value == before[key_of_pk(pp)].value - n - 1
        },
        None => true,
    }
}

/// The outcome of giving a new key owned by `owner` a balance of `n` nano coins.
pub open spec fn balance_outcome(
    before: Map<Seq<char>, SafeKey>,
    after: Map<Seq<char>, SafeKey>,
    base: Seq<char>,
    payer: Option<Seq<u8>>,
    n: nat,
    owner: Seq<u8>,
    res: Result<(String, Option<BlsKeyPair>)>,
) -> bool {
    if payer_accepted(before, payer, n) {
        &&& res matches Ok((url, _)) && url@ == safekey_url(owner, base) && readable_url(
            url@,
            safekey_fields(owner),
            base,
        )
        &&& balance_created(before, after, payer, n, owner)
    } else {
        payer_refused(before, payer, res) && after == before
    }
}

/// What creating a key reports, and the balances after it: the paying secret key
/// is read first, then the amount, then the owner's public key, if given.
pub open spec fn keys_create_outcome(
    before: Map<Seq<char>, SafeKey>,
    after: Map<Seq<char>, SafeKey>,
    base: Seq<char>,
    from: Option<Seq<char>>,
    preload: Option<Seq<char>>,
    pk: Option<Seq<char>>,
    res: Result<(String, Option<BlsKeyPair>)>,
) -> bool {
    match payer_of(from) {
        None => (res matches Err(Error::InvalidInput(m)) && m@
            == "The source of funds needs to be a secret key. The secret key provided is invalid"@) && after
            == before,
        Some(payer) => match coins_parse(preload_text(preload)) {
            CoinsParse::Nanos(n) => match pk {
                Some(p) => if hex_bytes(p).len() != PK_SIZE || !bls_public_key_valid(hex_bytes(p)) {
                    (res matches Err(Error::InvalidInput(m)) && m@ == "Invalid public key bytes"@) && after == before
                } else {
                    balance_outcome(before, after, base, payer, n, hex_bytes(p), res) && (res matches Ok((_, kp))
                        ==> kp is None)
                },
                None => match res {
                    Ok((_, Some(kp))) => key_pair_holds(kp) && balance_outcome(
                        before,
                        after,
                        base,
                        payer,
                        n,
                        key_pair_pk(kp),
                        res,
                    ),
                    Ok((_, None)) => false,
                    Err(e) => ((e matches Error::Unexpected(m) && m@ == keygen_error_message()) && after == before)
                        || (!payer_accepted(before, payer, n) && payer_refused(before, payer, res) && after
                        == before),
                },
            },
            p => (res matches Err(Error::InvalidAmount(m)) && m@ == invalid_amount_message(preload_text(preload), p))
                && after == before,
        },
    }
}

/// A key created with test coins holds them: in the balances that the creation
/// leaves, the key of the public key that the key pair's secret key gives back
/// has the amount.
pub proof fn lemma_preloaded_key_balance(before: Map<Seq<char>, u64>, kp: BlsKeyPair, n: u64)
    requires
        key_pair_holds(kp),
    ensures
        sk_hex_public_key(kp.sk@) matches Some(p) && before.insert(key_of_pk(key_pair_pk(kp)), n).get(
            key_of_pk(p),
        ) == Some(n),
{
}

/// A sequence created with data reads back, as its latest entry, that data at
/// version 0.
pub proof fn lemma_sequence_read_after_create(data: &[u8], t: Seq<u8>)
    ensures
        ({
            let e = first_entries(Some(data), t);
            e.len() == 1 && (e.len() - 1) as u64 == 0 && e.last().1 == data@
        }),
{
}

/// A sequence read after data is appended to it gives that data, under the
/// version that appending returned.
pub proof fn lemma_sequence_read_after_append(d: Seq<(Seq<u8>, Seq<u8>)>, t: Seq<u8>, data: Seq<u8>)
    requires
        d.len() < u64::MAX,
    ensures
        ({
            let e = appended_entries(d, t, data);
            e.len() != 0 && (e.len() - 1) as u64 == d.len() as u64 && e.last().1 == data
        }),
{
}

/// The XOR-URL that creating a sequence returned (in a base other than `base64`)
/// reads that sequence: as it is, it asks for no version; followed by `?v=` and a
/// version, it asks for that version of the same sequence.
pub proof fn lemma_created_sequence_url(url: Seq<char>, x: Seq<u8>, base: Seq<char>, n: u64)
    requires
        readable_url(
            url,
            url_fields(x, PUBLIC_SEQUENCE_TYPE_TAG, SafeDataType::PublishedSeqAppendOnlyData, SafeContentType::Raw),
            base,
        ),
        base != "base64"@,
    ensures
        url_content_version(url) == Ok::<Option<u64>, Seq<char>>(None),
        url_decoded(url_before_query(url)) == Some(
            url_fields(x, PUBLIC_SEQUENCE_TYPE_TAG, SafeDataType::PublishedSeqAppendOnlyData, SafeContentType::Raw),
        ),
        url_content_version(url + "?v="@ + decimal(n as nat)) == Ok::<Option<u64>, Seq<char>>(Some(n)),
        url_decoded(url_before_query(url + "?v="@ + decimal(n as nat))) == Some(
            url_fields(x, PUBLIC_SEQUENCE_TYPE_TAG, SafeDataType::PublishedSeqAppendOnlyData, SafeContentType::Raw),
        ),
{
    lemma_plain_url(url);
    lemma_version_url(url, n);
}

/// The XOR-URL that creating a key returned (in a base other than `base64`)
/// targets that key: it reads as a key's address whose XoR name is that of the
/// owner's public key, the one under which the vault keeps the balance.
pub proof fn lemma_created_safekey_url(url: Seq<char>, pk: Seq<u8>, base: Seq<char>)
    requires
        readable_url(url, safekey_fields(pk), base),
        base != "base64"@,
    ensures
        url_content_version(url) == Ok::<Option<u64>, Seq<char>>(None),
        url_decoded(url) matches Some(v) && v.content_type == SafeContentType::Raw && v.data_type
            == SafeDataType::CoinBalance && v.xorname == pk_xorname(pk) && hex_of(v.xorname) == key_of_pk(pk),
{
    lemma_plain_url(url);
}

/// The fields of the XOR-URL of a public sequence under a XoR name.
pub open spec fn sequence_fields(x: Seq<u8>) -> XorUrlView {
    url_fields(x, PUBLIC_SEQUENCE_TYPE_TAG, SafeDataType::PublishedSeqAppendOnlyData, SafeContentType::Raw)
}

/// Reading a sequence created without data, by the URL that creating it returned
/// (in a base other than `base64`), gives the empty-content error.
pub proof fn lemma_empty_sequence_read(
    before: Map<Seq<char>, Seq<(Seq<u8>, Seq<u8>)>>,
    url: Seq<char>,
    x: Seq<u8>,
    base: Seq<char>,
    t: Seq<u8>,
    res: Result<(u64, Vec<u8>)>,
)
    requires
        readable_url(url, sequence_fields(x), base),
        base != "base64"@,
        sequence_get_outcome(before.insert(hex_of(x), first_entries(None, t)), url, res),
    ensures
        res matches Err(Error::EmptyContent(m)) && m@ == empty_sequence_message(url),
{
    lemma_plain_url(url);
}

/// After a sequence is created with `data1` and `data2` is appended to it, reading
/// it by the URL that creating it returned (in a base other than `base64`) gives
/// `data1` at version 0, `data2` at version 1, and `data2`, at version 1, as the
/// latest entry.
pub proof fn lemma_sequence_versions_read(
    before: Map<Seq<char>, Seq<(Seq<u8>, Seq<u8>)>>,
    url: Seq<char>,
    x: Seq<u8>,
    base: Seq<char>,
    data1: &[u8],
    t1: Seq<u8>,
    data2: Seq<u8>,
    t2: Seq<u8>,
    res0: Result<(u64, Vec<u8>)>,
    res1: Result<(u64, Vec<u8>)>,
    res: Result<(u64, Vec<u8>)>,
)
    requires
        readable_url(url, sequence_fields(x), base),
        base != "base64"@,
        ({
            let after = before.insert(hex_of(x), appended_entries(first_entries(Some(data1), t1), t2, data2));
            &&& sequence_get_outcome(after, url + "?v="@ + decimal(0), res0)
            &&& sequence_get_outcome(after, url + "?v="@ + decimal(1), res1)
            &&& sequence_get_outcome(after, url, res)
        }),
    ensures
        res0 matches Ok((0, v)) && v@ == data1@,
        res1 matches Ok((1, v)) && v@ == data2,
        res matches Ok((1, v)) && v@ == data2,
{
    lemma_plain_url(url);
    lemma_version_url(url, 0);
    lemma_version_url(url, 1);
    assert(decimal(0u64 as nat) == decimal(0));
    assert(decimal(1u64 as nat) == decimal(1));
    let e = appended_entries(first_entries(Some(data1), t1), t2, data2);
    assert(e.len() == 2);
    assert(e[0].1 == data1@);
    assert(e[1].1 == data2);
}

/// A transfer of the amount `0` is refused with the invalid-amount error, and
/// moves nothing.
pub proof fn lemma_zero_transfer_refused(
    before: Map<Seq<char>, u64>,
    after: Map<Seq<char>, u64>,
    payer: Option<Seq<u8>>,
    to: Seq<char>,
    tx_id: Option<u64>,
    res: Result<u64>,
)
    requires
        keys_transfer_done(before, after, 0, "0"@, payer, to, tx_id, res),
    ensures
        coins_parse("0"@) == CoinsParse::Nanos(0),
        res matches Err(Error::InvalidAmount(m)) && m@ == "The amount '"@ + "0"@
            + "' specified for the transfer is invalid"@,
        after == before,
{
    reveal_strlit("0");
    reveal_with_fuel(first_index_of, 2);
    crate::coins::lemma_parse_decimal(0);
    assert(decimal(0) =~= "0"@);
    assert(units_part("0"@) =~= "0"@);
    assert(remainder_part("0"@) =~= Seq::<char>::empty());
}

/// An amount written with no whole coins, such as `.06`, is refused: its units
/// cannot be read.
pub proof fn lemma_amount_without_units_refused(decimals: Seq<char>)
    ensures
        coins_parse("."@ + decimals) == CoinsParse::Unparsable("Can't parse coin units"@),
        invalid_amount_message("."@ + decimals, coins_parse("."@ + decimals)) == "Invalid safecoins amount '"@
            + ("."@ + decimals) + "' ("@ + "Can't parse coin units"@ + ")"@,
{
    reveal_strlit(".");
    reveal_with_fuel(first_index_of, 2);
    let s = "."@ + decimals;
    assert(s[0] == '.');
    assert(units_part(s) =~= Seq::<char>::empty());
}

/// A transfer from a key that holds less than the amount fails with the
/// not-enough-balance error, naming the source, and leaves the balances as they
/// were.
pub proof fn lemma_short_source_transfer(
    before: Map<Seq<char>, u64>,
    after: Map<Seq<char>, u64>,
    amount: u64,
    amount_text: Seq<char>,
    payer: Seq<u8>,
    to: Seq<char>,
    tx_id: Option<u64>,
    res: Result<u64>,
)
    requires
        amount != 0,
        before.contains_key(key_of_pk(payer)),
        before[key_of_pk(payer)] < amount,
        keys_transfer_done(before, after, amount, amount_text, Some(payer), to, tx_id, res),
    ensures
        after == before,
        res matches Err(Error::NotEnoughBalance(m)) && m@
            == "Not enough balance for the transfer at provided source SafeKey"@,
{
    crate::fake_scl::lemma_transfer_short_source(before, key_of_pk(payer), to, amount);
}

/// A transfer between two keys, from one that holds the amount to one that can
/// take it, succeeds: the source loses exactly the amount, the destination gains
/// it, every other balance stays, and the id given, if any, is returned.
pub proof fn lemma_transfer_moves_amount(
    before: Map<Seq<char>, u64>,
    after: Map<Seq<char>, u64>,
    amount: u64,
    amount_text: Seq<char>,
    payer: Seq<u8>,
    to: Seq<char>,
    tx_id: Option<u64>,
    res: Result<u64>,
)
    requires
        amount != 0,
        key_of_pk(payer) != to,
        before.contains_key(key_of_pk(payer)),
        before.contains_key(to),
        before[key_of_pk(payer)] >= amount,
        before[to] + amount <= u64::MAX,
        keys_transfer_done(before, after, amount, amount_text, Some(payer), to, tx_id, res),
    ensures
        res is Ok,
        tx_id matches Some(t) ==> res == Ok::<u64, Error>(t),
        after[key_of_pk(payer)] == before[key_of_pk(payer)] - amount,
        after[to] == before[to] + amount,
        forall|q: Seq<char>| q != key_of_pk(payer) && q != to ==> #[trigger] after.get(q) == before.get(q),
{
    crate::fake_scl::lemma_transfer_succeeds(before, key_of_pk(payer), to, amount);
    crate::fake_scl::lemma_transfer_conserves(before, key_of_pk(payer), to, amount);
}

/// Creating a key paid by another takes the amount and one nano coin more from the
/// payer and gives the new key the amount; a payer that holds less fails the
/// creation and changes nothing.
pub proof fn lemma_key_creation_cost(
    before: Map<Seq<char>, SafeKey>,
    after: Map<Seq<char>, SafeKey>,
    base: Seq<char>,
    payer: Seq<u8>,
    n: nat,
    owner: Seq<u8>,
    res: Result<(String, Option<BlsKeyPair>)>,
)
    requires
        balance_outcome(before, after, base, Some(payer), n, owner, res),
        key_of_pk(payer) != key_of_pk(owner),
    ensures
        before.contains_key(key_of_pk(payer)) && before[key_of_pk(payer)].value >= n + 1 ==> {
            &&& res is Ok
            &&& after[key_of_pk(payer)].value == before[key_of_pk(payer)].value - n - 1
            &&& after[key_of_pk(owner)].value == n
        },
        !(before.contains_key(key_of_pk(payer)) && before[key_of_pk(payer)].value >= n + 1) ==> res is Err
            && after == before,
{
}

/// Creating a key for a public key given returns no key pair.
pub proof fn lemma_key_creation_with_pk(
    before: Map<Seq<char>, SafeKey>,
    after: Map<Seq<char>, SafeKey>,
    base: Seq<char>,
    from: Option<Seq<char>>,
    preload: Option<Seq<char>>,
    pk: Seq<char>,
    res: Result<(String, Option<BlsKeyPair>)>,
)
    requires
        keys_create_outcome(before, after, base, from, preload, Some(pk), res),
    ensures
        res matches Ok((_, kp)) ==> kp is None,
{
}

/// The secret key of a created key pair validates against the XOR-URL that
/// creating the key returned (in a base other than `base64`): the URL's XoR name is
/// that of the public key the secret key gives back, whose hex text is the key
/// pair's public key.
pub proof fn lemma_created_key_validates(url: Seq<char>, kp: BlsKeyPair, base: Seq<char>)
    requires
        key_pair_holds(kp),
        readable_url(url, safekey_fields(key_pair_pk(kp)), base),
        base != "base64"@,
    ensures
        sk_hex_public_key(kp.sk@) matches Some(p) && url_decoded(url) matches Some(v) && v.xorname == pk_xorname(p)
            && hex_of(p) == kp.pk@,
{
    lemma_created_safekey_url(url, key_pair_pk(kp), base);
}

} // verus!
