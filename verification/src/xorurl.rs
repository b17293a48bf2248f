//! XOR-URLs: `safe://` URLs whose host is a multibase encoding of the address
//! (XoR name, type tag) and of the native data type and content type of the target.
//!
//! Byte layout of the encoded host (36 to 44 bytes): one byte of format version,
//! two bytes (big endian) of content type, one byte of native data type, the 32 bytes
//! of the XoR name, and then the type tag, big endian, without its leading zero bytes.
use vstd::prelude::*;

use crate::error::{Error, Result};
use crate::text::{
    first_index_of, lemma_first_index_bound, lemma_first_index_of_concat, chars_start_with, chars_to_string, decimal, has_prefix, owned, push_decimal, push_str,
    split_chars, split_on, str_equals, str_to_chars, views,
};
use crate::coins::sub_chars;
use crate::helpers::{parse_u64, parse_u64_outcome};

verus! {

/// Format version written by the encoder, and the only one the decoder accepts.
pub const XOR_URL_VERSION_1: u64 = 1;

/// Maximum number of bytes of an encoded XOR-URL host.
pub const XOR_URL_STR_MAX_LENGTH: usize = 44;

/// Number of bytes of a XoR name.
pub const XOR_NAME_LEN: usize = 32;

/// A 32-byte address on the network.
#[derive(Clone, Copy, Debug, PartialEq, Eq, Default)]
pub struct XorName(pub [u8; 32]);

impl XorName {
    /// Whether two XoR names hold the same bytes.
    pub fn equals(&self, other: &XorName) -> (res: bool)
        ensures
            res == (self.0@ == other.0@),
    {
        let mut i: usize = 0;
        while i < 32
            invariant
                i <= 32,
                self.0@.len() == 32,
                other.0@.len() == 32,
                forall|j: int| 0 <= j < i ==> self.0@[j] == other.0@[j],
            decreases 32 - i,
        {
            if self.0[i] != other.0[i] {
                return false;
            }
            i = i + 1;
        }
        assert(self.0@ =~= other.0@);
        true
    }
}

/// A random XoR name, its bytes filled by `rand::rngs::OsRng` through
/// `RngCore::fill_bytes`. Nothing is stated of it.
#[verifier::external_body]
pub fn create_random_xorname() -> XorName {
    let mut xorname = XorName([0u8; 32]);
    rand::RngCore::fill_bytes(&mut rand::rngs::OsRng, &mut xorname.0);
    xorname
}

/// The kind of content that a XOR-URL targets.
#[derive(Debug, Clone, Copy, PartialEq, Eq, Structural)]
pub enum SafeContentType {
    Raw,
    Wallet,
    FilesContainer,
    NrsMapContainer,
}

/// The native data type that holds the content a XOR-URL targets.
#[derive(Debug, Clone, Copy, PartialEq, Eq, Structural)]
pub enum SafeDataType {
    CoinBalance,
    PublishedImmutableData,
    UnpublishedImmutableData,
    SeqMutableData,
    UnseqMutableData,
    PublishedSeqAppendOnlyData,
    PublishedUnseqAppendOnlyData,
    UnpublishedSeqAppendOnlyData,
    UnpublishedUnseqAppendOnlyData,
}

/// The code of a content type in the encoded form.
pub open spec fn content_type_code(ct: SafeContentType) -> u16 {
    match ct {
        SafeContentType::Raw => 0,
        SafeContentType::Wallet => 1,
        SafeContentType::FilesContainer => 2,
        SafeContentType::NrsMapContainer => 3,
    }
}

/// The content type with a given code, if any.
pub open spec fn content_type_of_code(code: int) -> Option<SafeContentType> {
    if code == 0 {
        Some(SafeContentType::Raw)
    } else if code == 1 {
        Some(SafeContentType::Wallet)
    } else if code == 2 {
        Some(SafeContentType::FilesContainer)
    } else if code == 3 {
        Some(SafeContentType::NrsMapContainer)
    } else {
        None
    }
}

/// The code of a native data type in the encoded form.
pub open spec fn data_type_code(dt: SafeDataType) -> u8 {
    match dt {
        SafeDataType::CoinBalance => 0,
        SafeDataType::PublishedImmutableData => 1,
        SafeDataType::UnpublishedImmutableData => 2,
        SafeDataType::SeqMutableData => 3,
        SafeDataType::UnseqMutableData => 4,
        SafeDataType::PublishedSeqAppendOnlyData => 5,
        SafeDataType::PublishedUnseqAppendOnlyData => 6,
        SafeDataType::UnpublishedSeqAppendOnlyData => 7,
        SafeDataType::UnpublishedUnseqAppendOnlyData => 8,
    }
}

/// The native data type with a given code, if any.
pub open spec fn data_type_of_code(code: int) -> Option<SafeDataType> {
    if code == 0 {
        Some(SafeDataType::CoinBalance)
    } else if code == 1 {
        Some(SafeDataType::PublishedImmutableData)
    } else if code == 2 {
        Some(SafeDataType::UnpublishedImmutableData)
    } else if code == 3 {
        Some(SafeDataType::SeqMutableData)
    } else if code == 4 {
        Some(SafeDataType::UnseqMutableData)
    } else if code == 5 {
        Some(SafeDataType::PublishedSeqAppendOnlyData)
    } else if code == 6 {
        Some(SafeDataType::PublishedUnseqAppendOnlyData)
    } else if code == 7 {
        Some(SafeDataType::UnpublishedSeqAppendOnlyData)
    } else if code == 8 {
        Some(SafeDataType::UnpublishedUnseqAppendOnlyData)
    } else {
        None
    }
}

/// The name of a native data type, as its `Debug` rendering gives it.
pub open spec fn data_type_name(dt: SafeDataType) -> Seq<char> {
    match dt {
        SafeDataType::CoinBalance => "CoinBalance"@,
        SafeDataType::PublishedImmutableData => "PublishedImmutableData"@,
        SafeDataType::UnpublishedImmutableData => "UnpublishedImmutableData"@,
        SafeDataType::SeqMutableData => "SeqMutableData"@,
        SafeDataType::UnseqMutableData => "UnseqMutableData"@,
        SafeDataType::PublishedSeqAppendOnlyData => "PublishedSeqAppendOnlyData"@,
        SafeDataType::PublishedUnseqAppendOnlyData => "PublishedUnseqAppendOnlyData"@,
        SafeDataType::UnpublishedSeqAppendOnlyData => "UnpublishedSeqAppendOnlyData"@,
        SafeDataType::UnpublishedUnseqAppendOnlyData => "UnpublishedUnseqAppendOnlyData"@,
    }
}

impl SafeContentType {
    /// The code of this content type in the encoded form.
    pub fn code(&self) -> (c: u16)
        ensures
            c == content_type_code(*self),
    {
        match self {
            SafeContentType::Raw => 0,
            SafeContentType::Wallet => 1,
            SafeContentType::FilesContainer => 2,
            SafeContentType::NrsMapContainer => 3,
        }
    }

    /// The content type with a given code, if any.
    pub fn from_code(code: u16) -> (res: Option<SafeContentType>)
        ensures
            res == content_type_of_code(code as int),
    {
        match code {
            0 => Some(SafeContentType::Raw),
            1 => Some(SafeContentType::Wallet),
            2 => Some(SafeContentType::FilesContainer),
            3 => Some(SafeContentType::NrsMapContainer),
            _ => None,
        }
    }
}

impl SafeDataType {
    /// The code of this native data type in the encoded form.
    pub fn code(&self) -> (c: u8)
        ensures
            c == data_type_code(*self),
    {
        match self {
            SafeDataType::CoinBalance => 0,
            SafeDataType::PublishedImmutableData => 1,
            SafeDataType::UnpublishedImmutableData => 2,
            SafeDataType::SeqMutableData => 3,
            SafeDataType::UnseqMutableData => 4,
            SafeDataType::PublishedSeqAppendOnlyData => 5,
            SafeDataType::PublishedUnseqAppendOnlyData => 6,
            SafeDataType::UnpublishedSeqAppendOnlyData => 7,
            SafeDataType::UnpublishedUnseqAppendOnlyData => 8,
        }
    }

    /// The native data type with a given code, if any.
    pub fn from_code(code: u8) -> (res: Option<SafeDataType>)
        ensures
            res == data_type_of_code(code as int),
    {
        match code {
            0 => Some(SafeDataType::CoinBalance),
            1 => Some(SafeDataType::PublishedImmutableData),
            2 => Some(SafeDataType::UnpublishedImmutableData),
            3 => Some(SafeDataType::SeqMutableData),
            4 => Some(SafeDataType::UnseqMutableData),
            5 => Some(SafeDataType::PublishedSeqAppendOnlyData),
            6 => Some(SafeDataType::PublishedUnseqAppendOnlyData),
            7 => Some(SafeDataType::UnpublishedSeqAppendOnlyData),
            8 => Some(SafeDataType::UnpublishedUnseqAppendOnlyData),
            _ => None,
        }
    }

    /// The name of this native data type (its `Display` rendering).
    pub fn name(&self) -> (res: String)
        ensures
            res@ == data_type_name(*self),
    {
        let s: &str = match self {
            SafeDataType::CoinBalance => "CoinBalance",
            SafeDataType::PublishedImmutableData => "PublishedImmutableData",
            SafeDataType::UnpublishedImmutableData => "UnpublishedImmutableData",
            SafeDataType::SeqMutableData => "SeqMutableData",
            SafeDataType::UnseqMutableData => "UnseqMutableData",
            SafeDataType::PublishedSeqAppendOnlyData => "PublishedSeqAppendOnlyData",
            SafeDataType::PublishedUnseqAppendOnlyData => "PublishedUnseqAppendOnlyData",
            SafeDataType::UnpublishedSeqAppendOnlyData => "UnpublishedSeqAppendOnlyData",
            SafeDataType::UnpublishedUnseqAppendOnlyData => "UnpublishedUnseqAppendOnlyData",
        };
        owned(s)
    }
}

/// `256` raised to a power.
pub open spec fn pow256(n: nat) -> nat
    decreases n,
{
    if n == 0 {
        1
    } else {
        256 * pow256((n - 1) as nat)
    }
}

/// The big-endian bytes of a number, without leading zero bytes (none for zero).
pub open spec fn tag_bytes(t: nat) -> Seq<u8>
    decreases t,
{
    if t == 0 {
        Seq::empty()
    } else {
        tag_bytes(t / 256).push((t % 256) as u8)
    }
}

/// The number that a sequence of bytes denotes, read big endian.
pub open spec fn be_value(s: Seq<u8>) -> nat
    decreases s.len(),
{
    if s.len() == 0 {
        0
    } else {
        be_value(s.drop_last()) * 256 + s.last() as nat
    }
}

/// The two big-endian bytes of a 16-bit number.
pub open spec fn be16(v: u16) -> Seq<u8> {
    seq![(v / 256) as u8, (v % 256) as u8]
}

/// The fields of a XOR-URL encoder, as plain values.
pub ghost struct XorUrlView {
    pub version: u64,
    pub xorname: Seq<u8>,
    pub type_tag: u64,
    pub data_type: SafeDataType,
    pub content_type: SafeContentType,
    pub path: Seq<char>,
}

/// The bytes that a XOR-URL host encodes.
pub open spec fn xorurl_bytes(v: XorUrlView) -> Seq<u8> {
    seq![XOR_URL_VERSION_1 as u8] + be16(content_type_code(v.content_type)) + seq![
        data_type_code(v.data_type),
    ] + v.xorname + tag_bytes(v.type_tag as nat)
}

/// Whether decoding these host bytes would read past their end: the checks on
/// length, version, content type and data type come first, and whatever they
/// let through must then be at least 36 bytes long.
pub open spec fn bytes_too_short(b: Seq<u8>) -> bool {
    &&& b.len() <= XOR_URL_STR_MAX_LENGTH
    &&& (b.len() == 0 || (b[0] == XOR_URL_VERSION_1 && (b.len() < 3 || (content_type_of_code(
        b[1] * 256 + b[2],
    ) is Some && (b.len() < 4 || (data_type_of_code(b[3] as int) is Some && b.len() < 36))))))
}

/// The outcome of decoding host bytes of at least the minimum length, together with
/// a path: the fields, or the message of the `InvalidXorUrl` error.
pub open spec fn decode_outcome(b: Seq<u8>, path: Seq<char>) -> core::result::Result<
    XorUrlView,
    Seq<char>,
> {
    if b.len() > XOR_URL_STR_MAX_LENGTH {
        Err("Invalid XOR-URL, encoded string too long: "@ + decimal(b.len()) + " bytes"@)
    } else if b[0] != XOR_URL_VERSION_1 {
        Err("Invalid or unsupported XOR-URL encoding version: "@ + decimal(b[0] as nat))
    } else if content_type_of_code(b[1] * 256 + b[2]) is None {
        Err("Invalid content type encoded in the XOR-URL string: "@ + decimal(
            (b[1] * 256 + b[2]) as nat,
        ))
    } else if data_type_of_code(b[3] as int) is None {
        Err("Invalid SAFE data type encoded in the XOR-URL string: "@ + decimal(b[3] as nat))
    } else {
        Ok(
            XorUrlView {
                version: XOR_URL_VERSION_1,
                xorname: b.subrange(4, 36),
                type_tag: be_value(b.subrange(36, b.len() as int)) as u64,
                data_type: data_type_of_code(b[3] as int).unwrap(),
                content_type: content_type_of_code(b[1] * 256 + b[2]).unwrap(),
                path: path,
            },
        )
    }
}

/// The fields that `XorUrlEncoder::from_url` reads from a text, if it reads any.
pub open spec fn url_decoded(url: Seq<char>) -> Option<XorUrlView> {
    if !has_prefix(url, "safe://"@) {
        None
    } else {
        match multibase_decoding(url_host(url)) {
            None => None,
            Some(b) => if bytes_too_short(b) {
                None
            } else {
                match decode_outcome(b, url_path(url)) {
                    Ok(v) => Some(v),
                    Err(_) => None,
                }
            },
        }
    }
}

/// The multibase code of a base name: `base32` and `base64` name their bases, and
/// any other name gives the default, `base32z`.
pub open spec fn base_code(base: Seq<char>) -> char {
    if base == "base32z"@ {
        'h'
    } else if base == "base32"@ {
        'b'
    } else if base == "base64"@ {
        'm'
    } else {
        'h'
    }
}

/// Whether a multibase code is one of those a XOR-URL may be encoded with.
pub open spec fn supported_code(code: char) -> bool {
    code == 'h' || code == 'b' || code == 'm'
}

/// The full text of a XOR-URL for the given fields and base name.
pub open spec fn xorurl_text(v: XorUrlView, base: Seq<char>) -> Seq<char> {
    "safe://"@ + multibase_encoding(base_code(base), xorurl_bytes(v)) + v.path
}

/// What `multibase::encode` returns for the base with the given code and the given bytes.
pub uninterp spec fn multibase_encoding(code: char, bytes: Seq<u8>) -> Seq<char>;

/// What `multibase::decode` gives back as bytes for a string, if it decodes.
pub uninterp spec fn multibase_decoding(text: Seq<char>) -> Option<Seq<u8>>;

/// Whether a character can occur in the multibase encoding with the given code:
/// the code itself or a letter of the base's alphabet (lower-case letters and digits
/// for Base32z and Base32; letters, digits, `+` and `/` for Base64).
pub open spec fn encoding_char(code: char, c: char) -> bool {
    if code == 'm' {
        ('a' <= c && c <= 'z') || ('A' <= c && c <= 'Z') || ('0' <= c && c <= '9') || c == '+' || c == '/'
    } else {
        ('a' <= c && c <= 'z') || ('0' <= c && c <= '9')
    }
}

/// `multibase::encode`, with the base given by its multibase code
/// (`h`: Base32z, `b`: Base32, `m`: Base64). The result is named
/// `multibase_encoding` of the code and the bytes. The contract also claims what
/// the crate's source shows: the text is the code followed by letters of the
/// base's alphabet (`base.rs`, `encodable.rs`), and `multibase::decode` gives the
/// bytes back from it (`decodable.rs` with `base_x`).
#[verifier::external_body]
fn multibase_encode(code: char, bytes: &[u8]) -> (res: String)
    requires
        supported_code(code),
    ensures
        res@ == multibase_encoding(code, bytes@),
        multibase_decoding(res@) == Some(bytes@),
        forall|i: int| 0 <= i < res@.len() ==> #[trigger] encoding_char(code, res@[i]),
{
    let base = match code {
        'b' => multibase::Base::Base32,
        'm' => multibase::Base::Base64,
        _ => multibase::Base::Base32z,
    };
    multibase::encode(base, bytes)
}

/// `multibase::decode`, keeping the decoded bytes and dropping the base. The bytes are
/// named `multibase_decoding` of the input; the error is the `Debug` text of the crate's
/// error, of which nothing is claimed. The contract also claims what the crate's source
/// shows of its three bases used here: decoding what `encode` produced gives the bytes back.
#[verifier::external_body]
fn multibase_decode(text: &str) -> (res: core::result::Result<Vec<u8>, String>)
    ensures
        res is Ok <==> multibase_decoding(text@) is Some,
        res matches Ok(v) ==> multibase_decoding(text@) == Some(v@),
        res is Err ==> (forall|code: char, b: Seq<u8>|
            supported_code(code) ==> #[trigger] multibase_encoding(code, b) != text@),
        res matches Ok(v) ==> (forall|code: char, b: Seq<u8>|
            supported_code(code) && #[trigger] multibase_encoding(code, b) == text@ ==> v@ == b),
{
    match multibase::decode(text) {
        Ok((_base, bytes)) => Ok(bytes),
        Err(err) => Err(format!("{:?}", err)),
    }
}

/// The host of a `safe://` URL: what follows the scheme, up to the first `/`.
pub open spec fn url_host(url: Seq<char>) -> Seq<char> {
    let rest = url.skip(7);
    rest.take(first_index_of(rest, '/') as int)
}

/// The path of a `safe://` URL: from the first `/` after the scheme to the end.
pub open spec fn url_path(url: Seq<char>) -> Seq<char> {
    let rest = url.skip(7);
    rest.skip(first_index_of(rest, '/') as int)
}

/// Splits a `safe://` URL into its host and its path.
fn split_host_and_path(url: &str) -> (res: Result<(String, String)>)
    ensures
        has_prefix(url@, "safe://"@) ==> (res matches Ok((h, p)) && h@ == url_host(url@) && p@
            == url_path(url@)),
        !has_prefix(url@, "safe://"@) ==> (res matches Err(Error::InvalidXorUrl(m)) && m@
            == "Problem parsing the SAFE:// URL: "@ + url@),
{
    let chars = str_to_chars(url);
    let scheme = str_to_chars("safe://");
    if !chars_start_with(chars.as_slice(), scheme.as_slice()) {
        let mut msg = owned("Problem parsing the SAFE:// URL: ");
        push_str(&mut msg, url);
        return Err(Error::InvalidXorUrl(msg));
    }
    proof {
        reveal_strlit("safe://");
    }
    let ghost rest = url@.skip(7);
    let mut i: usize = 7;
    while i < chars.len() && chars[i] != '/'
        invariant
            7 <= i <= chars@.len(),
            chars@ == url@,
            rest == url@.skip(7),
            forall|j: int| 7 <= j < i ==> chars@[j] != '/',
        decreases chars@.len() - i,
    {
        i = i + 1;
    }
    proof {
        lemma_first_index_bound(rest, '/');
        let k = first_index_of(rest, '/');
        assert(i - 7 == k) by {
            if i - 7 < k {
                assert(rest[i - 7] == chars@[i as int]);
            } else if i - 7 > k {
                assert(rest[k as int] == chars@[k + 7 as int]);
            }
        }
    }
    let host = chars_to_string(&chars.as_slice()[7..i]);
    let path = chars_to_string(&chars.as_slice()[i..chars.len()]);
    assert(host@ =~= url_host(url@));
    assert(path@ =~= url_path(url@));
    Ok((host, path))
}

proof fn lemma_tag_bytes_len(t: nat, k: nat)
    requires
        t < pow256(k),
    ensures
        tag_bytes(t).len() <= k,
    decreases t,
{
    if t > 0 {
        assert(k > 0);
        assert(t / 256 < pow256((k - 1) as nat)) by (nonlinear_arith)
            requires
                t < pow256(k),
                k > 0,
                pow256(k) == 256 * pow256((k - 1) as nat),
        ;
        lemma_tag_bytes_len(t / 256, (k - 1) as nat);
    }
}

proof fn lemma_be_value_of_tag_bytes(t: nat)
    ensures
        be_value(tag_bytes(t)) == t,
    decreases t,
{
    if t > 0 {
        lemma_be_value_of_tag_bytes(t / 256);
        assert(tag_bytes(t).drop_last() =~= tag_bytes(t / 256));
    }
}

proof fn lemma_be_value_bound(s: Seq<u8>)
    ensures
        be_value(s) < pow256(s.len()),
    decreases s.len(),
{
    if s.len() > 0 {
        lemma_be_value_bound(s.drop_last());
        let p = pow256((s.len() - 1) as nat);
        let v = be_value(s.drop_last());
        assert(v * 256 + s.last() < 256 * p) by (nonlinear_arith)
            requires
                v < p,
                s.last() < 256,
        ;
    }
}

proof fn lemma_pow256_8()
    ensures
        pow256(8) == 0x1_0000_0000_0000_0000,
{
    reveal_with_fuel(pow256, 9);
}

/// A XOR-URL encoder: the fields a XOR-URL encodes, and its path.
#[derive(Debug)]
pub struct XorUrlEncoder {
    version: u64,
    xorname: XorName,
    type_tag: u64,
    data_type: SafeDataType,
    content_type: SafeContentType,
    path: String,
}

impl View for XorUrlEncoder {
    type V = XorUrlView;

    closed spec fn view(&self) -> XorUrlView {
        XorUrlView {
            version: self.version,
            xorname: self.xorname.0@,
            type_tag: self.type_tag,
            data_type: self.data_type,
            content_type: self.content_type,
            path: self.path@,
        }
    }
}

impl Clone for XorUrlEncoder {
    fn clone(&self) -> (res: Self)
        ensures
            res@ == self@,
    {
        proof {
            use_type_invariant(self);
        }
        XorUrlEncoder {
            version: self.version,
            xorname: self.xorname,
            type_tag: self.type_tag,
            data_type: self.data_type,
            content_type: self.content_type,
            path: self.path.clone(),
        }
    }
}

/// Pushes the big-endian bytes of a number without its leading zero bytes.
fn push_tag_bytes(v: &mut Vec<u8>, t: u64)
    ensures
        final(v)@ == old(v)@ + tag_bytes(t as nat),
    decreases t,
{
    if t != 0 {
        push_tag_bytes(v, t / 256);
        v.push((t % 256) as u8);
        assert(tag_bytes(t as nat) == tag_bytes((t / 256) as nat).push((t % 256) as u8));
    } else {
        assert(old(v)@ + tag_bytes(t as nat) =~= old(v)@);
    }
}

impl XorUrlEncoder {
    /// Every encoder carries the supported format version.
    #[verifier::type_invariant]
    spec fn inv(&self) -> bool {
        self.version == XOR_URL_VERSION_1
    }

    /// A new encoder for the given address, types and optional path (empty if none).
    pub fn new(
        xorname: XorName,
        type_tag: u64,
        data_type: SafeDataType,
        content_type: SafeContentType,
        path: Option<&str>,
    ) -> (res: XorUrlEncoder)
        ensures
            res@ == (XorUrlView {
                version: XOR_URL_VERSION_1,
                xorname: xorname.0@,
                type_tag,
                data_type,
                content_type,
                path: match path {
                    Some(p) => p@,
                    None => Seq::empty(),
                },
            }),
    {
        let path = match path {
            Some(p) => owned(p),
            None => String::new(),
        };
        XorUrlEncoder { version: XOR_URL_VERSION_1, xorname, type_tag, data_type, content_type, path }
    }

    /// The format version.
    pub fn version(&self) -> (res: u64)
        ensures
            res == self@.version,
            res == XOR_URL_VERSION_1,
    {
        proof {
            use_type_invariant(self);
        }
        self.version
    }

    /// The native data type.
    pub fn data_type(&self) -> (res: SafeDataType)
        ensures
            res == self@.data_type,
    {
        self.data_type
    }

    /// The content type.
    pub fn content_type(&self) -> (res: SafeContentType)
        ensures
            res == self@.content_type,
    {
        self.content_type
    }

    /// The XoR name.
    pub fn xorname(&self) -> (res: XorName)
        ensures
            res.0@ == self@.xorname,
    {
        self.xorname
    }

    /// The type tag.
    pub fn type_tag(&self) -> (res: u64)
        ensures
            res == self@.type_tag,
    {
        self.type_tag
    }

    /// The path (empty if none).
    pub fn path(&self) -> (res: &str)
        ensures
            res@ == self@.path,
    {
        self.path.as_str()
    }

    /// The bytes that the host of this encoder's XOR-URL encodes.
    pub fn encoded_bytes(&self) -> (res: Vec<u8>)
        ensures
            res@ == xorurl_bytes(self@),
    {
        let mut v: Vec<u8> = Vec::new();
        v.push(XOR_URL_VERSION_1 as u8);
        let ct = self.content_type.code();
        v.push((ct / 256) as u8);
        v.push((ct % 256) as u8);
        v.push(self.data_type.code());
        let mut i: usize = 0;
        while i < 32
            invariant
                i <= 32,
                self.xorname.0@.len() == 32,
                v@ == seq![XOR_URL_VERSION_1 as u8] + be16(content_type_code(self.content_type))
                    + seq![data_type_code(self.data_type)] + self.xorname.0@.take(i as int),
            decreases 32 - i,
        {
            v.push(self.xorname.0[i]);
            assert(self.xorname.0@.take(i + 1) =~= self.xorname.0@.take(i as int).push(
                self.xorname.0@[i as int],
            ));
            i = i + 1;
        }
        assert(self.xorname.0@.take(32) =~= self.xorname.0@);
        push_tag_bytes(&mut v, self.type_tag);
        assert(v@ =~= xorurl_bytes(self@));
        v
    }

    /// The XOR-URL of this encoder in the named base (`base32z`, `base32` or `base64`;
    /// any other name gives `base32z`): `safe://`, the multibase encoding of the bytes,
    /// and the path.
    pub fn to_string(&self, base: &str) -> (res: Result<String>)
        ensures
            res matches Ok(s) && s@ == xorurl_text(self@, base@),
            match res {
                Ok(s) => (rendered_readable(self@, base@) ==> url_decoded(s@) == Some(self@)) && (
                !self@.path.contains('?') ==> !s@.contains('?')),
                Err(_) => false,
            },
    {
        let bytes = self.encoded_bytes();
        let code = if str_equals(base, "base32z") {
            'h'
        } else if str_equals(base, "base32") {
            'b'
        } else if str_equals(base, "base64") {
            'm'
        } else {
            'h'
        };
        let cid = multibase_encode(code, bytes.as_slice());
        let mut url = owned("safe://");
        push_str(&mut url, cid.as_str());
        push_str(&mut url, self.path.as_str());
        proof {
            reveal_strlit("safe://");
            reveal_strlit("base32z");
            reveal_strlit("base32");
            reveal_strlit("base64");
            use_type_invariant(self);
            assert(code == base_code(base@));
            lemma_rendering_parts(self@, base@, cid@, url@);
        }
        Ok(url)
    }

    /// Encodes the given fields and path into a XOR-URL in the named base.
    pub fn encode(
        xorname: XorName,
        type_tag: u64,
        data_type: SafeDataType,
        content_type: SafeContentType,
        path: Option<&str>,
        base: &str,
    ) -> (res: Result<String>)
        ensures
            res matches Ok(s) && s@ == xorurl_text(
                XorUrlView {
                    version: XOR_URL_VERSION_1,
                    xorname: xorname.0@,
                    type_tag,
                    data_type,
                    content_type,
                    path: match path {
                        Some(p) => p@,
                        None => Seq::empty(),
                    },
                },
                base@,
            ),
            ({
                let v = XorUrlView {
                    version: XOR_URL_VERSION_1,
                    xorname: xorname.0@,
                    type_tag,
                    data_type,
                    content_type,
                    path: match path {
                        Some(p) => p@,
                        None => Seq::empty(),
                    },
                };
                match res {
                    Ok(s) => (rendered_readable(v, base@) ==> url_decoded(s@) == Some(v)) && (!v.path.contains('?')
                        ==> !s@.contains('?')),
                    Err(_) => false,
                }
            }),
    {
        let encoder = XorUrlEncoder::new(xorname, type_tag, data_type, content_type, path);
        encoder.to_string(base)
    }

    /// Decodes the bytes of a XOR-URL host, with the URL's path. Bytes that are too short
    /// for the checks they pass are left out (see `bytes_too_short`).
    pub fn decode_bytes(bytes: &[u8], path: &str) -> (res: Result<XorUrlEncoder>)
        requires
            !bytes_too_short(bytes@),
        ensures
            match res {
                Ok(x) => decode_outcome(bytes@, path@) == Ok::<XorUrlView, Seq<char>>(x@),
                Err(e) => e matches Error::InvalidXorUrl(m) && decode_outcome(bytes@, path@) == Err::<
                    XorUrlView,
                    Seq<char>,
                >(m@),
            },
    {
        let len = bytes.len();
        if len > XOR_URL_STR_MAX_LENGTH {
            let mut msg = owned("Invalid XOR-URL, encoded string too long: ");
            push_decimal(&mut msg, len as u64);
            push_str(&mut msg, " bytes");
            proof {
                reveal_strlit("Invalid XOR-URL, encoded string too long: ");
                reveal_strlit(" bytes");
            }
            return Err(Error::InvalidXorUrl(msg));
        }
        let version = bytes[0] as u64;
        if version != XOR_URL_VERSION_1 {
            let mut msg = owned("Invalid or unsupported XOR-URL encoding version: ");
            push_decimal(&mut msg, version);
            return Err(Error::InvalidXorUrl(msg));
        }
        let ct_code: u16 = (bytes[1] as u16) * 256 + (bytes[2] as u16);
        let content_type = match SafeContentType::from_code(ct_code) {
            Some(ct) => ct,
            None => {
                let mut msg = owned("Invalid content type encoded in the XOR-URL string: ");
                push_decimal(&mut msg, ct_code as u64);
                return Err(Error::InvalidXorUrl(msg));
            },
        };
        let data_type = match SafeDataType::from_code(bytes[3]) {
            Some(dt) => dt,
            None => {
                let mut msg = owned("Invalid SAFE data type encoded in the XOR-URL string: ");
                push_decimal(&mut msg, bytes[3] as u64);
                return Err(Error::InvalidXorUrl(msg));
            },
        };
        let xorname = XorName(
            [
                bytes[4],
                bytes[5],
                bytes[6],
                bytes[7],
                bytes[8],
                bytes[9],
                bytes[10],
                bytes[11],
                bytes[12],
                bytes[13],
                bytes[14],
                bytes[15],
                bytes[16],
                bytes[17],
                bytes[18],
                bytes[19],
                bytes[20],
                bytes[21],
                bytes[22],
                bytes[23],
                bytes[24],
                bytes[25],
                bytes[26],
                bytes[27],
                bytes[28],
                bytes[29],
                bytes[30],
                bytes[31],
                bytes[32],
                bytes[33],
                bytes[34],
                bytes[35],
            ],
        );
        assert(xorname.0@ =~= bytes@.subrange(4, 36));
        let mut type_tag: u64 = 0;
        let mut i: usize = 36;
        proof {
            lemma_pow256_8();
        }
        while i < len
            invariant
                36 <= i <= len,
                len == bytes@.len(),
                len <= 44,
                pow256(8) == 0x1_0000_0000_0000_0000,
                type_tag as nat == be_value(bytes@.subrange(36, i as int)),
            decreases len - i,
        {
            proof {
                lemma_be_value_bound(bytes@.subrange(36, i as int));
                assert(pow256((i - 36) as nat) <= pow256(7)) by {
                    lemma_pow256_mono((i - 36) as nat, 7);
                }
                reveal_with_fuel(pow256, 8);
                assert(bytes@.subrange(36, i + 1).drop_last() =~= bytes@.subrange(36, i as int));
            }
            type_tag = type_tag * 256 + bytes[i] as u64;
            i = i + 1;
        }
        let path = owned(path);
        proof {
            reveal_strlit("Invalid XOR-URL, encoded string too long: ");
        }
        Ok(XorUrlEncoder { version, xorname, type_tag, data_type, content_type, path })
    }
}

/// Decoding the bytes that an encoder's XOR-URL host carries gives back the encoder's
/// fields: the byte layout is read back exactly as it is written, for every address,
/// type tag, data type, content type and path.
pub proof fn lemma_xorurl_bytes_roundtrip(v: XorUrlView)
    requires
        v.version == XOR_URL_VERSION_1,
        v.xorname.len() == XOR_NAME_LEN,
    ensures
        !bytes_too_short(xorurl_bytes(v)),
        xorurl_bytes(v).len() >= 36,
        decode_outcome(xorurl_bytes(v), v.path) == Ok::<XorUrlView, Seq<char>>(v),
{
    let b = xorurl_bytes(v);
    let t = tag_bytes(v.type_tag as nat);
    lemma_pow256_8();
    lemma_tag_bytes_len(v.type_tag as nat, 8);
    lemma_be_value_of_tag_bytes(v.type_tag as nat);
    let ct = content_type_code(v.content_type);
    assert(b.len() == 36 + t.len());
    assert(b[1] * 256 + b[2] == ct) by {
        assert(b[1] == (ct / 256) as u8);
        assert(b[2] == (ct % 256) as u8);
    }
    assert(b.subrange(4, 36) =~= v.xorname);
    assert(b.subrange(36, b.len() as int) =~= t);
    assert(content_type_of_code(ct as int) == Some(v.content_type));
    assert(data_type_of_code(data_type_code(v.data_type) as int) == Some(v.data_type));
}

proof fn lemma_pow256_mono(a: nat, b: nat)
    requires
        a <= b,
    ensures
        pow256(a) <= pow256(b),
    decreases b,
{
    if a < b {
        lemma_pow256_mono(a, (b - 1) as nat);
    }
}


impl XorUrlEncoder {
    /// Reads a XOR-URL: `safe://`, a multibase-encoded host, and an optional path.
    ///
    /// A host whose decoded bytes are too short for the checks they pass is refused
    /// with an `InvalidXorUrl` error ("encoded string too short").
    /// A URL that `to_string` rendered is read back as the same fields, provided the
    /// path is empty or starts with `/` and the encoded host holds no `/`.
    pub fn from_url(xorurl: &str) -> (res: Result<XorUrlEncoder>)
        ensures
            !has_prefix(xorurl@, "safe://"@) ==> (res matches Err(Error::InvalidXorUrl(m)) && m@
                == "Problem parsing the SAFE:// URL: "@ + xorurl@),
            has_prefix(xorurl@, "safe://"@) && multibase_decoding(url_host(xorurl@)) is None ==> (
            res matches Err(Error::InvalidXorUrl(m)) && has_prefix(
                m@,
                "Failed to decode XOR-URL: "@,
            )),
            has_prefix(xorurl@, "safe://"@) ==> (multibase_decoding(url_host(xorurl@)) matches Some(
                b,
            ) ==> (bytes_too_short(b) ==> (res matches Err(Error::InvalidXorUrl(m)) && m@
                == "Invalid XOR-URL, encoded string too short: "@ + decimal(b.len()) + " bytes"@))),
            has_prefix(xorurl@, "safe://"@) ==> (multibase_decoding(url_host(xorurl@)) matches Some(
                b,
            ) ==> (!bytes_too_short(b) ==> match res {
                Ok(x) => decode_outcome(b, url_path(xorurl@)) == Ok::<XorUrlView, Seq<char>>(x@),
                Err(e) => e matches Error::InvalidXorUrl(m) && decode_outcome(b, url_path(xorurl@))
                    == Err::<XorUrlView, Seq<char>>(m@),
            })),
            (forall|v: XorUrlView, base: Seq<char>|
                roundtrip_premise(v, base) && #[trigger] xorurl_text(v, base) == xorurl@ ==> (
                res matches Ok(x) && x@ == v)),
            match res {
                Ok(x) => url_decoded(xorurl@) == Some(x@),
                Err(e) => url_decoded(xorurl@) is None && e is InvalidXorUrl,
            },
    {
        let (host, path) = match split_host_and_path(xorurl) {
            Ok(parts) => parts,
            Err(e) => {
                proof {
                    assert forall|v: XorUrlView, base: Seq<char>|
                        roundtrip_premise(v, base) && #[trigger] xorurl_text(v, base)
                            == xorurl@ implies false by {
                        lemma_text_parts(v, base, xorurl@);
                    }
                }
                return Err(e);
            },
        };
        let bytes = match multibase_decode(host.as_str()) {
            Ok(bytes) => bytes,
            Err(detail) => {
                let mut msg = owned("Failed to decode XOR-URL: ");
                push_str(&mut msg, detail.as_str());
                proof {
                    reveal_strlit("Failed to decode XOR-URL: ");
                    assert(msg@.subrange(0, 26) =~= "Failed to decode XOR-URL: "@);
                    assert forall|v: XorUrlView, base: Seq<char>|
                        roundtrip_premise(v, base) && #[trigger] xorurl_text(v, base)
                            == xorurl@ implies false by {
                        lemma_text_parts(v, base, xorurl@);
                        assert(supported_code(base_code(base)));
                    }
                }
                return Err(Error::InvalidXorUrl(msg));
            },
        };
        proof {
            assert forall|v: XorUrlView, base: Seq<char>|
                roundtrip_premise(v, base) && #[trigger] xorurl_text(v, base) == xorurl@ implies bytes@
                == xorurl_bytes(v) && !bytes_too_short(bytes@) by {
                lemma_text_parts(v, base, xorurl@);
                assert(supported_code(base_code(base)));
                lemma_xorurl_bytes_roundtrip(v);
            }
        }
        if bytes_are_too_short(bytes.as_slice()) {
            let mut msg = owned("Invalid XOR-URL, encoded string too short: ");
            push_decimal(&mut msg, bytes.len() as u64);
            push_str(&mut msg, " bytes");
            proof {
                reveal_strlit("Invalid XOR-URL, encoded string too short: ");
                reveal_strlit(" bytes");
            }
            return Err(Error::InvalidXorUrl(msg));
        }
        let res = XorUrlEncoder::decode_bytes(bytes.as_slice(), path.as_str());
        proof {
            assert forall|v: XorUrlView, base: Seq<char>|
                roundtrip_premise(v, base) && #[trigger] xorurl_text(v, base) == xorurl@ implies (
            res matches Ok(x) && x@ == v) by {
                lemma_text_parts(v, base, xorurl@);
                lemma_xorurl_bytes_roundtrip(v);
            }
        }
        res
    }
}


/// The fields and base for which a rendered XOR-URL reads back unchanged: a supported
/// version, a 32-byte name, a path that is empty or starts with `/`, and an encoded
/// host without `/`.
pub open spec fn roundtrip_premise(v: XorUrlView, base: Seq<char>) -> bool {
    &&& v.version == XOR_URL_VERSION_1
    &&& v.xorname.len() == XOR_NAME_LEN
    &&& (v.path.len() == 0 || v.path[0] == '/')
    &&& !multibase_encoding(base_code(base), xorurl_bytes(v)).contains('/')
}

proof fn lemma_text_parts(v: XorUrlView, base: Seq<char>, url: Seq<char>)
    requires
        roundtrip_premise(v, base),
        xorurl_text(v, base) == url,
    ensures
        has_prefix(url, "safe://"@),
        url_host(url) == multibase_encoding(base_code(base), xorurl_bytes(v)),
        url_path(url) == v.path,
{
    reveal_strlit("safe://");
    let enc = multibase_encoding(base_code(base), xorurl_bytes(v));
    assert(url.subrange(0, 7) =~= "safe://"@);
    let rest = url.skip(7);
    assert(rest =~= enc + v.path);
    lemma_first_index_of_concat(enc, v.path, '/');
    assert(first_index_of(v.path, '/') == 0) by {
        reveal_with_fuel(first_index_of, 2);
    }
    assert(rest.take(enc.len() as int) =~= enc);
    assert(rest.skip(enc.len() as int) =~= v.path);
}

/// Whether a XOR-URL rendered from the fields in the named base reads back as the
/// same fields: a base other than `base64` (whose alphabet holds `/`), and a path
/// that is empty or starts with `/`.
pub open spec fn rendered_readable(v: XorUrlView, base: Seq<char>) -> bool {
    &&& base != "base64"@
    &&& (v.path.len() == 0 || v.path[0] == '/')
}

proof fn lemma_rendering_parts(v: XorUrlView, base: Seq<char>, enc: Seq<char>, url: Seq<char>)
    requires
        v.version == XOR_URL_VERSION_1,
        v.xorname.len() == XOR_NAME_LEN,
        enc == multibase_encoding(base_code(base), xorurl_bytes(v)),
        multibase_decoding(enc) == Some(xorurl_bytes(v)),
        forall|i: int| 0 <= i < enc.len() ==> #[trigger] encoding_char(base_code(base), enc[i]),
        url == xorurl_text(v, base),
    ensures
        rendered_readable(v, base) ==> url_decoded(url) == Some(v),
        !v.path.contains('?') ==> !url.contains('?'),
{
    reveal_strlit("safe://");
    reveal_strlit("base64");
    reveal_strlit("base32z");
    reveal_strlit("base32");
    assert(url =~= "safe://"@ + enc + v.path);
    if rendered_readable(v, base) {
        assert(base_code(base) != 'm');
        assert(!enc.contains('/')) by {
            if enc.contains('/') {
                let j = choose|j: int| 0 <= j < enc.len() && enc[j] == '/';
                assert(encoding_char(base_code(base), enc[j]));
            }
        }
        assert(roundtrip_premise(v, base));
        lemma_text_parts(v, base, url);
        lemma_xorurl_bytes_roundtrip(v);
    }
    if !v.path.contains('?') {
        assert(!url.contains('?')) by {
            if url.contains('?') {
                let j = choose|j: int| 0 <= j < url.len() && url[j] == '?';
                if j < 7 {
                    assert(url[j] == "safe://"@[j]);
                } else if j < 7 + enc.len() {
                    assert(url[j] == enc[j - 7]);
                    assert(encoding_char(base_code(base), enc[j - 7]));
                } else {
                    assert(url[j] == v.path[j - 7 - enc.len()]);
                }
            }
        }
    }
}

/// What a XOR-URL rendered from some fields in the named base is known to be: a
/// text without `?` that, in a base other than `base64`, reads back as the fields.
pub open spec fn readable_url(url: Seq<char>, v: XorUrlView, base: Seq<char>) -> bool {
    &&& !url.contains('?')
    &&& base != "base64"@ ==> url_decoded(url) == Some(v)
}

/// A URL without `?` asks for no version, and has no query to leave out.
pub proof fn lemma_plain_url(url: Seq<char>)
    requires
        !url.contains('?'),
    ensures
        url_content_version(url) == Ok::<Option<u64>, Seq<char>>(None),
        url_before_query(url) == url,
{
    lemma_first_index_bound(url, '?');
    if first_index_of(url, '?') < url.len() {
        assert(url[first_index_of(url, '?') as int] == '?');
    }
    assert(url.take(url.len() as int) =~= url);
}

/// Whether decoding these host bytes would read past their end (see `bytes_too_short`).
fn bytes_are_too_short(b: &[u8]) -> (res: bool)
    ensures
        res == bytes_too_short(b@),
{
    if b.len() > XOR_URL_STR_MAX_LENGTH {
        return false;
    }
    if b.len() == 0 {
        return true;
    }
    if b[0] as u64 != XOR_URL_VERSION_1 {
        return false;
    }
    if b.len() < 3 {
        return true;
    }
    if SafeContentType::from_code((b[1] as u16) * 256 + (b[2] as u16)).is_none() {
        return false;
    }
    if b.len() < 4 {
        return true;
    }
    if SafeDataType::from_code(b[3]).is_none() {
        return false;
    }
    b.len() < 36
}

/// The text of a URL before its query (all of it when it has no `?`).
pub open spec fn url_before_query(url: Seq<char>) -> Seq<char> {
    url.take(first_index_of(url, '?') as int)
}

/// The parameters of a URL's query: the pieces, split on `&`, of what follows the
/// first `?`; none when there is no `?`.
pub open spec fn url_query_params(url: Seq<char>) -> Seq<Seq<char>> {
    let i = first_index_of(url, '?');
    if i < url.len() {
        split_on(url.skip(i + 1 as int), '&')
    } else {
        Seq::empty()
    }
}

/// The name of a query parameter: its text up to the first `=`.
pub open spec fn param_key(p: Seq<char>) -> Seq<char> {
    p.take(first_index_of(p, '=') as int)
}

/// The value of a query parameter: its text after the first `=` (empty without one).
pub open spec fn param_value(p: Seq<char>) -> Seq<char> {
    let i = first_index_of(p, '=');
    if i < p.len() {
        p.skip(i + 1 as int)
    } else {
        Seq::empty()
    }
}

/// The content version that query parameters ask for: the value of the last `v`
/// parameter read as a `u64`, or none; a `v` value that is not a number is refused
/// (the first one met, given back as the error).
pub open spec fn query_version(params: Seq<Seq<char>>) -> core::result::Result<Option<u64>, Seq<char>>
    decreases params.len(),
{
    if params.len() == 0 {
        Ok(None)
    } else {
        match query_version(params.drop_last()) {
            Err(m) => Err(m),
            Ok(prev) => {
                let p = params.last();
                if param_key(p) == "v"@ {
                    match parse_u64_outcome(param_value(p)) {
                        Ok(n) => Ok(Some(n as u64)),
                        Err(_) => Err(param_value(p)),
                    }
                } else {
                    Ok(prev)
                }
            },
        }
    }
}

/// The content version that a URL asks for with a `v` query parameter.
pub open spec fn url_content_version(url: Seq<char>) -> core::result::Result<Option<u64>, Seq<char>> {
    query_version(url_query_params(url))
}

/// The message of the error for a `v` parameter that is not a version number.
pub open spec fn invalid_version_message(value: Seq<char>) -> Seq<char> {
    "The version in the URL is not a valid version number: "@ + value
}

/// The index of the first occurrence of a character in some characters, or their
/// length.
fn index_of_char(v: &Vec<char>, c: char) -> (res: usize)
    ensures
        res == first_index_of(v@, c),
{
    let mut i: usize = 0;
    while i < v.len() && v[i] != c
        invariant
            i <= v@.len(),
            forall|j: int| 0 <= j < i ==> v@[j] != c,
        decreases v@.len() - i,
    {
        i = i + 1;
    }
    proof {
        lemma_first_index_bound(v@, c);
        let k = first_index_of(v@, c);
        if (i as nat) < k {
            assert(v@[i as int] != c);
        } else if (i as nat) > k {
            assert(v@[k as int] == c);
        }
    }
    i
}

/// Splits a URL into the text before its query and the content version that its
/// `v` query parameter asks for, if any.
pub fn split_url_version(url: &str) -> (res: Result<(String, Option<u64>)>)
    ensures
        match url_content_version(url@) {
            Ok(ver) => res matches Ok((b, rv)) && b@ == url_before_query(url@) && rv == ver,
            Err(value) => res matches Err(Error::InvalidInput(m)) && m@ == invalid_version_message(value),
        },
{
    let chars = str_to_chars(url);
    let i = index_of_char(&chars, '?');
    proof {
        lemma_first_index_bound(url@, '?');
    }
    let before = chars_to_string(sub_chars(&chars, 0, i).as_slice());
    assert(before@ =~= url_before_query(url@));
    if i == chars.len() {
        assert(url_query_params(url@) =~= Seq::<Seq<char>>::empty());
        return Ok((before, None));
    }
    let query = chars_to_string(sub_chars(&chars, i + 1, chars.len()).as_slice());
    assert(query@ =~= url@.skip(i + 1 as int));
    let pieces = split_chars(query.as_str(), '&');
    let ghost params = views(pieces@);
    assert(params == url_query_params(url@));
    let mut version: Option<u64> = None;
    let mut j: usize = 0;
    assert(params.take(0) =~= Seq::<Seq<char>>::empty());
    while j < pieces.len()
        invariant
            j <= pieces@.len(),
            params == views(pieces@),
            params == url_query_params(url@),
            before@ == url_before_query(url@),
            params.len() == pieces@.len(),
            query_version(params.take(j as int)) == Ok::<Option<u64>, Seq<char>>(version),
        decreases pieces@.len() - j,
    {
        let piece = str_to_chars(pieces[j].as_str());
        let ghost p = params[j as int];
        assert(piece@ == p);
        let k = index_of_char(&piece, '=');
        proof {
            lemma_first_index_bound(p, '=');
        }
        let key = chars_to_string(sub_chars(&piece, 0, k).as_slice());
        assert(key@ =~= param_key(p));
        let value = if k < piece.len() {
            chars_to_string(sub_chars(&piece, k + 1, piece.len()).as_slice())
        } else {
            String::new()
        };
        assert(value@ =~= param_value(p));
        let ghost t = params.take(j + 1);
        assert(t.drop_last() =~= params.take(j as int));
        assert(t.last() == p);
        if str_equals(key.as_str(), "v") {
            proof {
                reveal_strlit("v");
            }
            match parse_u64(value.as_str()) {
                Ok(n) => {
                    version = Some(n);
                },
                Err(_) => {
                    let mut m = owned("The version in the URL is not a valid version number: ");
                    push_str(&mut m, value.as_str());
                    proof {
                        assert(query_version(t) == Err::<Option<u64>, Seq<char>>(value@));
                        lemma_query_version_keeps_error(params, (j + 1) as nat);
                        assert(params.take(params.len() as int) =~= params);
                    }
                    return Err(Error::InvalidInput(m));
                },
            }
        } else {
            proof {
                reveal_strlit("v");
            }
        }
        j = j + 1;
    }
    assert(params.take(params.len() as int) =~= params);
    Ok((before, version))
}

proof fn lemma_query_version_keeps_error(params: Seq<Seq<char>>, n: nat)
    requires
        n <= params.len(),
        query_version(params.take(n as int)) is Err,
    ensures
        query_version(params) == query_version(params.take(n as int)),
    decreases params.len() - n,
{
    if n < params.len() {
        let t = params.take(n + 1 as int);
        assert(t.drop_last() =~= params.take(n as int));
        lemma_query_version_keeps_error(params, n + 1);
    } else {
        assert(params.take(n as int) =~= params);
    }
}

/// A URL without `?`, followed by `?v=` and the decimal text of a version, asks for
/// that version, and leaves the URL itself before its query.
pub proof fn lemma_version_url(url: Seq<char>, n: u64)
    requires
        !url.contains('?'),
    ensures
        url_content_version(url + "?v="@ + decimal(n as nat)) == Ok::<Option<u64>, Seq<char>>(Some(n)),
        url_before_query(url + "?v="@ + decimal(n as nat)) == url,
{
    reveal_strlit("?v=");
    reveal_strlit("v=");
    let d = decimal(n as nat);
    let full = url + "?v="@ + d;
    let q = "?v="@ + d;
    assert(full =~= url + q);
    lemma_first_index_of_concat(url, q, '?');
    reveal_with_fuel(first_index_of, 3);
    assert(q[0] == '?');
    assert(first_index_of(q, '?') == 0);
    assert(first_index_of(full, '?') == url.len());
    assert(full.take(url.len() as int) =~= url);
    let p = full.skip(url.len() + 1 as int);
    assert(p =~= "v="@ + d);
    crate::coins::lemma_parse_decimal(n);
    lemma_decimal_chars(n as nat);
    assert(!p.contains('&')) by {
        if p.contains('&') {
            let j = choose|j: int| 0 <= j < p.len() && p[j] == '&';
            if j >= 2 {
                assert(p[j] == d[j - 2]);
            }
        }
    }
    lemma_first_index_bound(p, '&');
    if first_index_of(p, '&') < p.len() {
        assert(p[first_index_of(p, '&') as int] == '&');
    }
    assert(split_on(p, '&') == seq![p]);
    assert(url_query_params(full) == seq![p]);
    assert(p[0] == 'v' && p[1] == '=');
    assert(first_index_of(p, '=') == 1) by {
        assert(p.drop_first()[0] == '=');
    }
    assert(param_key(p) =~= "v"@) by {
        reveal_strlit("v");
    }
    assert(param_value(p) =~= d);
    assert(seq![p].drop_last() =~= Seq::<Seq<char>>::empty());
    assert(seq![p].last() == p);
    assert(query_version(Seq::<Seq<char>>::empty()) == Ok::<Option<u64>, Seq<char>>(None));
    assert(parse_u64_outcome(param_value(p)) == Ok::<nat, crate::helpers::ParseIntErrorKind>(n as nat));
    assert(query_version(seq![p]) == Ok::<Option<u64>, Seq<char>>(Some(n)));
}

/// The decimal text of a number holds only digits.
proof fn lemma_decimal_chars(n: nat)
    ensures
        forall|i: int| 0 <= i < decimal(n).len() ==> '0' <= #[trigger] decimal(n)[i] <= '9',
    decreases n,
{
    if n >= 10 {
        lemma_decimal_chars(n / 10);
        let d = decimal(n);
        assert forall|i: int| 0 <= i < d.len() implies '0' <= #[trigger] d[i] <= '9' by {
            if i < d.len() - 1 {
                assert(d[i] == decimal(n / 10)[i]);
            }
        }
    }
}

} // verus!
