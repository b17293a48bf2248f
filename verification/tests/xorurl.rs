use safe_api::error::Error;
use safe_api::xorurl::{SafeContentType, SafeDataType, XorName, XorUrlEncoder, XOR_URL_VERSION_1};

#[test]
fn test_xorurl_base32_encoding() {
    let xorname = XorName(*b"12345678901234567890123456789012");
    let xorurl = XorUrlEncoder::encode(
        xorname,
        0xa632_3c4d_4a32,
        SafeDataType::PublishedImmutableData,
        SafeContentType::Raw,
        None,
        "base32",
    )
    .unwrap();
    let base32_xorurl =
        "safe://biaaaatcmrtgq2tmnzyheydcmrtgq2tmnzyheydcmrtgq2tmnzyheydcmvggi6e2srs";
    assert_eq!(xorurl, base32_xorurl);
}

#[test]
fn test_xorurl_base32z_encoding() {
    let xorname = XorName(*b"12345678901234567890123456789012");
    let xorurl = XorUrlEncoder::encode(
        xorname,
        0,
        SafeDataType::PublishedImmutableData,
        SafeContentType::Raw,
        None,
        "base32z",
    )
    .unwrap();
    let base32z_xorurl = "safe://hbyyyyncj1gc4dkptz8yhuycj1gc4dkptz8yhuycj1gc4dkptz8yhuycj1";
    assert_eq!(xorurl, base32z_xorurl);
}

#[test]
fn test_xorurl_base64_encoding() {
    let xorname = XorName(*b"12345678901234567890123456789012");
    let xorurl = XorUrlEncoder::encode(
        xorname,
        4_584_545,
        SafeDataType::PublishedSeqAppendOnlyData,
        SafeContentType::FilesContainer,
        None,
        "base64",
    )
    .unwrap();
    let base64_xorurl = "safe://mQACBTEyMzQ1Njc4OTAxMjM0NTY3ODkwMTIzNDU2Nzg5MDEyRfRh";
    assert_eq!(xorurl, base64_xorurl);
    let xorurl_encoder = XorUrlEncoder::from_url(&base64_xorurl).unwrap();
    assert_eq!(base64_xorurl, xorurl_encoder.to_string("base64").unwrap());
    assert_eq!("", xorurl_encoder.path());
    assert_eq!(XOR_URL_VERSION_1, xorurl_encoder.version());
    assert_eq!(xorname, xorurl_encoder.xorname());
    assert_eq!(4_584_545, xorurl_encoder.type_tag());
    assert_eq!(
        SafeDataType::PublishedSeqAppendOnlyData,
        xorurl_encoder.data_type()
    );
    assert_eq!(
        SafeContentType::FilesContainer,
        xorurl_encoder.content_type()
    );
}

#[test]
fn test_xorurl_default_base_encoding() {
    let xorname = XorName(*b"12345678901234567890123456789012");
    let base32z_xorurl = "safe://hbyyyyncj1gc4dkptz8yhuycj1gc4dkptz8yhuycj1gc4dkptz8yhuycj1";
    let xorurl = XorUrlEncoder::encode(
        xorname,
        0,
        SafeDataType::PublishedImmutableData,
        SafeContentType::Raw,
        None,
        "",
    )
    .unwrap();
    assert_eq!(xorurl, base32z_xorurl);
}

#[test]
fn test_xorurl_decoding() {
    let xorname = XorName(*b"12345678901234567890123456789012");
    let type_tag: u64 = 0x0eef;
    let xorurl_encoder = XorUrlEncoder::new(
        xorname,
        type_tag,
        SafeDataType::PublishedImmutableData,
        SafeContentType::Raw,
        None,
    );
    assert_eq!("", xorurl_encoder.path());
    assert_eq!(XOR_URL_VERSION_1, xorurl_encoder.version());
    assert_eq!(xorname, xorurl_encoder.xorname());
    assert_eq!(type_tag, xorurl_encoder.type_tag());
    assert_eq!(
        SafeDataType::PublishedImmutableData,
        xorurl_encoder.data_type()
    );
    assert_eq!(SafeContentType::Raw, xorurl_encoder.content_type());
}

#[test]
fn test_xorurl_decoding_with_path() {
    let xorname = XorName(*b"12345678901234567890123456789012");
    let type_tag: u64 = 0x0eef;
    let xorurl = XorUrlEncoder::encode(
        xorname,
        type_tag,
        SafeDataType::PublishedSeqAppendOnlyData,
        SafeContentType::Wallet,
        None,
        "base32z",
    )
    .unwrap();

    let xorurl_with_path = format!("{}/subfolder/file", xorurl);
    let xorurl_encoder_with_path = XorUrlEncoder::from_url(&xorurl_with_path).unwrap();
    assert_eq!(
        xorurl_with_path,
        xorurl_encoder_with_path.to_string("base32z").unwrap()
    );
    assert_eq!("/subfolder/file", xorurl_encoder_with_path.path());
    assert_eq!(XOR_URL_VERSION_1, xorurl_encoder_with_path.version());
    assert_eq!(xorname, xorurl_encoder_with_path.xorname());
    assert_eq!(type_tag, xorurl_encoder_with_path.type_tag());
    assert_eq!(
        SafeDataType::PublishedSeqAppendOnlyData,
        xorurl_encoder_with_path.data_type()
    );
    assert_eq!(
        SafeContentType::Wallet,
        xorurl_encoder_with_path.content_type()
    );
}

#[test]
fn xorurl_roundtrip_every_base_and_type() {
    let xorname = XorName([7u8; 32]);
    for base in ["base32z", "base32", "base64", "unknown"] {
        for tag in [0u64, 1, 255, 256, 0xffff, u64::MAX] {
            let url = XorUrlEncoder::encode(
                xorname,
                tag,
                SafeDataType::UnpublishedUnseqAppendOnlyData,
                SafeContentType::NrsMapContainer,
                Some("/a/b.txt"),
                base,
            )
            .unwrap();
            // a base64 host may hold '/', which then reads as the start of the path
            let host = &url["safe://".len()..url.len() - "/a/b.txt".len()];
            if host.contains('/') {
                continue;
            }
            let decoded = XorUrlEncoder::from_url(&url).unwrap();
            assert_eq!(decoded.type_tag(), tag);
            assert_eq!(decoded.xorname(), xorname);
            assert_eq!(decoded.path(), "/a/b.txt");
            assert_eq!(decoded.data_type(), SafeDataType::UnpublishedUnseqAppendOnlyData);
            assert_eq!(decoded.content_type(), SafeContentType::NrsMapContainer);
        }
    }
}

#[test]
fn xorurl_encoded_bytes_layout() {
    let xorname = XorName(*b"12345678901234567890123456789012");
    let enc = XorUrlEncoder::new(xorname, 0x0102, SafeDataType::SeqMutableData, SafeContentType::Wallet, None);
    let bytes = enc.encoded_bytes();
    assert_eq!(bytes.len(), 38);
    assert_eq!(&bytes[0..4], &[1, 0, 1, 3]);
    assert_eq!(&bytes[4..36], b"12345678901234567890123456789012");
    assert_eq!(&bytes[36..], &[1, 2]);
}

#[test]
fn xorurl_errors() {
    match XorUrlEncoder::from_url("http://abc") {
        Err(Error::InvalidXorUrl(msg)) => assert_eq!(msg, "Problem parsing the SAFE:// URL: http://abc"),
        other => panic!("unexpected: {:?}", other),
    }
    match XorUrlEncoder::from_url("safe://this-is-not-a-valid-xor-url") {
        Err(Error::InvalidXorUrl(msg)) => assert!(msg.starts_with("Failed to decode XOR-URL: ")),
        other => panic!("unexpected: {:?}", other),
    }
    // version byte 2
    let mut bytes = vec![2u8, 0, 0, 1];
    bytes.extend_from_slice(&[0u8; 32]);
    let url = format!("safe://{}", multibase::encode(multibase::Base::Base32z, &bytes));
    match XorUrlEncoder::from_url(&url) {
        Err(Error::InvalidXorUrl(msg)) => assert_eq!(msg, "Invalid or unsupported XOR-URL encoding version: 2"),
        other => panic!("unexpected: {:?}", other),
    }
    // content type 9
    let mut bytes = vec![1u8, 0, 9, 1];
    bytes.extend_from_slice(&[0u8; 32]);
    let url = format!("safe://{}", multibase::encode(multibase::Base::Base32z, &bytes));
    match XorUrlEncoder::from_url(&url) {
        Err(Error::InvalidXorUrl(msg)) => assert_eq!(msg, "Invalid content type encoded in the XOR-URL string: 9"),
        other => panic!("unexpected: {:?}", other),
    }
    // data type 200
    let mut bytes = vec![1u8, 0, 1, 200];
    bytes.extend_from_slice(&[0u8; 32]);
    let url = format!("safe://{}", multibase::encode(multibase::Base::Base32z, &bytes));
    match XorUrlEncoder::from_url(&url) {
        Err(Error::InvalidXorUrl(msg)) => assert_eq!(msg, "Invalid SAFE data type encoded in the XOR-URL string: 200"),
        other => panic!("unexpected: {:?}", other),
    }
    // too long
    let bytes = vec![1u8; 45];
    let url = format!("safe://{}", multibase::encode(multibase::Base::Base32z, &bytes));
    match XorUrlEncoder::from_url(&url) {
        Err(Error::InvalidXorUrl(msg)) => assert_eq!(msg, "Invalid XOR-URL, encoded string too long: 45 bytes"),
        other => panic!("unexpected: {:?}", other),
    }
    // too short
    let bytes = vec![1u8, 0, 1, 1, 5];
    let url = format!("safe://{}", multibase::encode(multibase::Base::Base32z, &bytes));
    match XorUrlEncoder::from_url(&url) {
        Err(Error::InvalidXorUrl(msg)) => assert_eq!(msg, "Invalid XOR-URL, encoded string too short: 5 bytes"),
        other => panic!("unexpected: {:?}", other),
    }
}

#[test]
fn error_display() {
    let err = Error::Unknown("test error".to_string());
    let s: String = err.into();
    assert_eq!(s, "[Error] Unknown - test error");
}
