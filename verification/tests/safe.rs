use safe_api::error::Error;
use safe_api::fake_scl::parse_hex;
use safe_api::helpers::vec_to_hex;
use safe_api::safe::{BlsKeyPair, Safe};
use threshold_crypto::SecretKey;
use safe_api::xorurl::{SafeContentType, SafeDataType, XorUrlEncoder};

#[test]
fn put_and_get_immutable_data() {
    let mut safe = Safe::new("base32z");
    safe.connect("", Some("fake-credentials")).unwrap();
    let xorurl = safe.files_put_published_immutable(b"HELLLOOOOOOO").unwrap();
    assert!(xorurl.starts_with("safe://"));
    let data = safe.files_get_published_immutable(&xorurl).unwrap();
    assert_eq!(data, b"HELLLOOOOOOO".to_vec());
}

#[test]
fn sequences() {
    let mut safe = Safe::new("base32z");
    let url = safe.sequence_create(None).unwrap();
    match safe.sequence_get(&url) {
        Err(Error::EmptyContent(m)) => assert_eq!(m, format!("Sequence found at \"{}\" was empty", url)),
        other => panic!("unexpected: {:?}", other),
    }
    let url = safe.sequence_create(Some(b"First in the sequence")).unwrap();
    assert_eq!(safe.sequence_get(&url).unwrap(), (0, b"First in the sequence".to_vec()));
    let v = safe.sequence_append(&url, b"Second in the sequence").unwrap();
    assert_eq!(v, 1);
    assert_eq!(safe.sequence_get(&url).unwrap(), (1, b"Second in the sequence".to_vec()));
    let other = XorUrlEncoder::encode(
        safe_api::xorurl::XorName([5u8; 32]),
        1200,
        SafeDataType::PublishedSeqAppendOnlyData,
        SafeContentType::Raw,
        None,
        "base32z",
    )
    .unwrap();
    match safe.sequence_get(&other) {
        Err(Error::ContentNotFound(m)) => assert_eq!(m, "No Sequence found at this address"),
        r => panic!("unexpected: {:?}", r),
    }
}

fn new_safe_instance() -> Safe {
    let mut safe = Safe::new("base32z");
    safe.connect("", Some("fake-credentials")).unwrap();
    safe
}

fn unwrap_key_pair(kp: Option<BlsKeyPair>) -> BlsKeyPair {
    kp.expect("a key pair was expected")
}

#[test]
fn test_keys_create_preload_test_coins() {
    let mut safe = new_safe_instance();
    let (xorurl, key_pair) = safe.keys_create_preload_test_coins("12.23").unwrap();
    assert!(xorurl.starts_with("safe://"));
    assert!(key_pair.is_some());
}

#[test]
fn test_keys_create() {
    let mut safe = new_safe_instance();
    let (_, from_key_pair) = safe.keys_create_preload_test_coins("23.23").unwrap();
    let (xorurl, key_pair) = safe
        .keys_create(Some(&unwrap_key_pair(from_key_pair).sk), None, None)
        .unwrap();
    assert!(xorurl.starts_with("safe://"));
    assert!(key_pair.is_some());
}

#[test]
fn test_keys_create_preload() {
    let mut safe = new_safe_instance();
    let (_, from_key_pair) = safe.keys_create_preload_test_coins("543.2312").unwrap();
    let preload_amount = "1.800000000";
    let (xorurl, key_pair) = safe
        .keys_create(Some(&unwrap_key_pair(from_key_pair).sk), Some(preload_amount), None)
        .unwrap();
    assert!(xorurl.starts_with("safe://"));
    let kp = unwrap_key_pair(key_pair);
    let balance = safe.keys_balance_from_sk(&kp.sk).unwrap();
    assert_eq!(balance, preload_amount);
}

#[test]
fn test_keys_create_preload_invalid_amounts() {
    let mut safe = new_safe_instance();
    match safe.keys_create_preload_test_coins(".45") {
        Err(err) => assert_eq!(
            err,
            Error::InvalidAmount("Invalid safecoins amount '.45' (Can't parse coin units)".to_string())
        ),
        Ok(_) => panic!("Key with test-coins was created unexpectedly"),
    };

    let (_, kp) = safe.keys_create_preload_test_coins("12").unwrap();
    let mut key_pair = unwrap_key_pair(kp.clone());
    match safe.keys_create(Some(&key_pair.sk), Some(".003"), None) {
        Err(err) => assert_eq!(
            err,
            Error::InvalidAmount("Invalid safecoins amount '.003' (Can't parse coin units)".to_string())
        ),
        Ok(_) => panic!("Key was created unexpectedly"),
    };

    // test it fails with corrupted secret key
    key_pair.sk.replace_range(..6, "ababab");
    match safe.keys_create(Some(&key_pair.sk), Some(".003"), None) {
        Err(err) => assert_eq!(
            err,
            Error::InvalidAmount("Invalid safecoins amount '.003' (Can't parse coin units)".to_string())
        ),
        Ok(_) => panic!("Key was created unexpectedly"),
    };

    // test it fails to preload with more than available balance in source (which has only 12 coins)
    match safe.keys_create(Some(&unwrap_key_pair(kp).sk), Some("12.000000001"), None) {
        Err(err) => assert_eq!(
            err,
            Error::NotEnoughBalance("Not enough balance at 'source' for the operation".to_string())
        ),
        Ok(_) => panic!("Key was created unexpectedly"),
    }
}

#[test]
fn test_keys_create_pk() {
    let mut safe = new_safe_instance();
    let (_, from_key_pair) = safe.keys_create_preload_test_coins("1.1").unwrap();
    let pk = vec_to_hex(SecretKey::random().public_key().to_bytes().to_vec());
    let (xorurl, key_pair) = safe
        .keys_create(Some(&unwrap_key_pair(from_key_pair).sk), None, Some(&pk))
        .unwrap();
    assert!(xorurl.starts_with("safe://"));
    assert!(key_pair.is_none());
}

#[test]
fn test_keys_test_coins_balance_pk() {
    let mut safe = new_safe_instance();
    let preload_amount = "1.154200000";
    let (_, key_pair) = safe.keys_create_preload_test_coins(preload_amount).unwrap();
    let current_balance = safe.keys_balance_from_sk(&unwrap_key_pair(key_pair).sk).unwrap();
    assert_eq!(preload_amount, current_balance);
}

#[test]
fn test_keys_test_coins_balance_xorurl() {
    let mut safe = new_safe_instance();
    let preload_amount = "0.243000000";
    let (xorurl, key_pair) = safe.keys_create_preload_test_coins(preload_amount).unwrap();
    let current_balance = safe
        .keys_balance_from_url(&xorurl, &unwrap_key_pair(key_pair).sk)
        .unwrap();
    assert_eq!(preload_amount, current_balance);
}

#[test]
fn test_keys_test_coins_balance_wrong_location() {
    let mut safe = new_safe_instance();
    let amount = "35312.000000000";
    let (xorurl, kp) = safe.keys_create_preload_test_coins(amount).unwrap();
    let key_pair = unwrap_key_pair(kp);
    let current_balance = safe.keys_balance_from_url(&xorurl, &key_pair.sk).unwrap();
    assert_eq!(amount, current_balance);

    // let's use the XOR-URL of another SafeKey
    let (other_kp_xorurl, _) = safe.keys_create_preload_test_coins("0").unwrap();
    match safe.keys_balance_from_url(&other_kp_xorurl, &key_pair.sk) {
        Err(Error::InvalidInput(msg)) => assert!(msg.contains(
            "The URL doesn't correspond to the public key derived from the provided secret key"
        )),
        other => panic!("Error returned is not the expected: {:?}", other),
    }
}

#[test]
fn test_keys_test_coins_balance_wrong_sk() {
    let mut safe = new_safe_instance();
    let (_xorurl, kp) = safe.keys_create_preload_test_coins("0").unwrap();
    let mut sk = unwrap_key_pair(kp).sk;
    sk.replace_range(..6, "ababab");
    match safe.keys_balance_from_sk(&sk) {
        Err(Error::ContentNotFound(msg)) => assert!(msg.contains("No SafeKey found at specified location")),
        other => panic!("Error returned is not the expected: {:?}", other),
    }
}

#[test]
fn test_keys_balance_pk() {
    let mut safe = new_safe_instance();
    let preload_amount = "1743.234";
    let (_, from_kp) = safe.keys_create_preload_test_coins(preload_amount).unwrap();
    let from_key_pair = unwrap_key_pair(from_kp);
    let amount = "1740.000000000";
    let (_, to_key_pair) = safe.keys_create(Some(&from_key_pair.sk), Some(amount), None).unwrap();
    let from_current_balance = safe.keys_balance_from_sk(&from_key_pair.sk).unwrap();
    assert_eq!("3.233999999", from_current_balance);
    let to_current_balance = safe.keys_balance_from_sk(&unwrap_key_pair(to_key_pair).sk).unwrap();
    assert_eq!(amount, to_current_balance);
}

#[test]
fn test_keys_balance_xorname() {
    let mut safe = new_safe_instance();
    let preload_amount = "435.34";
    let (from_xorname, from_kp) = safe.keys_create_preload_test_coins(preload_amount).unwrap();
    let from_key_pair = unwrap_key_pair(from_kp);
    let amount = "35.300000000";
    let (to_xorname, to_key_pair) = safe.keys_create(Some(&from_key_pair.sk), Some(amount), None).unwrap();
    let from_current_balance = safe.keys_balance_from_url(&from_xorname, &from_key_pair.sk).unwrap();
    assert_eq!("400.039999999", from_current_balance);
    let to_current_balance = safe
        .keys_balance_from_url(&to_xorname, &unwrap_key_pair(to_key_pair).sk)
        .unwrap();
    assert_eq!(amount, to_current_balance);
}

#[test]
fn test_validate_sk_for_url() {
    let mut safe = new_safe_instance();
    let (xorurl, kp) = safe.keys_create_preload_test_coins("23.22").unwrap();
    let key_pair = unwrap_key_pair(kp);
    let pk = safe.validate_sk_for_url(&key_pair.sk, &xorurl).unwrap();
    assert_eq!(pk, key_pair.pk);
}

#[test]
fn test_keys_transfer_from_zero_balance() {
    let mut safe = new_safe_instance();
    let (_from_safekey_xorurl, key_pair1) = safe.keys_create_preload_test_coins("0.0").unwrap();
    let (to_safekey_xorurl, _key_pair2) = safe.keys_create_preload_test_coins("0.5").unwrap();
    match safe.keys_transfer("0", Some(&unwrap_key_pair(key_pair1).sk), &to_safekey_xorurl, None) {
        Err(Error::InvalidAmount(msg)) => {
            assert_eq!(msg, "The amount '0' specified for the transfer is invalid".to_string())
        }
        other => panic!("Error returned is not the expected: {:?}", other),
    }
}

#[test]
fn test_keys_transfer_diff_amounts() {
    let mut safe = new_safe_instance();
    let (safekey1_xorurl, kp1) = safe.keys_create_preload_test_coins("0.5").unwrap();
    let (safekey2_xorurl, kp2) = safe.keys_create_preload_test_coins("100.5").unwrap();

    let key_pair1 = unwrap_key_pair(kp1);
    match safe.keys_transfer("100.6", Some(&key_pair1.sk), &safekey2_xorurl, None) {
        Err(Error::NotEnoughBalance(msg)) => assert_eq!(
            msg,
            "Not enough balance for the transfer at provided source SafeKey".to_string()
        ),
        other => panic!("Error returned is not the expected: {:?}", other),
    };

    match safe.keys_transfer(".06", Some(&key_pair1.sk), &safekey2_xorurl, None) {
        Err(Error::InvalidAmount(msg)) => {
            assert_eq!(msg, "Invalid safecoins amount '.06' (Can't parse coin units)")
        }
        other => panic!("Error returned is not the expected: {:?}", other),
    };

    let key_pair2 = unwrap_key_pair(kp2);
    match safe.keys_transfer("0.0000000009", Some(&key_pair2.sk), &safekey2_xorurl, None) {
        Err(Error::InvalidAmount(msg)) => assert_eq!(
            msg,
            "Invalid safecoins amount '0.0000000009', the minimum possible amount is one nano coin (0.000000001)"
        ),
        other => panic!("Error returned is not the expected: {:?}", other),
    };

    match safe.keys_transfer("100.4", Some(&key_pair2.sk), &safekey1_xorurl, None) {
        Err(msg) => panic!("Transfer was expected to succeed: {:?}", msg),
        Ok(_) => {
            let from_current_balance = safe.keys_balance_from_sk(&key_pair2.sk).unwrap();
            assert_eq!("0.100000000", from_current_balance);
            let to_current_balance = safe.keys_balance_from_sk(&key_pair1.sk).unwrap();
            assert_eq!("100.900000000", to_current_balance);
        }
    }
}

#[test]
fn keys_transfer_doc_example() {
    let mut safe = new_safe_instance();
    let (key1_xorurl, key_pair1) = safe.keys_create_preload_test_coins("14").unwrap();
    let (key2_xorurl, key_pair2) = safe.keys_create_preload_test_coins("1").unwrap();
    let current_balance = safe.keys_balance_from_sk(&key_pair1.clone().unwrap().sk).unwrap();
    assert_eq!("14.000000000", current_balance);
    let tx = safe
        .keys_transfer("10", Some(&key_pair1.clone().unwrap().sk), &key2_xorurl, Some(77))
        .unwrap();
    assert_eq!(tx, 77);
    let from_balance = safe.keys_balance_from_url(&key1_xorurl, &key_pair1.unwrap().sk).unwrap();
    assert_eq!("4.000000000", from_balance);
    let to_balance = safe.keys_balance_from_url(&key2_xorurl, &key_pair2.unwrap().sk).unwrap();
    assert_eq!("11.000000000", to_balance);
}

#[test]
fn keypair_keys_match() {
    let safe = new_safe_instance();
    let kp = safe.keypair().unwrap();
    assert_eq!(kp.pk.len(), 96);
    let sk_bytes = parse_hex(&kp.sk);
    let sk: SecretKey = bincode::deserialize(&sk_bytes).unwrap();
    assert_eq!(vec_to_hex(sk.public_key().to_bytes().to_vec()), kp.pk);
}

#[test]
fn keys_errors() {
    let mut safe = new_safe_instance();
    match safe.keys_balance_from_sk("zz") {
        Err(Error::InvalidInput(m)) => assert_eq!(m, "Failed to deserialize provided secret key"),
        r => panic!("unexpected: {:?}", r),
    }
    match safe.keys_create(Some("12"), None, None) {
        Err(Error::InvalidInput(m)) => assert_eq!(
            m,
            "The source of funds needs to be a secret key. The secret key provided is invalid"
        ),
        r => panic!("unexpected: {:?}", r),
    }
    match safe.keys_create(None, Some("1"), Some("abcd")) {
        Err(Error::InvalidInput(m)) => assert_eq!(m, "Invalid public key bytes"),
        r => panic!("unexpected: {:?}", r),
    }
    let (url, kp) = safe.keys_create_preload_test_coins("1").unwrap();
    match safe.validate_sk_for_url("00", &url) {
        Err(Error::InvalidInput(m)) => assert_eq!(m, "Invalid secret key provided"),
        r => panic!("unexpected: {:?}", r),
    }
    // A key pair with no balance pays for nothing.
    let other = safe.keypair().unwrap();
    match safe.keys_create(Some(&other.sk), Some("0.5"), None) {
        Err(Error::Unexpected(m)) => assert_eq!(
            m,
            "Unexpected error when attempting to create Key: [Error] ContentNotFound - SafeKey data not found"
        ),
        r => panic!("unexpected: {:?}", r),
    }
    match safe.keys_balance_from_sk(&other.sk) {
        Err(Error::ContentNotFound(m)) => assert_eq!(m, "No SafeKey found at specified location"),
        r => panic!("unexpected: {:?}", r),
    }
    // Creation without a paying key costs nothing.
    let (_, new_kp) = safe.keys_create(None, Some("2.5"), None).unwrap();
    assert_eq!(safe.keys_balance_from_sk(&new_kp.unwrap().sk).unwrap(), "2.500000000");
    assert_eq!(safe.keys_balance_from_sk(&kp.unwrap().sk).unwrap(), "1.000000000");
}

#[test]
fn keys_create_in_base32() {
    let mut safe = Safe::new("base32");
    let (url, _) = safe.keys_create_preload_test_coins("2.3").unwrap();
    assert!(url.starts_with("safe://b"));
}

#[test]
fn transfer_destinations() {
    let mut safe = Safe::new("base32z");
    let files_url = XorUrlEncoder::encode(
        safe_api::xorurl::XorName([5u8; 32]),
        10100,
        SafeDataType::PublishedSeqAppendOnlyData,
        SafeContentType::FilesContainer,
        None,
        "base32z",
    )
    .unwrap();
    match safe.keys_transfer("0.000000001", None, &files_url, Some(1)) {
        Err(Error::InvalidInput(m)) => assert_eq!(
            m,
            "The destination URL doesn't target a SafeKey or Wallet, target is: FilesContainer (PublishedSeqAppendOnlyData)"
        ),
        r => panic!("unexpected: {:?}", r),
    }
}

#[test]
fn test_put_and_get_immutable_data() {
    let mut safe = Safe::new("base32z");
    safe.connect("", Some("fake-credentials")).unwrap();
    let id1 = b"HELLLOOOOOOO".to_vec();
    let xorname = safe.safe_app.files_put_published_immutable(&id1, false).unwrap();
    let data = safe.safe_app.files_get_published_immutable(xorname, None).unwrap();
    let text = std::str::from_utf8(data.as_slice()).unwrap();
    assert_eq!(text.to_string(), "HELLLOOOOOOO");
}

#[test]
fn sequence_errors_on_invalid_urls() {
    let mut safe = new_safe_instance();
    match safe.sequence_get("safe://invalid") {
        Err(Error::InvalidXorUrl(_)) => {}
        r => panic!("unexpected: {:?}", r),
    }
    match safe.sequence_append("https://somewhere", b"x") {
        Err(Error::InvalidXorUrl(m)) => assert_eq!(m, "Problem parsing the SAFE:// URL: https://somewhere"),
        r => panic!("unexpected: {:?}", r),
    }
}

#[test]
fn keys_create_with_invalid_pk_bytes() {
    let mut safe = new_safe_instance();
    let bad_pk = "ff".repeat(48);
    match safe.keys_create(None, Some("1"), Some(&bad_pk)) {
        Err(Error::InvalidInput(m)) => assert_eq!(m, "Invalid public key bytes"),
        r => panic!("unexpected: {:?}", r),
    }
    let good_pk = vec_to_hex(SecretKey::random().public_key().to_bytes().to_vec());
    let (url, kp) = safe.keys_create(None, Some("1"), Some(&good_pk)).unwrap();
    assert!(kp.is_none());
    assert!(url.starts_with("safe://"));
}

#[test]
fn test_sequence_create_empty() {
    let mut safe = new_safe_instance();
    let xorurl = safe.sequence_create(None).unwrap();
    match safe.sequence_get(&xorurl) {
        Ok(_) => panic!("Unexpectedly fetched Sequence"),
        Err(Error::EmptyContent(msg)) => {
            assert_eq!(msg, format!("Sequence found at \"{}\" was empty", xorurl))
        }
        other => panic!("Error returned is not the expected one: {:?}", other),
    }
}

#[test]
fn test_sequence_append() {
    let mut safe = new_safe_instance();
    let data1 = b"First in the sequence";
    let xorurl = safe.sequence_create(Some(data1)).unwrap();
    let data2 = b"Second in the sequence";
    let new_version = safe.sequence_append(&xorurl, data2).unwrap();
    let received_data = safe.sequence_get(&format!("{}?v=1", xorurl)).unwrap();
    assert_eq!(received_data, (new_version, data2.to_vec()));
    assert_eq!(safe.sequence_get(&xorurl).unwrap(), (new_version, data2.to_vec()));
    assert_eq!(safe.sequence_get(&format!("{}?v=0", xorurl)).unwrap(), (0, data1.to_vec()));
}

#[test]
fn sequence_version_errors() {
    let mut safe = new_safe_instance();
    let xorurl = safe.sequence_create(Some(b"only")).unwrap();
    let url = format!("{}?v=5", xorurl);
    match safe.sequence_get(&url) {
        Err(Error::VersionNotFound(m)) => {
            assert_eq!(m, format!("Version '5' is invalid for the Sequence found at \"{}\"", url))
        }
        r => panic!("unexpected: {:?}", r),
    }
    match safe.sequence_get(&format!("{}?v=x", xorurl)) {
        Err(Error::InvalidInput(m)) => assert_eq!(m, "The version in the URL is not a valid version number: x"),
        r => panic!("unexpected: {:?}", r),
    }
    match safe.sequence_append(&format!("{}?v=0", xorurl), b"more") {
        Err(Error::InvalidInput(m)) => assert_eq!(
            m,
            format!("The target URL cannot cannot contain a version: {}?v=0", xorurl)
        ),
        r => panic!("unexpected: {:?}", r),
    }
    // Other query parameters are left alone.
    assert_eq!(safe.sequence_get(&format!("{}?a=b", xorurl)).unwrap(), (0, b"only".to_vec()));
}
