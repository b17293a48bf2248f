use safe_api::containers::ERROR_MSG_NO_NRS_MAP_FOUND;
use safe_api::error::Error;
use rand::distributions::Alphanumeric;
use rand::{thread_rng, Rng};
use safe_api::nrs::{
    nrs_map_update_or_create_data, xorname_from_nrs_string, PublicNameEntry, FAKE_RDF_PREDICATE_DEFAULT,
    FAKE_RDF_PREDICATE_LINK,
};
use safe_api::safe::Safe;
use safe_api::xorurl::{SafeContentType, SafeDataType, XorName, XorUrlEncoder};

#[test]
fn files_container_versions() {
    let mut safe = Safe::new("base32z");
    let url = safe.files_container_put("T1", b"{\"/a\":{}}").unwrap();
    let encoder = XorUrlEncoder::from_url(&url).unwrap();
    assert_eq!(encoder.content_type(), SafeContentType::FilesContainer);
    assert_eq!(encoder.data_type(), SafeDataType::PublishedSeqAppendOnlyData);
    assert_eq!(encoder.type_tag(), 10100);
    assert_eq!(
        safe.files_container_latest_data(&url).unwrap(),
        (0, Some(b"{\"/a\":{}}".to_vec()))
    );
    assert_eq!(safe.files_container_append(&url, "T2", b"{}").unwrap(), 1);
    assert_eq!(safe.files_container_latest_data(&url).unwrap(), (1, Some(b"{}".to_vec())));
    let (version, (key, value)) = safe
        .safe_app
        .get_latest_seq_append_only_data(encoder.xorname(), 10100)
        .unwrap();
    assert_eq!(version, 1);
    assert_eq!(key, b"T2".to_vec());
    assert_eq!(value, b"{}".to_vec());
}

#[test]
fn files_container_errors() {
    let mut safe = Safe::new("base32z");
    let missing = XorUrlEncoder::encode(
        XorName([3u8; 32]),
        10100,
        SafeDataType::PublishedSeqAppendOnlyData,
        SafeContentType::FilesContainer,
        None,
        "base32z",
    )
    .unwrap();
    assert_eq!(
        safe.files_container_latest_data(&missing),
        Err("No FilesContainer found at this address".to_string())
    );
    assert_eq!(
        safe.files_container_append(&missing, "T", b"{}"),
        Err("No FilesContainer found at this address".to_string())
    );
    // An empty container reads as version 0 without a map.
    safe.safe_app
        .put_seq_append_only_data(vec![], Some(XorName([4u8; 32])), 10100, None)
        .unwrap();
    let empty = XorUrlEncoder::encode(
        XorName([4u8; 32]),
        10100,
        SafeDataType::PublishedSeqAppendOnlyData,
        SafeContentType::FilesContainer,
        None,
        "base32z",
    )
    .unwrap();
    assert_eq!(safe.files_container_latest_data(&empty), Ok((0, None)));
}

#[test]
fn nrs_map_containers() {
    let mut safe = Safe::new("base32z");
    let xorname = xorname_from_nrs_string("mysite").unwrap();
    let url = safe.nrs_map_container_put(xorname, "NOW", b"{\"entries\":{}}").unwrap();
    let encoder = XorUrlEncoder::from_url(&url).unwrap();
    assert_eq!(encoder.xorname(), xorname);
    assert_eq!(encoder.content_type(), SafeContentType::NrsMapContainer);
    assert_eq!(encoder.type_tag(), 1500);
    assert_eq!(
        safe.nrs_map_container_latest_data(&url).unwrap(),
        (0, Some(b"{\"entries\":{}}".to_vec()))
    );
    let other = XorUrlEncoder::encode(
        xorname_from_nrs_string("othersite").unwrap(),
        1500,
        SafeDataType::PublishedSeqAppendOnlyData,
        SafeContentType::NrsMapContainer,
        None,
        "base32z",
    )
    .unwrap();
    assert_eq!(
        safe.nrs_map_container_latest_data(&other),
        Err(Error::ContentNotFound(ERROR_MSG_NO_NRS_MAP_FOUND.to_string()))
    );
}

#[test]
fn test_nrs_map_container_create() {
    let site_name: String = thread_rng().sample_iter(&Alphanumeric).take(15).map(char::from).collect();

    let mut safe = Safe::new("base32z");
    safe.connect("", Some("fake-credentials")).unwrap();

    let nrs_xorname = xorname_from_nrs_string(&site_name).unwrap();

    // The map is built by the library and stored, in some serialised form, in its container.
    let (xorname, now, _entries, nrs_map) =
        nrs_map_update_or_create_data(&site_name, Some("safe://top_xorurl"), None, true, false).unwrap();
    let xor_url = safe
        .nrs_map_container_put(xorname, &now, format!("{:?}", nrs_map).as_bytes())
        .unwrap();
    assert_eq!(nrs_map.entries.len(), 1);

    let public_name = &nrs_map
        .entries
        .iter()
        .find(|(k, _)| k == FAKE_RDF_PREDICATE_DEFAULT)
        .unwrap()
        .1;

    if let PublicNameEntry::Definition(def_map) = public_name {
        let link = def_map.iter().rev().find(|(k, _)| k == FAKE_RDF_PREDICATE_LINK).map(|(_, v)| v.clone());
        assert_eq!(link.unwrap(), "safe://top_xorurl".to_string());
    } else {
        panic!("No definition map found...")
    }

    assert_eq!(nrs_map.get_default().unwrap(), FAKE_RDF_PREDICATE_DEFAULT);

    let decoder = XorUrlEncoder::from_url(&xor_url).unwrap();
    assert_eq!(nrs_xorname, decoder.xorname())
}
