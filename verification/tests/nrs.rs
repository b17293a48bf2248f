use safe_api::error::Error;
use safe_api::nrs::{
    create_public_name_description, nrs_map_update, nrs_map_update_or_create_data,
    public_name_description, xorname_from_nrs_string, NrsMap, PublicNameEntry,
    FAKE_RDF_PREDICATE_DEFAULT, FAKE_RDF_PREDICATE_LINK,
};
use safe_api::xorurl::XorName;

fn definition_link(entry: &PublicNameEntry) -> Option<String> {
    match entry {
        PublicNameEntry::Definition(fields) => fields
            .iter()
            .rev()
            .find(|(k, _)| k == "link")
            .map(|(_, v)| v.clone()),
        PublicNameEntry::SubName(_) => None,
    }
}

fn entry<'a>(map: &'a NrsMap, key: &str) -> Option<&'a PublicNameEntry> {
    map.entries.iter().rev().find(|(k, _)| k == key).map(|(_, e)| e)
}

#[test]
fn nrs_update_top_level_name_sets_default_link() {
    let (top, processed, map) =
        nrs_map_update("safe://mysite", Some("safe://top_xorurl"), None, true, "2020-01-01T00:00:00Z");
    assert_eq!(top, "mysite");
    assert_eq!(processed.len(), 1);
    assert_eq!(processed[0].0, "safe://mysite");
    assert_eq!(processed[0].1 .0, "+");
    assert_eq!(processed[0].1 .1, "safe://top_xorurl");
    assert_eq!(map.entries.len(), 1);
    let public_name = entry(&map, FAKE_RDF_PREDICATE_DEFAULT).unwrap();
    assert_eq!(definition_link(public_name).unwrap(), "safe://top_xorurl");
    assert_eq!(map.get_default().unwrap(), FAKE_RDF_PREDICATE_DEFAULT);
    assert_eq!(map.get_default_link().unwrap(), "safe://top_xorurl");
}

#[test]
fn nrs_update_without_default_keeps_default_name() {
    let (_, _, map) = nrs_map_update("mysite", Some("somewhere"), None, false, "t");
    assert_eq!(map.get_default().unwrap(), "");
    match map.get_default_link() {
        Err(Error::ContentError(msg)) => assert_eq!(msg, "No default found for resolvable map."),
        other => panic!("unexpected: {:?}", other),
    }
}

#[test]
fn nrs_update_with_subnames_resolves() {
    let (top, _, map) = nrs_map_update("sub.mysite", Some("dest1"), None, true, "t");
    assert_eq!(top, "mysite");
    assert_eq!(map.resolve_for_subnames(vec!["sub".to_string()]).unwrap(), "dest1");
    let (_, _, map2) = nrs_map_update("a.b.mysite", Some("dest2"), None, true, "t");
    assert_eq!(
        map2.resolve_for_subnames(vec!["a".to_string(), "b".to_string()]).unwrap(),
        "dest2"
    );
    // the entry under "b" is a nested map whose default is "a"
    match entry(&map2, "b").unwrap() {
        PublicNameEntry::SubName(sub) => {
            assert_eq!(sub.default, "a");
            assert_eq!(sub.get_default_link().unwrap(), "dest2");
        }
        _ => panic!("expected a nested map"),
    }
}

#[test]
fn nrs_update_three_subnames_nests_under_first() {
    let (_, _, map) = nrs_map_update("a.b.c.site", Some("d"), None, false, "t");
    match map.resolve_for_subnames(vec!["a".to_string(), "b".to_string(), "c".to_string()]) {
        Err(Error::ContentError(msg)) => assert_eq!(msg, "No link found for subnames: ()."),
        other => panic!("unexpected: {:?}", other),
    }
}

#[test]
fn nrs_update_replaces_existing_entry() {
    let (_, _, map) = nrs_map_update("mysite", Some("first"), None, true, "t1");
    let (_, _, map) = nrs_map_update("mysite", Some("second"), Some(map), true, "t2");
    assert_eq!(map.entries.len(), 1);
    assert_eq!(map.get_default_link().unwrap(), "second");
}

#[test]
fn nrs_update_keeps_existing_subname_maps() {
    let (_, _, map) = nrs_map_update("x.b.site", Some("dx"), None, false, "t");
    let (_, _, map) = nrs_map_update("a.b.site", Some("da"), Some(map), false, "t");
    match entry(&map, "b").unwrap() {
        PublicNameEntry::SubName(sub) => {
            // level 1 is the map found under "b": it keeps "x" and receives "a"
            assert!(entry(sub, "x").is_some());
            assert!(entry(sub, "a").is_some());
        }
        _ => panic!("expected a nested map"),
    }
}

#[test]
fn nrs_update_or_create_data_names_top_level() {
    let (xorname, now, processed, map) =
        nrs_map_update_or_create_data("safe://somesite", Some("somewhere"), None, true, false)
            .unwrap();
    assert_eq!(xorname, xorname_from_nrs_string("somesite").unwrap());
    assert!(!now.is_empty());
    assert_eq!(processed.len(), 1);
    assert_eq!(map.get_default_link().unwrap(), "somewhere");
    assert_eq!(map.get_default().unwrap(), "_default");
}

#[test]
fn xorname_from_nrs_string_is_sha3() {
    let x = xorname_from_nrs_string("abc").unwrap();
    let expected = tiny_keccak::sha3_256(b"abc");
    assert_eq!(x, XorName(expected));
    assert_ne!(x, XorName(*b"abc00000000000000000000000000000"));
}

#[test]
fn public_name_description_fields() {
    let e = public_name_description("dest", "now");
    match e {
        PublicNameEntry::Definition(fields) => {
            assert_eq!(fields.len(), 3);
            assert!(fields.contains(&(FAKE_RDF_PREDICATE_LINK.to_string(), "dest".to_string())));
            assert!(fields.contains(&("modified".to_string(), "now".to_string())));
            assert!(fields.contains(&("created".to_string(), "now".to_string())));
        }
        _ => panic!("expected a definition"),
    }
    let e = create_public_name_description("dest").unwrap();
    assert_eq!(definition_link(&e).unwrap(), "dest");
}

#[test]
fn get_link_for_fails() {
    let (_, _, map) = nrs_map_update("mysite", Some("dest"), None, true, "t");
    match map.get_link_for("missing") {
        Err(Error::ContentError(msg)) => {
            assert_eq!(msg, "No entry \"missing\" found for resolvable map.")
        }
        other => panic!("unexpected: {:?}", other),
    }
    match map.get_link_for("_default") {
        Err(Error::ContentError(msg)) => assert_eq!(msg, "No link found for entry: _default."),
        other => panic!("unexpected: {:?}", other),
    }
}

#[test]
fn insert_entry_replaces_in_place() {
    let mut map = NrsMap::new();
    map.insert_entry("k".to_string(), public_name_description("a", "t"));
    map.insert_entry("k".to_string(), public_name_description("b", "t"));
    assert_eq!(map.entries.len(), 1);
    assert_eq!(definition_link(map.get_entry("k").unwrap()).unwrap(), "b");
}

#[test]
fn nrs_xorname_is_that_of_top_level_name() {
    let top = xorname_from_nrs_string("mysite").unwrap();
    for name in ["mysite", "safe://mysite", "blog.mysite", "safe://a.blog.mysite"] {
        let (xorname, _, _, _) = safe_api::nrs::nrs_map_update_or_create_data(name, Some("safe://x"), None, true, false).unwrap();
        assert_eq!(xorname, top, "{}", name);
    }
}
