use safe_api::helpers::{
    get_from_arg_or_stdin, get_secret_key, node_install, node_shutdown, parse_stdin_arg,
    parse_tx_id, vec_to_hex, xorname_to_hex, ArgSource, FileNameInfo, NodePathInfo,
    SecretKeySource,
};
use safe_api::pluralize;
use safe_api::xorurl::XorName;

#[test]
fn hex_renderings() {
    assert_eq!(vec_to_hex(vec![0x00, 0x0f, 0xa0, 0xff]), "000fa0ff");
    assert_eq!(vec_to_hex(vec![]), "");
    let mut bytes = [0u8; 32];
    bytes[0] = 0xab;
    bytes[31] = 0x01;
    let hex = xorname_to_hex(&XorName(bytes));
    assert_eq!(hex.len(), 64);
    assert!(hex.starts_with("ab00"));
    assert!(hex.ends_with("01"));
}

#[test]
fn tx_id_parsing() {
    assert_eq!(parse_tx_id("12345"), Ok(12345));
    assert_eq!(parse_tx_id("+7"), Ok(7));
    assert_eq!(parse_tx_id("18446744073709551615"), Ok(u64::MAX));
    assert_eq!(
        parse_tx_id(""),
        Err("cannot parse integer from empty string. A valid TX Id is a number between 0 and 2^64".to_string())
    );
    assert_eq!(
        parse_tx_id("12a"),
        Err("invalid digit found in string. A valid TX Id is a number between 0 and 2^64".to_string())
    );
    assert_eq!(
        parse_tx_id("-1"),
        Err("invalid digit found in string. A valid TX Id is a number between 0 and 2^64".to_string())
    );
    assert_eq!(
        parse_tx_id("+"),
        Err("invalid digit found in string. A valid TX Id is a number between 0 and 2^64".to_string())
    );
    assert_eq!(
        parse_tx_id("18446744073709551616"),
        Err("number too large to fit in target type. A valid TX Id is a number between 0 and 2^64".to_string())
    );
    // the same texts as std's own parser
    for s in ["", "0", "+", "-", "12a", "99999999999999999999", "99999999999999999999x", "007"] {
        let ours = parse_tx_id(s);
        let std = s
            .parse::<u64>()
            .map_err(|err| format!("{}. A valid TX Id is a number between 0 and 2^64", err));
        assert_eq!(ours, std, "for {:?}", s);
    }
}

#[test]
fn stdin_arg() {
    assert_eq!(parse_stdin_arg(""), "");
    assert_eq!(parse_stdin_arg("-"), "");
    assert_eq!(parse_stdin_arg("--"), "--");
    assert_eq!(parse_stdin_arg("abc"), "abc");
}

#[test]
fn secret_key_source() {
    match get_secret_key("", Some("sk".to_string()), "msg") {
        SecretKeySource::Given(s) => assert_eq!(s, "sk"),
        _ => panic!("expected the given key"),
    }
    match get_secret_key("", None, "the source") {
        SecretKeySource::Prompt(p) => assert_eq!(p, "Enter secret key corresponding to the source: "),
        _ => panic!("expected a prompt"),
    }
    match get_secret_key("safe://key", Some(String::new()), "m") {
        SecretKeySource::Prompt(p) => {
            assert_eq!(p, "Enter secret key corresponding to public key at \"safe://key\": ")
        }
        _ => panic!("expected a prompt"),
    }
}

#[test]
fn arg_or_stdin() {
    match get_from_arg_or_stdin(Some("x".to_string()), None) {
        ArgSource::Given(s) => assert_eq!(s, "x"),
        _ => panic!(),
    }
    match get_from_arg_or_stdin(Some(String::new()), Some("give it")) {
        ArgSource::Stdin(m) => assert_eq!(m, "give it"),
        _ => panic!(),
    }
    match get_from_arg_or_stdin(None, None) {
        ArgSource::Stdin(m) => assert_eq!(m, "...awaiting data from STDIN stream..."),
        _ => panic!(),
    }
}

#[test]
fn pluralize_by_count() {
    assert_eq!(pluralize("file", "files", 1), "file");
    assert_eq!(pluralize("file", "files", 0), "files");
    assert_eq!(pluralize("file", "files", 2), "files");
}

#[test]
fn node_commands() {
    assert_eq!(node_install(None), Err("Self updates are disabled".to_string()));
    assert_eq!(node_shutdown(None), Ok("sn_node".to_string()));
    let info = NodePathInfo {
        display: "/tmp/dir".to_string(),
        is_file: false,
        file_name: FileNameInfo::Name("dir".to_string()),
    };
    assert_eq!(
        node_shutdown(Some(info)),
        Err("Node path provided (/tmp/dir) is invalid as it doens't include the executable filename".to_string())
    );
    let info = NodePathInfo {
        display: "/bin/my_node".to_string(),
        is_file: true,
        file_name: FileNameInfo::Name("my_node".to_string()),
    };
    assert_eq!(node_shutdown(Some(info)), Ok("my_node".to_string()));
    let info = NodePathInfo {
        display: "/bin/x".to_string(),
        is_file: true,
        file_name: FileNameInfo::InvalidUnicode,
    };
    assert_eq!(
        node_shutdown(Some(info)),
        Err("Node path provided (/bin/x) contains invalid unicode chars".to_string())
    );
}
