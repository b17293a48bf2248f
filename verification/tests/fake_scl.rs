use safe_api::coins::{coins_amount_overflows, coins_to_string, parse_coins_amount};
use safe_api::error::Error;
use safe_api::fake_scl::{parse_hex, xorname_from_pk, SafeAppFake, Transaction};
use safe_api::helpers::vec_to_hex;
use safe_api::xorurl::XorName;
use safe_nd::Coins;
use std::str::FromStr;
use threshold_crypto::SecretKey;

fn nanos(text: &str) -> u64 {
    Coins::from_str(text).unwrap().as_nano()
}

fn pk_bytes(sk: &SecretKey) -> Vec<u8> {
    sk.public_key().to_bytes().to_vec()
}

#[test]
fn test_allocate_test_coins() {
    let mut mock = SafeAppFake::new();
    let sk_to = SecretKey::random();
    let balance = nanos("2.345678912");
    mock.allocate_test_coins(&pk_bytes(&sk_to), balance).unwrap();
    let current_balance = mock.get_balance_from_sk(&pk_bytes(&sk_to)).unwrap();
    assert_eq!(balance, current_balance);
}

#[test]
fn test_create_balance() {
    let mut mock = SafeAppFake::new();
    let sk = SecretKey::random();
    let balance = nanos("2.345678912");
    mock.allocate_test_coins(&pk_bytes(&sk), balance).unwrap();
    let sk_to = SecretKey::random();
    let pk_to = pk_bytes(&sk_to);
    assert!(mock
        .create_balance(Some(&pk_bytes(&sk)), &pk_to, nanos("1.234567891"))
        .is_ok());
}

#[test]
fn test_check_balance() {
    let mut mock = SafeAppFake::new();
    let sk = SecretKey::random();
    let balance = nanos("2.3");
    mock.allocate_test_coins(&pk_bytes(&sk), balance).unwrap();
    let current_balance = mock.get_balance_from_sk(&pk_bytes(&sk)).unwrap();
    assert_eq!(balance, current_balance);

    let sk_to = SecretKey::random();
    let pk_to = pk_bytes(&sk_to);
    let preload = nanos("1.234567891");
    mock.create_balance(Some(&pk_bytes(&sk)), &pk_to, preload).unwrap();
    let current_balance = mock.get_balance_from_sk(&pk_to).unwrap();
    assert_eq!(preload, current_balance);

    let current_balance = mock.get_balance_from_sk(&pk_bytes(&sk)).unwrap();
    assert_eq!(
        nanos("1.065432108"), /* == 2.3 - 1.234567891 - 0.000000001 (creation cost) */
        current_balance
    );
}

#[test]
fn test_safecoin_transfer() {
    let mut mock = SafeAppFake::new();
    let sk1 = SecretKey::random();
    let sk2 = SecretKey::random();
    let pk2 = pk_bytes(&sk2);

    let balance1 = nanos("2.5");
    let balance2 = nanos("5.7");
    mock.allocate_test_coins(&pk_bytes(&sk1), balance1).unwrap();
    mock.allocate_test_coins(&pk2, balance2).unwrap();

    let curr_balance1 = mock.get_balance_from_sk(&pk_bytes(&sk1)).unwrap();
    let curr_balance2 = mock.get_balance_from_sk(&pk2).unwrap();
    assert_eq!(balance1, curr_balance1);
    assert_eq!(balance2, curr_balance2);

    let tx_id: u64 = rand::random();
    let _ = mock
        .safecoin_transfer_to_xorname(Some(&pk_bytes(&sk1)), xorname_from_pk(&pk2), tx_id, nanos("1.4"))
        .unwrap();
    mock.get_transaction(tx_id, &pk2).unwrap();

    let curr_balance1 = mock.get_balance_from_sk(&pk_bytes(&sk1)).unwrap();
    let curr_balance2 = mock.get_balance_from_sk(&pk2).unwrap();
    assert_eq!(curr_balance1, nanos("1.1"));
    assert_eq!(curr_balance2, nanos("7.1"));
}

#[test]
fn coins_texts() {
    assert_eq!(coins_to_string(0), "0.000000000");
    assert_eq!(coins_to_string(1), "0.000000001");
    assert_eq!(coins_to_string(1_000_000_001), "1.000000001");
    assert_eq!(coins_to_string(4_294_967_295_000_000_000), "4294967295.000000000");
    for n in [0u64, 7, 123_456_789, 1_000_000_000, u64::MAX] {
        assert_eq!(coins_to_string(n), Coins::from_nano(n).to_string());
    }
}

#[test]
fn transfer_errors() {
    let mut mock = SafeAppFake::new();
    let from = vec![1u8, 2, 3];
    let to = vec![4u8, 5, 6];
    mock.allocate_test_coins(&from, 10).unwrap();
    mock.allocate_test_coins(&to, u64::MAX - 1).unwrap();
    let to_x = xorname_from_pk(&to);
    match mock.safecoin_transfer_to_xorname(Some(&from), to_x, 1, 0) {
        Err(Error::InvalidAmount(m)) => assert_eq!(m, "0.000000000"),
        other => panic!("unexpected: {:?}", other),
    }
    match mock.safecoin_transfer_to_xorname(Some(&from), to_x, 2, 11) {
        Err(Error::NotEnoughBalance(m)) => assert_eq!(m, "0.000000010"),
        other => panic!("unexpected: {:?}", other),
    }
    assert_eq!(mock.get_balance_from_sk(&from).unwrap(), 10);
    match mock.safecoin_transfer_to_xorname(Some(&from), to_x, 3, 5) {
        Err(Error::Unexpected(m)) => assert_eq!(
            m,
            "Failed to credit destination due to overflow...maybe a millionaire's problem?!"
        ),
        other => panic!("unexpected: {:?}", other),
    }
    // the debit stays
    assert_eq!(mock.get_balance_from_sk(&from).unwrap(), 5);
    assert_eq!(mock.get_transaction(3, &to).unwrap(), "Success(0.000000005)");
    match mock.get_transaction(99, &to) {
        Err(Error::ContentNotFound(m)) => assert_eq!(m, "Transaction not found with id '99'"),
        other => panic!("unexpected: {:?}", other),
    }
    match mock.safecoin_transfer_to_xorname(None, XorName([9u8; 32]), 4, 1) {
        Err(Error::ContentNotFound(m)) => assert_eq!(m, "SafeKey data not found"),
        other => panic!("unexpected: {:?}", other),
    }
    let r = mock.safecoin_transfer_to_pk(None, &from, 5, 3).unwrap();
    assert_eq!(r, Transaction { id: 5, amount: 3 });
    assert_eq!(mock.get_balance_from_sk(&from).unwrap(), 8);
}

#[test]
fn create_balance_without_funds() {
    let mut mock = SafeAppFake::new();
    let from = vec![1u8];
    match mock.create_balance(Some(&from), &[2u8], 5) {
        Err(Error::ContentNotFound(m)) => assert_eq!(m, "SafeKey data not found"),
        other => panic!("unexpected: {:?}", other),
    }
    mock.allocate_test_coins(&from, 5).unwrap();
    match mock.create_balance(Some(&from), &[2u8], 5) {
        Err(Error::NotEnoughBalance(m)) => assert_eq!(m, "0.000000005"),
        other => panic!("unexpected: {:?}", other),
    }
    let x = mock.create_balance(None, &[2u8], 5).unwrap();
    assert_eq!(x, xorname_from_pk(&[2u8]));
    assert_eq!(mock.get_balance_from_sk(&[2u8]).unwrap(), 5);
}

#[test]
fn immutable_data_roundtrip() {
    let mut mock = SafeAppFake::new();
    let x = mock.files_put_published_immutable(b"HELLLOOOOOOO", true).unwrap();
    assert_eq!(x, XorName(tiny_keccak::sha3_256(b"HELLLOOOOOOO")));
    match mock.files_get_published_immutable(x, None) {
        Err(Error::NetDataError(m)) => assert_eq!(m, "No ImmutableData found at this address"),
        other => panic!("unexpected: {:?}", other),
    }
    let x = mock.files_put_published_immutable(b"HELLLOOOOOOO", false).unwrap();
    assert_eq!(mock.files_get_published_immutable(x, None).unwrap(), b"HELLLOOOOOOO".to_vec());
    assert_eq!(
        mock.files_get_published_immutable(x, Some((Some(2), Some(5)))).unwrap(),
        b"LLL".to_vec()
    );
    assert_eq!(mock.files_get_published_immutable(x, Some((None, Some(1)))).unwrap(), b"H".to_vec());
}

#[test]
fn append_only_data_versions() {
    let mut mock = SafeAppFake::new();
    let name = XorName([7u8; 32]);
    let data = vec![(b"KEY1".to_vec(), b"VALUE1".to_vec())];
    let x = mock.put_seq_append_only_data(data, Some(name), 12322, None).unwrap();
    assert_eq!(x, name);
    assert_eq!(mock.get_current_seq_append_only_data_version(name, 12322).unwrap(), 0);
    let v = mock
        .append_seq_append_only_data(vec![(b"KEY2".to_vec(), b"VALUE2".to_vec())], 1, name, 12322)
        .unwrap();
    assert_eq!(v, 1);
    let (version, (k, val)) = mock.get_latest_seq_append_only_data(name, 12322).unwrap();
    assert_eq!(version, 1);
    assert_eq!(k, b"KEY2".to_vec());
    assert_eq!(val, b"VALUE2".to_vec());
    let (k, _) = mock.get_seq_append_only_data(name, 12322, 0).unwrap();
    assert_eq!(k, b"KEY1".to_vec());
    match mock.get_seq_append_only_data(name, 12322, 2) {
        Err(Error::VersionNotFound(m)) => assert_eq!(
            m,
            "Invalid version (2) for Sequenced AppendOnlyData found at Xor name 070707.."
        ),
        other => panic!("unexpected: {:?}", other),
    }
    let other = XorName([1u8; 32]);
    match mock.get_latest_seq_append_only_data(other, 1) {
        Err(Error::ContentNotFound(m)) => assert_eq!(
            m,
            format!("Sequenced AppendOnlyData not found at Xor name: {}", "01".repeat(32))
        ),
        other => panic!("unexpected: {:?}", other),
    }
    let random = mock.put_seq_append_only_data(vec![], None, 1, None).unwrap();
    assert_ne!(random, name);
}

#[test]
fn mutable_data_entries() {
    let mut mock = SafeAppFake::new();
    let name = XorName([3u8; 32]);
    match mock.seq_mutable_data_insert(name, 1, b"k", b"v") {
        Err(Error::ContentNotFound(m)) => assert!(m.starts_with("Sequenced MutableData not found at Xor name: ")),
        other => panic!("unexpected: {:?}", other),
    }
    mock.put_seq_mutable_data(Some(name), 1, None).unwrap();
    mock.seq_mutable_data_insert(name, 1, b"k1", b"v1").unwrap();
    mock.seq_mutable_data_update(name, 1, b"k1", b"v2", 1).unwrap();
    mock.seq_mutable_data_insert(name, 1, b"k2", b"w").unwrap();
    let v = mock.seq_mutable_data_get_value(name, 1, b"k1").unwrap();
    assert_eq!(v.data, b"v2".to_vec());
    assert_eq!(v.version, 0);
    match mock.seq_mutable_data_get_value(name, 1, b"zz") {
        Err(Error::EntryNotFound(m)) => assert_eq!(
            m,
            format!("Entry not found in Sequenced MutableData found at Xor name: {}", "03".repeat(32))
        ),
        other => panic!("unexpected: {:?}", other),
    }
    let mut entries = mock.list_seq_mdata_entries(name, 1).unwrap();
    entries.sort_by(|a, b| a.0.cmp(&b.0));
    assert_eq!(entries.len(), 2);
    assert_eq!(entries[0].0, b"k1".to_vec());
    assert_eq!(entries[1].0, b"k2".to_vec());
    // putting again keeps the entries
    mock.put_seq_mutable_data(Some(name), 1, None).unwrap();
    assert_eq!(mock.list_seq_mdata_entries(name, 1).unwrap().len(), 2);
}

#[test]
fn hex_parsing_roundtrip() {
    let bytes = vec![0u8, 1, 0xab, 0xff];
    assert_eq!(parse_hex(&vec_to_hex(bytes.clone())), bytes);
}

#[test]
fn coins_amounts() {
    assert_eq!(parse_coins_amount("12.23"), Ok(12_230_000_000));
    assert_eq!(parse_coins_amount("0"), Ok(0));
    assert_eq!(parse_coins_amount("1.800000000"), Ok(1_800_000_000));
    assert_eq!(parse_coins_amount("1."), Ok(1_000_000_000));
    assert_eq!(parse_coins_amount("+2.+5"), Ok(2_050_000_000));
    assert_eq!(
        parse_coins_amount(".45"),
        Err(Error::InvalidAmount("Invalid safecoins amount '.45' (Can't parse coin units)".to_string()))
    );
    assert_eq!(
        parse_coins_amount("1.x"),
        Err(Error::InvalidAmount("Invalid safecoins amount '1.x' (Can't parse coin remainder)".to_string()))
    );
    assert_eq!(
        parse_coins_amount("0.0000000009"),
        Err(Error::InvalidAmount(
            "Invalid safecoins amount '0.0000000009', the minimum possible amount is one nano coin (0.000000001)"
                .to_string()
        ))
    );
    assert_eq!(
        parse_coins_amount("18446744074"),
        Err(Error::InvalidAmount(
            "Invalid safecoins amount '18446744074', it exceeds the maximum possible value '4294967295.999999999'"
                .to_string()
        ))
    );
    assert_eq!(parse_coins_amount("18446744073.709551615"), Ok(u64::MAX));
    assert!(!coins_amount_overflows("18446744073.709551615"));
    assert!(coins_amount_overflows("18446744073.709551616"));
    assert!(coins_amount_overflows("18446744073.8"));
    assert!(!coins_amount_overflows("18446744074.8"));
    assert!(!coins_amount_overflows("12.23"));
    for text in ["0.1", "3", "7.000000001", "42.4200", "1.2.3", "", "."] {
        if !coins_amount_overflows(text) {
            let expected = text.parse::<Coins>().map(|c| c.as_nano()).ok();
            assert_eq!(parse_coins_amount(text).ok(), expected, "{}", text);
        }
    }
}

#[test]
fn hex_parsing_is_total() {
    assert_eq!(parse_hex("0aFf"), vec![0x0a, 0xff]);
    assert_eq!(parse_hex("0a f"), vec![0x0a]);
    assert_eq!(parse_hex("zz12"), vec![0x12]);
    assert_eq!(parse_hex(""), Vec::<u8>::new());
}

#[test]
fn coins_text_parses_back() {
    for n in [0u64, 1, 10, 1_000_000_000, 1_800_000_000, 12_230_000_000, 4_294_967_295_999_999_999, u64::MAX] {
        let text = coins_to_string(n);
        assert!(!coins_amount_overflows(&text));
        assert_eq!(parse_coins_amount(&text), Ok(n));
    }
}
