use safe_api::authd::parse_create_acc_args;
use safe_api::cli::{mimic_cli_args, output_format, OutputFmt};
use safe_api::entropy::byte_counts;
use safe_api::error::Error;
use safe_api::safe::fetch_register_value;

#[test]
fn create_acc_args() {
    let args = vec!["my%20pass".to_string(), "pwd".to_string(), "sk".to_string()];
    let req = parse_create_acc_args(&args).unwrap();
    assert_eq!(req.passphrase, "my pass");
    assert_eq!(req.password, "pwd");
    assert_eq!(req.sk, "sk");
    match parse_create_acc_args(&vec!["a".to_string()]) {
        Err(m) => assert_eq!(m, "Incorrect number of arguments for 'create' action"),
        Ok(_) => panic!(),
    }
    let bad = vec!["%ff".to_string(), "pwd".to_string(), "sk".to_string()];
    match parse_create_acc_args(&bad) {
        Err(m) => assert_eq!(m, "The passphrase couldn't be decoded from the request"),
        Ok(_) => panic!(),
    }
    let bad = vec!["ok".to_string(), "%c3%28".to_string(), "sk".to_string()];
    match parse_create_acc_args(&bad) {
        Err(m) => assert_eq!(m, "The password couldn't be decoded from the request"),
        Ok(_) => panic!(),
    }
}

#[test]
fn register_errors() {
    let r: Result<u8, Error> = fetch_register_value("safe://x", Err(Error::EmptyContent("e".to_string())));
    assert_eq!(r, Err(Error::EmptyContent("Register found at \"safe://x\" was empty".to_string())));
    let r: Result<u8, Error> = fetch_register_value("safe://x", Err(Error::ContentNotFound("e".to_string())));
    assert_eq!(r, Err(Error::ContentNotFound("No Register found at this address".to_string())));
    let r: Result<u8, Error> = fetch_register_value("safe://x", Err(Error::NetDataError("n".to_string())));
    assert_eq!(r, Err(Error::NetDataError("n".to_string())));
    assert_eq!(fetch_register_value("u", Ok(7u8)), Ok(7));
}

#[test]
fn entropy_histogram() {
    let counts = byte_counts(&[0x00, 0x00, 0x01, 0x01, 0x02]);
    assert_eq!(counts.len(), 256);
    assert_eq!(counts[0], 2);
    assert_eq!(counts[1], 2);
    assert_eq!(counts[2], 1);
    assert_eq!(counts.iter().map(|c| *c as u64).sum::<u64>(), 5);
    // the Shannon entropy computed from the histogram
    let len = 5f64;
    let entropy: f64 = -counts
        .iter()
        .filter(|c| **c != 0)
        .map(|c| {
            let p = *c as f64 / len;
            p * p.log2()
        })
        .sum::<f64>();
    assert!((entropy - 1.5219280948873621).abs() <= f64::EPSILON);
}

#[test]
fn cli_decisions() {
    assert_eq!(output_format(true, Some(OutputFmt::Yaml)), OutputFmt::Json);
    assert_eq!(output_format(false, Some(OutputFmt::Yaml)), OutputFmt::Yaml);
    assert_eq!(output_format(false, None), OutputFmt::Pretty);
    let args = mimic_cli_args("cat", &vec!["safe://x".to_string(), "--hexdump".to_string()]);
    assert_eq!(args, vec!["safe", "cat", "safe://x", "--hexdump"]);
}
