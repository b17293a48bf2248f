use safe_api::config::{conn_info_cache_file_name, conn_info_source, is_remote_location, ConfigSettings};
use safe_api::node::{node_join_args, node_run_args, verbosity_arg};

#[test]
fn launch_tool_run_args() {
    let args = node_run_args("/home/u/.safe/node/sn_node", "/home/u/.safe/node/baby-fleming-nodes", "1", "11", 0, None);
    assert_eq!(
        args,
        vec![
            "sn_launch_tool", "-v", "--node-path", "/home/u/.safe/node/sn_node", "--nodes-dir",
            "/home/u/.safe/node/baby-fleming-nodes", "--interval", "1", "--num-nodes", "11", "--local"
        ]
    );
    let args = node_run_args("p", "d", "2", "3", 3, Some("10.0.0.1"));
    assert_eq!(&args[10..], &["-yyy".to_string(), "--ip".to_string(), "10.0.0.1".to_string()]);
}

#[test]
fn launch_tool_join_args() {
    let contacts = vec!["127.0.0.1:12000".to_string(), "127.0.0.1:12001".to_string()];
    let args = node_join_args("p", "d", 1, &contacts, Some(2048));
    assert_eq!(
        args,
        vec![
            "sn_launch_tool-join", "-v", "--node-path", "p", "--nodes-dir", "d", "--max-capacity",
            "2048", "-y", "--hard-coded-contacts", "127.0.0.1:12000", "127.0.0.1:12001"
        ]
    );
    assert_eq!(verbosity_arg(0), "-");
}

#[test]
fn networks_settings() {
    let mut settings = ConfigSettings::new();
    settings.add_network("net1", "/tmp/a");
    settings.add_network("net2", "https://x/y");
    settings.add_network("net1", "/tmp/b");
    assert_eq!(settings.network_location("net1"), Some("/tmp/b".to_string()));
    assert_eq!(settings.remove_network("net1"), Some("/tmp/b".to_string()));
    assert_eq!(settings.network_location("net1"), None);
    assert_eq!(settings.remove_network("net1"), None);
    assert_eq!(settings.networks.len(), 1);
}

#[test]
fn conn_info_locations() {
    assert!(is_remote_location("https://safe.net/conn"));
    assert!(!is_remote_location("/home/conn"));
    assert_eq!(conn_info_cache_file_name("mynet"), "mynet_node_connection_info.config");
    assert_eq!(conn_info_source("http://x"), Err("Self updates are disabled".to_string()));
    assert_eq!(conn_info_source("/x"), Ok(()));
}

#[test]
fn networks_kept_in_name_order() {
    let mut settings = safe_api::config::ConfigSettings::new();
    settings.add_network("mainnet", "b");
    settings.add_network("alpha", "a");
    settings.add_network("zeta", "z");
    settings.add_network("alpha", "a2");
    let names: Vec<&str> = settings.networks.iter().map(|(n, _)| n.as_str()).collect();
    assert_eq!(names, vec!["alpha", "mainnet", "zeta"]);
    assert_eq!(settings.network_location("alpha"), Some("a2".to_string()));
    settings.remove_network("mainnet");
    let names: Vec<&str> = settings.networks.iter().map(|(n, _)| n.as_str()).collect();
    assert_eq!(names, vec!["alpha", "zeta"]);
}
