use bal_server::network::Network;
use bal_server::pusher::{
    confirmations_sql, double_spent_sql, failed_status_sql, get_cookie_filename,
    get_network_params_default, network_fee, parse_host_port, port_setting, pushed_status_sql,
    rpc_url, select_zmq_address, sent_txids_sql, seq_to_str, stats_message, vacuum_into_sql,
    weekly_backup_name, ConnectionMonitor, ConnectionStatus,
};

#[test]
fn host_and_port_of_report_urls() {
    assert_eq!(parse_host_port("https://welist.bitcoin-after.life"), ("welist.bitcoin-after.life".to_string(), 443));
    assert_eq!(parse_host_port("http://example.com/ping"), ("example.com".to_string(), 80));
    assert_eq!(parse_host_port("https://example.com:8443/x"), ("example.com".to_string(), 8443));
    assert_eq!(parse_host_port("https://example.com:abc"), ("example.com".to_string(), 443));
    assert_eq!(parse_host_port("https://example.com:70000"), ("example.com".to_string(), 443));
    assert_eq!(parse_host_port("example.com:81"), ("example.com".to_string(), 81));
    assert_eq!(parse_host_port("https://[::1]:9000"), ("[::1]".to_string(), 9000));
}

#[test]
fn connection_monitor_counts_timeouts() {
    let second: u128 = 1_000_000_000;
    let mut m = ConnectionMonitor::new(10, 2, 0);
    assert!(matches!(m.check_connection(5 * second), ConnectionStatus::Healthy));
    assert!(matches!(m.check_connection(10 * second), ConnectionStatus::Healthy));
    match m.check_connection(11 * second) {
        ConnectionStatus::Warning(d) => assert_eq!(d, 11 * second),
        _ => panic!("expected a warning"),
    }
    match m.check_connection(12 * second) {
        ConnectionStatus::Lost(d) => assert_eq!(d, 12 * second),
        _ => panic!("expected the connection to be lost"),
    }
    m.update(20 * second);
    assert_eq!(m.consecutive_timeouts, 0);
    assert!(matches!(m.check_connection(25 * second), ConnectionStatus::Healthy));
    assert!(matches!(m.check_connection(31 * second), ConnectionStatus::Warning(_)));
    m.reset(40 * second);
    assert_eq!(m.consecutive_timeouts, 0);
    assert_eq!(m.last_message_time, 40 * second);
    assert!(matches!(m.check_connection(39 * second), ConnectionStatus::Healthy));
}

#[test]
fn zmq_sequence_numbers() {
    assert_eq!(seq_to_str(&vec![1, 0, 0, 0]), "1");
    assert_eq!(seq_to_str(&vec![0x10, 0x27, 0, 0]), "10000");
    assert_eq!(seq_to_str(&vec![0xff, 0xff, 0xff, 0xff]), "4294967295");
    assert_eq!(seq_to_str(&vec![1, 2, 3]), "Unknown");
    assert_eq!(seq_to_str(&vec![]), "Unknown");
}

#[test]
fn zmq_endpoint_choice() {
    assert_eq!(select_zmq_address("tcp://10.21.0.5:28334", "tcp://127.0.0.1:28332"), "tcp://10.21.0.5:28334");
    assert_eq!(select_zmq_address("tcp://127.0.0.1:28332", "tcp://bitcoin:28334"), "tcp://bitcoin:28334");
    assert_eq!(select_zmq_address("tcp://127.0.0.1:28332", "tcp://127.0.0.1:1"), "tcp://127.0.0.1:28332");
}

#[test]
fn miner_fee() {
    assert_eq!(network_fee(&vec![70000, 30000], &vec![60000, 39000]), Some(1000));
    assert_eq!(network_fee(&vec![1000], &vec![1000]), None);
    assert_eq!(network_fee(&vec![], &vec![]), None);
}

#[test]
fn network_defaults() {
    let p = get_network_params_default(Network::Regtest);
    assert_eq!(p.port, 18443);
    assert_eq!(p.dir_path, "regtest/");
    assert_eq!(p.db_field, "regtest");
    assert_eq!(p.zmq_listener, "tcp://127.0.0.1:21332");
    assert_eq!(p.host, "http://127.0.0.1");
    let p = get_network_params_default(Network::Bitcoin);
    assert_eq!(p.port, 8332);
    assert_eq!(p.dir_path, "");
    assert_eq!(p.db_field, "bitcoin");
    assert_eq!(rpc_url(&p), "http://127.0.0.1:8332/");
    assert_eq!(get_network_params_default(Network::Testnet).dir_path, "testnet3/");
    assert_eq!(port_setting("8332"), Some(8332));
    assert_eq!(port_setting("x"), None);
}

#[test]
fn cookie_files() {
    let mut p = get_network_params_default(Network::Signet);
    assert_eq!(get_cookie_filename(&p, Some("/home/u")).unwrap(), "/home/u/.bitcoin/signet/.cookie");
    assert_eq!(get_cookie_filename(&p, None).unwrap_err(), "Please Set HOME environment variable");
    p.cookie_file = "/data/.cookie".to_string();
    assert_eq!(get_cookie_filename(&p, None).unwrap(), "/data/.cookie");
}

#[test]
fn watcher_statements() {
    assert_eq!(
        pushed_status_sql(&vec!["aa".to_string(), "bb".to_string()]),
        "UPDATE tbl_tx SET status = 1 WHERE txid in ('aa','bb');"
    );
    assert_eq!(pushed_status_sql(&vec!["aa".to_string()]), "UPDATE tbl_tx SET status = 1 WHERE txid in ('aa');");
    assert_eq!(
        failed_status_sql("aa", "bad-txns"),
        "UPDATE tbl_tx SET status = 2, push_err='bad-txns' WHERE txid = 'aa'"
    );
    assert_eq!(sent_txids_sql("signet"), "SELECT txid FROM tbl_tx WHERE status = 1 AND network = 'signet'");
    assert_eq!(confirmations_sql(3, "aa"), "UPDATE tbl_tx SET confirmations = 3 WHERE txid = 'aa'");
    assert_eq!(
        double_spent_sql("aa"),
        "UPDATE tbl_tx SET status = 2, confirmations = -1, push_err = 'double-spent: tx evicted from mempool' WHERE txid = 'aa'"
    );
    assert_eq!(vacuum_into_sql("/b/o'k.db"), "VACUUM INTO '/b/o''k.db'");
    assert_eq!(weekly_backup_name("20250105"), "bal-20250105.db");
    assert_eq!(
        stats_message("http://x/", "main", 850000, 1700000000, "00ab"),
        "http://x/main850000170000000000ab"
    );
}
