use bal_server::db::{check_db_path, duplicate_query_sql};
use bal_server::network::{is_known_network_name, net_from_str, Network};
use bal_server::text::{i64_to_decimal, parse_i64, parse_u16, parse_u64, u64_to_decimal};

#[test]
fn database_paths() {
    assert_eq!(check_db_path("bal.db"), Ok(()));
    assert_eq!(check_db_path("/data/bal.db"), Ok(()));
    assert_eq!(check_db_path("../bal.db").unwrap_err(), "Database path may not contain '..'");
    assert_eq!(check_db_path("/etc/bal.db").unwrap_err(), "Absolute database path under /etc is forbidden");
    assert_eq!(check_db_path("/etcetera/bal.db"), Ok(()));
    assert_eq!(check_db_path("/./etc/bal.db").unwrap_err(), "Absolute database path under /etc is forbidden");
    assert_eq!(check_db_path("//etc/bal.db").unwrap_err(), "Absolute database path under /etc is forbidden");
    assert_eq!(check_db_path("/.//./usr/local/bal.db").unwrap_err(), "Absolute database path under /usr is forbidden");
    assert_eq!(check_db_path("/etc").unwrap_err(), "Absolute database path under /etc is forbidden");
    assert_eq!(check_db_path("/var/lib/bal.db"), Ok(()));
    assert_eq!(check_db_path("/"), Ok(()));
    assert_eq!(check_db_path("/./.."), Err("Database path may not contain '..'".to_string()));
    assert_eq!(check_db_path("/opt/x.db").unwrap_err(), "Absolute database path under /opt is forbidden");
    assert_eq!(check_db_path("etc/bal.db"), Ok(()));
}

#[test]
fn duplicate_queries() {
    assert_eq!(duplicate_query_sql(1), "SELECT txid FROM tbl_tx WHERE txid IN (?)");
    assert_eq!(duplicate_query_sql(3), "SELECT txid FROM tbl_tx WHERE txid IN (?,?,?)");
}

#[test]
fn network_names() {
    for n in [Network::Bitcoin, Network::Testnet, Network::Testnet4, Network::Signet, Network::Regtest] {
        assert_eq!(net_from_str(&n.to_name()), n);
        assert!(is_known_network_name(&n.to_name()));
    }
    assert!(!is_known_network_name("mainnet"));
}

#[test]
fn decimal_text() {
    assert_eq!(u64_to_decimal(0), "0");
    assert_eq!(u64_to_decimal(u64::MAX), "18446744073709551615");
    assert_eq!(i64_to_decimal(i64::MIN), "-9223372036854775808");
    assert_eq!(i64_to_decimal(-12), "-12");
    assert_eq!(parse_u64("+42"), Some(42));
    assert_eq!(parse_u64("18446744073709551616"), None);
    assert_eq!(parse_u64(""), None);
    assert_eq!(parse_u64("+"), None);
    assert_eq!(parse_u16("65535"), Some(65535));
    assert_eq!(parse_u16("65536"), None);
    assert_eq!(parse_i64("-9223372036854775808"), Some(i64::MIN));
    assert_eq!(parse_i64("9223372036854775808"), None);
    assert_eq!(parse_i64("-"), None);
    assert_eq!(parse_i64(" 1"), None);
}
