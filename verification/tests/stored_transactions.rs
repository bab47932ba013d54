use bal_server::network::Network;
use bal_server::pusher::{
    backup_config_file, backup_expired, fee_basis, is_weekly_backup_file, removes_old_backup, get_network_params, get_network_params_default,
    PusherConfig,
};
use bal_server::umbrel_api::{fallback_output_address, output_scripts};

const TX1: &str = "020000000111111111111111111111111111111111111111111111111111111111111111110000000000fdffffff0260ea000000000000160014c0cebcd6c3d3ca8c75dc5ec62ebe55330ef910e23930000000000000160014000102030405060708090a0b0c0d0e0f1011121300350c00";
const OURS: &str = "bc1qcr8te4kr609gcawutmrza0j4xv80jy8z306fyu";
const PREV: &str = "1111111111111111111111111111111111111111111111111111111111111111";

#[test]
fn fee_basis_of_a_stored_transaction() {
    let (inputs, amounts) = fee_basis(TX1).unwrap();
    assert_eq!(inputs, vec![(PREV.to_string(), "0".to_string())]);
    assert_eq!(amounts, vec![60000, 12345]);
    assert_eq!(fee_basis(&TX1.to_uppercase()).unwrap().1, vec![60000, 12345]);
    assert!(fee_basis("zz").is_none());
    assert!(fee_basis("abc").is_none());
    assert!(fee_basis("00").is_none());
    assert!(fee_basis("").is_none());
}

#[test]
fn output_addresses_of_legacy_rows() {
    let scripts = output_scripts(TX1);
    assert_eq!(scripts.len(), 2);
    assert_eq!(scripts[1][0..2], [0x00, 0x14]);
    assert_eq!(fallback_output_address(&scripts, "0", Network::Bitcoin), OURS);
    assert_eq!(fallback_output_address(&scripts, "not a number", Network::Bitcoin), OURS);
    let second = fallback_output_address(&scripts, "1", Network::Bitcoin);
    assert!(second.starts_with("bc1q") && second != OURS);
    assert!(fallback_output_address(&scripts, "0", Network::Regtest).starts_with("bcrt1q"));
    assert_eq!(fallback_output_address(&scripts, "2", Network::Bitcoin), "");
    assert!(output_scripts("").is_empty());
    assert!(output_scripts("beef").is_empty());
    assert!(output_scripts("xyz").is_empty());
}

#[test]
fn backup_settings_and_retention() {
    assert_eq!(backup_config_file("/data/bal.db"), "/data/backup_config.json");
    assert_eq!(backup_config_file("bal.db"), "/backup_config.json");
    let twelve_weeks: i128 = 12 * 7 * 24 * 3600 * 1_000_000_000;
    assert!(!backup_expired(0, twelve_weeks));
    assert!(backup_expired(0, twelve_weeks + 1));
    assert!(!backup_expired(5, 5));
    assert!(!backup_expired(i128::MIN, i128::MIN));
}

#[test]
fn only_old_weekly_backups_are_removed() {
    let twelve_weeks: i128 = 12 * 7 * 24 * 3600 * 1_000_000_000;
    let now = twelve_weeks + 1_000;
    assert!(is_weekly_backup_file("bal-20250105.db"));
    assert!(!is_weekly_backup_file("bal-2025010.db"));
    assert!(!is_weekly_backup_file("bal-2025O105.db"));
    assert!(!is_weekly_backup_file("bal-20250105.dbx"));
    assert!(!is_weekly_backup_file("Bal-20250105.db"));
    assert!(!is_weekly_backup_file("bal-20250105.sq"));
    assert!(!is_weekly_backup_file(""));
    assert!(removes_old_backup("bal-20250105.db", 0, now));
    assert!(!removes_old_backup("bal-20250105.db", now - 10, now));
    assert!(!removes_old_backup("notes.txt", 0, now));
    assert!(!removes_old_backup("bal.db", 0, now));
    assert!(!removes_old_backup("bal-2025.db", 0, now));
}

#[test]
fn watched_network_settings() {
    let cfg = PusherConfig {
        zmq_listener: "tcp://127.0.0.1:28332".to_string(),
        db_file: "bal.db".to_string(),
        bitcoin_dir: String::new(),
        regtest: get_network_params_default(Network::Regtest),
        testnet: get_network_params_default(Network::Testnet),
        testnet4: get_network_params_default(Network::Testnet4),
        signet: get_network_params_default(Network::Signet),
        mainnet: get_network_params_default(Network::Bitcoin),
        send_stats: false,
        url: "http://localhost/".to_string(),
        ssl_key_path: "privkey.pem".to_string(),
    };
    assert_eq!(get_network_params(&cfg, Network::Regtest).port, 18443);
    assert_eq!(get_network_params(&cfg, Network::Testnet4).db_field, "testnet4");
    assert_eq!(get_network_params(&cfg, Network::Bitcoin).db_field, "bitcoin");
    assert_eq!(get_network_params(&cfg, Network::Signet).dir_path, "signet/");
}
