use bal_server::network::{net_from_str, Network};
use bal_server::server::{
    info_step, InfoAction,
    apply_address_setting, apply_fee_setting, is_txid_query, network_gate, parse_request_transactions,
    plan_push, setting_value, stat_value, stats_gate, NetConfig, PushPlan, Refusal, ServerConfig, SqlValue,
};

const TX1: &str = "020000000111111111111111111111111111111111111111111111111111111111111111110000000000fdffffff0260ea000000000000160014c0cebcd6c3d3ca8c75dc5ec62ebe55330ef910e23930000000000000160014000102030405060708090a0b0c0d0e0f1011121300350c00";
const TXID1: &str = "8038b71c1d5c685c4c28034bc4248261baf5455b31cab825e8a5405d6bccdc92";
const TX2: &str = "020000000111111111111111111111111111111111111111111111111111111111111111110000000000fdffffff011027000000000000160014c0cebcd6c3d3ca8c75dc5ec62ebe55330ef910e200350c00";
const TXID2: &str = "5a4c08289d91aa1353911319e95273d11e20fcd31e770715b5fe5c53339a66de";
const OURS: &str = "bc1qcr8te4kr609gcawutmrza0j4xv80jy8z306fyu";

fn config() -> ServerConfig {
    let mut mainnet = NetConfig::default_network("bitcoin".to_string(), Network::Bitcoin);
    apply_address_setting(&mut mainnet, OURS.to_string());
    apply_fee_setting(&mut mainnet, "50000");
    ServerConfig {
        regtest: NetConfig::default_network("regtest".to_string(), Network::Regtest),
        signet: NetConfig::default_network("signet".to_string(), Network::Signet),
        testnet: NetConfig::default_network("testnet".to_string(), Network::Testnet),
        testnet4: NetConfig::default_network("testnet4".to_string(), Network::Testnet4),
        mainnet,
        info: "Will Executor Server".to_string(),
        expose_stats: false,
    }
}

#[test]
fn settings_from_environment() {
    let mut c = NetConfig::default_network("signet".to_string(), Network::Signet);
    assert_eq!(c.fixed_fee, 50000);
    assert!(!c.enabled);
    apply_address_setting(&mut c, "tpubDCxX2sYFS5bDkSe5GKKYHjBW7tgyN1R3UchpLJvdbf54ohxeGRtd8MbDUe1cguVHe4vnK68DsuD5MXjxi9EXx16rb9EnNsaF5KT99CinaJz".to_string());
    assert!(c.xpub);
    assert!(c.enabled);
    apply_fee_setting(&mut c, "not a number");
    assert_eq!(c.fixed_fee, 50000);
    apply_fee_setting(&mut c, "123");
    assert_eq!(c.fixed_fee, 123);
    let mut d = NetConfig::default_network("bitcoin".to_string(), Network::Bitcoin);
    apply_address_setting(&mut d, "bc1qxyz".to_string());
    assert!(!d.xpub);
    assert!(d.enabled);
    assert_eq!(setting_value(Some("8"), u32::MAX as u64, 4), 8);
    assert_eq!(setting_value(Some("x"), u32::MAX as u64, 4), 4);
    assert_eq!(setting_value(Some("4294967296"), u32::MAX as u64, 4), 4);
    assert_eq!(setting_value(None, u64::MAX, 1048576), 1048576);
}

#[test]
fn request_gates() {
    let cfg = config();
    assert_eq!(network_gate(&cfg, "dogecoin").err(), Some(Refusal::UnknownNetwork));
    assert_eq!(network_gate(&cfg, "signet").err(), Some(Refusal::Disabled));
    assert_eq!(network_gate(&cfg, "bitcoin").unwrap().name, "bitcoin");
    assert_eq!(stats_gate(&cfg, "bitcoin").err(), Some(Refusal::StatsHidden));
    let mut cfg = cfg;
    cfg.expose_stats = true;
    assert!(stats_gate(&cfg, "bitcoin").is_ok());
    assert_eq!(cfg.get_net_config("unknown").name, "bitcoin");
    assert_eq!(net_from_str("testnet4"), Network::Testnet4);
    assert_eq!(net_from_str("mainnet"), Network::Bitcoin);
}

#[test]
fn statistics_columns() {
    assert_eq!(stat_value(Some("42".to_string())), 42);
    assert_eq!(stat_value(Some("-7".to_string())), -7);
    assert_eq!(stat_value(Some("4.5".to_string())), 0);
    assert_eq!(stat_value(None), 0);
}

#[test]
fn txid_queries() {
    assert!(is_txid_query(TXID1.as_bytes()));
    assert!(!is_txid_query(b"abc"));
    assert!(!is_txid_query(&[b'g'; 64]));
    assert!(!is_txid_query(b""));
}

#[test]
fn submitted_transactions() {
    let cfg = config();
    let nc = network_gate(&cfg, "bitcoin").unwrap();
    let body = format!("{}\n\nzz\n{}\n", TX1, TX2);
    let parsed = parse_request_transactions(&body, 0, nc, &vec![]);
    // TX2 pays only 10000, below the 50000 fee
    assert_eq!(parsed.len(), 1);
    let (p, addr, fees) = &parsed[0];
    assert_eq!(p.txid, TXID1);
    assert_eq!(p.wtxid, TXID1);
    assert_eq!(p.raw_hex, TX1);
    assert_eq!(p.locktime, "800000");
    assert_eq!(p.inputs, vec![("1111111111111111111111111111111111111111111111111111111111111111".to_string(), "0".to_string())]);
    assert_eq!(p.outputs.len(), 2);
    assert_eq!(p.outputs[0].0, 0);
    assert_eq!(p.outputs[0].2, 60000);
    assert_eq!(p.outputs[1].2, 12345);
    assert_eq!(addr, OURS);
    assert_eq!(*fees, 60000);

    let mut zero = NetConfig::default_network("bitcoin".to_string(), Network::Bitcoin);
    apply_address_setting(&mut zero, "bc1qsomethingelse".to_string());
    apply_fee_setting(&mut zero, "0");
    let all = parse_request_transactions(&body, 0, &zero, &vec![]);
    assert_eq!(all.len(), 2);
    assert_eq!(all[1].0.txid, TXID2);
    assert_eq!(all[1].1, "");
    assert_eq!(all[1].2, 0);

    let mut xpub = NetConfig::default_network("bitcoin".to_string(), Network::Bitcoin);
    apply_address_setting(&mut xpub, "zpub6rFR7y4Q2AijBEqTUquhVz398htDFrtymD9xYYfG1m4wAcvPhXNfE3EfH1r1ADqtfSdVCToUG868RvUUkgDKf31mGDtKsAYz2oz2AGutZYs".to_string());
    apply_fee_setting(&mut xpub, "10000");
    assert!(parse_request_transactions(&body, 0, &xpub, &vec![]).is_empty());
    let known = parse_request_transactions(&body, 0, &xpub, &vec![OURS.to_string()]);
    assert_eq!(known.len(), 2);
}

#[test]
fn storing_submissions() {
    let cfg = config();
    let nc = network_gate(&cfg, "bitcoin").unwrap();
    let parsed = parse_request_transactions(TX1, 0, nc, &vec![]);
    match plan_push(&parsed, &vec![TXID1.to_string()], 17, "bitcoin") {
        PushPlan::AlreadyPresent => {}
        PushPlan::Insert(_) => panic!("already stored"),
    }
    match plan_push(&parsed, &vec![], 17, "bitcoin") {
        PushPlan::AlreadyPresent => panic!("should insert"),
        PushPlan::Insert(plan) => {
            assert_eq!(
                plan.sqltxs,
                "INSERT INTO tbl_tx (txid, wtxid, ntxid, tx, locktime, reqid, network, our_address, our_fees) SELECT ?, ?, ?, ?, ?, ?, ?, ?, ?;"
            );
            assert_eq!(plan.ptx.len(), 9);
            assert_eq!(plan.ptx[5].0, 6);
            assert!(matches!(&plan.ptx[5].1, SqlValue::Text(t) if t == "17"));
            assert!(matches!(&plan.ptx[8].1, SqlValue::Text(t) if t == "60000"));
            assert_eq!(plan.sqlinps, "INSERT INTO tbl_inp (txid, in_txid, in_vout ) SELECT ?, ?, ?;");
            assert_eq!(plan.pinps.len(), 3);
            assert_eq!(
                plan.sqlouts,
                "INSERT INTO tbl_out (txid, vout, script_pubkey, amount ) SELECT ?, ?, ?, ? UNION ALL SELECT ?, ?, ?, ?;"
            );
            assert_eq!(plan.pouts.len(), 8);
            assert_eq!(plan.pouts[7].0, 8);
            assert!(matches!(&plan.pouts[5].1, SqlValue::Integer(1)));
            assert!(matches!(&plan.pouts[7].1, SqlValue::Integer(12345)));
        }
    }
}

#[test]
fn info_request_steps() {
    let cfg = config();
    match info_step(&cfg.mainnet, None) {
        InfoAction::Reply(a) => assert_eq!(a, OURS),
        _ => panic!("a fixed address is answered at once"),
    }
    let mut c = NetConfig::default_network("signet".to_string(), Network::Signet);
    apply_address_setting(&mut c, "tpubDCxX2sYFS5bDkSe5GKKYHjBW7tgyN1R3UchpLJvdbf54ohxeGRtd8MbDUe1cguVHe4vnK68DsuD5MXjxi9EXx16rb9EnNsaF5KT99CinaJz".to_string());
    assert!(matches!(info_step(&c, None), InfoAction::LookUpSaved));
    assert!(matches!(info_step(&c, Some(None)), InfoAction::DeriveNext));
    match info_step(&c, Some(Some("tb1qsaved".to_string()))) {
        InfoAction::Reply(a) => assert_eq!(a, "tb1qsaved"),
        _ => panic!("the saved address is reused"),
    }
}
