use bal_server::pusher::{
    auth_failure_message, auth_plan, encode_signature, is_block_notification, is_due, sign_message,
    sent_tx_update, stats_upsert_sql, weekly_backup_due, AuthMethod, SentTxState,
};
use bal_server::server::client_ip_candidate;
use bal_server::umbrel_api::{backup_listing, BackupFile};
use base64::Engine;

fn file(name: &str, modified: i64, is_file: bool) -> BackupFile {
    BackupFile { name: name.to_string(), size: 10, modified, is_file }
}

#[test]
fn forwarded_client_addresses() {
    assert_eq!(client_ip_candidate("203.0.113.7"), "203.0.113.7");
    assert_eq!(client_ip_candidate(" 203.0.113.7 , 10.0.0.1"), "203.0.113.7");
    assert_eq!(client_ip_candidate("\t2001:db8::1,"), "2001:db8::1");
    assert_eq!(client_ip_candidate(""), "");
    assert_eq!(client_ip_candidate(", 10.0.0.1"), "");
    assert_eq!(client_ip_candidate("\u{a0}1.2.3.4\u{3000}"), "1.2.3.4");
}

#[test]
fn backups_are_listed_newest_first() {
    let listed = backup_listing(vec![
        file("a.db", 10, true),
        file("notes.txt", 50, true),
        file("b.db", 30, true),
        file("dir.db", 40, false),
        file("c.db", 10, true),
        file("d.db", 20, true),
        file(".db", 5, true),
        file("db", 60, true),
    ]);
    let names: Vec<&str> = listed.iter().map(|f| f.name.as_str()).collect();
    assert_eq!(names, vec!["b.db", "d.db", "a.db", "c.db", ".db"]);
    assert!(backup_listing(vec![]).is_empty());
}

#[test]
fn report_signatures() {
    assert_eq!(encode_signature(b""), "");
    assert_eq!(encode_signature(b"f"), "Zg==");
    assert_eq!(encode_signature(b"fo"), "Zm8=");
    assert_eq!(encode_signature(b"foo"), "Zm9v");
    assert_eq!(encode_signature(b"foobar"), "Zm9vYmFy");
    assert_eq!(encode_signature(&[0xfb, 0xff]), "+/8=");

    let key = openssl::pkey::PKey::generate_ed25519().unwrap();
    let pem = key.private_key_to_pem_pkcs8().unwrap();
    let message = "http://x/bitcoin8500001700000000abcd";
    let sig_b64 = sign_message(&pem, message).unwrap();
    assert_eq!(sig_b64.len(), 88);
    let sig = base64::engine::general_purpose::STANDARD.decode(&sig_b64).unwrap();
    assert_eq!(sig.len(), 64);
    let mut verifier = openssl::sign::Verifier::new_without_digest(&key).unwrap();
    assert!(verifier.verify_oneshot(&sig, message.as_bytes()).unwrap());
    assert_eq!(sign_message(&pem, message).unwrap(), sig_b64);
    assert!(sign_message(b"not a key", message).is_none());
}

#[test]
fn watcher_round_texts() {
    let sql = stats_upsert_sql("signet");
    assert!(sql.starts_with("INSERT INTO tbl_stats (\n  report_date, chain,"));
    assert_eq!(sql.matches("'signet'").count(), 9);
    assert!(!sql.contains("{chain}"));
    assert!(sql.ends_with("unique_inputs = excluded.unique_inputs;\n  "));

    assert_eq!(auth_plan(true), vec![AuthMethod::Cookie, AuthMethod::UserPass, AuthMethod::Cookie]);
    assert_eq!(auth_plan(false), vec![AuthMethod::UserPass, AuthMethod::Cookie]);
    assert_eq!(
        auth_failure_message("401", "no file"),
        "all auth methods failed (user/pass: 401 | cookie: no file)"
    );

    assert!(is_block_notification(b"hashblock"));
    assert!(!is_block_notification(b"hashtx"));
    assert!(!is_block_notification(b"hashblocks"));
    assert!(!is_block_notification(b""));
}

#[test]
fn lock_times_come_due() {
    // block-height lock times
    assert!(is_due(850_000, 850_001, 1_700_000_000));
    assert!(!is_due(850_001, 850_001, 1_700_000_000));
    assert!(is_due(-1, 0, 0));
    // a height far ahead is not released by the clock
    assert!(!is_due(100_000_000, 850_000, 1_700_000_000));
    // the threshold itself is a Unix time, long past
    assert!(is_due(500_000_000, 850_000, 1_700_000_000));
    assert!(!is_due(500_000_000, 850_000, 500_000_000));
    assert!(is_due(499_999_999, 500_000_000, 0));
    // a Unix time is not released by the height
    assert!(!is_due(600_000_000, 700_000_000, 0));
    // Unix-time lock times
    assert!(is_due(1_600_000_000, 850_000, 1_700_000_000));
    assert!(!is_due(1_700_000_000, 850_000, 1_700_000_000));
    assert!(is_due(500_000_001, 0, 500_000_002));

    assert!(weekly_backup_due("7"));
    assert!(!weekly_backup_due("1"));
    assert!(!weekly_backup_due("07"));
}

#[test]
fn sent_transaction_updates() {
    assert_eq!(
        sent_tx_update("aa", SentTxState::Known(Some(3))).unwrap(),
        "UPDATE tbl_tx SET confirmations = 3 WHERE txid = 'aa'"
    );
    assert_eq!(
        sent_tx_update("aa", SentTxState::Known(None)).unwrap(),
        "UPDATE tbl_tx SET confirmations = 0 WHERE txid = 'aa'"
    );
    assert!(sent_tx_update("aa", SentTxState::InMempool).is_none());
    assert_eq!(
        sent_tx_update("aa", SentTxState::Missing).unwrap(),
        "UPDATE tbl_tx SET status = 2, confirmations = -1, push_err = 'double-spent: tx evicted from mempool' WHERE txid = 'aa'"
    );
}
