use bal_server::server::SqlValue;
use bal_server::umbrel_api::{
    apply_settings, backup_config_path, backup_dir, check_logo_upload, data_dir, detect_image_format,
    is_safe_backup_filename, logo_path, mime_for_format, query_param,
    sanitize_hex_id, settings_path, total_output, txlist_query, txlist_statements,
    validate_backup_path, BackupPathError, BitcoinSettings, LogoError, SettingsError,
};

#[test]
fn query_param_reads_first_matching_pair() {
    let qs = "network=bitcoin&limit=10&search=ab%20cd&flag&limit=20";
    assert_eq!(query_param(qs, "network").as_deref(), Some("bitcoin"));
    assert_eq!(query_param(qs, "limit").as_deref(), Some("10"));
    assert_eq!(query_param(qs, "search").as_deref(), Some("ab%20cd"));
    assert_eq!(query_param(qs, "flag").as_deref(), Some(""));
    assert_eq!(query_param(qs, "missing"), None);
    assert_eq!(query_param("", "x"), None);
    assert_eq!(query_param("", "").as_deref(), Some(""));
    assert_eq!(query_param("a=b=c", "a").as_deref(), Some("b=c"));
}

#[test]
fn paths_next_to_the_database() {
    assert_eq!(data_dir("/data/bal.db"), "/data");
    assert_eq!(data_dir("bal.db"), "");
    assert_eq!(data_dir("/"), ".");
    assert_eq!(settings_path("/data/bal.db"), "/data/settings.json");
    assert_eq!(settings_path("bal.db"), "settings.json");
    assert_eq!(logo_path("/data/bal.db"), "/data/custom_logo");
    assert_eq!(backup_config_path("/data/bal.db"), "/data/backup_config.json");
    assert_eq!(backup_dir("", "/data/bal.db"), "/data/backup");
    assert_eq!(backup_dir("/mnt/backups", "/data/bal.db"), "/mnt/backups");
}

#[test]
fn image_formats_by_magic_bytes() {
    assert_eq!(detect_image_format(&[0x89, b'P', b'N', b'G', 0, 0]), Some("png"));
    assert_eq!(detect_image_format(&[0xff, 0xd8, 0xff, 0xe0]), Some("jpeg"));
    assert_eq!(detect_image_format(b"RIFF\x00\x00\x00\x00WEBPVP8 "), Some("webp"));
    assert_eq!(detect_image_format(b"  \n<svg xmlns='x'/>"), Some("svg"));
    assert_eq!(detect_image_format(b"<?xml version='1.0'?><svg/>"), Some("svg"));
    assert_eq!(detect_image_format(b"\xc2\xa0<svg/>"), Some("svg"));
    assert_eq!(detect_image_format(b"<html>"), None);
    assert_eq!(detect_image_format(b"abc"), None);
    assert_eq!(detect_image_format(b"RIFF\x00\x00\x00\x00WEB"), None);
    assert_eq!(detect_image_format(&[0xff, 0xfe, b'<', b's', b'v', b'g']), None);
}

#[test]
fn mime_types() {
    assert_eq!(mime_for_format("png"), "image/png");
    assert_eq!(mime_for_format("jpeg"), "image/jpeg");
    assert_eq!(mime_for_format("webp"), "image/webp");
    assert_eq!(mime_for_format("svg"), "image/svg+xml");
    assert_eq!(mime_for_format("gif"), "application/octet-stream");
}

#[test]
fn hex_ids_are_sanitized() {
    assert_eq!(sanitize_hex_id("ab'; DROP TABLE--cd"), "abDABEcd");
    assert_eq!(sanitize_hex_id(&"f".repeat(80)), "f".repeat(64));
    assert_eq!(sanitize_hex_id("xyz"), "");
}

#[test]
fn txlist_defaults_and_limits() {
    let q = txlist_query("");
    assert!(q.network.is_none());
    assert!(!q.show_failed);
    assert_eq!(q.search, "");
    assert_eq!(q.limit, 25);
    assert_eq!(q.offset, 0);
    assert_eq!(q.order_expr, "date_creation");
    assert_eq!(q.dir, "DESC");
    let st = txlist_statements(&q);
    assert_eq!(st.count_sql, "SELECT COUNT(*) AS c FROM tbl_tx WHERE 1=1 AND status IN (0,1)");
    assert_eq!(
        st.select_sql,
        "SELECT txid, network, our_fees, our_address, status, locktime, date_creation, confirmations FROM tbl_tx WHERE 1=1 AND status IN (0,1) ORDER BY date_creation DESC LIMIT ? OFFSET ?"
    );
    assert!(st.binds.is_empty());

    let q = txlist_query("network=signet&show_failed=1&search=Ab-9z&limit=500&offset=-3&sort=state&dir=asc");
    assert_eq!(q.network.as_deref(), Some("signet"));
    assert!(q.show_failed);
    assert_eq!(q.search, "Ab9");
    assert_eq!(q.limit, 200);
    assert_eq!(q.offset, 0);
    assert!(q.order_expr.starts_with("CASE WHEN status=0 THEN 0"));
    assert_eq!(q.dir, "ASC");
    let st = txlist_statements(&q);
    assert_eq!(st.count_sql, "SELECT COUNT(*) AS c FROM tbl_tx WHERE 1=1 AND network = ? AND txid LIKE ?");
    assert_eq!(st.binds.len(), 2);
    match &st.binds[1] {
        SqlValue::Text(t) => assert_eq!(t, "Ab9%"),
        _ => panic!("expected text"),
    }

    assert_eq!(txlist_query("limit=0").limit, 1);
    assert_eq!(txlist_query("limit=abc").limit, 25);
    assert_eq!(txlist_query("offset=40&sort=our_fees").offset, 40);
    assert_eq!(txlist_query("sort=our_fees").order_expr, "CAST(our_fees AS INTEGER)");
    assert!(txlist_query("network=").network.is_none());
}

#[test]
fn output_totals_skip_malformed_amounts() {
    let amounts = vec!["1000".to_string(), "x".to_string(), "+5".to_string(), "-3".to_string()];
    assert_eq!(total_output(&amounts), 1005);
    assert_eq!(total_output(&vec![]), 0);
}

fn settings(address: &str, fee: u64, info: &str, logo_text: &str, logo_format: &str) -> BitcoinSettings {
    BitcoinSettings {
        address: address.to_string(),
        fee,
        info: info.to_string(),
        logo_text: logo_text.to_string(),
        logo_format: logo_format.to_string(),
    }
}

#[test]
fn settings_updates() {
    let current = settings("bc1qcr8te4kr609gcawutmrza0j4xv80jy8z306fyu", 30000, "old", "Old", "png");
    let r = apply_settings(current, settings("", 0, "", "", "")).unwrap_err();
    assert_eq!(r, SettingsError::ZeroFee);

    let current = settings("bc1qcr8te4kr609gcawutmrza0j4xv80jy8z306fyu", 30000, "old", "Old", "png");
    let r = apply_settings(current, settings("tb1qnotmainnet", 1, "", "", "")).unwrap_err();
    assert_eq!(r, SettingsError::InvalidAddress);

    let current = settings("bc1qcr8te4kr609gcawutmrza0j4xv80jy8z306fyu", 30000, "old", "Old", "png");
    let s = apply_settings(current, settings("", 40000, "", &"x".repeat(31), "jpeg")).unwrap();
    assert_eq!(s.address, "bc1qcr8te4kr609gcawutmrza0j4xv80jy8z306fyu");
    assert_eq!(s.fee, 40000);
    assert_eq!(s.info, "old");
    assert_eq!(s.logo_text, "Old");
    assert_eq!(s.logo_format, "png");

    let current = settings("", 30000, "old", "Old", "");
    let s = apply_settings(
        current,
        settings("bc1qnjg0jd8228aq7egyzacy8cys3knf9xvrerkf9g", 5, "new", "New", ""),
    )
    .unwrap();
    assert_eq!(s.address, "bc1qnjg0jd8228aq7egyzacy8cys3knf9xvrerkf9g");
    assert_eq!(s.info, "new");
    assert_eq!(s.logo_text, "New");
}

#[test]
fn mainnet_addresses() {
    let accepts = |a: &str| apply_settings(settings("", 1, "", "", ""), settings(a, 1, "", "", "")).is_ok();
    assert!(accepts("bc1qcr8te4kr609gcawutmrza0j4xv80jy8z306fyu"));
    assert!(!accepts("tb1qw508d6qejxtdg4y5r3zarvary0c5xw7kxpjzsx"));
    assert!(!accepts("hello"));
}

#[test]
fn backup_path_settings() {
    assert_eq!(validate_backup_path(""), Ok(()));
    assert_eq!(validate_backup_path("/mnt/backup"), Ok(()));
    assert_eq!(validate_backup_path("relative/dir"), Err(BackupPathError::NotAbsolute));
    assert_eq!(validate_backup_path("/mnt/../etc"), Err(BackupPathError::ParentDir));
    assert_eq!(validate_backup_path("/mnt/.."), Err(BackupPathError::ParentDir));
    assert_eq!(validate_backup_path("/mnt/...x"), Ok(()));
}

#[test]
fn backup_file_names() {
    assert!(is_safe_backup_filename("bal-20250101.db"));
    assert!(!is_safe_backup_filename("../bal.db"));
    assert!(!is_safe_backup_filename("a..b"));
    assert!(!is_safe_backup_filename("dir/bal.db"));
    assert!(!is_safe_backup_filename("dir\\bal.db"));
    assert!(is_safe_backup_filename("a.b.c"));
}

#[test]
fn logo_uploads() {
    assert_eq!(check_logo_upload(&[0x89, b'P', b'N', b'G']), Ok("png"));
    assert_eq!(check_logo_upload(b"GIF89a"), Err(LogoError::UnsupportedFormat));
    let big = vec![0xffu8; 204801];
    assert_eq!(check_logo_upload(&big), Err(LogoError::TooLarge));
    let edge = vec![0xffu8, 0xd8].into_iter().chain(std::iter::repeat(0u8).take(204798)).collect::<Vec<u8>>();
    assert_eq!(check_logo_upload(&edge), Ok("jpeg"));
}
