use bal_server::validation::is_valid_welist_url;

#[test]
fn test_valid_domains() {
    assert!(is_valid_welist_url("https://welist.bitcoin-after.life"));
    assert!(is_valid_welist_url("https://welist.bitcoin-after.life:443"));
    assert!(is_valid_welist_url("https://example.com/ping"));
    assert!(is_valid_welist_url("https://a.b.c.d.example.com"));
    assert!(is_valid_welist_url("https://welist.onion.tor"));
}

#[test]
fn test_invalid_scheme() {
    assert!(!is_valid_welist_url("http://welist.bitcoin-after.life"));
    assert!(!is_valid_welist_url("ftp://welist.bitcoin-after.life"));
    assert!(!is_valid_welist_url("https://")); // no host
}

#[test]
fn test_localhost_and_loopback() {
    assert!(!is_valid_welist_url("https://localhost"));
    assert!(!is_valid_welist_url("https://localhost:8080"));
    assert!(
        !is_valid_welist_url("https://LOCALHOST"),
        "Uppercase localhost should be blocked"
    );
    assert!(!is_valid_welist_url("https://127.0.0.1"));
    assert!(!is_valid_welist_url("https://127.0.0.1:8080"));
    assert!(
        !is_valid_welist_url("https://127.0.0.2"),
        "Other loopback in 127/8 should be blocked"
    );
    assert!(
        !is_valid_welist_url("https://[::1]"),
        "IPv6 loopback literal should be blocked"
    );
    assert!(
        !is_valid_welist_url("https://::1"),
        "Raw IPv6 loopback without brackets should be invalid (parse fails)"
    );
}

#[test]
fn test_private_ips() {
    assert!(!is_valid_welist_url("https://192.168.1.1"));
    assert!(!is_valid_welist_url("https://10.0.0.1"));
    assert!(!is_valid_welist_url("https://172.16.0.1"));
    assert!(!is_valid_welist_url("https://172.31.255.255"));
    assert!(
        !is_valid_welist_url("https://169.254.169.254"),
        "AWS metadata link-local IP should be blocked"
    );
}

#[test]
fn test_unspecified_and_multicast() {
    assert!(!is_valid_welist_url("https://0.0.0.0"));
    assert!(!is_valid_welist_url("https://224.0.0.1"));
}

#[test]
fn test_ipv6_link_local() {
    assert!(
        !is_valid_welist_url("https://[fe80::1]"),
        "IPv6 link local should be blocked"
    );
}

#[test]
fn test_ipv6_unique_local() {
    assert!(
        !is_valid_welist_url("https://[fc00::1]"),
        "IPv6 unique local (fc00::/7) should be blocked"
    );
    assert!(
        !is_valid_welist_url("https://[fd00::1]"),
        "IPv6 unique local (fd00::7) should be blocked"
    );
}

#[test]
fn test_malformed_urls() {
    assert!(!is_valid_welist_url("not a url"));
    assert!(!is_valid_welist_url("welist.bitcoin-after.life")); // missing scheme
}

#[test]
fn test_valid_public_ip() {
    assert!(is_valid_welist_url("https://1.2.3.4"));
    assert!(is_valid_welist_url("https://8.8.8.8"));
}

#[test]
fn ipv4_mapped_ipv6_hosts() {
    assert!(!is_valid_welist_url("https://[::ffff:127.0.0.1]"));
    assert!(!is_valid_welist_url("https://[::ffff:10.0.0.1]"));
    assert!(!is_valid_welist_url("https://[::ffff:192.168.0.1]"));
    assert!(!is_valid_welist_url("https://[::ffff:169.254.169.254]"));
    assert!(is_valid_welist_url("https://[::ffff:8.8.8.8]"));
}
