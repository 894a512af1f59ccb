use talksage::webhook::{check_webhook_url, first_private_address, is_private_ip, parse_ipv4, IpPlain};

fn validate_offline(url: &str) -> Result<(), String> {
    // Name resolution is left out: a host name that needs it counts as allowed here.
    check_webhook_url(url).map(|_| ())
}

#[test]
fn validate_accepts_public_https() {
    assert!(validate_offline("https://hooks.example.com/x/y").is_ok());
    assert!(validate_offline("http://example.com/hook").is_ok());
    assert_eq!(check_webhook_url("https://hooks.example.com/x/y"), Ok(Some("hooks.example.com".to_string())));
    assert_eq!(check_webhook_url("http://8.8.8.8/x"), Ok(None));
}

#[test]
fn validate_rejects_non_http_and_bad() {
    assert!(validate_offline("ftp://x.com/h").is_err());
    assert!(validate_offline("not a url").is_err());
    assert!(validate_offline("https:///nohost").is_err());
    assert_eq!(check_webhook_url(" ftp://x ").unwrap_err(), "仅支持 http/https: ftp://x");
    assert_eq!(check_webhook_url("https:///nohost").unwrap_err(), "URL 缺少主机名");
}

#[test]
fn validate_rejects_private_and_loopback() {
    assert!(validate_offline("http://127.0.0.1:8080/hook").is_err());
    assert!(validate_offline("http://10.0.0.5/hook").is_err());
    assert!(validate_offline("http://192.168.1.1/hook").is_err());
    assert!(validate_offline("http://172.16.0.1/hook").is_err());
    assert!(validate_offline("http://169.254.169.254/latest/meta-data").is_err());
    assert!(validate_offline("http://localhost:3000/hook").is_err());
    assert!(validate_offline("http://[::1]:8080/hook").is_err());
    assert!(validate_offline("http://myhost.local/hook").is_err());
    assert_eq!(check_webhook_url("http://127.0.0.1:8080/hook").unwrap_err(), "拒绝内网/回环地址: 127.0.0.1");
    assert_eq!(check_webhook_url("http://MyHost.LOCAL/hook").unwrap_err(), "拒绝本地主机名: MyHost.LOCAL");
}

#[test]
fn ipv4_literals_are_strict_dotted_decimal() {
    let cases: [(&str, Option<(u8, u8, u8, u8)>); 12] = [
        ("1.2.3.4", Some((1, 2, 3, 4))),
        ("255.255.255.255", Some((255, 255, 255, 255))),
        ("0.0.0.0", Some((0, 0, 0, 0))),
        ("01.2.3.4", None),
        ("256.1.1.1", None),
        ("1.2.3", None),
        ("1.2.3.4.5", None),
        ("1..2.3", None),
        ("1234.1.1.1", None),
        ("+1.2.3.4", None),
        ("a.b.c.d", None),
        ("", None),
    ];
    for (text, expected) in cases {
        let cs: Vec<char> = text.chars().collect();
        assert_eq!(parse_ipv4(&cs), expected, "{text}");
    }
}

#[test]
fn resolved_addresses_are_checked_in_order() {
    let public = IpPlain::V4(93, 184, 216, 34);
    let cgnat = IpPlain::V4(100, 64, 0, 1);
    let ula = IpPlain::V6(0xfd00, 0, 0, 0, 0, 0, 0, 1);
    assert_eq!(first_private_address(&[public, cgnat, ula]), Some(1));
    assert_eq!(first_private_address(&[public]), None);
    assert!(is_private_ip(ula));
    assert!(is_private_ip(IpPlain::V6(0, 0, 0, 0, 0, 0, 0, 1)));
    assert!(!is_private_ip(IpPlain::V6(0x2001, 0xdb8, 0, 0, 0, 0, 0, 1)));
}
