use net_connect::redact::log_safe_domain;

#[test]
fn loopback_is_kept() {
    assert_eq!(log_safe_domain("localhost"), "localhost");
}

#[test]
fn trusted_suffix_is_kept() {
    assert_eq!(log_safe_domain("chat.lavendarsolution.org"), "chat.lavendarsolution.org");
    assert_eq!(log_safe_domain(".lavendarsolution.org"), ".lavendarsolution.org");
}

#[test]
fn untrusted_domains_are_redacted() {
    assert_eq!(log_safe_domain("direct-host"), "REDACTED");
    assert_eq!(log_safe_domain("lavendarsolution.org"), "REDACTED");
    assert_eq!(log_safe_domain("localhost.example"), "REDACTED");
    assert_eq!(log_safe_domain("chat.lavendarsolution.org.evil"), "REDACTED");
    assert_eq!(log_safe_domain(""), "REDACTED");
}

#[test]
fn placeholder_comes_back_unchanged() {
    assert_eq!(log_safe_domain("REDACTED"), "REDACTED");
}
