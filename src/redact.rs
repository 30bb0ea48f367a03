//! Deciding whether a host name may be written to a log verbatim.
use vstd::prelude::*;

verus! {

/// Host names under this suffix belong to the service and are safe to log.
pub const SIGNAL_DOMAIN_SUFFIX: &'static str = ".lavendarsolution.org";

/// What an untrusted host name is replaced with in log output.
pub const REDACTED: &'static str = "REDACTED";

/// `suffix` is a suffix of `s`.
pub open spec fn has_suffix(s: Seq<char>, suffix: Seq<char>) -> bool {
    suffix.len() <= s.len() && s.subrange(s.len() - suffix.len(), s.len() as int) == suffix
}

/// A domain that may be logged as it is: the loopback name, or one under the
/// service's own suffix.
pub open spec fn is_log_safe(domain: Seq<char>) -> bool {
    domain == "localhost"@ || has_suffix(domain, ".lavendarsolution.org"@)
}

/// The log-safe form of a domain.
pub open spec fn redacted(domain: Seq<char>) -> Seq<char> {
    if is_log_safe(domain) {
        domain
    } else {
        "REDACTED"@
    }
}

/// Relies on `<str as PartialEq>::eq`: two string slices are equal exactly
/// when they hold the same characters.
#[verifier::external_body]
fn str_equal(a: &str, b: &str) -> (r: bool)
    ensures
        r == (a@ == b@),
{
    a == b
}

/// Relies on `str::ends_with` with a `&str` pattern: true exactly when the
/// pattern is a suffix of the string.
#[verifier::external_body]
fn str_ends_with(s: &str, suffix: &str) -> (r: bool)
    ensures
        r == has_suffix(s@, suffix@),
{
    s.ends_with(suffix)
}

/// Returns `domain` itself when it is safe to log, else the placeholder.
pub fn log_safe_domain(domain: &str) -> (r: &str)
    ensures
        r@ == redacted(domain@),
{
    if str_equal(domain, "localhost") {
        domain
    } else if str_ends_with(domain, SIGNAL_DOMAIN_SUFFIX) {
        domain
    } else {
        REDACTED
    }
}

/// A domain comes back unchanged exactly when it is the loopback name or lies
/// under the service's suffix; every other domain becomes the placeholder. The
/// placeholder itself is left out: it comes back unchanged without being
/// trusted.
pub proof fn lemma_redaction(domain: Seq<char>)
    requires
        domain != "REDACTED"@,
    ensures
        (redacted(domain) == domain) <==> is_log_safe(domain),
        !is_log_safe(domain) ==> redacted(domain) == "REDACTED"@,
{
}

} // verus!
