use rdapx::classify::{classify, normalize, Kind};
use rdapx::endpoint::{classify_to_url, resolve};

#[test]
fn as_prefix_upper() {
    let id = classify("AS13335").unwrap();
    assert_eq!(id.kind, Kind::Asn);
    assert_eq!(id.normalized, "13335");
}

#[test]
fn as_prefix_lower() {
    let id = classify("as13335").unwrap();
    assert_eq!(id.kind, Kind::Asn);
    assert_eq!(id.normalized, "13335");
}

#[test]
fn as_prefix_odd_leading_run() {
    // the whole leading run from {A, a, S, s} is stripped
    let id = classify("Ass13335").unwrap();
    assert_eq!(id.kind, Kind::Asn);
    assert_eq!(id.normalized, "13335");
}

#[test]
fn as_prefix_rule_wins_over_dot() {
    // rule order: the AS rule runs before the dot check
    let id = classify("aaa.com").unwrap();
    assert_eq!(id.kind, Kind::Asn);
    assert_eq!(id.normalized, ".com");
}

#[test]
fn as_prefix_tolerates_non_numeric_rest() {
    // classification is loose here on purpose; the remote rejects it later
    let id = classify("Assam").unwrap();
    assert_eq!(id.kind, Kind::Asn);
    assert_eq!(id.normalized, "m");
}

#[test]
fn ipv4_literal() {
    let id = classify("1.1.1.1").unwrap();
    assert_eq!(id.kind, Kind::Ip);
    assert_eq!(id.normalized, "1.1.1.1");
}

#[test]
fn ipv4_literal_trimmed() {
    let id = classify("  192.168.0.1  ").unwrap();
    assert_eq!(id.kind, Kind::Ip);
    assert_eq!(id.normalized, "192.168.0.1");
}

#[test]
fn ipv4_rejects_large_octet() {
    // not a valid IPv4 literal, so the dot makes it a domain
    let id = classify("999.1.1.1").unwrap();
    assert_eq!(id.kind, Kind::Domain);
}

#[test]
fn ipv4_rejects_leading_zero_octet() {
    let id = classify("01.2.3.4").unwrap();
    assert_eq!(id.kind, Kind::Domain);
}

#[test]
fn ipv4_needs_four_octets() {
    let id = classify("1.2.3").unwrap();
    assert_eq!(id.kind, Kind::Domain);
    let id = classify("1.2.3.4.5").unwrap();
    assert_eq!(id.kind, Kind::Domain);
}

#[test]
fn ipv6_full_form() {
    let id = classify("2001:db8:0:0:0:0:0:1").unwrap();
    assert_eq!(id.kind, Kind::Ip);
    assert_eq!(id.normalized, "2001:db8:0:0:0:0:0:1");
}

#[test]
fn ipv6_compressed() {
    let id = classify("2001:db8::1").unwrap();
    assert_eq!(id.kind, Kind::Ip);
}

#[test]
fn ipv6_loopback() {
    let id = classify("::1").unwrap();
    assert_eq!(id.kind, Kind::Ip);
}

#[test]
fn ipv6_unspecified() {
    let id = classify("::").unwrap();
    assert_eq!(id.kind, Kind::Ip);
}

#[test]
fn ipv6_rejects_triple_colon() {
    assert!(classify(":::").is_err());
}

#[test]
fn ipv6_rejects_too_many_groups() {
    // eight groups around a :: leave nothing for it to stand for
    assert!(classify("1:2:3:4:5:6:7:8::9").is_err());
}

#[test]
fn domain_with_dot() {
    let id = classify("example.com").unwrap();
    assert_eq!(id.kind, Kind::Domain);
    assert_eq!(id.normalized, "example.com");
}

#[test]
fn domain_trimmed() {
    let id = classify("  example.com  ").unwrap();
    assert_eq!(id.kind, Kind::Domain);
    assert_eq!(id.normalized, "example.com");
}

#[test]
fn bare_number_is_asn() {
    let id = classify("13335").unwrap();
    assert_eq!(id.kind, Kind::Asn);
    assert_eq!(id.normalized, "13335");
}

#[test]
fn bare_number_max_u32() {
    let id = classify("4294967295").unwrap();
    assert_eq!(id.kind, Kind::Asn);
    assert_eq!(id.normalized, "4294967295");
}

#[test]
fn bare_number_too_large_rejected() {
    assert!(classify("4294967296").is_err());
}

#[test]
fn unclassifiable_rejected() {
    assert!(classify("???").is_err());
}

#[test]
fn empty_rejected() {
    assert!(classify("").is_err());
    assert!(classify("   ").is_err());
}

#[test]
fn normalize_matches_classify() {
    let (kind, norm) = normalize("AS64512").unwrap();
    assert_eq!(kind, Kind::Asn);
    assert_eq!(norm, "64512");
}

#[test]
fn url_for_domain() {
    assert_eq!(
        classify_to_url(Kind::Domain, "example.com"),
        "https://rdap.verisign.com/com/v1/domain/example.com"
    );
}

#[test]
fn url_for_ip() {
    assert_eq!(classify_to_url(Kind::Ip, "1.1.1.1"), "https://rdap.apnic.net/ip/1.1.1.1");
}

#[test]
fn url_for_asn() {
    assert_eq!(
        classify_to_url(Kind::Asn, "13335"),
        "https://rdap.arin.net/registry/autnum/13335"
    );
}

#[test]
fn resolve_classified_query() {
    let id = classify("AS13335").unwrap();
    assert_eq!(resolve(&id), "https://rdap.arin.net/registry/autnum/13335");
}

#[test]
fn ipv6_needs_eight_groups_without_compression() {
    assert!(classify("1:2:3:4:5:6:7").is_err());
    let id = classify("1:2:3:4:5:6:7:8").unwrap();
    assert_eq!(id.kind, Kind::Ip);
}

#[test]
fn ipv6_group_width_is_bounded() {
    // a group of five hex digits is invalid, and ':' keeps it from
    // matching any later rule
    assert!(classify("12345::1").is_err());
}

#[test]
fn plus_sign_is_not_a_bare_number() {
    assert!(classify("+13335").is_err());
}

#[test]
fn ipv6_with_mapped_ipv4_tail() {
    let id = classify("::ffff:1.2.3.4").unwrap();
    assert_eq!(id.kind, Kind::Ip);
    assert_eq!(id.normalized, "::ffff:1.2.3.4");
}

#[test]
fn ipv6_full_form_with_dotted_quad_tail() {
    // six groups plus a dotted quad standing for the last two
    let id = classify("0:0:0:0:0:ffff:192.0.2.1").unwrap();
    assert_eq!(id.kind, Kind::Ip);
}

#[test]
fn ipv6_compressed_with_dotted_quad_tail() {
    let id = classify("64:ff9b::192.0.2.33").unwrap();
    assert_eq!(id.kind, Kind::Ip);
}

#[test]
fn ipv6_tail_counts_as_two_units() {
    // seven groups leave no room for a dotted-quad tail
    let id = classify("1:2:3:4:5:6:7:1.2.3.4").unwrap();
    assert_eq!(id.kind, Kind::Domain);
}

#[test]
fn ipv6_tail_must_be_a_valid_quad() {
    let id = classify("::ffff:1.2.3.999").unwrap();
    assert_eq!(id.kind, Kind::Domain);
}
