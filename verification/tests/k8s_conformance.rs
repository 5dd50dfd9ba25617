//! IP, CIDR, quantity and semver cases as Kubernetes' CEL library answers
//! them, checked against the library's functions.

use kube_cel::ip::{ip_is_canonical, is_ip, parse_cidr_net, parse_ip_addr, KubeCIDR, KubeIP};
use kube_cel::quantity::{parse_quantity_checked, KubeQuantity};
use kube_cel::semver_funcs::{is_semver, parse_semver, semver_compare_to, semver_is_greater_than, semver_is_less_than, KubeSemver};

/// What an address parser makes of `s`: the address and its printed form.
fn parsed_with_text(s: &str) -> Result<(KubeIP, String), String> {
    let v4: Result<ipnet::IpNet, _> = format!("{s}/32").parse();
    let net = match v4 {
        Ok(n) => n,
        Err(_) => format!("{s}/128").parse::<ipnet::IpNet>().map_err(|_| "invalid IP address syntax".to_string())?,
    };
    Ok(match net {
        ipnet::IpNet::V4(n) => (KubeIP::V4(u32::from(n.addr())), n.addr().to_string()),
        ipnet::IpNet::V6(n) => (KubeIP::V6(u128::from(n.addr())), n.addr().to_string()),
    })
}

fn parsed(s: &str) -> Result<KubeIP, String> {
    parsed_with_text(s).map(|p| p.0)
}

fn ip_of(s: &str) -> Result<KubeIP, String> {
    parse_ip_addr(s, parsed(s))
}

fn ip(s: &str) -> KubeIP {
    ip_of(s).unwrap()
}

fn cidr(s: &str) -> KubeCIDR {
    parse_cidr_net(s).unwrap()
}

fn canonical(s: &str) -> bool {
    let text = parsed_with_text(s).map(|p| p.1).unwrap_or_default();
    ip_is_canonical(s, parsed(s), &text)
}

fn q(s: &str) -> KubeQuantity {
    parse_quantity_checked(s).unwrap()
}

fn same_quantity(a: &KubeQuantity, b: &KubeQuantity) -> bool {
    a.compare(b).unwrap() == 0
}

fn sv(s: &str) -> KubeSemver {
    parse_semver(s, false).unwrap()
}

// IP

#[test]
fn k8s_conformance_parse_valid() {
    assert!(ip_of("192.168.0.1").is_ok());
}

#[test]
fn k8s_conformance_parse_invalid() {
    assert!(ip_of("192.168.0.1.0").is_err());
}

#[test]
fn is_ip_valid() {
    assert!(is_ip("192.168.0.1", parsed("192.168.0.1")));
}

#[test]
fn is_ip_invalid() {
    assert!(!is_ip("192.168.0.1.0", parsed("192.168.0.1.0")));
}

#[test]
fn is_canonical_v4() {
    assert!(canonical("127.0.0.1"));
}

#[test]
fn family_v4() {
    assert_eq!(ip("192.168.0.1").family(), 4);
}

#[test]
fn unspecified_v4_true() {
    assert!(ip("0.0.0.0").is_unspecified());
}

#[test]
fn unspecified_v4_false() {
    assert!(!ip("127.0.0.1").is_unspecified());
}

#[test]
fn loopback_v4_true() {
    assert!(ip("127.0.0.1").is_loopback());
}

#[test]
fn loopback_v4_false() {
    assert!(!ip("1.2.3.4").is_loopback());
}

#[test]
fn link_local_multicast_v4_true() {
    assert!(ip("224.0.0.1").is_link_local_multicast());
}

#[test]
fn link_local_multicast_v4_false() {
    assert!(!ip("224.0.1.1").is_link_local_multicast());
}

#[test]
fn link_local_unicast_v4_true() {
    assert!(ip("169.254.169.254").is_link_local_unicast());
}

#[test]
fn link_local_unicast_v4_false() {
    assert!(!ip("192.168.0.1").is_link_local_unicast());
}

#[test]
fn global_unicast_v4_true() {
    assert!(ip("192.168.0.1").is_global_unicast());
}

#[test]
fn global_unicast_v4_false() {
    assert!(!ip("255.255.255.255").is_global_unicast());
}

#[test]
fn k8s_conformance_parse_v6_valid() {
    assert!(ip_of("2001:db8::68").is_ok());
}

#[test]
fn parse_v6_invalid() {
    assert!(ip_of("2001:db8:::68").is_err());
}

#[test]
fn is_ip_v6_valid() {
    assert!(is_ip("2001:db8::68", parsed("2001:db8::68")));
}

#[test]
fn is_ip_v6_invalid() {
    assert!(!is_ip("2001:db8:::68", parsed("2001:db8:::68")));
}

#[test]
fn is_canonical_v6_true() {
    assert!(canonical("2001:db8::68"));
}

#[test]
fn is_canonical_v6_false() {
    assert!(!canonical("2001:DB8::68"));
}

#[test]
fn family_v6() {
    assert_eq!(ip("2001:db8::68").family(), 6);
}

#[test]
fn unspecified_v6_true() {
    assert!(ip("::").is_unspecified());
}

#[test]
fn unspecified_v6_false() {
    assert!(!ip("::1").is_unspecified());
}

#[test]
fn loopback_v6_true() {
    assert!(ip("::1").is_loopback());
}

#[test]
fn loopback_v6_false() {
    assert!(!ip("2001:db8::abcd").is_loopback());
}

#[test]
fn link_local_multicast_v6_true() {
    assert!(ip("ff02::1").is_link_local_multicast());
}

#[test]
fn link_local_multicast_v6_false() {
    assert!(!ip("fd00::1").is_link_local_multicast());
}

#[test]
fn link_local_unicast_v6_true() {
    assert!(ip("fe80::1").is_link_local_unicast());
}

#[test]
fn link_local_unicast_v6_false() {
    assert!(!ip("fd80::1").is_link_local_unicast());
}

#[test]
fn global_unicast_v6_true() {
    assert!(ip("2001:db8::abcd").is_global_unicast());
}

#[test]
fn global_unicast_v6_false() {
    assert!(!ip("ff00::1").is_global_unicast());
}

// CIDR

#[test]
fn k8s_conformance_cidr_parse_valid() {
    assert!(parse_cidr_net("192.168.0.0/24").is_ok());
}

#[test]
fn k8s_conformance_cidr_parse_invalid() {
    assert!(parse_cidr_net("192.168.0.0/").is_err());
}

#[test]
fn contains_ip_true() {
    assert!(cidr("192.168.0.0/24").contains_ip(&ip("192.168.0.1")));
}

#[test]
fn contains_ip_false() {
    assert!(!cidr("192.168.0.0/24").contains_ip(&ip("192.168.1.1")));
}

#[test]
fn contains_cidr_true() {
    assert!(cidr("192.168.0.0/24").contains_cidr(&cidr("192.168.0.0/25")));
}

#[test]
fn contains_cidr_32_true() {
    assert!(cidr("192.168.0.0/24").contains_cidr(&cidr("192.168.0.1/32")));
}

#[test]
fn contains_cidr_larger_false() {
    assert!(!cidr("192.168.0.0/24").contains_cidr(&cidr("192.168.0.0/23")));
}

#[test]
fn contains_cidr_outside_false() {
    assert!(!cidr("192.168.0.0/24").contains_cidr(&cidr("192.169.0.1/32")));
}

#[test]
fn prefix_length() {
    assert_eq!(cidr("192.168.0.0/24").prefix_length(), 24);
}

#[test]
fn k8s_conformance_cidr_parse_v6_valid() {
    assert!(parse_cidr_net("2001:db8::/32").is_ok());
}

#[test]
fn contains_ip_v6_true() {
    assert!(cidr("2001:db8::/32").contains_ip(&ip("2001:db8::1")));
}

#[test]
fn contains_ip_v6_false() {
    assert!(!cidr("2001:db8::/32").contains_ip(&ip("2001:dc8::1")));
}

#[test]
fn contains_cidr_v6_true() {
    assert!(cidr("2001:db8::/32").contains_cidr(&cidr("2001:db8::/33")));
}

#[test]
fn contains_cidr_v6_false() {
    assert!(!cidr("2001:db8::/32").contains_cidr(&cidr("2001:db8::/31")));
}

#[test]
fn prefix_length_v6() {
    assert_eq!(cidr("2001:db8::/32").prefix_length(), 32);
}

// Quantity

#[test]
fn k8s_conformance_quantity_parse_valid() {
    assert!(parse_quantity_checked("12Mi").is_ok());
}

#[test]
fn parse_invalid_suffix() {
    assert!(parse_quantity_checked("10Mo").is_err());
}

#[test]
fn is_quantity_true() {
    assert!(parse_quantity_checked("20").is_ok());
}

#[test]
fn is_quantity_megabytes() {
    assert!(parse_quantity_checked("20M").is_ok());
}

#[test]
fn is_quantity_mebibytes() {
    assert!(parse_quantity_checked("20Mi").is_ok());
}

#[test]
fn is_quantity_invalid_suffix() {
    assert!(parse_quantity_checked("20Mo").is_err());
}

#[test]
fn equality_reflexivity() {
    assert!(same_quantity(&q("200M"), &q("200M")));
}

#[test]
fn equality_symmetry() {
    assert!(same_quantity(&q("200M"), &q("0.2G")) && same_quantity(&q("0.2G"), &q("200M")));
}

#[test]
fn equality_transitivity() {
    assert!(
        same_quantity(&q("2M"), &q("0.002G"))
            && same_quantity(&q("2000k"), &q("2M"))
            && same_quantity(&q("0.002G"), &q("2000k"))
    );
}

#[test]
fn k8s_conformance_inequality() {
    assert!(!same_quantity(&q("200M"), &q("0.3G")));
}

#[test]
fn less_true() {
    assert!(q("50M").is_less_than(&q("50Mi")).unwrap());
}

#[test]
fn less_obvious() {
    assert!(q("50M").is_less_than(&q("100M")).unwrap());
}

#[test]
fn less_false() {
    assert!(!q("100M").is_less_than(&q("50M")).unwrap());
}

#[test]
fn greater_true() {
    assert!(q("50Mi").is_greater_than(&q("50M")).unwrap());
}

#[test]
fn greater_obvious() {
    assert!(q("150Mi").is_greater_than(&q("100Mi")).unwrap());
}

#[test]
fn greater_false() {
    assert!(!q("50M").is_greater_than(&q("100M")).unwrap());
}

#[test]
fn k8s_conformance_compare_equal() {
    assert_eq!(q("200M").compare(&q("0.2G")).unwrap(), 0);
}

#[test]
fn k8s_conformance_compare_less() {
    assert_eq!(q("50M").compare(&q("50Mi")).unwrap(), -1);
}

#[test]
fn k8s_conformance_compare_greater() {
    assert_eq!(q("50Mi").compare(&q("50M")).unwrap(), 1);
}

#[test]
fn add_quantity() {
    assert!(same_quantity(&q("50k").checked_add(&q("20")).unwrap(), &q("50.02k")));
}

#[test]
fn sub_quantity() {
    assert!(same_quantity(&q("50k").checked_sub(&q("20")).unwrap(), &q("49.98k")));
}

#[test]
fn sub_int() {
    assert!(same_quantity(&q("50k").checked_sub(&KubeQuantity::from_i128(20)).unwrap(), &q("49980")));
}

#[test]
fn as_integer() {
    assert_eq!(q("50k").as_integer().unwrap(), 50000);
}

#[test]
fn is_integer_true() {
    assert!(q("50").is_integer());
}

#[test]
fn as_approximate_float() {
    let v = q("50.703k");
    let f = v.mantissa() as f64 * 10f64.powi(v.scale());
    assert!((f - 50703.0).abs() < 0.01, "expected ~50703.0, got {f}");
}

#[test]
fn arith_chain() {
    let r = q("50k")
        .checked_add(&KubeQuantity::from_i128(20))
        .unwrap()
        .checked_sub(&q("100k"))
        .unwrap()
        .checked_sub(&KubeQuantity::from_i128(-50000))
        .unwrap();
    assert_eq!(r.as_integer().unwrap(), 20);
}

// Semver

#[test]
fn k8s_conformance_semver_parse_valid() {
    assert!(parse_semver("1.2.3", false).is_ok());
}

#[test]
fn k8s_conformance_semver_parse_invalid() {
    assert!(parse_semver("v1.0", false).is_err());
}

#[test]
fn is_semver_valid() {
    assert!(is_semver("1.2.3-beta.1+build.1", false));
}

#[test]
fn is_semver_empty() {
    assert!(!is_semver("", false));
}

#[test]
fn is_semver_v_prefix() {
    assert!(!is_semver("v1.0.0", false));
}

#[test]
fn is_semver_leading_space() {
    assert!(!is_semver(" 1.0.0", false));
}

#[test]
fn is_semver_inner_space() {
    assert!(!is_semver("1. 0.0", false));
}

#[test]
fn is_semver_trailing_space() {
    assert!(!is_semver("1.0.0 ", false));
}

#[test]
fn is_semver_leading_zeros() {
    assert!(!is_semver("01.01.01", false));
}

#[test]
fn is_semver_major_only() {
    assert!(!is_semver("1", false));
}

#[test]
fn is_semver_major_minor() {
    assert!(!is_semver("1.1", false));
}

#[test]
fn equality() {
    assert!(sv("1.2.3").same_as(&sv("1.2.3")));
}

#[test]
fn k8s_conformance_semver_inequality() {
    assert!(!sv("1.2.3").same_as(&sv("1.0.0")));
}

#[test]
fn less_than_true() {
    assert!(semver_is_less_than(&sv("1.0.0"), &sv("1.2.3")));
}

#[test]
fn less_than_equal() {
    assert!(!semver_is_less_than(&sv("1.0.0"), &sv("1.0.0")));
}

#[test]
fn greater_than_true() {
    assert!(semver_is_greater_than(&sv("1.2.3"), &sv("1.0.0")));
}

#[test]
fn greater_than_equal() {
    assert!(!semver_is_greater_than(&sv("1.0.0"), &sv("1.0.0")));
}

#[test]
fn k8s_conformance_semver_compare_equal() {
    assert_eq!(semver_compare_to(&sv("1.2.3"), &sv("1.2.3")), 0);
}

#[test]
fn k8s_conformance_semver_compare_less() {
    assert_eq!(semver_compare_to(&sv("1.0.0"), &sv("1.2.3")), -1);
}

#[test]
fn k8s_conformance_semver_compare_greater() {
    assert_eq!(semver_compare_to(&sv("1.2.3"), &sv("1.0.0")), 1);
}

#[test]
fn major() {
    assert_eq!(sv("1.2.3").major(), 1);
}

#[test]
fn minor() {
    assert_eq!(sv("1.2.3").minor(), 2);
}

#[test]
fn patch() {
    assert_eq!(sv("1.2.3").patch(), 3);
}
