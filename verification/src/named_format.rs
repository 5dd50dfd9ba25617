//! Named format validation (`format.dns1123Label()`, `format.uuid()`, ...).
//!
//! Each validator returns the list of problems with a string; an empty list
//! means the string is valid. Strings are examined through their UTF-8 bytes,
//! and lengths are byte lengths.
use vstd::prelude::*;
use vstd::string::StringSliceAdditionalSpecFns;
use crate::bytes::{
    ByteClass, all_in, alnum, alpha, last_byte_pos, lower, parse_u32_bytes, parse_u32_range,
    range_all_in, split_bytes, pieces, split_ranges, byte_pos, find_byte, rfind_byte, count_trailing,
    trailing_count, pos2, find2, last_pos2, last_pos2_from, rfind2, rfind2_from, lemma_last_pos2,
    lemma_last_pos2_from, digits_value_b,
};
use crate::text::{dec_digits, push_str, str_eq, string_of, u64_text};

verus! {

/// The text of a list of messages.
pub open spec fn msgs(v: Seq<String>) -> Seq<Seq<char>> {
    v.map_values(|x: String| x@)
}

/// One message when `c` holds, none otherwise.
pub open spec fn opt(c: bool, m: Seq<char>) -> Seq<Seq<char>> {
    if c {
        seq![m]
    } else {
        Seq::empty()
    }
}

/// Every message with `p` in front.
pub open spec fn prefix_all(p: Seq<char>, v: Seq<Seq<char>>) -> Seq<Seq<char>> {
    v.map_values(|m: Seq<char>| p + m)
}

/// `"must be no more than {limit} characters (is {len})"`.
pub open spec fn too_long(limit: nat, len: nat) -> Seq<char> {
    "must be no more than "@ + dec_digits(limit) + " characters (is "@ + dec_digits(len) + ")"@
}

pub open spec fn m_nonempty() -> Seq<char> {
    "must be non-empty"@
}

pub open spec fn m_dns_chars() -> Seq<char> {
    "must consist of lower case alphanumeric characters or '-'"@
}

pub open spec fn m_start_end() -> Seq<char> {
    "must start and end with an alphanumeric character"@
}

pub open spec fn m_start_lower() -> Seq<char> {
    "must start with a lowercase alphabetic character"@
}

pub open spec fn m_end_alnum() -> Seq<char> {
    "must end with an alphanumeric character"@
}

pub open spec fn m_start_alnum() -> Seq<char> {
    "must start with an alphanumeric character"@
}

pub open spec fn m_qn_chars() -> Seq<char> {
    "must consist of alphanumeric characters, '-', '_', or '.'"@
}

pub open spec fn m_prefix_nonempty() -> Seq<char> {
    "prefix must be non-empty"@
}

pub open spec fn m_scheme() -> Seq<char> {
    "must have a scheme (e.g., 'https:')"@
}

pub open spec fn m_invalid_scheme() -> Seq<char> {
    "invalid scheme"@
}

pub open spec fn m_uuid() -> Seq<char> {
    "must be in the form 8-4-4-4-12 (e.g., xxxxxxxx-xxxx-xxxx-xxxx-xxxxxxxxxxxx)"@
}

pub open spec fn m_base64() -> Seq<char> {
    "must be a valid base64 encoded string"@
}

pub open spec fn m_date_format() -> Seq<char> {
    "must be a date in YYYY-MM-DD format"@
}

pub open spec fn m_date() -> Seq<char> {
    "must be a valid date"@
}

pub open spec fn m_datetime() -> Seq<char> {
    "must be a valid RFC 3339 date-time"@
}

pub open spec fn m_timezone() -> Seq<char> {
    "must have a timezone"@
}

fn push_msg(out: &mut Vec<String>, m: String)
    ensures
        msgs(final(out)@) == msgs(old(out)@).push(m@),
{
    let ghost before = out@;
    out.push(m);
    proof {
        assert(msgs(out@) =~= msgs(before).push(m@));
    }
}

fn extend_msgs(out: &mut Vec<String>, more: Vec<String>)
    ensures
        msgs(final(out)@) == msgs(old(out)@) + msgs(more@),
{
    let ghost start = out@;
    let mut more = more;
    let mut rev: Vec<String> = Vec::new();
    let ghost m0 = more@;
    while more.len() > 0
        invariant
            msgs(m0) == msgs(more@) + msgs(rev@).reverse(),
        decreases more@.len(),
    {
        let ghost before_more = more@;
        let ghost before_rev = rev@;
        let x = more.pop().unwrap();
        rev.push(x);
        proof {
            assert(msgs(before_more) =~= msgs(more@).push(x@));
            assert(msgs(rev@) =~= msgs(before_rev).push(x@));
            assert(msgs(rev@).reverse() =~= seq![x@] + msgs(before_rev).reverse());
            assert(msgs(more@).push(x@) + msgs(before_rev).reverse() =~= msgs(more@) + (seq![x@]
                + msgs(before_rev).reverse()));
        }
    }
    proof {
        assert(msgs(more@) =~= Seq::<Seq<char>>::empty());
        assert(msgs(m0) =~= msgs(rev@).reverse());
    }
    while rev.len() > 0
        invariant
            msgs(out@) + msgs(rev@).reverse() == msgs(start) + msgs(m0),
        decreases rev@.len(),
    {
        let ghost before_rev = rev@;
        let ghost before_out = out@;
        let x = rev.pop().unwrap();
        out.push(x);
        proof {
            assert(msgs(before_rev) =~= msgs(rev@).push(x@));
            assert(msgs(before_rev).reverse() =~= seq![x@] + msgs(rev@).reverse());
            assert(msgs(out@) =~= msgs(before_out).push(x@));
            assert(msgs(out@) + msgs(rev@).reverse() =~= msgs(before_out) + msgs(before_rev).reverse());
        }
    }
    proof {
        assert(msgs(rev@) =~= Seq::<Seq<char>>::empty());
        assert(msgs(out@) =~= msgs(out@) + msgs(rev@).reverse());
    }
}

fn prefixed(p: &str, v: Vec<String>) -> (r: Vec<String>)
    ensures
        msgs(r@) == prefix_all(p@, msgs(v@)),
{
    let mut r: Vec<String> = Vec::new();
    let mut i: usize = 0;
    while i < v.len()
        invariant
            i <= v@.len(),
            msgs(r@) == prefix_all(p@, msgs(v@.take(i as int))),
        decreases v@.len() - i,
    {
        let mut m = string_of(p);
        push_str(&mut m, v[i].as_str());
        let ghost before = r@;
        r.push(m);
        i = i + 1;
        proof {
            assert(msgs(v@.take(i as int)) =~= msgs(v@.take(i - 1)).push(v@[i - 1]@));
            assert(msgs(r@) =~= msgs(before).push(m@));
            assert(msgs(r@) =~= prefix_all(p@, msgs(v@.take(i as int))));
        }
    }
    proof {
        assert(v@.take(v@.len() as int) =~= v@);
    }
    r
}

fn too_long_msg(limit: u64, len: u64) -> (r: String)
    ensures
        r@ == too_long(limit as nat, len as nat),
{
    let mut r = string_of("must be no more than ");
    push_str(&mut r, u64_text(limit).as_str());
    push_str(&mut r, " characters (is ");
    push_str(&mut r, u64_text(len).as_str());
    push_str(&mut r, ")");
    proof {
        assert(r@ =~= too_long(limit as nat, len as nat));
    }
    r
}

// ---------------------------------------------------------------------------
// DNS labels and subdomains
// ---------------------------------------------------------------------------

/// Problems with `s` as an RFC 1123 DNS label.
pub open spec fn dns1123_label_errors(s: Seq<u8>) -> Seq<Seq<char>> {
    if s.len() == 0 {
        seq![m_nonempty()]
    } else {
        opt(s.len() > 63, too_long(63, s.len())) + opt(!all_in(s, ByteClass::Dns), m_dns_chars())
            + opt(s[0] == 45 || s.last() == 45, m_start_end())
    }
}

/// Problems with `s` as an RFC 1035 DNS label.
pub open spec fn dns1035_label_errors(s: Seq<u8>) -> Seq<Seq<char>> {
    if s.len() == 0 {
        seq![m_nonempty()]
    } else {
        opt(s.len() > 63, too_long(63, s.len())) + opt(!all_in(s, ByteClass::Dns), m_dns_chars())
            + opt(!lower(s[0]), m_start_lower()) + opt(s.last() == 45, m_end_alnum())
    }
}

/// Problems with `s` as the prefix of an RFC 1035 DNS label (a trailing `-`
/// is allowed).
pub open spec fn dns1035_label_prefix_errors(s: Seq<u8>) -> Seq<Seq<char>> {
    if s.len() == 0 {
        seq![m_nonempty()]
    } else {
        opt(s.len() > 63, too_long(63, s.len())) + opt(!all_in(s, ByteClass::Dns), m_dns_chars())
            + opt(!lower(s[0]), m_start_lower())
    }
}

/// Problems with `s` as the prefix of an RFC 1123 DNS label (a trailing `-`
/// is allowed).
pub open spec fn dns1123_label_prefix_errors(s: Seq<u8>) -> Seq<Seq<char>> {
    if s.len() == 0 {
        seq![m_nonempty()]
    } else {
        opt(s.len() > 63, too_long(63, s.len())) + opt(!all_in(s, ByteClass::Dns), m_dns_chars())
            + opt(s[0] == 45, m_start_alnum())
    }
}

/// The label problems of every piece, in order.
pub open spec fn labels_errors(parts: Seq<Seq<u8>>) -> Seq<Seq<char>>
    decreases parts.len(),
{
    if parts.len() == 0 {
        Seq::empty()
    } else {
        labels_errors(parts.drop_last()) + dns1123_label_errors(parts.last())
    }
}

/// Like [`labels_errors`], with the last piece checked as a label prefix.
pub open spec fn labels_prefix_errors(parts: Seq<Seq<u8>>) -> Seq<Seq<char>> {
    if parts.len() == 0 {
        Seq::empty()
    } else {
        labels_errors(parts.drop_last()) + dns1123_label_prefix_errors(parts.last())
    }
}

/// Problems with `s` as an RFC 1123 DNS subdomain.
pub open spec fn dns1123_subdomain_errors(s: Seq<u8>) -> Seq<Seq<char>> {
    if s.len() == 0 {
        seq![m_nonempty()]
    } else {
        opt(s.len() > 253, too_long(253, s.len())) + labels_errors(split_bytes(s, 46))
    }
}

/// Problems with `s` as the prefix of an RFC 1123 DNS subdomain.
pub open spec fn dns1123_subdomain_prefix_errors(s: Seq<u8>) -> Seq<Seq<char>> {
    if s.len() == 0 {
        seq![m_nonempty()]
    } else {
        opt(s.len() > 253, too_long(253, s.len())) + labels_prefix_errors(split_bytes(s, 46))
    }
}

fn label_like(s: &[u8], kind: u8) -> (r: Vec<String>)
    requires
        kind < 4,
    ensures
        kind == 0 ==> msgs(r@) == dns1123_label_errors(s@),
        kind == 1 ==> msgs(r@) == dns1035_label_errors(s@),
        kind == 2 ==> msgs(r@) == dns1123_label_prefix_errors(s@),
        kind == 3 ==> msgs(r@) == dns1035_label_prefix_errors(s@),
{
    let mut errors: Vec<String> = Vec::new();
    let n = s.len();
    if n == 0 {
        push_msg(&mut errors, string_of("must be non-empty"));
        proof {
            assert(msgs(errors@) =~= seq![m_nonempty()]);
        }
        return errors;
    }
    let ghost e0 = msgs(errors@);
    proof {
        assert(e0 =~= Seq::<Seq<char>>::empty());
    }
    if n > 63 {
        push_msg(&mut errors, too_long_msg(63, n as u64));
    }
    let ghost e1 = msgs(errors@);
    proof {
        assert(e1 =~= opt(s@.len() > 63, too_long(63, s@.len())));
    }
    if !range_all_in(s, 0, n, ByteClass::Dns) {
        push_msg(&mut errors, string_of("must consist of lower case alphanumeric characters or '-'"));
    }
    proof {
        assert(s@.subrange(0, n as int) =~= s@);
    }
    let ghost e2 = msgs(errors@);
    proof {
        assert(e2 =~= e1 + opt(!all_in(s@, ByteClass::Dns), m_dns_chars()));
    }
    let first = s[0];
    let last = s[n - 1];
    if kind == 0 {
        if first == 45 || last == 45 {
            push_msg(&mut errors, string_of("must start and end with an alphanumeric character"));
        }
        proof {
            assert(msgs(errors@) =~= e2 + opt(s@[0] == 45 || s@.last() == 45, m_start_end()));
        }
    } else if kind == 3 {
        if !(97 <= first && first <= 122) {
            push_msg(&mut errors, string_of("must start with a lowercase alphabetic character"));
        }
        proof {
            assert(msgs(errors@) =~= e2 + opt(!lower(s@[0]), m_start_lower()));
        }
    } else if kind == 1 {
        if !(97 <= first && first <= 122) {
            push_msg(&mut errors, string_of("must start with a lowercase alphabetic character"));
        }
        let ghost e3 = msgs(errors@);
        proof {
            assert(e3 =~= e2 + opt(!lower(s@[0]), m_start_lower()));
        }
        if last == 45 {
            push_msg(&mut errors, string_of("must end with an alphanumeric character"));
        }
        proof {
            assert(msgs(errors@) =~= e3 + opt(s@.last() == 45, m_end_alnum()));
        }
    } else {
        if first == 45 {
            push_msg(&mut errors, string_of("must start with an alphanumeric character"));
        }
        proof {
            assert(msgs(errors@) =~= e2 + opt(s@[0] == 45, m_start_alnum()));
        }
    }
    errors
}

fn subdomain_like(s: &[u8], prefix_last: bool) -> (r: Vec<String>)
    ensures
        !prefix_last ==> msgs(r@) == dns1123_subdomain_errors(s@),
        prefix_last ==> msgs(r@) == dns1123_subdomain_prefix_errors(s@),
{
    let mut errors: Vec<String> = Vec::new();
    let n = s.len();
    if n == 0 {
        push_msg(&mut errors, string_of("must be non-empty"));
        proof {
            assert(msgs(errors@) =~= seq![m_nonempty()]);
        }
        return errors;
    }
    if n > 253 {
        push_msg(&mut errors, too_long_msg(253, n as u64));
    }
    let ghost e1 = msgs(errors@);
    proof {
        assert(e1 =~= opt(s@.len() > 253, too_long(253, s@.len())));
    }
    let ranges = split_ranges(s, 46);
    let ghost parts = split_bytes(s@, 46);
    let k = ranges.len();
    proof {
        assert(pieces(s@, ranges@).len() == k);
        assert(k >= 1) by {
            let b = byte_pos(s@, 46);
            if b < s@.len() {
                assert(parts.len() >= 1);
            }
        }
    }
    let mut i: usize = 0;
    while i < k
        invariant
            i <= k == ranges@.len(),
            pieces(s@, ranges@) == parts,
            forall|j: int| 0 <= j < ranges@.len() ==> (#[trigger] ranges@[j]).0 <= ranges@[j].1
                <= s@.len(),
            msgs(errors@) == e1 + if prefix_last && i == k {
                labels_prefix_errors(parts)
            } else {
                labels_errors(parts.take(i as int))
            },
        decreases k - i,
    {
        let (a, b) = ranges[i];
        let piece = &s[a..b];
        proof {
            assert(piece@ == parts[i as int]);
            assert(parts.take(i + 1).drop_last() =~= parts.take(i as int));
            assert(parts.take(i + 1).last() == parts[i as int]);
        }
        let ghost before = msgs(errors@);
        if prefix_last && i + 1 == k {
            let more = label_like(piece, 2);
            extend_msgs(&mut errors, more);
            proof {
                assert(parts.take(i as int) =~= parts.drop_last());
                assert(msgs(errors@) =~= e1 + labels_prefix_errors(parts));
            }
        } else {
            let more = label_like(piece, 0);
            extend_msgs(&mut errors, more);
            proof {
                assert(msgs(errors@) =~= e1 + labels_errors(parts.take(i + 1)));
            }
        }
        i = i + 1;
    }
    proof {
        assert(parts.take(k as int) =~= parts);
    }
    errors
}

// ---------------------------------------------------------------------------
// Qualified names and label values
// ---------------------------------------------------------------------------

/// Problems with `s` as the name part of a qualified name.
pub open spec fn qualified_local_errors(s: Seq<u8>) -> Seq<Seq<char>> {
    if s.len() == 0 {
        seq![m_nonempty()]
    } else {
        label_value_body_errors(s)
    }
}

/// The checks shared by qualified-name parts and label values.
pub open spec fn label_value_body_errors(s: Seq<u8>) -> Seq<Seq<char>> {
    opt(s.len() > 63, too_long(63, s.len())) + opt(!all_in(s, ByteClass::Qualified), m_qn_chars())
        + opt(!alnum(s[0]), m_start_alnum()) + opt(!alnum(s.last()), m_end_alnum())
}

/// Problems with `s` as a label value (the empty string is valid).
pub open spec fn label_value_errors(s: Seq<u8>) -> Seq<Seq<char>> {
    if s.len() == 0 {
        Seq::empty()
    } else {
        label_value_body_errors(s)
    }
}

/// Problems with `s` as a qualified name (`[prefix/]name`).
pub open spec fn qualified_name_errors(s: Seq<u8>) -> Seq<Seq<char>> {
    if s.len() == 0 {
        seq![m_nonempty()]
    } else {
        match last_byte_pos(s, 47) {
            Some(p) => (if p == 0 {
                seq![m_prefix_nonempty()]
            } else {
                prefix_all("prefix: "@, dns1123_subdomain_errors(s.take(p as int)))
            }) + prefix_all("name: "@, qualified_local_errors(s.skip((p + 1) as int))),
            None => qualified_local_errors(s),
        }
    }
}

fn value_body(s: &[u8]) -> (r: Vec<String>)
    requires
        s@.len() > 0,
    ensures
        msgs(r@) == label_value_body_errors(s@),
{
    let mut errors: Vec<String> = Vec::new();
    let n = s.len();
    if n > 63 {
        push_msg(&mut errors, too_long_msg(63, n as u64));
    }
    let ghost e1 = msgs(errors@);
    proof {
        assert(e1 =~= opt(s@.len() > 63, too_long(63, s@.len())));
    }
    if !range_all_in(s, 0, n, ByteClass::Qualified) {
        push_msg(&mut errors, string_of("must consist of alphanumeric characters, '-', '_', or '.'"));
    }
    proof {
        assert(s@.subrange(0, n as int) =~= s@);
    }
    let ghost e2 = msgs(errors@);
    proof {
        assert(e2 =~= e1 + opt(!all_in(s@, ByteClass::Qualified), m_qn_chars()));
    }
    let first = s[0];
    if !crate::bytes::byte_in_class(ByteClass::Qualified, first) || first == 45 || first == 95
        || first == 46 {
        push_msg(&mut errors, string_of("must start with an alphanumeric character"));
    }
    let ghost e3 = msgs(errors@);
    proof {
        assert(e3 =~= e2 + opt(!alnum(s@[0]), m_start_alnum()));
    }
    let last = s[n - 1];
    if !crate::bytes::byte_in_class(ByteClass::Qualified, last) || last == 45 || last == 95 || last
        == 46 {
        push_msg(&mut errors, string_of("must end with an alphanumeric character"));
    }
    proof {
        assert(msgs(errors@) =~= e3 + opt(!alnum(s@.last()), m_end_alnum()));
    }
    errors
}

fn qualified_local(s: &[u8]) -> (r: Vec<String>)
    ensures
        msgs(r@) == qualified_local_errors(s@),
{
    if s.len() == 0 {
        let mut errors: Vec<String> = Vec::new();
        push_msg(&mut errors, string_of("must be non-empty"));
        proof {
            assert(msgs(errors@) =~= seq![m_nonempty()]);
        }
        return errors;
    }
    value_body(s)
}

fn label_value(s: &[u8]) -> (r: Vec<String>)
    ensures
        msgs(r@) == label_value_errors(s@),
{
    if s.len() == 0 {
        let errors: Vec<String> = Vec::new();
        proof {
            assert(msgs(errors@) =~= Seq::<Seq<char>>::empty());
        }
        return errors;
    }
    value_body(s)
}

fn qualified_name(s: &[u8]) -> (r: Vec<String>)
    ensures
        msgs(r@) == qualified_name_errors(s@),
{
    let n = s.len();
    if n == 0 {
        let mut errors: Vec<String> = Vec::new();
        push_msg(&mut errors, string_of("must be non-empty"));
        proof {
            assert(msgs(errors@) =~= seq![m_nonempty()]);
        }
        return errors;
    }
    match rfind_byte(s, 47) {
        Some(p) => {
            proof {
                lemma_last_byte_pos_bound(s@, 47);
            }
            let mut errors: Vec<String> = Vec::new();
            if p == 0 {
                push_msg(&mut errors, string_of("prefix must be non-empty"));
                proof {
                    assert(msgs(errors@) =~= seq![m_prefix_nonempty()]);
                }
            } else {
                let prefix = &s[0..p];
                proof {
                    assert(prefix@ =~= s@.take(p as int));
                }
                let pe = subdomain_like(prefix, false);
                errors = prefixed("prefix: ", pe);
            }
            let name = &s[p + 1..n];
            proof {
                assert(name@ =~= s@.skip(p + 1));
            }
            let ne = qualified_local(name);
            let ne = prefixed("name: ", ne);
            extend_msgs(&mut errors, ne);
            errors
        },
        None => qualified_local(s),
    }
}

proof fn lemma_last_byte_pos_bound(s: Seq<u8>, c: u8)
    ensures
        last_byte_pos(s, c) matches Some(p) ==> p < s.len() && s[p as int] == c,
    decreases s.len(),
{
    if s.len() > 0 && s.last() != c {
        lemma_last_byte_pos_bound(s.drop_last(), c);
    }
}

// ---------------------------------------------------------------------------
// URI, UUID and base64
// ---------------------------------------------------------------------------

/// Problems with `s` as a URI: it needs a scheme (`letter (alnum | + | - | .)*`)
/// before its first `:`.
pub open spec fn uri_errors(s: Seq<u8>) -> Seq<Seq<char>> {
    if s.len() == 0 {
        seq![m_nonempty()]
    } else if byte_pos(s, 58) == s.len() {
        seq![m_scheme()]
    } else {
        let scheme = s.take(byte_pos(s, 58) as int);
        opt(scheme.len() == 0 || !alpha(scheme[0]) || !all_in(scheme, ByteClass::Scheme), m_invalid_scheme())
    }
}

/// The length of the `i`-th group of a UUID.
pub open spec fn uuid_group_len(i: int) -> nat {
    if i == 4 {
        12
    } else if i == 0 {
        8
    } else {
        4
    }
}

/// `s` has the UUID shape: five `-`-separated groups of 8, 4, 4, 4 and 12 hex digits.
pub open spec fn uuid_ok(s: Seq<u8>) -> bool {
    let parts = split_bytes(s, 45);
    &&& parts.len() == 5
    &&& forall|i: int| 0 <= i < 5 ==> (#[trigger] parts[i]).len() == uuid_group_len(i) && all_in(parts[i], ByteClass::Hex)
}

/// Problems with `s` as a UUID.
pub open spec fn uuid_errors(s: Seq<u8>) -> Seq<Seq<char>> {
    opt(!uuid_ok(s), m_uuid())
}

/// `s` is base64 (standard or URL-safe alphabet), with at most two `=` of
/// padding; unpadded, its length is not 1 modulo 4; padded, its length is a
/// multiple of 4. The empty string is valid.
pub open spec fn base64_ok(s: Seq<u8>) -> bool {
    let pad = trailing_count(s, 61);
    let body = s.take(s.len() - pad);
    s.len() == 0 || (all_in(body, ByteClass::Base64) && pad <= 2 && body.len() % 4 != 1 && (pad == 0
        || s.len() % 4 == 0))
}

/// Problems with `s` as base64 data.
pub open spec fn byte_errors(s: Seq<u8>) -> Seq<Seq<char>> {
    opt(!base64_ok(s), m_base64())
}

fn uri(s: &[u8]) -> (r: Vec<String>)
    ensures
        msgs(r@) == uri_errors(s@),
{
    let mut errors: Vec<String> = Vec::new();
    let n = s.len();
    if n == 0 {
        push_msg(&mut errors, string_of("must be non-empty"));
        proof {
            assert(msgs(errors@) =~= seq![m_nonempty()]);
        }
        return errors;
    }
    let p = find_byte(s, 0, n, 58);
    proof {
        assert(s@.subrange(0, n as int) =~= s@);
    }
    if p == n {
        push_msg(&mut errors, string_of("must have a scheme (e.g., 'https:')"));
        proof {
            assert(msgs(errors@) =~= seq![m_scheme()]);
        }
        return errors;
    }
    let ok = p > 0 && (65 <= s[0] && s[0] <= 90 || 97 <= s[0] && s[0] <= 122) && range_all_in(
        s,
        0,
        p,
        ByteClass::Scheme,
    );
    if !ok {
        push_msg(&mut errors, string_of("invalid scheme"));
    }
    proof {
        let scheme = s@.take(p as int);
        assert(s@.subrange(0, p as int) =~= scheme);
        if p > 0 {
            assert(scheme[0] == s@[0]);
        }
        assert(msgs(errors@) =~= uri_errors(s@));
    }
    errors
}

fn uuid(s: &[u8]) -> (r: Vec<String>)
    ensures
        msgs(r@) == uuid_errors(s@),
{
    let ranges = split_ranges(s, 45);
    let ghost parts = split_bytes(s@, 45);
    let mut ok = ranges.len() == 5;
    if ok {
        let mut i: usize = 0;
        while i < 5
            invariant
                ranges@.len() == 5,
                parts == split_bytes(s@, 45),
                pieces(s@, ranges@) == parts,
                forall|j: int| 0 <= j < ranges@.len() ==> (#[trigger] ranges@[j]).0 <= ranges@[j].1
                    <= s@.len(),
                i <= 5,
                ok ==> forall|j: int| 0 <= j < i ==> (#[trigger] parts[j]).len() == uuid_group_len(j)
                    && all_in(parts[j], ByteClass::Hex),
                !ok ==> !uuid_ok(s@),
            decreases 5 - i,
        {
            let (a, b) = ranges[i];
            let want: usize = if i == 4 {
                12
            } else if i == 0 {
                8
            } else {
                4
            };
            proof {
                assert(parts[i as int] == s@.subrange(a as int, b as int));
            }
            if ok && !(b - a == want && range_all_in(s, a, b, ByteClass::Hex)) {
                proof {
                    let part = parts[i as int];
                    assert(!(part.len() == uuid_group_len(i as int) && all_in(part, ByteClass::Hex)));
                }
                ok = false;
            }
            i = i + 1;
        }
    }
    let mut errors: Vec<String> = Vec::new();
    if !ok {
        push_msg(&mut errors, string_of("must be in the form 8-4-4-4-12 (e.g., xxxxxxxx-xxxx-xxxx-xxxx-xxxxxxxxxxxx)"));
    }
    proof {
        assert(msgs(errors@) =~= uuid_errors(s@));
    }
    errors
}

fn byte(s: &[u8]) -> (r: Vec<String>)
    ensures
        msgs(r@) == byte_errors(s@),
{
    let n = s.len();
    let pad = count_trailing(s, 61);
    let body = n - pad;
    let ok = n == 0 || (range_all_in(s, 0, body, ByteClass::Base64) && pad <= 2 && body % 4 != 1 && (
    pad == 0 || n % 4 == 0));
    proof {
        assert(s@.subrange(0, body as int) =~= s@.take(s@.len() - trailing_count(s@, 61)));
    }
    let mut errors: Vec<String> = Vec::new();
    if !ok {
        push_msg(&mut errors, string_of("must be a valid base64 encoded string"));
    }
    proof {
        assert(msgs(errors@) =~= byte_errors(s@));
    }
    errors
}

// ---------------------------------------------------------------------------
// Dates and times
// ---------------------------------------------------------------------------

/// Gregorian leap years.
pub open spec fn leap(year: nat) -> bool {
    (year % 4 == 0 && year % 100 != 0) || year % 400 == 0
}

/// The number of days of `month` (1 to 12) in `year`; 0 for any other month.
pub open spec fn month_days(year: nat, month: nat) -> nat {
    if month == 1 || month == 3 || month == 5 || month == 7 || month == 8 || month == 10 || month
        == 12 {
        31
    } else if month == 4 || month == 6 || month == 9 || month == 11 {
        30
    } else if month == 2 {
        if leap(year) {
            29
        } else {
            28
        }
    } else {
        0
    }
}

/// Whether `year` is a leap year.
pub fn is_leap_year(year: u32) -> (r: bool)
    ensures
        r == leap(year as nat),
        r == (gregorian_days(year as int, 2) == 29),
{
    (year % 4 == 0 && year % 100 != 0) || year % 400 == 0
}

/// The number of days in `month` of `year`, 0 when `month` is not 1 to 12.
pub fn days_in_month(year: u32, month: u32) -> (r: u32)
    ensures
        r == month_days(year as nat, month as nat),
        1 <= month <= 12 ==> r == gregorian_days(year as int, month as int),
{
    if month == 1 || month == 3 || month == 5 || month == 7 || month == 8 || month == 10 || month
        == 12 {
        31
    } else if month == 4 || month == 6 || month == 9 || month == 11 {
        30
    } else if month == 2 {
        if is_leap_year(year) {
            29
        } else {
            28
        }
    } else {
        0
    }
}

/// The number parsed from `t[at..at + 2]`.
pub open spec fn two_at(t: Seq<u8>, at: int) -> Option<nat> {
    parse_u32_bytes(t.subrange(at, at + 2))
}

/// Year, month and day of a `YYYY-MM-DD` string, each field made of ASCII
/// digits only.
pub open spec fn date_fields(s: Seq<u8>) -> Option<(nat, nat, nat)> {
    if s.len() == 10 && s[4] == 45 && s[7] == 45 {
        match (parse_u32_bytes(s.subrange(0, 4)), two_at(s, 5), two_at(s, 8)) {
            (Some(y), Some(m), Some(d)) => Some((y, m, d)),
            _ => None,
        }
    } else {
        None
    }
}

/// `s` is a valid calendar date in `YYYY-MM-DD` form.
pub open spec fn date_ok(s: Seq<u8>) -> bool {
    date_fields(s) matches Some((y, m, d)) && 1 <= m <= 12 && 1 <= d <= month_days(y, m)
}

/// The days of month `m` (1 to 12) of year `y` in the Gregorian calendar:
/// thirty days have September, April, June and November; February has 29
/// in a leap year (divisible by 4, except centuries not divisible by 400),
/// else 28; all the rest have 31.
pub open spec fn gregorian_days(y: int, m: int) -> int {
    if m == 4 || m == 6 || m == 9 || m == 11 {
        30
    } else if m == 2 {
        if (y % 4 == 0 && y % 100 != 0) || y % 400 == 0 {
            29
        } else {
            28
        }
    } else {
        31
    }
}

/// The value of the ASCII digit at `s[i]`.
pub open spec fn digit_at(s: Seq<u8>, i: int) -> int {
    s[i] as int - 48
}

/// `s` has the shape `DDDD-DD-DD` (ASCII digits and two dashes).
pub open spec fn date_shaped(s: Seq<u8>) -> bool {
    &&& s.len() == 10
    &&& s[4] == 45
    &&& s[7] == 45
    &&& forall|i: int| 0 <= i < 10 && i != 4 && i != 7 ==> 48 <= #[trigger] s[i] <= 57
}

/// Two and four ASCII digits read as numbers.
proof fn lemma_digit_fields(t: Seq<u8>)
    requires
        t.len() == 2 || t.len() == 4,
        forall|i: int| 0 <= i < t.len() ==> 48 <= #[trigger] t[i] <= 57,
    ensures
        all_in(t, ByteClass::Digit),
        t.len() == 2 ==> digits_value_b(t) == 10 * (t[0] - 48) + (t[1] - 48),
        t.len() == 4 ==> digits_value_b(t) == 1000 * (t[0] - 48) + 100 * (t[1] - 48) + 10 * (t[2] - 48) + (t[3]
            - 48),
{
    reveal_with_fuel(digits_value_b, 5);
    if t.len() == 2 {
        assert(t.drop_last().drop_last() =~= Seq::<u8>::empty());
        assert(t.drop_last().last() == t[0]);
    } else {
        assert(t.drop_last().drop_last().drop_last().drop_last() =~= Seq::<u8>::empty());
        assert(t.drop_last().last() == t[2]);
        assert(t.drop_last().drop_last().last() == t[1]);
        assert(t.drop_last().drop_last().drop_last().last() == t[0]);
    }
}

/// A `YYYY-MM-DD` string of digits is a valid date exactly when its month
/// is 1 to 12 and its day is 1 to the number of days of that month of that
/// year in the Gregorian calendar; an invalid one gets a single problem.
pub proof fn law_date_is_gregorian(s: Seq<u8>)
    requires
        date_shaped(s),
    ensures
        ({
            let y = 1000 * digit_at(s, 0) + 100 * digit_at(s, 1) + 10 * digit_at(s, 2) + digit_at(s, 3);
            let m = 10 * digit_at(s, 5) + digit_at(s, 6);
            let d = 10 * digit_at(s, 8) + digit_at(s, 9);
            &&& (date_errors(s).len() == 0) <==> (1 <= m <= 12 && 1 <= d <= gregorian_days(y, m))
            &&& date_errors(s).len() <= 1
        }),
{
    let ys = s.subrange(0, 4);
    let ms = s.subrange(5, 7);
    let ds = s.subrange(8, 10);
    assert forall|i: int| 0 <= i < 4 implies 48 <= #[trigger] ys[i] <= 57 by {
        assert(ys[i] == s[i]);
    }
    assert forall|i: int| 0 <= i < 2 implies 48 <= #[trigger] ms[i] <= 57 by {
        assert(ms[i] == s[i + 5]);
    }
    assert forall|i: int| 0 <= i < 2 implies 48 <= #[trigger] ds[i] <= 57 by {
        assert(ds[i] == s[i + 8]);
    }
    lemma_digit_fields(ys);
    lemma_digit_fields(ms);
    lemma_digit_fields(ds);
    assert(ys[0] == s[0] && ys[1] == s[1] && ys[2] == s[2] && ys[3] == s[3]);
    assert(ms[0] == s[5] && ms[1] == s[6] && ds[0] == s[8] && ds[1] == s[9]);
}

/// Problems with `s` as a date.
pub open spec fn date_errors(s: Seq<u8>) -> Seq<Seq<char>> {
    if date_fields(s) is None {
        seq![m_date_format()]
    } else {
        opt(!date_ok(s), m_date())
    }
}

/// `t` is `HH:MM:SS` with an optional fraction `.d+`; hours to 23, minutes
/// to 59, seconds to 60 (a leap second).
pub open spec fn time_ok(t: Seq<u8>) -> bool {
    t.len() >= 8 && t[2] == 58 && t[5] == 58 && match (two_at(t, 0), two_at(t, 3), two_at(t, 6)) {
        (Some(h), Some(m), Some(sec)) => h <= 23 && m <= 59 && sec <= 60 && (t.len() == 8 || (t[8]
            == 46 && t.len() > 9 && all_in(t.skip(9), ByteClass::Digit))),
        _ => false,
    }
}

/// `z` is `Z`, `z`, or an offset `+HH:MM` / `-HH:MM` with hours to 23 and
/// minutes to 59.
pub open spec fn tz_ok(z: Seq<u8>) -> bool {
    ||| (z.len() == 1 && (z[0] == 90 || z[0] == 122))
    ||| (z.len() == 6 && (z[0] == 43 || z[0] == 45) && z[3] == 58 && match (two_at(z, 1), two_at(z, 4)) {
        (Some(h), Some(m)) => h <= 23 && m <= 59,
        _ => false,
    })
}

/// Where the time zone of a time starts: at the last `Z` or `z`; failing
/// that, at the last `+` or `-` at index 2 or later; failing that, nowhere
/// (the length of `t`).
pub open spec fn tz_split(t: Seq<u8>) -> nat {
    match last_pos2(t, 90, 122) {
        Some(p) => p,
        None => match last_pos2_from(t, 43, 45, 2) {
            Some(p) => p,
            None => t.len(),
        },
    }
}

/// The index of the `T` (or `t`) that separates date and time.
pub open spec fn t_pos(s: Seq<u8>) -> nat {
    pos2(s, 84, 116)
}

/// `s` is an RFC 3339 date-time: date, `T`, time, time zone.
pub open spec fn datetime_errors(s: Seq<u8>) -> Seq<Seq<char>> {
    let t = t_pos(s);
    let tp = s.skip((t + 1) as int);
    let k = tz_split(tp);
    if s.len() == 0 || t == s.len() || !date_ok(s.take(t as int)) || tp.len() == 0 {
        seq![m_datetime()]
    } else if k == tp.len() {
        seq![m_timezone()]
    } else {
        opt(!time_ok(tp.take(k as int)) || !tz_ok(tp.skip(k as int)), m_datetime())
    }
}

fn two_digits(t: &[u8], at: usize) -> (r: Option<u32>)
    requires
        at + 2 <= t@.len(),
    ensures
        r matches Some(x) ==> two_at(t@, at as int) == Some(x as nat),
        r is None ==> two_at(t@, at as int) is None,
{
    let n = t.len();
    parse_u32_range(t, at, at + 2)
}

fn date_check(s: &[u8]) -> (r: Vec<String>)
    ensures
        msgs(r@) == date_errors(s@),
{
    let mut errors: Vec<String> = Vec::new();
    let mut fields: Option<(u32, u32, u32)> = None;
    if s.len() == 10 && s[4] == 45 && s[7] == 45 {
        let y = parse_u32_range(s, 0, 4);
        let m = two_digits(s, 5);
        let d = two_digits(s, 8);
        match (y, m, d) {
            (Some(y), Some(m), Some(d)) => {
                fields = Some((y, m, d));
            },
            _ => {},
        }
    }
    proof {
        assert(fields matches Some((y, m, d)) ==> date_fields(s@) == Some((y as nat, m as nat, d as nat)));
        assert(fields is None ==> date_fields(s@) is None);
    }
    match fields {
        None => {
            push_msg(&mut errors, string_of("must be a date in YYYY-MM-DD format"));
            proof {
                assert(msgs(errors@) =~= date_errors(s@));
            }
        },
        Some((y, m, d)) => {
            let ok = 1 <= m && m <= 12 && 1 <= d && d <= days_in_month(y, m);
            if !ok {
                push_msg(&mut errors, string_of("must be a valid date"));
            }
            proof {
                assert(msgs(errors@) =~= date_errors(s@));
            }
        },
    }
    errors
}

fn time_check(t: &[u8]) -> (r: bool)
    ensures
        r == time_ok(t@),
{
    let n = t.len();
    if n < 8 || t[2] != 58 || t[5] != 58 {
        return false;
    }
    let h = two_digits(t, 0);
    let m = two_digits(t, 3);
    let sec = two_digits(t, 6);
    match (h, m, sec) {
        (Some(h), Some(m), Some(sec)) => {
            if h > 23 || m > 59 || sec > 60 {
                return false;
            }
            if n > 8 {
                if t[8] != 46 || n == 9 {
                    return false;
                }
                let r = range_all_in(t, 9, n, ByteClass::Digit);
                proof {
                    assert(t@.subrange(9, n as int) =~= t@.skip(9));
                }
                return r;
            }
            true
        },
        _ => false,
    }
}

fn tz_check(z: &[u8]) -> (r: bool)
    ensures
        r == tz_ok(z@),
{
    let n = z.len();
    if n == 1 && (z[0] == 90 || z[0] == 122) {
        return true;
    }
    if n != 6 || !(z[0] == 43 || z[0] == 45) || z[3] != 58 {
        return false;
    }
    let h = two_digits(z, 1);
    let m = two_digits(z, 4);
    match (h, m) {
        (Some(h), Some(m)) => h <= 23 && m <= 59,
        _ => false,
    }
}

fn tz_index(t: &[u8]) -> (k: usize)
    ensures
        k == tz_split(t@),
        k <= t@.len(),
        k < t@.len() ==> t@[k as int] == 90 || t@[k as int] == 122 || t@[k as int] == 43 || t@[k as int] == 45,
{
    proof {
        lemma_last_pos2(t@, 90, 122);
        lemma_last_pos2_from(t@, 43, 45, 2);
    }
    match rfind2(t, 90, 122) {
        Some(p) => p,
        None => match rfind2_from(t, 43, 45, 2) {
            Some(p) => p,
            None => t.len(),
        },
    }
}

fn datetime_check(s: &[u8]) -> (r: Vec<String>)
    ensures
        msgs(r@) == datetime_errors(s@),
{
    let mut errors: Vec<String> = Vec::new();
    let n = s.len();
    let t = find2(s, 84, 116);
    let ghost tp = s@.skip(t + 1);
    let mut fail = n == 0 || t == n;
    if !fail {
        let d = date_check(&s[0..t]);
        proof {
            assert(s@.subrange(0, t as int) =~= s@.take(t as int));
            let ds = s@.take(t as int);
            if date_ok(ds) {
                assert(date_errors(ds) =~= Seq::<Seq<char>>::empty());
            } else {
                assert(date_errors(ds).len() == 1);
            }
        }
        fail = d.len() != 0 || t + 1 == n;
    }
    if fail {
        push_msg(&mut errors, string_of("must be a valid RFC 3339 date-time"));
        proof {
            assert(msgs(errors@) =~= datetime_errors(s@));
        }
        return errors;
    }
    let rest = &s[t + 1..n];
    proof {
        assert(rest@ =~= tp);
    }
    let k = tz_index(rest);
    if k == rest.len() {
        push_msg(&mut errors, string_of("must have a timezone"));
        proof {
            assert(msgs(errors@) =~= datetime_errors(s@));
        }
        return errors;
    }
    let time_part = &rest[0..k];
    let zone = &rest[k..rest.len()];
    proof {
        assert(time_part@ =~= tp.take(k as int));
        assert(zone@ =~= tp.skip(k as int));
    }
    if !time_check(time_part) || !tz_check(zone) {
        push_msg(&mut errors, string_of("must be a valid RFC 3339 date-time"));
    }
    proof {
        assert(msgs(errors@) =~= datetime_errors(s@));
    }
    errors
}

// ---------------------------------------------------------------------------
// The formats by name
// ---------------------------------------------------------------------------

/// The named formats.
#[derive(Debug, Clone, Copy, PartialEq, Eq, Structural)]
pub enum FormatKind {
    Dns1123Label,
    Dns1123Subdomain,
    Dns1035Label,
    Dns1123LabelPrefix,
    Dns1123SubdomainPrefix,
    QualifiedName,
    LabelValue,
    Uri,
    Uuid,
    Byte,
    Date,
    DateTime,
    Dns1035LabelPrefix,
}

/// The name of a format, as `format.named` takes it.
pub open spec fn kind_name(k: FormatKind) -> Seq<char> {
    match k {
        FormatKind::Dns1123Label => "dns1123Label"@,
        FormatKind::Dns1123Subdomain => "dns1123Subdomain"@,
        FormatKind::Dns1035Label => "dns1035Label"@,
        FormatKind::Dns1123LabelPrefix => "dns1123LabelPrefix"@,
        FormatKind::Dns1123SubdomainPrefix => "dns1123SubdomainPrefix"@,
        FormatKind::QualifiedName => "qualifiedName"@,
        FormatKind::LabelValue => "labelValue"@,
        FormatKind::Uri => "uri"@,
        FormatKind::Uuid => "uuid"@,
        FormatKind::Byte => "byte"@,
        FormatKind::Date => "date"@,
        FormatKind::DateTime => "datetime"@,
        FormatKind::Dns1035LabelPrefix => "dns1035LabelPrefix"@,
    }
}

/// Problems with `s` (as UTF-8 bytes) in format `k`; none means valid.
pub open spec fn format_errors(k: FormatKind, s: Seq<u8>) -> Seq<Seq<char>> {
    match k {
        FormatKind::Dns1123Label => dns1123_label_errors(s),
        FormatKind::Dns1123Subdomain => dns1123_subdomain_errors(s),
        FormatKind::Dns1035Label => dns1035_label_errors(s),
        FormatKind::Dns1123LabelPrefix => dns1123_label_prefix_errors(s),
        FormatKind::Dns1123SubdomainPrefix => dns1123_subdomain_prefix_errors(s),
        FormatKind::QualifiedName => qualified_name_errors(s),
        FormatKind::LabelValue => label_value_errors(s),
        FormatKind::Uri => uri_errors(s),
        FormatKind::Uuid => uuid_errors(s),
        FormatKind::Byte => byte_errors(s),
        FormatKind::Date => date_errors(s),
        FormatKind::DateTime => datetime_errors(s),
        FormatKind::Dns1035LabelPrefix => dns1035_label_prefix_errors(s),
    }
}

impl FormatKind {
    /// The format's name.
    pub fn name(&self) -> (r: &'static str)
        ensures
            r@ == kind_name(*self),
    {
        match self {
            FormatKind::Dns1123Label => "dns1123Label",
            FormatKind::Dns1123Subdomain => "dns1123Subdomain",
            FormatKind::Dns1035Label => "dns1035Label",
            FormatKind::Dns1123LabelPrefix => "dns1123LabelPrefix",
            FormatKind::Dns1123SubdomainPrefix => "dns1123SubdomainPrefix",
            FormatKind::QualifiedName => "qualifiedName",
            FormatKind::LabelValue => "labelValue",
            FormatKind::Uri => "uri",
            FormatKind::Uuid => "uuid",
            FormatKind::Byte => "byte",
            FormatKind::Date => "date",
            FormatKind::DateTime => "datetime",
            FormatKind::Dns1035LabelPrefix => "dns1035LabelPrefix",
        }
    }
}

/// The format called `name`, if there is one.
pub fn format_named(name: &str) -> (r: Option<FormatKind>)
    ensures
        r matches Some(k) ==> kind_name(k) == name@,
        r is None ==> forall|k: FormatKind| kind_name(k) != name@,
{
    let all = [
        FormatKind::Dns1123Label,
        FormatKind::Dns1123Subdomain,
        FormatKind::Dns1035Label,
        FormatKind::Dns1123LabelPrefix,
        FormatKind::Dns1123SubdomainPrefix,
        FormatKind::QualifiedName,
        FormatKind::LabelValue,
        FormatKind::Uri,
        FormatKind::Uuid,
        FormatKind::Byte,
        FormatKind::Date,
        FormatKind::DateTime,
        FormatKind::Dns1035LabelPrefix,
    ];
    let mut i: usize = 0;
    while i < 13
        invariant
            i <= 13,
            all@ == seq![
                FormatKind::Dns1123Label,
                FormatKind::Dns1123Subdomain,
                FormatKind::Dns1035Label,
                FormatKind::Dns1123LabelPrefix,
                FormatKind::Dns1123SubdomainPrefix,
                FormatKind::QualifiedName,
                FormatKind::LabelValue,
                FormatKind::Uri,
                FormatKind::Uuid,
                FormatKind::Byte,
                FormatKind::Date,
                FormatKind::DateTime,
                FormatKind::Dns1035LabelPrefix,
            ],
            forall|j: int| 0 <= j < i ==> kind_name(#[trigger] all@[j]) != name@,
        decreases 13 - i,
    {
        let k = all[i];
        if str_eq(k.name(), name) {
            return Some(k);
        }
        i = i + 1;
    }
    proof {
        assert forall|k: FormatKind| kind_name(k) != name@ by {
            match k {
                FormatKind::Dns1123Label => assert(all@[0] == k),
                FormatKind::Dns1123Subdomain => assert(all@[1] == k),
                FormatKind::Dns1035Label => assert(all@[2] == k),
                FormatKind::Dns1123LabelPrefix => assert(all@[3] == k),
                FormatKind::Dns1123SubdomainPrefix => assert(all@[4] == k),
                FormatKind::QualifiedName => assert(all@[5] == k),
                FormatKind::LabelValue => assert(all@[6] == k),
                FormatKind::Uri => assert(all@[7] == k),
                FormatKind::Uuid => assert(all@[8] == k),
                FormatKind::Byte => assert(all@[9] == k),
                FormatKind::Date => assert(all@[10] == k),
                FormatKind::DateTime => assert(all@[11] == k),
                FormatKind::Dns1035LabelPrefix => assert(all@[12] == k),
            }
        }
    }
    None
}

/// The problems with `s` in format `kind`; an empty list means valid.
pub fn validate_format(kind: &FormatKind, s: &str) -> (r: Vec<String>)
    ensures
        msgs(r@) == format_errors(*kind, s.spec_bytes()),
{
    let b = s.as_bytes();
    match kind {
        FormatKind::Dns1123Label => label_like(b, 0),
        FormatKind::Dns1123Subdomain => subdomain_like(b, false),
        FormatKind::Dns1035Label => label_like(b, 1),
        FormatKind::Dns1123LabelPrefix => label_like(b, 2),
        FormatKind::Dns1123SubdomainPrefix => subdomain_like(b, true),
        FormatKind::QualifiedName => qualified_name(b),
        FormatKind::LabelValue => label_value(b),
        FormatKind::Uri => uri(b),
        FormatKind::Uuid => uuid(b),
        FormatKind::Byte => byte(b),
        FormatKind::Date => date_check(b),
        FormatKind::DateTime => datetime_check(b),
        FormatKind::Dns1035LabelPrefix => label_like(b, 3),
    }
}

/// Problems with `s` as an RFC 1123 DNS label.
pub fn validate_dns1123_label(s: &str) -> (r: Vec<String>)
    ensures
        msgs(r@) == dns1123_label_errors(s.spec_bytes()),
{
    label_like(s.as_bytes(), 0)
}

/// Whether every character of `s` is a lowercase ASCII letter, a digit or `-`.
pub fn is_dns1123_label_char_set(s: &str) -> (r: bool)
    ensures
        r == all_in(s.spec_bytes(), ByteClass::Dns),
{
    let b = s.as_bytes();
    let r = range_all_in(b, 0, b.len(), ByteClass::Dns);
    proof {
        assert(b@.subrange(0, b@.len() as int) =~= b@);
    }
    r
}

/// Problems with `s` as an RFC 1035 DNS label.
pub fn validate_dns1035_label(s: &str) -> (r: Vec<String>)
    ensures
        msgs(r@) == dns1035_label_errors(s.spec_bytes()),
{
    label_like(s.as_bytes(), 1)
}

/// Problems with `s` as the prefix of an RFC 1035 DNS label.
pub fn validate_dns1035_label_prefix(s: &str) -> (r: Vec<String>)
    ensures
        msgs(r@) == dns1035_label_prefix_errors(s.spec_bytes()),
{
    label_like(s.as_bytes(), 3)
}

/// Whether every character of `s` is a lowercase ASCII letter, a digit or `-`.
pub fn is_dns1035_char_set(s: &str) -> (r: bool)
    ensures
        r == all_in(s.spec_bytes(), ByteClass::Dns),
{
    is_dns1123_label_char_set(s)
}

/// Problems with `s` as an RFC 1123 DNS subdomain (dot-separated labels).
pub fn validate_dns1123_subdomain(s: &str) -> (r: Vec<String>)
    ensures
        msgs(r@) == dns1123_subdomain_errors(s.spec_bytes()),
{
    subdomain_like(s.as_bytes(), false)
}

/// Problems with `s` as a DNS label prefix (a trailing `-` is allowed).
pub fn validate_dns1123_label_prefix(s: &str) -> (r: Vec<String>)
    ensures
        msgs(r@) == dns1123_label_prefix_errors(s.spec_bytes()),
{
    label_like(s.as_bytes(), 2)
}

/// Problems with `s` as a DNS subdomain prefix (its last label a prefix).
pub fn validate_dns1123_subdomain_prefix(s: &str) -> (r: Vec<String>)
    ensures
        msgs(r@) == dns1123_subdomain_prefix_errors(s.spec_bytes()),
{
    subdomain_like(s.as_bytes(), true)
}

/// Problems with `s` as a qualified name (`[prefix/]name`).
pub fn validate_qualified_name(s: &str) -> (r: Vec<String>)
    ensures
        msgs(r@) == qualified_name_errors(s.spec_bytes()),
{
    qualified_name(s.as_bytes())
}

/// Problems with `s` as the name part of a qualified name.
pub fn validate_qualified_name_local(s: &str) -> (r: Vec<String>)
    ensures
        msgs(r@) == qualified_local_errors(s.spec_bytes()),
{
    qualified_local(s.as_bytes())
}

/// Whether every character of `s` is an ASCII letter or digit, `-`, `_` or `.`.
pub fn is_qualified_name_char_set(s: &str) -> (r: bool)
    ensures
        r == all_in(s.spec_bytes(), ByteClass::Qualified),
{
    let b = s.as_bytes();
    let r = range_all_in(b, 0, b.len(), ByteClass::Qualified);
    proof {
        assert(b@.subrange(0, b@.len() as int) =~= b@);
    }
    r
}

/// Problems with `s` as a label value.
pub fn validate_label_value(s: &str) -> (r: Vec<String>)
    ensures
        msgs(r@) == label_value_errors(s.spec_bytes()),
{
    label_value(s.as_bytes())
}

/// Whether every character of `s` is an ASCII letter or digit, `-`, `_` or `.`.
pub fn is_label_value_char_set(s: &str) -> (r: bool)
    ensures
        r == all_in(s.spec_bytes(), ByteClass::Qualified),
{
    is_qualified_name_char_set(s)
}

/// Problems with `s` as a URI.
pub fn validate_uri(s: &str) -> (r: Vec<String>)
    ensures
        msgs(r@) == uri_errors(s.spec_bytes()),
{
    uri(s.as_bytes())
}

/// Problems with `s` as a UUID.
pub fn validate_uuid(s: &str) -> (r: Vec<String>)
    ensures
        msgs(r@) == uuid_errors(s.spec_bytes()),
{
    uuid(s.as_bytes())
}

/// Problems with `s` as base64 data.
pub fn validate_byte(s: &str) -> (r: Vec<String>)
    ensures
        msgs(r@) == byte_errors(s.spec_bytes()),
{
    byte(s.as_bytes())
}

/// Problems with `s` as a `YYYY-MM-DD` date.
pub fn validate_date(s: &str) -> (r: Vec<String>)
    ensures
        msgs(r@) == date_errors(s.spec_bytes()),
        date_shaped(s.spec_bytes()) ==> ({
            let b = s.spec_bytes();
            let y = 1000 * digit_at(b, 0) + 100 * digit_at(b, 1) + 10 * digit_at(b, 2) + digit_at(b, 3);
            let m = 10 * digit_at(b, 5) + digit_at(b, 6);
            let d = 10 * digit_at(b, 8) + digit_at(b, 9);
            (r@.len() == 0) <==> (1 <= m <= 12 && 1 <= d <= gregorian_days(y, m))
        }),
{
    proof {
        if date_shaped(s.spec_bytes()) {
            law_date_is_gregorian(s.spec_bytes());
        }
    }
    date_check(s.as_bytes())
}

/// Problems with `s` as an RFC 3339 date-time.
pub fn validate_datetime(s: &str) -> (r: Vec<String>)
    ensures
        msgs(r@) == datetime_errors(s.spec_bytes()),
{
    datetime_check(s.as_bytes())
}

/// Splits a time at its time zone (see [`tz_split`]): the time, then the zone.
pub fn find_timezone(time_part: &str) -> (r: (&str, &str))
    ensures
        r.0.spec_bytes() == time_part.spec_bytes().take(tz_split(time_part.spec_bytes()) as int),
        r.1.spec_bytes() == time_part.spec_bytes().skip(tz_split(time_part.spec_bytes()) as int),
{
    let b = time_part.as_bytes();
    let k = tz_index(b);
    proof {
        let bytes = time_part.spec_bytes();
        vstd::utf8::encode_utf8_valid_utf8(time_part@);
        if k < bytes.len() {
            vstd::utf8::is_char_boundary_iff_not_is_continuation_byte(bytes, k as int);
        } else {
            vstd::utf8::is_char_boundary_start_end_of_seq(bytes);
        }
    }
    time_part.split_at(k)
}

/// Whether `s` is a valid time (see [`time_ok`]).
pub fn validate_time_str(s: &str) -> (r: bool)
    ensures
        r == time_ok(s.spec_bytes()),
{
    time_check(s.as_bytes())
}

/// Whether `tz` is a valid time zone (see [`tz_ok`]).
pub fn validate_timezone(tz: &str) -> (r: bool)
    ensures
        r == tz_ok(tz.spec_bytes()),
{
    tz_check(tz.as_bytes())
}

/// `<Format>.validate(<string>)`: no value when `s` is valid, else the
/// list of messages.
pub fn format_validate(kind: &FormatKind, s: &str) -> (r: Option<Vec<String>>)
    ensures
        r is None <==> format_errors(*kind, s.spec_bytes()).len() == 0,
        r matches Some(v) ==> msgs(v@) == format_errors(*kind, s.spec_bytes()),
{
    let errors = validate_format(kind, s);
    if errors.len() == 0 {
        None
    } else {
        Some(errors)
    }
}

} // verus!
