//! Parsing of the target host string: a DNS name, a bracketed IPv6 literal,
//! or a bare IPv4/IPv6 literal.
//!
//! The grammar is stated over the UTF-8 bytes of the host string. All valid
//! hosts are ASCII, so a string containing any other character is rejected
//! by every rule.

use vstd::prelude::*;
use vstd::slice::slice_subrange;

use crate::addr::IpAddress;
use crate::addr::Ipv4Address;
use crate::addr::Ipv6Address;
use crate::name::TargetName;

verus! {

broadcast use vstd::slice::group_slice_axioms;

/// The parsed form of a host string: a name to resolve, or an IP literal to
/// connect to directly.
#[derive(Debug, PartialEq)]
pub enum Host {
    /// A DNS name.
    Name(TargetName),
    /// An IP literal.
    Ip(IpAddress),
}

/// The view of a parsed host.
pub enum HostView {
    Name(Seq<char>),
    Ip(IpAddress),
}

impl View for Host {
    type V = HostView;

    open spec fn view(&self) -> HostView {
        match self {
            Host::Name(n) => HostView::Name(n@),
            Host::Ip(a) => HostView::Ip(*a),
        }
    }
}

/// The error returned when the host string is neither a valid DNS name nor
/// a valid IP literal.
#[derive(Debug, Clone, Copy, PartialEq, Eq, Structural)]
pub struct HostParseError;

/// Splits a byte string at every occurrence of `sep`. The result always
/// holds one more token than there are separators; tokens may be empty.
pub open spec fn split_byte(s: Seq<u8>, sep: u8) -> Seq<Seq<u8>>
    decreases s.len(),
{
    if s.len() == 0 {
        seq![Seq::<u8>::empty()]
    } else if s[0] == sep {
        seq![Seq::<u8>::empty()] + split_byte(s.drop_first(), sep)
    } else {
        let r = split_byte(s.drop_first(), sep);
        seq![seq![s[0]] + r[0]] + r.drop_first()
    }
}

/// A split always yields at least one token.
pub proof fn lemma_split_byte_len(s: Seq<u8>, sep: u8)
    ensures
        split_byte(s, sep).len() >= 1,
    decreases s.len(),
{
    if s.len() == 0 {
    } else {
        lemma_split_byte_len(s.drop_first(), sep);
    }
}

/// A byte string without the separator is a single token.
pub proof fn lemma_split_byte_no_sep(s: Seq<u8>, sep: u8)
    requires
        forall|j: int| 0 <= j < s.len() ==> s[j] != sep,
    ensures
        split_byte(s, sep) =~~= seq![s],
    decreases s.len(),
{
    if s.len() == 0 {
        assert(s =~= Seq::<u8>::empty());
    } else {
        lemma_split_byte_no_sep(s.drop_first(), sep);
        assert(seq![s[0]] + s.drop_first() =~= s);
    }
}

/// Splitting at the first separator: the head token is everything before
/// it, and the remaining tokens are the split of everything after it.
pub proof fn lemma_split_byte_first(s: Seq<u8>, sep: u8, i: int)
    requires
        0 <= i < s.len(),
        s[i] == sep,
        forall|j: int| 0 <= j < i ==> s[j] != sep,
    ensures
        split_byte(s, sep) =~~= seq![s.take(i)] + split_byte(s.skip(i + 1), sep),
    decreases i,
{
    lemma_split_byte_len(s.drop_first(), sep);
    if i == 0 {
        assert(s.take(0) =~= Seq::<u8>::empty());
        assert(s.skip(1) =~= s.drop_first());
    } else {
        lemma_split_byte_first(s.drop_first(), sep, i - 1);
        let r = split_byte(s.drop_first(), sep);
        assert(r =~~= seq![s.drop_first().take(i - 1)] + split_byte(
            s.drop_first().skip(i),
            sep,
        ));
        assert(seq![s[0]] + s.drop_first().take(i - 1) =~= s.take(i));
        assert(s.drop_first().skip(i) =~= s.skip(i + 1));
    }
}

/// The tokens that a list of index ranges cuts out of a byte string.
pub open spec fn ranges_tokens(s: Seq<u8>, r: Seq<(usize, usize)>) -> Seq<Seq<u8>> {
    r.map_values(|p: (usize, usize)| s.subrange(p.0 as int, p.1 as int))
}

/// Finds the first occurrence of `sep` at or after `from`.
fn find_byte(s: &[u8], from: usize, sep: u8) -> (r: Option<usize>)
    requires
        from <= s@.len(),
    ensures
        match r {
            Some(i) => from <= i < s@.len() && s@[i as int] == sep && forall|j: int|
                from <= j < i ==> s@[j] != sep,
            None => forall|j: int| from <= j < s@.len() ==> s@[j] != sep,
        },
{
    let mut i: usize = from;
    while i < s.len()
        invariant
            from <= i <= s@.len(),
            forall|j: int| from <= j < i ==> s@[j] != sep,
        decreases s@.len() - i,
    {
        if s[i] == sep {
            return Some(i);
        }
        i = i + 1;
    }
    None
}

/// Splits a byte string at every `sep`, returning the index range of each
/// token.
fn split_bytes(s: &[u8], sep: u8) -> (r: Vec<(usize, usize)>)
    ensures
        ranges_tokens(s@, r@) =~~= split_byte(s@, sep),
        forall|k: int| 0 <= k < r@.len() ==> (#[trigger] r@[k]).0 <= r@[k].1 <= s@.len(),
{
    let slen = s.len();
    let mut tokens: Vec<(usize, usize)> = Vec::new();
    let mut start: usize = 0;
    proof {
        assert(s@.skip(0) =~= s@);
        assert(ranges_tokens(s@, tokens@) + split_byte(s@, sep) =~~= split_byte(s@, sep));
    }
    loop
        invariant
            slen == s@.len(),
            start <= s@.len(),
            forall|k: int| 0 <= k < tokens@.len() ==> (#[trigger] tokens@[k]).0 <= tokens@[k].1
                <= s@.len(),
            split_byte(s@, sep) =~~= ranges_tokens(s@, tokens@) + split_byte(
                s@.skip(start as int),
                sep,
            ),
        decreases s@.len() - start,
    {
        match find_byte(s, start, sep) {
            Some(i) => {
                proof {
                    let rest = s@.skip(start as int);
                    lemma_split_byte_first(rest, sep, i - start);
                    assert(rest.take(i - start) =~= s@.subrange(start as int, i as int));
                    assert(rest.skip(i - start + 1) =~= s@.skip(i + 1));
                    assert(ranges_tokens(s@, tokens@.push((start, i))) + split_byte(
                        s@.skip(i + 1),
                        sep,
                    ) =~~= split_byte(s@, sep));
                }
                tokens.push((start, i));
                start = i + 1;
            },
            None => {
                proof {
                    let rest = s@.skip(start as int);
                    lemma_split_byte_no_sep(rest, sep);
                    assert(rest =~= s@.subrange(start as int, s@.len() as int));
                    assert(ranges_tokens(s@, tokens@.push((start, slen))) =~~= split_byte(
                        s@,
                        sep,
                    ));
                }
                tokens.push((start, slen));
                return tokens;
            },
        }
    }
}

/// Whether `b` is an ASCII decimal digit.
pub open spec fn is_digit(b: u8) -> bool {
    48 <= b <= 57
}

/// Whether `b` is an ASCII hexadecimal digit.
pub open spec fn is_hex_digit(b: u8) -> bool {
    is_digit(b) || (97 <= b <= 102) || (65 <= b <= 70)
}

/// The value of a hexadecimal digit.
pub open spec fn hex_digit_value(b: u8) -> int {
    if is_digit(b) {
        b - 48
    } else if 97 <= b <= 102 {
        b - 87
    } else {
        b - 55
    }
}

/// The value of a decimal digit string, most significant first.
pub open spec fn dec_value(s: Seq<u8>) -> int
    decreases s.len(),
{
    if s.len() == 0 {
        0
    } else {
        dec_value(s.drop_last()) * 10 + (s.last() - 48)
    }
}

/// The value of a hexadecimal digit string, most significant first.
pub open spec fn hex_value(s: Seq<u8>) -> int
    decreases s.len(),
{
    if s.len() == 0 {
        0
    } else {
        hex_value(s.drop_last()) * 16 + hex_digit_value(s.last())
    }
}

/// Whether every byte of `s` is a decimal digit.
pub open spec fn all_digits(s: Seq<u8>) -> bool {
    forall|j: int| 0 <= j < s.len() ==> is_digit(#[trigger] s[j])
}

/// Whether every byte of `s` is a hexadecimal digit.
pub open spec fn all_hex_digits(s: Seq<u8>) -> bool {
    forall|j: int| 0 <= j < s.len() ==> is_hex_digit(#[trigger] s[j])
}

/// A valid dotted-quad part: one to three digits, no superfluous leading
/// zero, value at most 255.
pub open spec fn is_octet(s: Seq<u8>) -> bool {
    &&& 1 <= s.len() <= 3
    &&& all_digits(s)
    &&& (s.len() > 1 ==> s[0] != 48)
    &&& dec_value(s) <= 255
}

/// A valid IPv6 group: one to four hexadecimal digits.
pub open spec fn is_group(s: Seq<u8>) -> bool {
    1 <= s.len() <= 4 && all_hex_digits(s)
}

/// At most three digits give a value below a thousand, and fewer digits
/// correspondingly less.
pub proof fn lemma_dec_value_bound(s: Seq<u8>)
    requires
        all_digits(s),
        s.len() <= 3,
    ensures
        0 <= dec_value(s) < 1000,
        s.len() <= 2 ==> dec_value(s) < 100,
        s.len() <= 1 ==> dec_value(s) < 10,
    decreases s.len(),
{
    if s.len() > 0 {
        assert(all_digits(s.drop_last()));
        lemma_dec_value_bound(s.drop_last());
    }
}

/// At most four hexadecimal digits give a value below 2^16, and fewer
/// digits correspondingly less.
pub proof fn lemma_hex_value_bound(s: Seq<u8>)
    requires
        all_hex_digits(s),
        s.len() <= 4,
    ensures
        0 <= hex_value(s) < 0x10000,
        s.len() <= 3 ==> hex_value(s) < 0x1000,
        s.len() <= 2 ==> hex_value(s) < 0x100,
        s.len() <= 1 ==> hex_value(s) < 0x10,
    decreases s.len(),
{
    if s.len() > 0 {
        assert(all_hex_digits(s.drop_last()));
        lemma_hex_value_bound(s.drop_last());
    }
}

/// Checks one dotted-quad part and returns its value.
fn check_octet(s: &[u8], a: usize, b: usize) -> (r: Option<u8>)
    requires
        a <= b <= s@.len(),
    ensures
        match r {
            Some(v) => is_octet(s@.subrange(a as int, b as int)) && v == dec_value(
                s@.subrange(a as int, b as int),
            ),
            None => !is_octet(s@.subrange(a as int, b as int)),
        },
{
    let ghost tok = s@.subrange(a as int, b as int);
    let n = b - a;
    if n < 1 || n > 3 {
        return None;
    }
    if n > 1 && s[a] == 48 {
        return None;
    }
    let mut val: u16 = 0;
    let mut j: usize = a;
    while j < b
        invariant
            a <= j <= b <= s@.len(),
            b - a <= 3,
            all_digits(tok.take(j - a)),
            val == dec_value(tok.take(j - a)),
            val < 1000,
            tok == s@.subrange(a as int, b as int),
        decreases b - j,
    {
        let c = s[j];
        if c < 48 || c > 57 {
            proof {
                assert(tok[j - a] == c);
                assert(!all_digits(tok));
            }
            return None;
        }
        proof {
            let m = j - a;
            assert(tok.take(m + 1).drop_last() =~= tok.take(m));
            assert(tok.take(m + 1).last() == c);
            assert(all_digits(tok.take(m + 1)));
            lemma_dec_value_bound(tok.take(m + 1));
        }
        val = val * 10 + (c - 48) as u16;
        j = j + 1;
    }
    proof {
        assert(tok.take(b - a) =~= tok);
    }
    if val > 255 {
        return None;
    }
    Some(val as u8)
}

/// Checks one IPv6 group and returns its value.
fn check_group(s: &[u8], a: usize, b: usize) -> (r: Option<u16>)
    requires
        a <= b <= s@.len(),
    ensures
        match r {
            Some(v) => is_group(s@.subrange(a as int, b as int)) && v == hex_value(
                s@.subrange(a as int, b as int),
            ),
            None => !is_group(s@.subrange(a as int, b as int)),
        },
{
    let ghost tok = s@.subrange(a as int, b as int);
    let n = b - a;
    if n < 1 || n > 4 {
        return None;
    }
    let mut val: u32 = 0;
    let mut j: usize = a;
    while j < b
        invariant
            a <= j <= b <= s@.len(),
            b - a <= 4,
            all_hex_digits(tok.take(j - a)),
            val == hex_value(tok.take(j - a)),
            val < 0x10000,
            tok == s@.subrange(a as int, b as int),
        decreases b - j,
    {
        let c = s[j];
        let d: u32 = if c >= 48 && c <= 57 {
            (c - 48) as u32
        } else if c >= 97 && c <= 102 {
            (c - 87) as u32
        } else if c >= 65 && c <= 70 {
            (c - 55) as u32
        } else {
            proof {
                assert(tok[j - a] == c);
                assert(!all_hex_digits(tok));
            }
            return None;
        };
        proof {
            let m = j - a;
            assert(tok.take(m + 1).drop_last() =~= tok.take(m));
            assert(tok.take(m + 1).last() == c);
            assert(all_hex_digits(tok.take(m + 1)));
            lemma_hex_value_bound(tok.take(m + 1));
        }
        val = val * 16 + d;
        j = j + 1;
    }
    proof {
        assert(tok.take(b - a) =~= tok);
    }
    Some(val as u16)
}

/// The IPv4 literal grammar: exactly four octets separated by dots. The
/// value is the address's 32-bit form.
pub open spec fn spec_parse_ipv4(s: Seq<u8>) -> Option<int> {
    let p = split_byte(s, 46);
    if p.len() == 4 && is_octet(p[0]) && is_octet(p[1]) && is_octet(p[2]) && is_octet(p[3]) {
        Some(
            dec_value(p[0]) * 0x100_0000 + dec_value(p[1]) * 0x1_0000 + dec_value(p[2]) * 0x100
                + dec_value(p[3]),
        )
    } else {
        None
    }
}

/// Parses an IPv4 literal.
fn parse_ipv4(s: &[u8]) -> (r: Option<u32>)
    ensures
        match r {
            Some(v) => spec_parse_ipv4(s@) == Some(v as int),
            None => spec_parse_ipv4(s@) is None,
        },
{
    let parts = split_bytes(s, 46);
    if parts.len() != 4 {
        return None;
    }
    let ghost p = split_byte(s@, 46);
    let (a0, b0) = (parts[0].0, parts[0].1);
    let (a1, b1) = (parts[1].0, parts[1].1);
    let (a2, b2) = (parts[2].0, parts[2].1);
    let (a3, b3) = (parts[3].0, parts[3].1);
    proof {
        assert(p[0] == s@.subrange(a0 as int, b0 as int));
        assert(p[1] == s@.subrange(a1 as int, b1 as int));
        assert(p[2] == s@.subrange(a2 as int, b2 as int));
        assert(p[3] == s@.subrange(a3 as int, b3 as int));
    }
    let o0 = match check_octet(s, a0, b0) {
        Some(v) => v,
        None => {
            return None;
        },
    };
    let o1 = match check_octet(s, a1, b1) {
        Some(v) => v,
        None => {
            return None;
        },
    };
    let o2 = match check_octet(s, a2, b2) {
        Some(v) => v,
        None => {
            return None;
        },
    };
    let o3 = match check_octet(s, a3, b3) {
        Some(v) => v,
        None => {
            return None;
        },
    };
    let v: u32 = (o0 as u32) * 0x100_0000 + (o1 as u32) * 0x1_0000 + (o2 as u32) * 0x100 + (
    o3 as u32);
    Some(v)
}

/// Whether every token is a valid IPv6 group.
pub open spec fn all_groups(t: Seq<Seq<u8>>) -> bool {
    forall|k: int| 0 <= k < t.len() ==> is_group(#[trigger] t[k])
}

/// The value of a group list, most significant group first.
pub open spec fn groups_value(t: Seq<Seq<u8>>) -> int
    decreases t.len(),
{
    if t.len() == 0 {
        0
    } else {
        groups_value(t.drop_last()) * 0x10000 + hex_value(t.last())
    }
}

/// Sixteen bits of place value per group.
pub open spec fn pow_group(k: nat) -> int
    decreases k,
{
    if k == 0 {
        1
    } else {
        0x10000 * pow_group((k - 1) as nat)
    }
}

/// `pow_group` is positive and monotonic.
pub proof fn lemma_pow_group_pos(k: nat)
    ensures
        pow_group(k) >= 1,
    decreases k,
{
    if k > 0 {
        lemma_pow_group_pos((k - 1) as nat);
    }
}

/// `pow_group` of a sum is the product of the parts.
pub proof fn lemma_pow_group_add(a: nat, b: nat)
    ensures
        pow_group(a + b) == pow_group(a) * pow_group(b),
    decreases a,
{
    if a == 0 {
    } else {
        lemma_pow_group_add((a - 1) as nat, b);
        assert(0x10000 * (pow_group((a - 1) as nat) * pow_group(b)) == (0x10000 * pow_group(
            (a - 1) as nat,
        )) * pow_group(b)) by (nonlinear_arith);
    }
}

/// A group list's value is below the place value of its length.
pub proof fn lemma_groups_value_bound(t: Seq<Seq<u8>>)
    requires
        all_groups(t),
    ensures
        0 <= groups_value(t) < pow_group(t.len()),
    decreases t.len(),
{
    if t.len() > 0 {
        assert(all_groups(t.drop_last()));
        lemma_groups_value_bound(t.drop_last());
        lemma_hex_value_bound(t.last());
        let g = groups_value(t.drop_last());
        let p = pow_group((t.len() - 1) as nat);
        assert(g * 0x10000 + hex_value(t.last()) < p * 0x10000) by (nonlinear_arith)
            requires
                0 <= g < p,
                0 <= hex_value(t.last()) < 0x10000,
        ;
    }
}

/// The group place values up to eight groups.
pub proof fn lemma_pow_group_values()
    ensures
        pow_group(0) == 1,
        pow_group(1) == 0x1_0000,
        pow_group(2) == 0x1_0000_0000,
        pow_group(3) == 0x1_0000_0000_0000,
        pow_group(4) == 0x1_0000_0000_0000_0000,
        pow_group(5) == 0x1_0000_0000_0000_0000_0000,
        pow_group(6) == 0x1_0000_0000_0000_0000_0000_0000,
        pow_group(7) == 0x1_0000_0000_0000_0000_0000_0000_0000,
        pow_group(8) == 0x1_0000_0000_0000_0000_0000_0000_0000_0000,
{
    assert(pow_group(0) == 1);
    assert(pow_group(1) == 0x1_0000);
    assert(pow_group(2) == 0x1_0000_0000);
    assert(pow_group(3) == 0x1_0000_0000_0000);
    assert(pow_group(4) == 0x1_0000_0000_0000_0000);
    assert(pow_group(5) == 0x1_0000_0000_0000_0000_0000);
    assert(pow_group(6) == 0x1_0000_0000_0000_0000_0000_0000);
    assert(pow_group(7) == 0x1_0000_0000_0000_0000_0000_0000_0000);
    assert(pow_group(8) == 0x1_0000_0000_0000_0000_0000_0000_0000_0000);
}

/// `pow_group` is monotonic.
pub proof fn lemma_pow_group_mono(a: nat, b: nat)
    requires
        a <= b,
    ensures
        pow_group(a) <= pow_group(b),
{
    lemma_pow_group_add(a, (b - a) as nat);
    lemma_pow_group_pos(a);
    lemma_pow_group_pos((b - a) as nat);
    assert(pow_group(a) * pow_group((b - a) as nat) >= pow_group(a) * 1) by (nonlinear_arith)
        requires
            pow_group(a) >= 1,
            pow_group((b - a) as nat) >= 1,
    ;
}

/// An interior `::` compression at token index `k`: every other token is a
/// group, and at most seven groups are present in all.
pub open spec fn interior_at(t: Seq<Seq<u8>>, k: int) -> bool {
    &&& 1 <= k < t.len() - 1
    &&& t[k].len() == 0
    &&& t.len() - 1 <= 7
    &&& all_groups(t.take(k))
    &&& all_groups(t.skip(k + 1))
}

/// At most one token index can carry an interior compression.
pub proof fn lemma_interior_unique(t: Seq<Seq<u8>>, k1: int, k2: int)
    requires
        interior_at(t, k1),
        interior_at(t, k2),
    ensures
        k1 == k2,
{
    if k1 < k2 {
        assert(is_group(t.skip(k1 + 1)[k2 - k1 - 1]));
    } else if k2 < k1 {
        assert(is_group(t.skip(k2 + 1)[k1 - k2 - 1]));
    }
}

/// The IPv6 literal grammar: eight groups, or fewer groups with one `::`
/// compression standing for the missing zero groups. The value is the
/// address's 128-bit form.
pub open spec fn spec_parse_ipv6(s: Seq<u8>) -> Option<int> {
    let t = split_byte(s, 58);
    let n = t.len() as int;
    if n == 8 && all_groups(t) {
        Some(groups_value(t))
    } else if n == 3 && t[0].len() == 0 && t[1].len() == 0 && t[2].len() == 0 {
        Some(0)
    } else if n >= 3 && t[0].len() == 0 && t[1].len() == 0 && n - 2 <= 7 && all_groups(t.skip(2)) {
        Some(groups_value(t.skip(2)))
    } else if n >= 3 && t[n - 1].len() == 0 && t[n - 2].len() == 0 && n - 2 <= 7 && all_groups(
        t.take(n - 2),
    ) {
        Some(groups_value(t.take(n - 2)) * pow_group((8 - (n - 2)) as nat))
    } else if exists|k: int| interior_at(t, k) {
        let k = choose|k: int| interior_at(t, k);
        Some(groups_value(t.take(k)) * pow_group((8 - k) as nat) + groups_value(t.skip(k + 1)))
    } else {
        None
    }
}

/// Checks that the tokens in `[from, to)` are all groups and assembles
/// their value.
fn groups_val_range(s: &[u8], parts: &Vec<(usize, usize)>, from: usize, to: usize) -> (r: Option<
    u128,
>)
    requires
        from <= to <= parts@.len(),
        to - from <= 8,
        forall|k: int| 0 <= k < parts@.len() ==> (#[trigger] parts@[k]).0 <= parts@[k].1
            <= s@.len(),
    ensures
        ({
            let toks = ranges_tokens(s@, parts@).subrange(from as int, to as int);
            match r {
                Some(v) => all_groups(toks) && v == groups_value(toks),
                None => !all_groups(toks),
            }
        }),
{
    let ghost toks = ranges_tokens(s@, parts@).subrange(from as int, to as int);
    let mut val: u128 = 0;
    let mut j: usize = from;
    proof {
        lemma_pow_group_values();
    }
    while j < to
        invariant
            from <= j <= to,
            all_groups(toks.take(j - from)),
            val == groups_value(toks.take(j - from)),
            val < pow_group((j - from) as nat),
        decreases to - j,
    {
        let (a, b) = (parts[j].0, parts[j].1);
        proof {
            assert(toks[j - from] == s@.subrange(a as int, b as int));
        }
        match check_group(s, a, b) {
            Some(g) => {
                proof {
                    let m = j - from;
                    assert(toks.take(m + 1).drop_last() =~= toks.take(m));
                    assert(toks.take(m + 1).last() == toks[m]);
                    assert(all_groups(toks.take(m + 1)));
                    lemma_groups_value_bound(toks.take(m + 1));
                    lemma_pow_group_mono((j + 1 - from) as nat, 8);
                }
                val = val * 0x10000 + (g as u128);
                j = j + 1;
            },
            None => {
                proof {
                    assert(!all_groups(toks));
                }
                return None;
            },
        }
    }
    proof {
        assert(toks.take(to - from) =~= toks);
    }
    Some(val)
}

/// The place value of `8 - k` groups, executable form.
fn pow_group_exec(k: usize) -> (r: u128)
    requires
        k <= 7,
    ensures
        r == pow_group(k as nat),
{
    proof {
        lemma_pow_group_values();
    }
    let mut val: u128 = 1;
    let mut j: usize = 0;
    while j < k
        invariant
            j <= k <= 7,
            val == pow_group(j as nat),
        decreases k - j,
    {
        proof {
            lemma_pow_group_mono((j + 1) as nat, 7);
        }
        val = val * 0x10000;
        j = j + 1;
    }
    val
}

/// Parses an IPv6 literal (without brackets).
fn parse_ipv6(s: &[u8]) -> (r: Option<u128>)
    ensures
        match r {
            Some(v) => spec_parse_ipv6(s@) == Some(v as int),
            None => spec_parse_ipv6(s@) is None,
        },
{
    let parts = split_bytes(s, 58);
    let n = parts.len();
    let ghost t = split_byte(s@, 58);
    proof {
        assert(t =~~= ranges_tokens(s@, parts@));
        lemma_pow_group_values();
    }
    if n == 8 {
        proof {
            assert(ranges_tokens(s@, parts@).subrange(0, 8) =~~= t);
        }
        if let Some(v) = groups_val_range(s, &parts, 0, 8) {
            return Some(v);
        }
    }
    if n < 3 {
        proof {
            assert(forall|k: int| !interior_at(t, k));
        }
        return None;
    }
    let e_first = parts[0].0 == parts[0].1;
    let e_second = parts[1].0 == parts[1].1;
    if e_first && e_second {
        if n == 3 && parts[2].0 == parts[2].1 {
            return Some(0);
        }
        // Tokens 0 and 1 are empty, so no case with a group at the front
        // can hold; only the `::`-prefix case remains.
        proof {
            assert(t[0].len() == 0);
            assert(!is_group(t[0]));
            assert(t.take(n - 2)[0] == t[0]);
            assert forall|k: int| !interior_at(t, k) by {
                if interior_at(t, k) {
                    assert(t.take(k)[0] == t[0]);
                    assert(is_group(t.take(k)[0]));
                }
            }
        }
        if n - 2 <= 7 {
            proof {
                assert(ranges_tokens(s@, parts@).subrange(2, n as int) =~~= t.skip(2));
            }
            match groups_val_range(s, &parts, 2, n) {
                Some(v) => {
                    return Some(v);
                },
                None => {
                    return None;
                },
            }
        }
        return None;
    }
    let e_last = parts[n - 1].0 == parts[n - 1].1;
    let e_next_last = parts[n - 2].0 == parts[n - 2].1;
    if e_last && e_next_last {
        // The last two tokens are empty, so no case with a group at the
        // back can hold; only the `::`-suffix case remains.
        proof {
            assert(t[n - 1].len() == 0);
            assert(!is_group(t[n - 1]));
            assert forall|k: int| !interior_at(t, k) by {
                if interior_at(t, k) {
                    assert(t.skip(k + 1)[n - 1 - k - 1] == t[n - 1]);
                    assert(is_group(t.skip(k + 1)[n - 1 - k - 1]));
                }
            }
        }
        if n - 2 <= 7 {
            proof {
                assert(ranges_tokens(s@, parts@).subrange(0, n - 2 as int) =~~= t.take(n - 2));
            }
            match groups_val_range(s, &parts, 0, n - 2) {
                Some(v) => {
                    let p = pow_group_exec(8 - (n - 2));
                    proof {
                        lemma_groups_value_bound(t.take(n - 2));
                        lemma_pow_group_add((n - 2) as nat, (8 - (n - 2)) as nat);
                        assert(v * p < pow_group((n - 2) as nat) * pow_group(
                            (8 - (n - 2)) as nat,
                        )) by (nonlinear_arith)
                            requires
                                0 <= v as int,
                                (v as int) < pow_group((n - 2) as nat),
                                p == pow_group((8 - (n - 2)) as nat),
                                p >= 1,
                        ;
                    }
                    return Some(v * p);
                },
                None => {
                    return None;
                },
            }
        }
        return None;
    }
    // An interior compression is the only remaining possibility: find the
    // first empty token.
    let mut k0: usize = 0;
    let mut found = false;
    while k0 < n && !found
        invariant
            k0 <= n,
            n == t.len(),
            found ==> k0 < n && t[k0 as int].len() == 0,
            forall|j: int| 0 <= j < k0 ==> t[j].len() != 0,
            forall|k: int| 0 <= k < parts@.len() ==> (#[trigger] parts@[k]).0 <= parts@[k].1
                <= s@.len(),
            parts@.len() == n,
            t =~~= ranges_tokens(s@, parts@),
        decreases n - k0 + (if found {
            0int
        } else {
            1int
        }),
    {
        if parts[k0].0 == parts[k0].1 {
            found = true;
        } else {
            k0 = k0 + 1;
        }
    }
    if !found {
        // No empty token anywhere: no compression case can hold.
        proof {
            assert(forall|k: int| !interior_at(t, k));
        }
        return None;
    }
    if k0 == 0 || k0 == n - 1 {
        // An empty token at either end without its pair: invalid.
        proof {
            assert forall|k: int| !interior_at(t, k) by {
                if interior_at(t, k) {
                    if k0 == 0 {
                        assert(t.take(k)[0] == t[0]);
                        assert(is_group(t.take(k)[0]));
                    } else {
                        assert(t.skip(k + 1)[n - 1 - k - 1] == t[n - 1]);
                        assert(is_group(t.skip(k + 1)[n - 1 - k - 1]));
                    }
                }
            }
        }
        return None;
    }
    if n - 1 > 7 {
        proof {
            assert(forall|k: int| !interior_at(t, k));
        }
        return None;
    }
    proof {
        assert(ranges_tokens(s@, parts@).subrange(0, k0 as int) =~~= t.take(k0 as int));
        assert(ranges_tokens(s@, parts@).subrange(k0 + 1 as int, n as int) =~~= t.skip(
            k0 + 1 as int,
        ));
    }
    let left = match groups_val_range(s, &parts, 0, k0) {
        Some(v) => v,
        None => {
            // Some earlier token is not a group; every candidate interior
            // index would need it to be one.
            proof {
                assert forall|k: int| !interior_at(t, k) by {
                    if interior_at(t, k) {
                        if k < k0 {
                            assert(t[k].len() != 0);
                        } else if k > k0 {
                            assert(t.take(k)[k0 as int] == t[k0 as int]);
                            assert(is_group(t[k0 as int]));
                        }
                    }
                }
            }
            return None;
        },
    };
    let right = match groups_val_range(s, &parts, k0 + 1, n) {
        Some(v) => v,
        None => {
            proof {
                assert forall|k: int| !interior_at(t, k) by {
                    if interior_at(t, k) {
                        if k < k0 {
                            assert(t[k].len() != 0);
                        } else if k > k0 {
                            assert(t.take(k)[k0 as int] == t[k0 as int]);
                            assert(is_group(t[k0 as int]));
                        }
                    }
                }
            }
            return None;
        },
    };
    let p = pow_group_exec(8 - k0);
    proof {
        assert(interior_at(t, k0 as int));
        let kc = choose|k: int| interior_at(t, k);
        lemma_interior_unique(t, kc, k0 as int);
        lemma_groups_value_bound(t.take(k0 as int));
        lemma_groups_value_bound(t.skip(k0 + 1 as int));
        lemma_pow_group_add(k0 as nat, (8 - k0) as nat);
        lemma_pow_group_mono((n - 1 - k0) as nat, (8 - k0) as nat);
        assert(left * p + right < pow_group(8)) by (nonlinear_arith)
            requires
                0 <= left as int,
                (left as int) < pow_group(k0 as nat),
                0 <= right as int,
                (right as int) < pow_group((8 - k0) as nat),
                p == pow_group((8 - k0) as nat),
                p >= 1,
                pow_group(k0 as nat) * pow_group((8 - k0) as nat) == pow_group(8),
        ;
    }
    Some(left * p + right)
}

/// The head byte of the first token, when the string does not start with
/// the separator.
pub proof fn lemma_split_byte_head(s: Seq<u8>, sep: u8)
    requires
        s.len() > 0,
        s[0] != sep,
    ensures
        split_byte(s, sep)[0].len() >= 1,
        split_byte(s, sep)[0][0] == s[0],
{
    lemma_split_byte_len(s.drop_first(), sep);
}

/// Whether `b` is an ASCII letter.
pub open spec fn is_letter(b: u8) -> bool {
    (65 <= b <= 90) || (97 <= b <= 122)
}

/// Whether `b` is a letter, a digit or a hyphen.
pub open spec fn is_ldh(b: u8) -> bool {
    is_letter(b) || is_digit(b) || b == 45
}

/// A valid DNS label: one to 63 letter/digit/hyphen bytes, neither
/// starting nor ending with a hyphen.
pub open spec fn is_label(s: Seq<u8>) -> bool {
    &&& 1 <= s.len() <= 63
    &&& (forall|j: int| 0 <= j < s.len() ==> is_ldh(#[trigger] s[j]))
    &&& s[0] != 45
    &&& s[s.len() - 1] != 45
}

/// A domain with its optional trailing dot removed.
pub open spec fn domain_body(s: Seq<u8>) -> Seq<u8> {
    if s.len() > 0 && s.last() == 46 {
        s.drop_last()
    } else {
        s
    }
}

/// A valid DNS name: dot-separated labels, at most 253 bytes, with an
/// optional trailing dot.
pub open spec fn is_domain(s: Seq<u8>) -> bool {
    let body = domain_body(s);
    let labels = split_byte(body, 46);
    &&& 1 <= body.len() <= 253
    &&& (forall|k: int| 0 <= k < labels.len() ==> is_label(#[trigger] labels[k]))
}

/// Checks one DNS label.
fn check_label(s: &[u8], a: usize, b: usize) -> (r: bool)
    requires
        a <= b <= s@.len(),
    ensures
        r == is_label(s@.subrange(a as int, b as int)),
{
    let ghost tok = s@.subrange(a as int, b as int);
    let n = b - a;
    if n < 1 || n > 63 {
        return false;
    }
    if s[a] == 45 || s[b - 1] == 45 {
        proof {
            assert(tok[0] == s@[a as int]);
            assert(tok[n - 1] == s@[b - 1]);
        }
        return false;
    }
    let mut j: usize = a;
    while j < b
        invariant
            a <= j <= b <= s@.len(),
            forall|m: int| 0 <= m < j - a ==> is_ldh(#[trigger] tok[m]),
            tok == s@.subrange(a as int, b as int),
        decreases b - j,
    {
        let c = s[j];
        let ok = (c >= 65 && c <= 90) || (c >= 97 && c <= 122) || (c >= 48 && c <= 57) || c == 45;
        if !ok {
            proof {
                assert(tok[j - a] == c);
            }
            return false;
        }
        proof {
            assert(tok[j - a] == c);
        }
        j = j + 1;
    }
    proof {
        assert(tok[0] == s@[a as int]);
        assert(tok[n - 1] == s@[b - 1]);
    }
    true
}

/// Checks a DNS name.
fn check_domain(s: &[u8]) -> (r: bool)
    ensures
        r == is_domain(s@),
{
    let len = s.len();
    let body_end = if len > 0 && s[len - 1] == 46 {
        len - 1
    } else {
        len
    };
    proof {
        assert(s@.subrange(0, body_end as int) =~= domain_body(s@));
    }
    if body_end < 1 || body_end > 253 {
        return false;
    }
    let body = slice_subrange(s, 0, body_end);
    let labels = split_bytes(body, 46);
    let ghost ls = split_byte(body@, 46);
    let mut k: usize = 0;
    while k < labels.len()
        invariant
            k <= labels@.len(),
            labels@.len() == ls.len(),
            ls =~~= ranges_tokens(body@, labels@),
            forall|m: int| 0 <= m < labels@.len() ==> (#[trigger] labels@[m]).0 <= labels@[m].1
                <= body@.len(),
            forall|m: int| 0 <= m < k ==> is_label(#[trigger] ls[m]),
            body@ == domain_body(s@),
        decreases labels@.len() - k,
    {
        let (a, b) = (labels[k].0, labels[k].1);
        proof {
            assert(ls[k as int] == body@.subrange(a as int, b as int));
        }
        if !check_label(body, a, b) {
            return false;
        }
        k = k + 1;
    }
    true
}

/// The classification of a host string's bytes.
pub enum HostClass {
    /// An IPv4 literal with the given 32-bit value.
    V4(int),
    /// A (possibly bracketed) IPv6 literal with the given 128-bit value.
    V6(int),
    /// A valid DNS name.
    Name,
    /// None of the above.
    Invalid,
}

/// Classifies a host string: an IPv4 literal, a bracketed or bare IPv6
/// literal, a DNS name, or invalid.
pub open spec fn host_class(b: Seq<u8>) -> HostClass {
    if spec_parse_ipv4(b) is Some {
        HostClass::V4(spec_parse_ipv4(b)->0)
    } else if b.len() >= 2 && b[0] == 91 && b.last() == 93 && spec_parse_ipv6(
        b.subrange(1, b.len() - 1),
    ) is Some {
        HostClass::V6(spec_parse_ipv6(b.subrange(1, b.len() - 1))->0)
    } else if spec_parse_ipv6(b) is Some {
        HostClass::V6(spec_parse_ipv6(b)->0)
    } else if is_domain(b) {
        HostClass::Name
    } else {
        HostClass::Invalid
    }
}

/// What parsing a host string must yield: the parsed host for a valid
/// string, nothing for an invalid one.
pub open spec fn spec_host_result(s: Seq<char>) -> Option<HostView> {
    match host_class(vstd::utf8::encode_utf8(s)) {
        HostClass::V4(v) => Some(HostView::Ip(IpAddress::V4(Ipv4Address { bits: v as u32 }))),
        HostClass::V6(v) => Some(HostView::Ip(IpAddress::V6(Ipv6Address { bits: v as u128 }))),
        HostClass::Name => Some(HostView::Name(s)),
        HostClass::Invalid => None,
    }
}

/// Parses a host string: a DNS name, a bracketed IPv6 literal, or a bare
/// IPv4/IPv6 literal. Fails exactly on syntactically invalid hosts.
pub fn parse_host(s: &str) -> (r: Result<Host, HostParseError>)
    ensures
        match r {
            Ok(h) => spec_host_result(s@) == Some(h@),
            Err(_) => spec_host_result(s@) is None,
        },
{
    let b = s.as_bytes();
    if let Some(v) = parse_ipv4(b) {
        return Ok(Host::Ip(IpAddress::V4(Ipv4Address { bits: v })));
    }
    let len = b.len();
    if len >= 2 && b[0] == 91 && b[len - 1] == 93 {
        let inner = slice_subrange(b, 1, len - 1);
        if let Some(v) = parse_ipv6(inner) {
            return Ok(Host::Ip(IpAddress::V6(Ipv6Address { bits: v })));
        }
        // A bracketed string that is not an IPv6 literal can be nothing
        // else: brackets are not allowed in names or bare literals.
        proof {
            let t = split_byte(b@, 58);
            lemma_split_byte_head(b@, 58);
            assert(!is_group(t[0]));
            assert(t.len() >= 3 ==> t.take(t.len() - 2)[0] == t[0]);
            assert forall|k: int| !interior_at(t, k) by {
                if interior_at(t, k) {
                    assert(t.take(k)[0] == t[0]);
                    assert(is_group(t.take(k)[0]));
                }
            }
            assert(spec_parse_ipv6(b@) is None);
            let body = domain_body(b@);
            let ls = split_byte(body, 46);
            assert(body[0] == 91);
            lemma_split_byte_head(body, 46);
            lemma_split_byte_len(body, 46);
            assert(!is_label(ls[0]));
            assert(!is_domain(b@));
        }
        return Err(HostParseError);
    }
    if let Some(v) = parse_ipv6(b) {
        return Ok(Host::Ip(IpAddress::V6(Ipv6Address { bits: v })));
    }
    if check_domain(b) {
        return Ok(Host::Name(TargetName(s.to_owned())));
    }
    Err(HostParseError)
}

} // verus!
