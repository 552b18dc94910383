//! Address validators: pure functions checking CIDR syntax, address
//! family consistency, and subnet membership.
//!
//! An IPv4 address is four decimal octets without leading zeros; an IPv6
//! address is up to eight hexadecimal groups with at most one `::`
//! compression (the embedded-IPv4 form is not accepted).

use vstd::prelude::*;
use vstd::string::StrSliceExecFns;
use crate::strutil::{dec_val, is_dec_digit, is_dec_seq, split_char, split_on};

verus! {

/// A parsed address of either family.
#[derive(Debug, Clone, Copy, PartialEq, Eq, Structural)]
pub enum IpVal {
    V4(u32),
    V6(u128),
}

/// Why a CIDR string was rejected.
#[derive(Debug, Clone, Copy, PartialEq, Eq, Structural)]
pub enum CidrFault {
    /// No `/` between address and prefix length.
    MissingSlash,
    /// The address part parses in neither family.
    BadAddress,
    /// The prefix-length part is not a number an 8-bit value can hold.
    BadMask,
    /// The prefix length exceeds the family's address width.
    MaskTooLarge,
}

/// Why a gateway was rejected against its interface address.
#[derive(Debug, Clone, Copy, PartialEq, Eq, Structural)]
pub enum GatewayFault {
    /// The gateway string parses in neither family.
    BadAddress,
    /// Interface address and gateway are of different families.
    FamilyMismatch,
    /// The gateway equals the interface address.
    SameAddress,
    /// The gateway lies outside the subnet of the interface address.
    NotInSubnet,
}

/// A decimal octet: one to three digits, no leading zero, value at most
/// 255.
pub open spec fn octet_ok(t: Seq<char>) -> bool {
    &&& is_dec_seq(t)
    &&& t.len() <= 3
    &&& (t[0] == '0' ==> t.len() == 1)
    &&& dec_val(t) <= 255
}

/// The value of a dotted-quad IPv4 address, if `s` is one.
pub open spec fn ipv4_of(s: Seq<char>) -> Option<u32> {
    let ts = split_on(s, '.');
    if ts.len() == 4 && octet_ok(ts[0]) && octet_ok(ts[1]) && octet_ok(ts[2]) && octet_ok(ts[3]) {
        Some(
            (((dec_val(ts[0]) * 256 + dec_val(ts[1])) * 256 + dec_val(ts[2])) * 256 + dec_val(
                ts[3],
            )) as u32,
        )
    } else {
        None
    }
}

/// Whether `c` is a hexadecimal digit.
pub open spec fn is_hex_digit(c: char) -> bool {
    ('0' <= c && c <= '9') || ('a' <= c && c <= 'f') || ('A' <= c && c <= 'F')
}

/// The value of the hexadecimal digit `c`.
pub open spec fn hex_digit_val(c: char) -> nat
    recommends
        is_hex_digit(c),
{
    if '0' <= c && c <= '9' {
        (c as nat - '0' as nat) as nat
    } else if 'a' <= c && c <= 'f' {
        (c as nat - 'a' as nat + 10) as nat
    } else {
        (c as nat - 'A' as nat + 10) as nat
    }
}

/// The value of the hexadecimal digit run `t`, most significant first.
pub open spec fn hex_val(t: Seq<char>) -> nat
    decreases t.len(),
{
    if t.len() == 0 {
        0
    } else {
        hex_val(t.drop_last()) * 16 + hex_digit_val(t.last())
    }
}

/// An IPv6 group: one to four hexadecimal digits.
pub open spec fn hex_group_ok(t: Seq<char>) -> bool {
    1 <= t.len() <= 4 && forall|i: int| 0 <= i < t.len() ==> is_hex_digit(t[i])
}

/// Every token in `ts` is a valid group.
pub open spec fn all_groups_ok(ts: Seq<Seq<char>>) -> bool {
    forall|i: int| 0 <= i < ts.len() ==> hex_group_ok(ts[i])
}

/// Some token in `ts` is empty.
pub open spec fn has_empty(ts: Seq<Seq<char>>) -> bool {
    exists|i: int| 0 <= i < ts.len() && ts[i].len() == 0
}

/// The value of a run of 16-bit groups, first group most significant.
pub open spec fn groups_val(ts: Seq<Seq<char>>) -> nat
    decreases ts.len(),
{
    if ts.len() == 0 {
        0
    } else {
        groups_val(ts.drop_last()) * 0x10000 + hex_val(ts.last())
    }
}

/// Sixteen to the sixteenth powers: the place value of a group.
pub open spec fn pow16g(k: nat) -> nat
    decreases k,
{
    if k == 0 {
        1
    } else {
        0x10000 * pow16g((k - 1) as nat)
    }
}

/// A valid position for the `::` compression strictly inside the token
/// list: the single empty token, with valid groups on both sides and at
/// most seven groups in all.
pub open spec fn mid_ok(ts: Seq<Seq<char>>, e: int) -> bool {
    &&& 0 < e < ts.len() - 1
    &&& ts[e].len() == 0
    &&& all_groups_ok(ts.subrange(0, e))
    &&& all_groups_ok(ts.subrange(e + 1, ts.len() as int))
    &&& ts.len() <= 8
}

/// The value of an IPv6 address given as its `:`-separated tokens:
/// eight plain groups, or a single `::` compression standing for the
/// missing zero groups, at either end, in the middle, or alone.
pub open spec fn ipv6_tokens(ts: Seq<Seq<char>>) -> Option<u128> {
    if !has_empty(ts) {
        if ts.len() == 8 && all_groups_ok(ts) {
            Some(groups_val(ts) as u128)
        } else {
            None
        }
    } else if ts.len() == 3 && ts[0].len() == 0 && ts[1].len() == 0 && ts[2].len() == 0 {
        Some(0)
    } else if ts.len() >= 3 && ts[0].len() == 0 && ts[1].len() == 0 && all_groups_ok(
        ts.subrange(2, ts.len() as int),
    ) && ts.len() - 2 <= 7 {
        Some(groups_val(ts.subrange(2, ts.len() as int)) as u128)
    } else if ts.len() >= 3 && ts[ts.len() - 1].len() == 0 && ts[ts.len() - 2].len() == 0
        && all_groups_ok(ts.subrange(0, ts.len() - 2)) && ts.len() - 2 <= 7 {
        Some(
            (groups_val(ts.subrange(0, ts.len() - 2)) * pow16g(
                (8 - (ts.len() - 2)) as nat,
            )) as u128,
        )
    } else if exists|e: int| mid_ok(ts, e) {
        let e = choose|e: int| mid_ok(ts, e);
        Some(
            (groups_val(ts.subrange(0, e)) * pow16g((8 - e) as nat) + groups_val(
                ts.subrange(e + 1, ts.len() as int),
            )) as u128,
        )
    } else {
        None
    }
}

/// The value of an IPv6 address, if `s` is one.
pub open spec fn ipv6_of(s: Seq<char>) -> Option<u128> {
    ipv6_tokens(split_on(s, ':'))
}

/// The parsed address of `s` in either family: the dotted-quad reading
/// wins, then the grouped reading.
pub open spec fn ip_of(s: Seq<char>) -> Option<IpVal> {
    match ipv4_of(s) {
        Some(v) => Some(IpVal::V4(v)),
        None => match ipv6_of(s) {
            Some(v) => Some(IpVal::V6(v)),
            None => None,
        },
    }
}

/// The IPv4 netmask of a prefix length: the top `p` bits set.
pub open spec fn mask4_of(p: u8) -> u32
    recommends
        p <= 32,
{
    if p == 0 {
        0u32
    } else {
        u32::MAX << ((32 - p) as u32)
    }
}

/// The IPv6 netmask of a prefix length: the top `p` bits set.
pub open spec fn mask6_of(p: u8) -> u128
    recommends
        p <= 128,
{
    if p == 0 {
        0u128
    } else {
        u128::MAX << ((128 - p) as u128)
    }
}

/// The outcome the gateway checks owe for parsed values: the families
/// must agree, the addresses must differ, and both must agree on the
/// network bits selected by the prefix length.
pub open spec fn gateway_check(ip: IpVal, prefix: u8, gw: IpVal) -> Result<(), GatewayFault> {
    match (ip, gw) {
        (IpVal::V4(a), IpVal::V4(g)) => {
            if a == g {
                Err(GatewayFault::SameAddress)
            } else if a & mask4_of(prefix) != g & mask4_of(prefix) {
                Err(GatewayFault::NotInSubnet)
            } else {
                Ok(())
            }
        },
        (IpVal::V6(a), IpVal::V6(g)) => {
            if a == g {
                Err(GatewayFault::SameAddress)
            } else if a & mask6_of(prefix) != g & mask6_of(prefix) {
                Err(GatewayFault::NotInSubnet)
            } else {
                Ok(())
            }
        },
        _ => Err(GatewayFault::FamilyMismatch),
    }
}

/// The outcome the CIDR checks owe for an address string with a prefix
/// length: address and prefix split on `/`, the address parses in one
/// family, the prefix is a small number within the family's width.
pub open spec fn cidr_check(s: Seq<char>) -> Result<(IpVal, u8), CidrFault> {
    let ts = split_on(s, '/');
    if ts.len() < 2 {
        Err(CidrFault::MissingSlash)
    } else if ts.len() > 2 {
        Err(CidrFault::BadMask)
    } else {
        match ip_of(ts[0]) {
            None => Err(CidrFault::BadAddress),
            Some(ip) => {
                if !(is_dec_seq(ts[1]) && dec_val(ts[1]) <= 255) {
                    Err(CidrFault::BadMask)
                } else if (ip is V4 && dec_val(ts[1]) > 32) || (ip is V6 && dec_val(ts[1])
                    > 128) {
                    Err(CidrFault::MaskTooLarge)
                } else {
                    Ok((ip, dec_val(ts[1]) as u8))
                }
            },
        }
    }
}

fn octet_val(t: &str) -> (r: Option<u32>)
    ensures
        match r {
            Some(v) => octet_ok(t@) && v as nat == dec_val(t@),
            None => !octet_ok(t@),
        },
{
    let n = t.unicode_len();
    if n == 0 || n > 3 {
        return None;
    }
    if t.get_char(0) == '0' && n != 1 {
        return None;
    }
    let mut acc: u32 = 0;
    let mut i: usize = 0;
    while i < n
        invariant
            n == t@.len(),
            0 < n <= 3,
            0 <= i <= n,
            forall|j: int| 0 <= j < i ==> is_dec_digit(t@[j]),
            acc as nat == dec_val(t@.subrange(0, i as int)),
            i == 0 ==> acc == 0,
            i == 1 ==> acc <= 9,
            i == 2 ==> acc <= 99,
            i == 3 ==> acc <= 999,
        decreases n - i,
    {
        let c = t.get_char(i);
        if !(c >= '0' && c <= '9') {
            return None;
        }
        proof {
            assert(t@.subrange(0, i + 1).drop_last() =~= t@.subrange(0, i as int));
        }
        acc = acc * 10 + ((c as u32) - ('0' as u32));
        i = i + 1;
    }
    proof {
        assert(t@.subrange(0, n as int) =~= t@);
    }
    if acc > 255 {
        return None;
    }
    Some(acc)
}

/// Parse a dotted-quad IPv4 address.
pub fn parse_ipv4(s: &str) -> (r: Option<u32>)
    ensures
        r == ipv4_of(s@),
{
    let ts = split_char(s, '.');
    if ts.len() != 4 {
        return None;
    }
    let o0 = octet_val(ts[0].as_str());
    let o1 = octet_val(ts[1].as_str());
    let o2 = octet_val(ts[2].as_str());
    let o3 = octet_val(ts[3].as_str());
    match (o0, o1, o2, o3) {
        (Some(a), Some(b), Some(c), Some(d)) => {
            let v = ((a * 256 + b) * 256 + c) * 256 + d;
            Some(v)
        },
        _ => None,
    }
}

fn hex_group_val(t: &str) -> (r: Option<u32>)
    ensures
        match r {
            Some(v) => hex_group_ok(t@) && v as nat == hex_val(t@) && v < 0x10000,
            None => !hex_group_ok(t@),
        },
{
    let n = t.unicode_len();
    if n == 0 || n > 4 {
        return None;
    }
    let mut acc: u32 = 0;
    let mut i: usize = 0;
    while i < n
        invariant
            n == t@.len(),
            0 < n <= 4,
            0 <= i <= n,
            forall|j: int| 0 <= j < i ==> is_hex_digit(t@[j]),
            acc as nat == hex_val(t@.subrange(0, i as int)),
            i == 0 ==> acc == 0,
            i == 1 ==> acc <= 0xf,
            i == 2 ==> acc <= 0xff,
            i == 3 ==> acc <= 0xfff,
            i == 4 ==> acc <= 0xffff,
        decreases n - i,
    {
        let c = t.get_char(i);
        let d: u32 = if c >= '0' && c <= '9' {
            (c as u32) - ('0' as u32)
        } else if c >= 'a' && c <= 'f' {
            (c as u32) - ('a' as u32) + 10
        } else if c >= 'A' && c <= 'F' {
            (c as u32) - ('A' as u32) + 10
        } else {
            return None;
        };
        proof {
            assert(t@.subrange(0, i + 1).drop_last() =~= t@.subrange(0, i as int));
        }
        acc = acc * 16 + d;
        i = i + 1;
    }
    proof {
        assert(t@.subrange(0, n as int) =~= t@);
    }
    Some(acc)
}

/// A run of valid groups is worth less than the place value of its
/// length.
proof fn lemma_groups_val_bound(ts: Seq<Seq<char>>)
    requires
        all_groups_ok(ts),
    ensures
        groups_val(ts) < pow16g(ts.len()),
    decreases ts.len(),
{
    if ts.len() == 0 {
    } else {
        assert(all_groups_ok(ts.drop_last())) by {
            assert(forall|i: int|
                0 <= i < ts.len() - 1 ==> ts.drop_last()[i] == ts[i]);
        }
        lemma_groups_val_bound(ts.drop_last());
        lemma_hex_val_bound(ts.last());
        assert(groups_val(ts) == groups_val(ts.drop_last()) * 0x10000 + hex_val(ts.last()));
        assert(pow16g(ts.len()) == 0x10000 * pow16g((ts.len() - 1) as nat));
        assert(groups_val(ts.drop_last()) * 0x10000 + hex_val(ts.last()) < 0x10000 * pow16g(
            (ts.len() - 1) as nat,
        )) by (nonlinear_arith)
            requires
                groups_val(ts.drop_last()) < pow16g((ts.len() - 1) as nat),
                hex_val(ts.last()) < 0x10000,
        ;
    }
}

/// A group of at most four hex digits is worth less than `0x10000`.
proof fn lemma_hex_val_bound(t: Seq<char>)
    requires
        hex_group_ok(t),
    ensures
        hex_val(t) < 0x10000,
{
    lemma_hex_val_bound_len(t, t.len() as int);
}

/// Sixteen to a small power: the place value of a hex digit.
spec fn sixteen_pow(k: nat) -> nat
    decreases k,
{
    if k == 0 {
        1
    } else {
        16 * sixteen_pow((k - 1) as nat)
    }
}

proof fn lemma_hex_val_bound_len(t: Seq<char>, k: int)
    requires
        0 <= k <= 4,
        t.len() <= k,
        forall|i: int| 0 <= i < t.len() ==> is_hex_digit(t[i]),
    ensures
        hex_val(t) < sixteen_pow(k as nat),
        hex_val(t) < 0x10000,
    decreases t.len(),
{
    assert(sixteen_pow(0) == 1);
    assert(sixteen_pow(1) == 16);
    assert(sixteen_pow(2) == 256);
    assert(sixteen_pow(3) == 4096);
    assert(sixteen_pow(4) == 0x10000);
    if t.len() == 0 {
        lemma_sixteen_pow_mono(0, k as nat);
    } else {
        lemma_hex_val_bound_len(t.drop_last(), k - 1);
        assert(hex_digit_val(t.last()) < 16);
        assert(hex_val(t.drop_last()) * 16 + hex_digit_val(t.last()) < sixteen_pow(
            (k - 1) as nat,
        ) * 16) by (nonlinear_arith)
            requires
                hex_val(t.drop_last()) < sixteen_pow((k - 1) as nat),
                hex_digit_val(t.last()) < 16,
        ;
        assert(sixteen_pow((k - 1) as nat) * 16 == sixteen_pow(k as nat)) by (nonlinear_arith)
            requires
                sixteen_pow(k as nat) == 16 * sixteen_pow((k - 1) as nat),
        ;
        lemma_sixteen_pow_mono(k as nat, 4);
    }
}

proof fn lemma_sixteen_pow_mono(a: nat, b: nat)
    requires
        a <= b,
    ensures
        sixteen_pow(a) <= sixteen_pow(b),
        sixteen_pow(a) >= 1,
    decreases b,
{
    if a == b {
        if a > 0 {
            lemma_sixteen_pow_mono((a - 1) as nat, (a - 1) as nat);
            assert(sixteen_pow(a) == 16 * sixteen_pow((a - 1) as nat));
            assert(16 * sixteen_pow((a - 1) as nat) >= 1) by (nonlinear_arith)
                requires
                    sixteen_pow((a - 1) as nat) >= 1,
            ;
        }
    } else {
        lemma_sixteen_pow_mono(a, (b - 1) as nat);
        assert(sixteen_pow(b) == 16 * sixteen_pow((b - 1) as nat));
        assert(16 * sixteen_pow((b - 1) as nat) >= sixteen_pow((b - 1) as nat))
            by (nonlinear_arith)
            requires
                sixteen_pow((b - 1) as nat) >= 1,
        ;
    }
}

proof fn lemma_pow16g_pos(k: nat)
    ensures
        pow16g(k) >= 1,
    decreases k,
{
    if k > 0 {
        lemma_pow16g_pos((k - 1) as nat);
    }
}

proof fn lemma_pow16g_mono(a: nat, b: nat)
    requires
        a <= b,
    ensures
        pow16g(a) <= pow16g(b),
    decreases b,
{
    if a < b {
        lemma_pow16g_mono(a, (b - 1) as nat);
        lemma_pow16g_pos((b - 1) as nat);
        assert(pow16g(b) == 0x10000 * pow16g((b - 1) as nat));
        assert(pow16g((b - 1) as nat) <= 0x10000 * pow16g((b - 1) as nat)) by (nonlinear_arith)
            requires
                pow16g((b - 1) as nat) >= 1,
        ;
    }
}

proof fn lemma_pow16g_8()
    ensures
        pow16g(8) == 0x100000000000000000000000000000000,
        pow16g(7) == 0x10000000000000000000000000000,
{
    assert(pow16g(0) == 1);
    assert(pow16g(1) == 0x10000);
    assert(pow16g(2) == 0x100000000);
    assert(pow16g(3) == 0x1000000000000);
    assert(pow16g(4) == 0x10000000000000000);
    assert(pow16g(5) == 0x100000000000000000000);
    assert(pow16g(6) == 0x1000000000000000000000000);
    assert(pow16g(7) == 0x10000000000000000000000000000);
    assert(pow16g(8) == 0x100000000000000000000000000000000);
}

fn groups_value(ts: &Vec<String>, from: usize, to: usize) -> (r: Option<u128>)
    requires
        from <= to <= ts@.len(),
        to - from <= 8,
    ensures
        match r {
            Some(v) => all_groups_ok(ts.deep_view().subrange(from as int, to as int)) && v as nat
                == groups_val(ts.deep_view().subrange(from as int, to as int)),
            None => !all_groups_ok(ts.deep_view().subrange(from as int, to as int)),
        },
{
    let ghost sub = ts.deep_view().subrange(from as int, to as int);
    let mut acc: u128 = 0;
    let mut i: usize = from;
    proof {
        assert(sub.subrange(0, 0) =~= Seq::<Seq<char>>::empty());
    }
    while i < to
        invariant
            from <= i <= to <= ts@.len(),
            to - from <= 8,
            sub == ts.deep_view().subrange(from as int, to as int),
            all_groups_ok(sub.subrange(0, i - from)),
            acc as nat == groups_val(sub.subrange(0, i - from)),
            (acc as nat) < pow16g((i - from) as nat),
        decreases to - i,
    {
        let g = match hex_group_val(ts[i].as_str()) {
            Some(g) => g,
            None => {
                proof {
                    assert(sub[i - from] == ts@[i as int]@);
                }
                return None;
            },
        };
        proof {
            assert(sub[i - from] == ts@[i as int]@);
            assert(sub.subrange(0, i - from + 1).drop_last() =~= sub.subrange(0, i - from));
            lemma_pow16g_mono((i - from + 1) as nat, 8);
            lemma_pow16g_8();
            assert(acc as nat * 0x10000 + hex_val(sub[i - from]) < pow16g(
                (i - from + 1) as nat,
            )) by (nonlinear_arith)
                requires
                    (acc as nat) < pow16g((i - from) as nat),
                    hex_val(sub[i - from]) < 0x10000,
                    pow16g((i - from + 1) as nat) == 0x10000 * pow16g((i - from) as nat),
            ;
            assert(forall|j: int|
                0 <= j < i - from + 1 ==> sub.subrange(0, i - from + 1)[j] == sub[j]);
        }
        acc = acc * 0x10000 + g as u128;
        i = i + 1;
    }
    proof {
        assert(sub.subrange(0, to - from) =~= sub);
    }
    Some(acc)
}

/// No two positions can both carry the `::` compression.
proof fn lemma_mid_unique(ts: Seq<Seq<char>>, e1: int, e2: int)
    requires
        mid_ok(ts, e1),
        mid_ok(ts, e2),
    ensures
        e1 == e2,
{
    if e1 < e2 {
        assert(ts.subrange(e2 + 1, ts.len() as int).len() >= 0);
        assert(ts.subrange(0, e2)[e1] == ts[e1]);
        assert(hex_group_ok(ts.subrange(0, e2)[e1]));
    } else if e2 < e1 {
        assert(ts.subrange(0, e1)[e2] == ts[e2]);
        assert(hex_group_ok(ts.subrange(0, e1)[e2]));
    }
}

/// Parse an IPv6 address of `:`-separated hexadecimal groups with at most
/// one `::` compression.
pub fn parse_ipv6(s: &str) -> (r: Option<u128>)
    ensures
        r == ipv6_of(s@),
{
    let ts = split_char(s, ':');
    let n = ts.len();
    let ghost tv = ts.deep_view();

    // Find the first empty token, if any.
    let mut first_empty: Option<usize> = None;
    let mut i: usize = 0;
    while i < n
        invariant
            n == ts@.len(),
            tv == ts.deep_view(),
            0 <= i <= n,
            first_empty is None ==> forall|j: int| 0 <= j < i ==> tv[j].len() != 0,
            match first_empty {
                Some(e) => e < i && tv[e as int].len() == 0 && forall|j: int|
                    0 <= j < e ==> tv[j].len() != 0,
                None => true,
            },
        decreases n - i,
    {
        if first_empty.is_none() && ts[i].as_str().is_empty() {
            first_empty = Some(i);
        }
        i = i + 1;
    }

    match first_empty {
        None => {
            proof {
                assert(!has_empty(tv));
            }
            if n != 8 {
                return None;
            }
            match groups_value(&ts, 0, 8) {
                Some(v) => {
                    proof {
                        assert(tv.subrange(0, 8) =~= tv);
                        lemma_groups_val_bound(tv);
                        lemma_pow16g_8();
                    }
                    Some(v)
                },
                None => {
                    proof {
                        assert(tv.subrange(0, 8) =~= tv);
                    }
                    None
                },
            }
        },
        Some(e) => {
            proof {
                assert(has_empty(tv));
            }
            if e == 0 {
                // The string starts with `:`; only `::` forms are valid.
                if n == 3 {
                    let second = ts[1].as_str().is_empty();
                    let third = ts[2].as_str().is_empty();
                    if second && third {
                        return Some(0);
                    }
                }
                if n >= 3 && ts[1].as_str().is_empty() && !ts[2].as_str().is_empty() {
                    // `::R`
                    if n - 2 <= 7 {
                        match groups_value(&ts, 2, n) {
                            Some(v) => {
                                proof {
                                    lemma_groups_val_bound(tv.subrange(2, n as int));
                                    lemma_pow16g_mono((n - 2) as nat, 8);
                                    lemma_pow16g_8();
                                    lemma_no_mid_when_leading(tv, n as int);
                                }
                                return Some(v);
                            },
                            None => {
                                proof {
                                    lemma_no_trailing_when_early_empty(tv, 0);
                                    lemma_no_mid_when_leading(tv, n as int);
                                }
                                return None;
                            },
                        }
                    }
                }
                proof {
                    if n >= 3 {
                        if tv[2].len() == 0 {
                            assert(tv.subrange(2, n as int)[0] == tv[2]);
                        }
                        lemma_no_trailing_when_early_empty(tv, 0);
                    }
                    lemma_no_mid_when_leading(tv, n as int);
                }
                return None;
            }
            // e >= 1: a leading group exists, so the `ts[0] empty` spec
            // branches are off.
            if e == n - 1 {
                // The string ends with a single `:`: invalid.
                proof {
                    if n >= 3 {
                        assert(tv[n - 2].len() != 0);
                    }
                    lemma_no_mid_from_first(tv, e as int);
                }
                return None;
            }
            if e == n - 2 && ts[n - 1].as_str().is_empty() {
                // `L::`
                if n - 2 <= 7 {
                    match groups_value(&ts, 0, n - 2) {
                        Some(v) => {
                            let p = pow16_exec((8 - (n - 2)) as u64);
                            proof {
                                lemma_groups_val_bound(tv.subrange(0, n - 2));
                                lemma_pow16g_split((n - 2) as nat, (8 - (n - 2)) as nat);
                                lemma_pow16g_pos((8 - (n - 2)) as nat);
                                lemma_pow16g_8();
                                assert(v as nat * pow16g((8 - (n - 2)) as nat) < pow16g(8))
                                    by (nonlinear_arith)
                                    requires
                                        (v as nat) < pow16g((n - 2) as nat),
                                        pow16g(8) == pow16g((n - 2) as nat) * pow16g(
                                            (8 - (n - 2)) as nat,
                                        ),
                                        pow16g((8 - (n - 2)) as nat) >= 1,
                                ;
                            }
                            return Some(v * p);
                        },
                        None => {
                            proof {
                                lemma_no_mid_from_first(tv, e as int);
                            }
                            return None;
                        },
                    }
                }
                proof {
                    lemma_no_mid_from_first(tv, e as int);
                }
                return None;
            }
            // Middle compression: `L::R` with the single empty at `e`.
            if n <= 8 {
                let left = groups_value(&ts, 0, e);
                let right = groups_value(&ts, e + 1, n);
                match (left, right) {
                    (Some(l), Some(rv)) => {
                        proof {
                            assert(mid_ok(tv, e as int));
                        }
                        let p = pow16_exec((8 - e) as u64);
                        proof {
                            let ghost ec = choose|x: int| mid_ok(tv, x);
                            lemma_mid_unique(tv, ec, e as int);
                            lemma_groups_val_bound(tv.subrange(0, e as int));
                            lemma_groups_val_bound(tv.subrange(e + 1, n as int));
                            lemma_pow16g_split(e as nat, (8 - e) as nat);
                            lemma_pow16g_pos((8 - e - 1) as nat);
                            lemma_pow16g_8();
                            lemma_pow16g_mono((n - 1 - e) as nat, (8 - e - 1) as nat);
                            assert(l as nat * pow16g((8 - e) as nat) + (rv as nat) < pow16g(8))
                                by (nonlinear_arith)
                                requires
                                    (l as nat) < pow16g(e as nat),
                                    (rv as nat) < pow16g((8 - e - 1) as nat),
                                    pow16g(8) == pow16g(e as nat) * pow16g((8 - e) as nat),
                                    pow16g((8 - e) as nat) == 0x10000 * pow16g((8 - e - 1) as nat),
                                    pow16g((8 - e - 1) as nat) >= 1,
                            ;
                        }
                        return Some(l * p + rv);
                    },
                    _ => {
                        proof {
                            if (e as int) < n - 2 {
                                lemma_no_trailing_when_early_empty(tv, e as int);
                            }
                            lemma_no_mid_from_first(tv, e as int);
                        }
                        return None;
                    },
                }
            } else {
                proof {
                    if (e as int) < n - 2 {
                        lemma_no_trailing_when_early_empty(tv, e as int);
                    }
                    lemma_no_mid_from_first(tv, e as int);
                }
                return None;
            }
        },
    }
}

/// A token list with an empty token before its last two positions admits
/// no trailing compression.
proof fn lemma_no_trailing_when_early_empty(ts: Seq<Seq<char>>, e: int)
    requires
        0 <= e < ts.len() - 2,
        ts[e].len() == 0,
    ensures
        !all_groups_ok(ts.subrange(0, ts.len() - 2)),
{
    assert(ts.subrange(0, ts.len() - 2)[e] == ts[e]);
}

/// `pow16g` of a small exponent, executably.
fn pow16_exec(k: u64) -> (r: u128)
    requires
        k <= 7,
    ensures
        r as nat == pow16g(k as nat),
{
    proof {
        lemma_pow16g_8();
        assert(pow16g(0) == 1);
        assert(pow16g(1) == 0x10000);
        assert(pow16g(2) == 0x100000000);
        assert(pow16g(3) == 0x1000000000000);
        assert(pow16g(4) == 0x10000000000000000);
        assert(pow16g(5) == 0x100000000000000000000);
        assert(pow16g(6) == 0x1000000000000000000000000);
    }
    if k == 0 {
        1
    } else if k == 1 {
        0x10000
    } else if k == 2 {
        0x100000000
    } else if k == 3 {
        0x1000000000000
    } else if k == 4 {
        0x10000000000000000
    } else if k == 5 {
        0x100000000000000000000
    } else if k == 6 {
        0x1000000000000000000000000
    } else {
        0x10000000000000000000000000000
    }
}

/// Place values multiply when exponents add.
proof fn lemma_pow16g_split(a: nat, b: nat)
    ensures
        pow16g(a + b) == pow16g(a) * pow16g(b),
    decreases a,
{
    if a == 0 {
        assert(pow16g(0 + b) == 1 * pow16g(b)) by (nonlinear_arith)
            requires
                pow16g((0 + b) as nat) == pow16g(b),
        ;
    } else {
        lemma_pow16g_split((a - 1) as nat, b);
        assert(pow16g(a + b) == 0x10000 * pow16g((a + b - 1) as nat));
        assert(pow16g(a) == 0x10000 * pow16g((a - 1) as nat));
        assert(0x10000 * (pow16g((a - 1) as nat) * pow16g(b)) == (0x10000 * pow16g(
            (a - 1) as nat,
        )) * pow16g(b)) by (nonlinear_arith);
    }
}

/// When the first empty token cannot carry a middle compression, none
/// can.
proof fn lemma_no_mid_from_first(ts: Seq<Seq<char>>, e: int)
    requires
        0 <= e < ts.len(),
        ts[e].len() == 0,
        forall|j: int| 0 <= j < e ==> ts[j].len() != 0,
        !mid_ok(ts, e),
    ensures
        !(exists|x: int| mid_ok(ts, x)),
{
    if exists|x: int| mid_ok(ts, x) {
        let x = choose|x: int| mid_ok(ts, x);
        if x != e {
            if e < x {
                assert(ts.subrange(0, x)[e] == ts[e]);
                assert(hex_group_ok(ts.subrange(0, x)[e]));
            } else {
                assert(ts.subrange(x + 1, ts.len() as int)[e - x - 1] == ts[e]);
                assert(hex_group_ok(ts.subrange(x + 1, ts.len() as int)[e - x - 1]));
            }
        }
    }
}

/// A token list whose first token is empty admits no middle compression.
proof fn lemma_no_mid_when_leading(ts: Seq<Seq<char>>, n: int)
    requires
        n == ts.len(),
        n >= 1,
        ts[0].len() == 0,
    ensures
        !(exists|x: int| mid_ok(ts, x)),
{
    lemma_no_mid_from_first(ts, 0);
}

/// Parse an address of either family, trying the dotted-quad form first.
pub fn parse_ip(s: &str) -> (r: Option<IpVal>)
    ensures
        r == ip_of(s@),
{
    if let Some(v) = parse_ipv4(s) {
        return Some(IpVal::V4(v));
    }
    match parse_ipv6(s) {
        Some(v) => Some(IpVal::V6(v)),
        None => None,
    }
}

fn mask4(p: u8) -> (r: u32)
    requires
        p <= 32,
    ensures
        r == mask4_of(p),
{
    if p == 0 {
        0
    } else {
        u32::MAX << ((32 - p) as u32)
    }
}

fn mask6(p: u8) -> (r: u128)
    requires
        p <= 128,
    ensures
        r == mask6_of(p),
{
    if p == 0 {
        0
    } else {
        u128::MAX << ((128 - p) as u128)
    }
}

/// Check a gateway against its interface address: same family, distinct
/// addresses, same network bits under the prefix length.  Succeeds
/// exactly when all three hold.
pub fn check_gateway(ip: IpVal, prefix: u8, gw: IpVal) -> (r: Result<(), GatewayFault>)
    requires
        ip is V4 ==> prefix <= 32,
        ip is V6 ==> prefix <= 128,
    ensures
        r == gateway_check(ip, prefix, gw),
{
    match (ip, gw) {
        (IpVal::V4(a), IpVal::V4(g)) => {
            if a == g {
                Err(GatewayFault::SameAddress)
            } else if a & mask4(prefix) != g & mask4(prefix) {
                Err(GatewayFault::NotInSubnet)
            } else {
                Ok(())
            }
        },
        (IpVal::V6(a), IpVal::V6(g)) => {
            if a == g {
                Err(GatewayFault::SameAddress)
            } else if a & mask6(prefix) != g & mask6(prefix) {
                Err(GatewayFault::NotInSubnet)
            } else {
                Ok(())
            }
        },
        _ => Err(GatewayFault::FamilyMismatch),
    }
}

/// Validate an address-with-prefix string: split on `/`, parse the
/// address, bound the prefix by the family's width.
pub fn validate_cidr(s: &str) -> (r: Result<(IpVal, u8), CidrFault>)
    ensures
        r == cidr_check(s@),
{
    let ts = split_char(s, '/');
    if ts.len() < 2 {
        return Err(CidrFault::MissingSlash);
    }
    if ts.len() > 2 {
        return Err(CidrFault::BadMask);
    }
    let ip = match parse_ip(ts[0].as_str()) {
        Some(ip) => ip,
        None => {
            return Err(CidrFault::BadAddress);
        },
    };
    let m = match crate::strutil::parse_u64(ts[1].as_str()) {
        Some(m) => m,
        None => {
            return Err(CidrFault::BadMask);
        },
    };
    if m > 255 {
        return Err(CidrFault::BadMask);
    }
    let limit: u64 = match ip {
        IpVal::V4(_) => 32,
        IpVal::V6(_) => 128,
    };
    if m > limit {
        return Err(CidrFault::MaskTooLarge);
    }
    Ok((ip, m as u8))
}

} // verus!
