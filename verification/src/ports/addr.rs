//! IP addresses and their canonical text.
//!
//! IPv4 addresses are written in dotted decimal. IPv6 addresses follow
//! RFC 5952: lower-case hexadecimal groups without leading zeros, the first
//! longest run of two or more zero groups shortened to `::`, and IPv4-mapped
//! addresses (`::ffff:a.b.c.d`) written in mixed notation.
use vstd::prelude::*;
use vstd::string::*;

use crate::text::{decimal, decimal_string, lacks, lemma_decimal_lacks, lemma_lacks_concat, push_char};

verus! {

/// An IP address.
#[derive(Clone, Copy, Debug, PartialEq, Eq)]
pub enum IpAddress {
    V4([u8; 4]),
    V6([u16; 8]),
}

/// A socket address: an IP address and a port.
#[derive(Clone, Copy, Debug, PartialEq, Eq)]
pub struct SocketAddress {
    pub ip: IpAddress,
    pub port: u16,
}

/// The wildcard address (`0.0.0.0` or `::`).
pub open spec fn is_unspecified(ip: IpAddress) -> bool {
    match ip {
        IpAddress::V4(o) => o@ == seq![0u8, 0u8, 0u8, 0u8],
        IpAddress::V6(s) => s@ == seq![0u16, 0u16, 0u16, 0u16, 0u16, 0u16, 0u16, 0u16],
    }
}

/// A loopback address (`127.0.0.0/8` or `::1`).
pub open spec fn is_loopback(ip: IpAddress) -> bool {
    match ip {
        IpAddress::V4(o) => o@[0] == 127u8,
        IpAddress::V6(s) => s@ == seq![0u16, 0u16, 0u16, 0u16, 0u16, 0u16, 0u16, 1u16],
    }
}

/// The lower-case hexadecimal digit for `d` (`0 <= d < 16`).
pub open spec fn hex_digit(d: nat) -> char {
    if d < 10 {
        crate::text::digit_char(d)
    } else if d == 10 { 'a' }
    else if d == 11 { 'b' }
    else if d == 12 { 'c' }
    else if d == 13 { 'd' }
    else if d == 14 { 'e' }
    else { 'f' }
}

/// Lower-case hexadecimal text of `n`, without leading zeros.
pub open spec fn hex(n: nat) -> Seq<char>
    decreases n,
{
    if n < 16 {
        seq![hex_digit(n)]
    } else {
        hex(n / 16).push(hex_digit(n % 16))
    }
}

/// Dotted-decimal text of four octets.
pub open spec fn dotted(a: u8, b: u8, c: u8, d: u8) -> Seq<char> {
    decimal(a as nat) + "."@ + decimal(b as nat) + "."@ + decimal(c as nat) + "."@ + decimal(d as nat)
}

/// Groups written in hexadecimal and separated by `:`.
pub open spec fn hex_groups(s: Seq<u16>) -> Seq<char>
    decreases s.len(),
{
    if s.len() == 0 {
        Seq::empty()
    } else if s.len() == 1 {
        hex(s[0] as nat)
    } else {
        hex_groups(s.drop_last()) + ":"@ + hex(s.last() as nat)
    }
}

/// The length of the run of zero groups that ends just before `end`.
pub open spec fn zero_run_ending(s: Seq<u16>, end: int) -> nat
    decreases end,
{
    if end <= 0 || s[end - 1] != 0 {
        0
    } else {
        zero_run_ending(s, end - 1) + 1
    }
}

/// The first longest run of zero groups among the first `n` groups, as
/// `(start, length)`; `(0, 0)` when there is no zero group.
pub open spec fn longest_zero_run(s: Seq<u16>, n: int) -> (int, nat)
    decreases n,
{
    if n <= 0 {
        (0, 0)
    } else {
        let best = longest_zero_run(s, n - 1);
        let run = zero_run_ending(s, n);
        if run > best.1 { (n - run, run) } else { best }
    }
}

/// Whether the address is IPv4-mapped (`::ffff:a.b.c.d`).
pub open spec fn is_ipv4_mapped(s: Seq<u16>) -> bool {
    s.len() == 8 && s[0] == 0 && s[1] == 0 && s[2] == 0 && s[3] == 0 && s[4] == 0 && s[5] == 0xffff
}

/// The RFC 5952 text of an IPv6 address.
pub open spec fn ipv6_text(s: Seq<u16>) -> Seq<char> {
    if is_ipv4_mapped(s) {
        "::ffff:"@ + dotted((s[6] / 256) as u8, (s[6] % 256) as u8, (s[7] / 256) as u8, (s[7] % 256) as u8)
    } else {
        let run = longest_zero_run(s, 8);
        if run.1 > 1 {
            hex_groups(s.take(run.0)) + "::"@ + hex_groups(s.skip(run.0 + run.1))
        } else {
            hex_groups(s)
        }
    }
}

/// The canonical text of an address.
pub open spec fn ip_text(ip: IpAddress) -> Seq<char> {
    match ip {
        IpAddress::V4(o) => dotted(o@[0], o@[1], o@[2], o@[3]),
        IpAddress::V6(s) => ipv6_text(s@),
    }
}

/// Whether `c` can occur in the text of an address: a hexadecimal digit,
/// `.` or `:`.
pub open spec fn address_char(c: char) -> bool {
    ('0' <= c <= '9') || ('a' <= c <= 'f') || c == '.' || c == ':'
}

pub proof fn lemma_hex_lacks(n: nat, c: char)
    requires
        !address_char(c),
    ensures
        lacks(hex(n), c),
    decreases n,
{
    if n >= 16 {
        lemma_hex_lacks(n / 16, c);
        lemma_lacks_concat(hex(n / 16), seq![hex_digit(n % 16)], c);
        assert(hex(n) =~= hex(n / 16) + seq![hex_digit(n % 16)]);
    }
}

proof fn lemma_hex_groups_lack(s: Seq<u16>, c: char)
    requires
        !address_char(c),
    ensures
        lacks(hex_groups(s), c),
    decreases s.len(),
{
    if s.len() == 1 {
        lemma_hex_lacks(s[0] as nat, c);
    } else if s.len() > 1 {
        lemma_hex_groups_lack(s.drop_last(), c);
        lemma_hex_lacks(s.last() as nat, c);
        reveal_strlit(":");
        lemma_lacks_concat(hex_groups(s.drop_last()), ":"@, c);
        lemma_lacks_concat(hex_groups(s.drop_last()) + ":"@, hex(s.last() as nat), c);
    }
}

proof fn lemma_dotted_lacks(a: u8, b: u8, c: u8, d: u8, ch: char)
    requires
        !address_char(ch),
    ensures
        lacks(dotted(a, b, c, d), ch),
{
    lemma_decimal_lacks(a as nat, ch);
    lemma_decimal_lacks(b as nat, ch);
    lemma_decimal_lacks(c as nat, ch);
    lemma_decimal_lacks(d as nat, ch);
    reveal_strlit(".");
    let dot = "."@;
    lemma_lacks_concat(decimal(a as nat), dot, ch);
    lemma_lacks_concat(decimal(a as nat) + dot, decimal(b as nat), ch);
    lemma_lacks_concat(decimal(a as nat) + dot + decimal(b as nat), dot, ch);
    lemma_lacks_concat(decimal(a as nat) + dot + decimal(b as nat) + dot, decimal(c as nat), ch);
    lemma_lacks_concat(decimal(a as nat) + dot + decimal(b as nat) + dot + decimal(c as nat), dot, ch);
    lemma_lacks_concat(
        decimal(a as nat) + dot + decimal(b as nat) + dot + decimal(c as nat) + dot,
        decimal(d as nat),
        ch,
    );
}

/// The text of an address holds only hexadecimal digits, `.` and `:`.
pub proof fn lemma_ip_text_lacks(ip: IpAddress, ch: char)
    requires
        !address_char(ch),
    ensures
        lacks(ip_text(ip), ch),
{
    match ip {
        IpAddress::V4(o) => lemma_dotted_lacks(o@[0], o@[1], o@[2], o@[3], ch),
        IpAddress::V6(seg) => {
            let s = seg@;
            reveal_strlit("::ffff:");
            reveal_strlit("::");
            if is_ipv4_mapped(s) {
                lemma_dotted_lacks((s[6] / 256) as u8, (s[6] % 256) as u8, (s[7] / 256) as u8, (s[7] % 256) as u8, ch);
                lemma_lacks_concat("::ffff:"@, dotted((s[6] / 256) as u8, (s[6] % 256) as u8, (s[7] / 256) as u8, (s[7] % 256) as u8), ch);
            } else {
                let run = longest_zero_run(s, 8);
                if run.1 > 1 {
                    lemma_hex_groups_lack(s.take(run.0), ch);
                    lemma_hex_groups_lack(s.skip(run.0 + run.1), ch);
                    lemma_lacks_concat(hex_groups(s.take(run.0)), "::"@, ch);
                    lemma_lacks_concat(hex_groups(s.take(run.0)) + "::"@, hex_groups(s.skip(run.0 + run.1)), ch);
                } else {
                    lemma_hex_groups_lack(s, ch);
                }
            }
        },
    }
}

/// The text of an address never contains `|`.
pub proof fn lemma_ip_text_lacks_bar(ip: IpAddress)
    ensures
        lacks(ip_text(ip), '|'),
{
    lemma_ip_text_lacks(ip, '|');
}

/// Whether the address is the wildcard address.
pub fn ip_is_unspecified(ip: &IpAddress) -> (r: bool)
    ensures
        r == is_unspecified(*ip),
{
    match ip {
        IpAddress::V4(o) => {
            let r = o[0] == 0 && o[1] == 0 && o[2] == 0 && o[3] == 0;
            assert(r == (o@ =~= seq![0u8, 0u8, 0u8, 0u8]));
            r
        },
        IpAddress::V6(s) => {
            let r = s[0] == 0 && s[1] == 0 && s[2] == 0 && s[3] == 0 && s[4] == 0 && s[5] == 0
                && s[6] == 0 && s[7] == 0;
            assert(r == (s@ =~= seq![0u16, 0u16, 0u16, 0u16, 0u16, 0u16, 0u16, 0u16]));
            r
        },
    }
}

/// Whether the address is a loopback address.
pub fn ip_is_loopback(ip: &IpAddress) -> (r: bool)
    ensures
        r == is_loopback(*ip),
{
    match ip {
        IpAddress::V4(o) => o[0] == 127,
        IpAddress::V6(s) => {
            let r = s[0] == 0 && s[1] == 0 && s[2] == 0 && s[3] == 0 && s[4] == 0 && s[5] == 0
                && s[6] == 0 && s[7] == 1;
            assert(r == (s@ =~= seq![0u16, 0u16, 0u16, 0u16, 0u16, 0u16, 0u16, 1u16]));
            r
        },
    }
}

fn hex_digit_of(d: u16) -> (c: char)
    requires
        d < 16,
    ensures
        c == hex_digit(d as nat),
{
    if d == 0 { '0' }
    else if d == 1 { '1' }
    else if d == 2 { '2' }
    else if d == 3 { '3' }
    else if d == 4 { '4' }
    else if d == 5 { '5' }
    else if d == 6 { '6' }
    else if d == 7 { '7' }
    else if d == 8 { '8' }
    else if d == 9 { '9' }
    else if d == 10 { 'a' }
    else if d == 11 { 'b' }
    else if d == 12 { 'c' }
    else if d == 13 { 'd' }
    else if d == 14 { 'e' }
    else { 'f' }
}

fn push_hex(s: &mut String, n: u16)
    ensures
        final(s)@ == old(s)@ + hex(n as nat),
{
    let mut digits: Vec<char> = Vec::new();
    let mut rest: u16 = n;
    while rest >= 16
        invariant
            rest <= n,
            hex(n as nat) == hex(rest as nat) + digits@.reverse(),
        decreases rest,
    {
        let c = hex_digit_of(rest % 16);
        proof {
            assert(hex(rest as nat) == hex((rest / 16) as nat).push(c));
            assert(digits@.push(c).reverse() =~= seq![c] + digits@.reverse());
            assert(hex((rest / 16) as nat).push(c) + digits@.reverse() =~= hex((rest / 16) as nat) + (
            seq![c] + digits@.reverse()));
        }
        digits.push(c);
        rest = rest / 16;
    }
    let ghost start = s@;
    push_char(s, hex_digit_of(rest));
    let mut i: usize = digits.len();
    while i > 0
        invariant
            i <= digits.len(),
            hex(n as nat) == hex(rest as nat) + digits@.reverse(),
            rest < 16,
            s@ == start + hex(rest as nat) + digits@.subrange(i as int, digits@.len() as int).reverse(),
        decreases i,
    {
        i = i - 1;
        let c = digits[i];
        proof {
            assert(digits@.subrange(i as int, digits@.len() as int) =~= seq![c] + digits@.subrange(
                i + 1,
                digits@.len() as int,
            ));
            assert(digits@.subrange(i as int, digits@.len() as int).reverse() =~= digits@.subrange(
                i + 1,
                digits@.len() as int,
            ).reverse().push(c));
        }
        push_char(s, c);
    }
    assert(digits@.subrange(0, digits@.len() as int) =~= digits@);
    assert(s@ =~= start + hex(n as nat));
}

fn push_dotted(s: &mut String, a: u8, b: u8, c: u8, d: u8)
    ensures
        final(s)@ == old(s)@ + dotted(a, b, c, d),
{
    let ghost start = s@;
    s.append(decimal_string(a as u64).as_str());
    s.append(".");
    s.append(decimal_string(b as u64).as_str());
    s.append(".");
    s.append(decimal_string(c as u64).as_str());
    s.append(".");
    s.append(decimal_string(d as u64).as_str());
    assert(s@ =~= start + dotted(a, b, c, d));
}

/// Appends the groups `s[from..to]` in hexadecimal, separated by `:`.
fn push_hex_groups(out: &mut String, s: &[u16; 8], from: usize, to: usize)
    requires
        from <= to <= 8,
    ensures
        final(out)@ == old(out)@ + hex_groups(s@.subrange(from as int, to as int)),
{
    let ghost start = out@;
    let mut i: usize = from;
    while i < to
        invariant
            from <= i <= to <= 8,
            out@ == start + hex_groups(s@.subrange(from as int, i as int)),
        decreases to - i,
    {
        let ghost prefix = s@.subrange(from as int, i as int);
        if i > from {
            out.append(":");
        }
        push_hex(out, s[i]);
        proof {
            let next = s@.subrange(from as int, i + 1);
            assert(next.drop_last() =~= prefix);
            assert(next.last() == s@[i as int]);
            if i == from {
                assert(next.len() == 1);
                assert(prefix.len() == 0);
            }
        }
        i = i + 1;
    }
}

fn run_ending(s: &[u16; 8], end: usize) -> (r: usize)
    requires
        end <= 8,
    ensures
        r == zero_run_ending(s@, end as int),
        r <= end,
    decreases end,
{
    if end == 0 || s[end - 1] != 0 {
        0
    } else {
        run_ending(s, end - 1) + 1
    }
}

proof fn lemma_run_bounds(s: Seq<u16>, n: int)
    requires
        0 <= n <= s.len(),
    ensures
        0 <= longest_zero_run(s, n).0,
        longest_zero_run(s, n).0 + longest_zero_run(s, n).1 <= n,
    decreases n,
{
    if n > 0 {
        lemma_run_bounds(s, n - 1);
        lemma_zero_run_bound(s, n);
    }
}

proof fn lemma_zero_run_bound(s: Seq<u16>, end: int)
    requires
        0 <= end <= s.len(),
    ensures
        zero_run_ending(s, end) <= end,
    decreases end,
{
    if end > 0 && s[end - 1] == 0 {
        lemma_zero_run_bound(s, end - 1);
    }
}

/// Appends the canonical text of an IPv6 address.
fn push_ipv6(out: &mut String, s: &[u16; 8])
    ensures
        final(out)@ == old(out)@ + ipv6_text(s@),
{
    let ghost start = out@;
    if s[0] == 0 && s[1] == 0 && s[2] == 0 && s[3] == 0 && s[4] == 0 && s[5] == 0xffff {
        out.append("::ffff:");
        push_dotted(out, (s[6] / 256) as u8, (s[6] % 256) as u8, (s[7] / 256) as u8, (s[7] % 256) as u8);
        assert(out@ =~= start + ipv6_text(s@));
        return;
    }
    let mut best_start: usize = 0;
    let mut best_len: usize = 0;
    let mut n: usize = 0;
    while n < 8
        invariant
            n <= 8,
            (best_start as int, best_len as nat) == longest_zero_run(s@, n as int),
        decreases 8 - n,
    {
        n = n + 1;
        let run = run_ending(s, n);
        proof {
            lemma_zero_run_bound(s@, n as int);
        }
        if run > best_len {
            best_start = n - run;
            best_len = run;
        }
    }
    proof {
        lemma_run_bounds(s@, 8);
    }
    if best_len > 1 {
        push_hex_groups(out, s, 0, best_start);
        out.append("::");
        push_hex_groups(out, s, best_start + best_len, 8);
        assert(s@.subrange(0, best_start as int) =~= s@.take(best_start as int));
        assert(s@.subrange((best_start + best_len) as int, 8) =~= s@.skip((best_start + best_len) as int));
    } else {
        push_hex_groups(out, s, 0, 8);
        assert(s@.subrange(0, 8) =~= s@);
    }
    assert(out@ =~= start + ipv6_text(s@));
}

/// The canonical text of an address (what `IpAddr`'s `Display` writes).
pub fn ip_to_text(ip: &IpAddress) -> (text: String)
    ensures
        text@ == ip_text(*ip),
{
    let mut out = String::new();
    match ip {
        IpAddress::V4(o) => push_dotted(&mut out, o[0], o[1], o[2], o[3]),
        IpAddress::V6(s) => push_ipv6(&mut out, s),
    }
    assert(out@ =~= ip_text(*ip));
    out
}

} // verus!
