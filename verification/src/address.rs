//! IPv4 addresses of the scanned network.

use crate::decimal::{
    append_decimal, decimal, is_digit, lemma_decimal_digits, lemma_decimal_injective,
};
use vstd::prelude::*;
use vstd::string::*;

verus! {

/// The lowest host suffix that is probed.
pub const FIRST_HOST: u8 = 1;

/// The highest host suffix that is probed.
pub const LAST_HOST: u8 = 254;

/// The IPv4 address of the local machine's outbound interface.
#[derive(Clone, Copy, Debug, PartialEq, Eq, Structural)]
pub struct LocalAddress {
    pub a: u8,
    pub b: u8,
    pub c: u8,
    pub d: u8,
}

/// The leading three octets of a /24 network.
#[derive(Clone, Copy, Debug, PartialEq, Eq, Structural)]
pub struct SubnetPrefix {
    pub a: u8,
    pub b: u8,
    pub c: u8,
}

/// A candidate host: a subnet prefix and the last octet of the address.
#[derive(Clone, Copy, Debug, PartialEq, Eq, Structural)]
pub struct ProbeTarget {
    pub prefix: SubnetPrefix,
    pub suffix: u8,
}

/// Whether `suffix` is the last octet of a host that a sweep probes.
pub open spec fn is_host_suffix(suffix: int) -> bool {
    FIRST_HOST <= suffix <= LAST_HOST
}

/// Dotted-quad notation: the four octets in decimal, separated by full stops.
pub open spec fn dotted_quad(a: u8, b: u8, c: u8, d: u8) -> Seq<char> {
    decimal(a as nat) + seq!['.'] + decimal(b as nat) + seq!['.'] + decimal(c as nat) + seq!['.']
        + decimal(d as nat)
}

/// The /24 network that `addr` lies in: its first three octets.
pub open spec fn subnet_of(addr: LocalAddress) -> SubnetPrefix {
    SubnetPrefix { a: addr.a, b: addr.b, c: addr.c }
}

/// Appends `a.b.c.d` to `out`.
pub fn append_dotted_quad(out: &mut String, a: u8, b: u8, c: u8, d: u8)
    ensures
        final(out)@ == old(out)@ + dotted_quad(a, b, c, d),
{
    append_decimal(out, a as u128);
    out.append(".");
    append_decimal(out, b as u128);
    out.append(".");
    append_decimal(out, c as u128);
    out.append(".");
    append_decimal(out, d as u128);
    proof {
        reveal_strlit(".");
        assert("."@ =~= seq!['.']);
        assert(out@ =~= old(out)@ + dotted_quad(a, b, c, d));
    }
}

impl LocalAddress {
    /// The address in dotted-quad notation.
    pub open spec fn text(self) -> Seq<char> {
        dotted_quad(self.a, self.b, self.c, self.d)
    }

    /// Renders the address in dotted-quad notation.
    pub fn to_text(&self) -> (text: String)
        ensures
            text@ == self.text(),
    {
        let mut text = String::new();
        append_dotted_quad(&mut text, self.a, self.b, self.c, self.d);
        assert(text@ =~= self.text());
        text
    }
}

impl ProbeTarget {
    /// Whether the target is one of the hosts that a sweep probes.
    pub open spec fn is_candidate(self) -> bool {
        is_host_suffix(self.suffix as int)
    }

    /// The target's address in dotted-quad notation.
    pub open spec fn text(self) -> Seq<char> {
        dotted_quad(self.prefix.a, self.prefix.b, self.prefix.c, self.suffix)
    }

    /// Renders the target's address in dotted-quad notation.
    pub fn to_text(&self) -> (text: String)
        ensures
            text@ == self.text(),
    {
        let mut text = String::new();
        append_dotted_quad(&mut text, self.prefix.a, self.prefix.b, self.prefix.c, self.suffix);
        assert(text@ =~= self.text());
        text
    }
}

/// Derives the subnet prefix of a local address.
pub fn get_subnet(local_ip: &LocalAddress) -> (prefix: SubnetPrefix)
    ensures
        prefix == subnet_of(*local_ip),
{
    SubnetPrefix { a: local_ip.a, b: local_ip.b, c: local_ip.c }
}

/// Whether `text` holds digits only.
spec fn all_digits(text: Seq<char>) -> bool {
    forall|i: int| 0 <= i < text.len() ==> is_digit(#[trigger] text[i])
}

/// Two texts that each begin with digits up to a full stop, and are equal,
/// have the same digits before that full stop and the same text after it.
proof fn lemma_split_at_stop(
    digits: Seq<char>,
    rest: Seq<char>,
    other_digits: Seq<char>,
    other_rest: Seq<char>,
)
    requires
        all_digits(digits),
        all_digits(other_digits),
        digits + seq!['.'] + rest == other_digits + seq!['.'] + other_rest,
    ensures
        digits == other_digits,
        rest == other_rest,
{
    let text = digits + seq!['.'] + rest;
    let other = other_digits + seq!['.'] + other_rest;
    let n = digits.len() as int;
    let m = other_digits.len() as int;
    assert(text[n] == '.');
    assert(other[m] == '.');
    if n < m {
        assert(other[n] == other_digits[n]);
        assert(is_digit(other_digits[n]));
    }
    if m < n {
        assert(text[m] == digits[m]);
        assert(is_digit(digits[m]));
    }
    assert forall|i: int| 0 <= i < n implies digits[i] == other_digits[i] by {
        assert(text[i] == digits[i]);
        assert(other[i] == other_digits[i]);
    }
    assert(digits =~= other_digits);
    assert(text.len() == other.len());
    assert forall|i: int| 0 <= i < rest.len() implies rest[i] == other_rest[i] by {
        assert(text[n + 1 + i] == rest[i]);
        assert(other[n + 1 + i] == other_rest[i]);
    }
    assert(rest =~= other_rest);
}

/// Four runs of digits joined by full stops can be read back from the
/// joined text.
proof fn lemma_joined_parts(
    parts: (Seq<char>, Seq<char>, Seq<char>, Seq<char>),
    others: (Seq<char>, Seq<char>, Seq<char>, Seq<char>),
)
    requires
        all_digits(parts.0),
        all_digits(parts.1),
        all_digits(parts.2),
        all_digits(others.0),
        all_digits(others.1),
        all_digits(others.2),
        parts.0 + seq!['.'] + parts.1 + seq!['.'] + parts.2 + seq!['.'] + parts.3 == others.0
            + seq!['.'] + others.1 + seq!['.'] + others.2 + seq!['.'] + others.3,
    ensures
        parts == others,
{
    let stop = seq!['.'];
    let tail = parts.2 + stop + parts.3;
    let other_tail = others.2 + stop + others.3;
    let middle = parts.1 + stop + tail;
    let other_middle = others.1 + stop + other_tail;
    assert(parts.0 + stop + parts.1 + stop + parts.2 + stop + parts.3 =~= parts.0 + stop + middle);
    assert(others.0 + stop + others.1 + stop + others.2 + stop + others.3 =~= others.0 + stop
        + other_middle);
    lemma_split_at_stop(parts.0, middle, others.0, other_middle);
    lemma_split_at_stop(parts.1, tail, others.1, other_tail);
    lemma_split_at_stop(parts.2, parts.3, others.2, others.3);
}

/// Two addresses that are written alike are the same address.
pub proof fn lemma_dotted_quad_injective(first: (u8, u8, u8, u8), second: (u8, u8, u8, u8))
    requires
        dotted_quad(first.0, first.1, first.2, first.3) == dotted_quad(
            second.0,
            second.1,
            second.2,
            second.3,
        ),
    ensures
        first == second,
{
    lemma_decimal_digits(first.0 as nat);
    lemma_decimal_digits(first.1 as nat);
    lemma_decimal_digits(first.2 as nat);
    lemma_decimal_digits(second.0 as nat);
    lemma_decimal_digits(second.1 as nat);
    lemma_decimal_digits(second.2 as nat);
    lemma_joined_parts(
        (
            decimal(first.0 as nat),
            decimal(first.1 as nat),
            decimal(first.2 as nat),
            decimal(first.3 as nat),
        ),
        (
            decimal(second.0 as nat),
            decimal(second.1 as nat),
            decimal(second.2 as nat),
            decimal(second.3 as nat),
        ),
    );
    lemma_decimal_injective(first.0 as nat, second.0 as nat);
    lemma_decimal_injective(first.1 as nat, second.1 as nat);
    lemma_decimal_injective(first.2 as nat, second.2 as nat);
    lemma_decimal_injective(first.3 as nat, second.3 as nat);
}

} // verus!
