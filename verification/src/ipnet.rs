//! The CIDR address value: an address together with a prefix length, its
//! canonical `address/prefixlen` text, and the network address obtained by
//! masking the host bits.

use vstd::prelude::*;

use crate::ip::IpAddress;
use crate::ip_text::{
    format_ipv4, format_ipv6, hex_group_strs, lemma_digit_not_sep, lemma_format_parse_ipv4,
    lemma_format_parse_ipv6, lemma_hex_group_strs_props, parse_ipv4, parse_ipv6, spec_format_ipv4,
    spec_format_ipv6, spec_parse_ipv4, spec_parse_ipv6,
};
use crate::text::{
    all_dec_digits, dec_chars, dec_seq_val, dec_str, is_dec_digit, is_hex_digit, join_with,
    lemma_dec_seq_val_bound, lemma_dec_str_props, lemma_join_chars, lemma_split_on_append,
    lemma_split_on_len, lemma_split_on_whole, split_chars, split_on, str_to_chars,
};

verus! {

/// The address named by an IP text: the dotted-decimal reading where it
/// succeeds, else the colon-separated reading.
pub open spec fn spec_parse_ip(s: Seq<char>) -> Option<IpAddress> {
    if spec_parse_ipv4(s) is Some {
        Some(IpAddress::V4(spec_parse_ipv4(s)->Some_0))
    } else if spec_parse_ipv6(s) is Some {
        Some(IpAddress::V6(spec_parse_ipv6(s)->Some_0))
    } else {
        None
    }
}

/// The canonical text of an address, in its family's notation.
pub open spec fn spec_format_ip(a: IpAddress) -> Seq<char> {
    match a {
        IpAddress::V4(x) => spec_format_ipv4(x),
        IpAddress::V6(x) => spec_format_ipv6(x),
    }
}

/// Reads an IP address of either family from its characters.
pub fn parse_ip_chars(s: &[char]) -> (r: Option<IpAddress>)
    ensures
        r == spec_parse_ip(s@),
{
    match parse_ipv4(s) {
        Some(x) => Some(IpAddress::V4(x)),
        None => match parse_ipv6(s) {
            Some(x) => Some(IpAddress::V6(x)),
            None => None,
        },
    }
}

/// Reads an IP address of either family.
pub fn parse_ip(s: &str) -> (r: Option<IpAddress>)
    ensures
        r == spec_parse_ip(s@),
{
    let cs = str_to_chars(s);
    parse_ip_chars(cs.as_slice())
}

/// Writes an IP address in its canonical text.
pub fn format_ip(a: &IpAddress) -> (r: String)
    ensures
        r@ == spec_format_ip(*a),
{
    match *a {
        IpAddress::V4(x) => format_ipv4(x),
        IpAddress::V6(x) => format_ipv6(x),
    }
}

/// Every character of a formatted address is a hexadecimal digit, a dot
/// or a colon.
pub proof fn lemma_format_ip_chars(a: IpAddress)
    ensures
        forall|t: int|
            0 <= t < spec_format_ip(a).len() ==> is_hex_digit(#[trigger] spec_format_ip(a)[t])
                || spec_format_ip(a)[t] == '.' || spec_format_ip(a)[t] == ':',
{
    let p = (|c: char| is_hex_digit(c) || c == '.' || c == ':');
    match a {
        IpAddress::V4(x) => {
            let o0 = x as int / 0x1000000;
            let o1 = (x as int / 0x10000) % 256;
            let o2 = (x as int / 0x100) % 256;
            let o3 = x as int % 256;
            lemma_dec_str_props(o0);
            lemma_dec_str_props(o1);
            lemma_dec_str_props(o2);
            lemma_dec_str_props(o3);
            let parts = seq![dec_str(o0), dec_str(o1), dec_str(o2), dec_str(o3)];
            assert forall|j: int, i: int|
                0 <= j < parts.len() && 0 <= i < parts[j].len() implies p(
                #[trigger] parts[j][i],
            ) by {
                assert(is_dec_digit(parts[j][i]));
            }
            lemma_join_chars(parts, '.', p);
            assert(join_with(parts, '.') =~= spec_format_ipv4(x)) by {
                reveal_with_fuel(join_with, 5);
                assert(parts.drop_first() =~= seq![dec_str(o1), dec_str(o2), dec_str(o3)]);
                assert(parts.drop_first().drop_first() =~= seq![dec_str(o2), dec_str(o3)]);
                assert(parts.drop_first().drop_first().drop_first() =~= seq![dec_str(o3)]);
            }
        },
        IpAddress::V6(x) => {
            lemma_format_ipv6_chars(x);
        },
    }
}

/// Every character of a formatted IPv6 address is a hexadecimal digit or
/// a colon.
pub proof fn lemma_format_ipv6_chars(x: u128)
    ensures
        forall|t: int|
            0 <= t < spec_format_ipv6(x).len() ==> is_hex_digit(#[trigger] spec_format_ipv6(x)[t])
                || spec_format_ipv6(x)[t] == ':',
{
    let p = (|c: char| is_hex_digit(c) || c == ':');
    {
        {
            let gs = crate::ip_text::ipv6_groups(x);
            let b = crate::ip_text::best_run_start(gs, 0);
            let l = crate::ip_text::run_len(gs, b);
            let s = spec_format_ipv6(x);
            if l >= 2 {
                let gsl = gs.take(b);
                let gsr = gs.skip(b + l);
                let jl = join_with(hex_group_strs(gsl), ':');
                let jr = join_with(hex_group_strs(gsr), ':');
                lemma_hex_group_strs_props(gsl);
                lemma_hex_group_strs_props(gsr);
                lemma_join_chars(hex_group_strs(gsl), ':', p);
                lemma_join_chars(hex_group_strs(gsr), ':', p);
                let m = jl.len() as int;
                assert(s == jl + seq![':'] + seq![':'] + jr);
                assert forall|t: int| 0 <= t < s.len() implies p(#[trigger] s[t]) by {
                    if t < m {
                        assert(s[t] == jl[t]);
                    } else if t <= m + 1 {
                        assert(s[t] == ':');
                    } else {
                        assert(s[t] == jr[t - m - 2]);
                    }
                }
            } else {
                lemma_hex_group_strs_props(gs);
                lemma_join_chars(hex_group_strs(gs), ':', p);
            }
        }
    }
}

/// Printing an address and reading the text back gives the address.
pub proof fn lemma_format_parse_ip(a: IpAddress)
    ensures
        spec_parse_ip(spec_format_ip(a)) == Some(a),
{
    match a {
        IpAddress::V4(x) => {
            lemma_format_parse_ipv4(x);
        },
        IpAddress::V6(x) => {
            lemma_format_parse_ipv6(x);
            let s = spec_format_ipv6(x);
            lemma_format_ipv6_chars(x);
            assert forall|t: int| 0 <= t < s.len() implies #[trigger] s[t] != '.' by {
                if is_hex_digit(s[t]) {
                    lemma_digit_not_sep(s[t]);
                } else {
                    assert(s[t] == ':');
                    assert(':' as u32 == 58);
                    assert('.' as u32 == 46);
                }
            }
            lemma_split_on_whole(s, '.');
            assert(split_on(s, '.').len() == 1);
            assert(spec_parse_ipv4(s) is None);
        },
    }
}

/// How reading a CIDR text fails.
#[derive(Clone, Debug, PartialEq, Eq)]
pub enum ParseIPNetError {
    ParseIPNetError(String),
}

/// An address together with its prefix length.
#[derive(Clone, Copy, Debug, PartialEq, Eq, Structural)]
pub struct IPNet {
    pub ip: IpAddress,
    pub netmask_len: u8,
}

/// A prefix length as text: one to three decimal digits.
pub open spec fn valid_prefix_text(s: Seq<char>) -> bool {
    1 <= s.len() <= 3 && all_dec_digits(s)
}

/// The CIDR value named by a text: an address, one slash, and a prefix
/// length that does not exceed the address family's bit width.
pub open spec fn spec_parse_ipnet(s: Seq<char>) -> Option<IPNet> {
    let parts = split_on(s, '/');
    if parts.len() != 2 {
        None
    } else {
        match spec_parse_ip(parts[0]) {
            Some(ip) => if valid_prefix_text(parts[1]) && dec_seq_val(parts[1])
                <= ip.family_width() {
                Some(IPNet { ip, netmask_len: dec_seq_val(parts[1]) as u8 })
            } else {
                None
            },
            None => None,
        }
    }
}

/// The canonical `address/prefixlen` text of a CIDR value.
pub open spec fn spec_format_ipnet(n: IPNet) -> Seq<char> {
    spec_format_ip(n.ip) + seq!['/'] + dec_str(n.netmask_len as int)
}

impl IPNet {
    /// The prefix length stays within the address family's bit width.
    pub open spec fn well_formed(&self) -> bool {
        self.netmask_len as nat <= self.ip.family_width()
    }

    /// The network address: the address with its host bits cleared.
    pub open spec fn spec_network_ip(&self) -> IpAddress {
        match self.ip {
            IpAddress::V4(a) => if self.netmask_len == 0 {
                IpAddress::V4(0)
            } else {
                IpAddress::V4((a >> (32 - self.netmask_len) as u32) << (32 - self.netmask_len)
                    as u32)
            },
            IpAddress::V6(a) => if self.netmask_len == 0 {
                IpAddress::V6(0)
            } else {
                IpAddress::V6((a >> (128 - self.netmask_len) as u128) << (128 - self.netmask_len)
                    as u128)
            },
        }
    }

    /// Masks the host bits to zero, preserving the address family.
    pub fn get_network_ip(&self) -> (r: IpAddress)
        requires
            self.well_formed(),
        ensures
            r == self.spec_network_ip(),
            r.same_family(&self.ip),
    {
        match self.ip {
            IpAddress::V4(a) => {
                if self.netmask_len == 0 {
                    IpAddress::V4(0)
                } else {
                    let shift = (32 - self.netmask_len) as u32;
                    IpAddress::V4((a >> shift) << shift)
                }
            },
            IpAddress::V6(a) => {
                if self.netmask_len == 0 {
                    IpAddress::V6(0)
                } else {
                    let shift = (128 - self.netmask_len) as u128;
                    IpAddress::V6((a >> shift) << shift)
                }
            },
        }
    }

    /// Reads a CIDR text: an address, one slash and a prefix length,
    /// exactly as `spec_parse_ipnet` names it; anything else is a
    /// `ParseIPNetError` holding the offending text.
    pub fn from_str(s: &str) -> (r: Result<IPNet, ParseIPNetError>)
        ensures
            match r {
                Ok(n) => spec_parse_ipnet(s@) == Some(n) && n.well_formed(),
                Err(_) => spec_parse_ipnet(s@) is None,
            },
    {
        let cs = str_to_chars(s);
        let parts = split_chars(cs.as_slice(), '/');
        if parts.len() != 2 {
            proof {
                lemma_split_on_len(s@, '/');
            }
            return Err(ParseIPNetError::ParseIPNetError(s.to_owned()));
        }
        let ip = match parse_ip_chars(parts[0].as_slice()) {
            Some(ip) => ip,
            None => {
                return Err(ParseIPNetError::ParseIPNetError(s.to_owned()));
            },
        };
        let pre = parts[1].as_slice();
        let n = pre.len();
        if n < 1 || n > 3 {
            return Err(ParseIPNetError::ParseIPNetError(s.to_owned()));
        }
        let mut val: u32 = 0;
        let mut i: usize = 0;
        while i < n
            invariant
                0 <= i <= n <= 3,
                n == pre@.len(),
                split_on(s@, '/').len() == 2,
                pre@ == split_on(s@, '/')[1],
                spec_parse_ip(split_on(s@, '/')[0]) == Some(ip),
                all_dec_digits(pre@.take(i as int)),
                val as nat == dec_seq_val(pre@.take(i as int)),
                val < 1000,
            decreases n - i,
        {
            match crate::text::dec_digit_val(pre[i]) {
                None => {
                    return Err(ParseIPNetError::ParseIPNetError(s.to_owned()));
                },
                Some(d) => {
                    proof {
                        assert(pre@.take(i + 1).drop_last() =~= pre@.take(i as int));
                        assert(pre@.take(i + 1).last() == pre@[i as int]);
                        assert(forall|j: int|
                            0 <= j < i + 1 ==> #[trigger] pre@.take(i + 1)[j] == pre@[j]);
                        lemma_dec_seq_val_bound(pre@.take(i as int));
                    }
                    val = val * 10 + d as u32;
                },
            }
            i += 1;
        }
        proof {
            assert(pre@.take(n as int) =~= pre@);
        }
        let width: u32 = if ip.is_ipv4() {
            32
        } else {
            128
        };
        if val > width {
            return Err(ParseIPNetError::ParseIPNetError(s.to_owned()));
        }
        Ok(IPNet { ip, netmask_len: val as u8 })
    }

    /// Writes the canonical `address/prefixlen` text.
    pub fn text(&self) -> (r: String)
        ensures
            r@ == spec_format_ipnet(*self),
    {
        proof {
            reveal_strlit("/");
            assert("/"@ =~= seq!['/']);
        }
        let mut r = format_ip(&self.ip);
        r.append("/");
        let d = dec_chars(self.netmask_len);
        r.append(d.as_str());
        proof {
            assert(r@ =~= spec_format_ipnet(*self));
        }
        r
    }
}

/// Printing a well-formed CIDR value and reading the text back gives the
/// value.
pub proof fn lemma_format_parse_ipnet(n: IPNet)
    requires
        n.well_formed(),
    ensures
        spec_parse_ipnet(spec_format_ipnet(n)) == Some(n),
{
    let ipt = spec_format_ip(n.ip);
    let pre = dec_str(n.netmask_len as int);
    lemma_dec_str_props(n.netmask_len as int);
    lemma_format_ip_chars(n.ip);
    assert forall|t: int| 0 <= t < ipt.len() implies #[trigger] ipt[t] != '/' by {
        if is_hex_digit(ipt[t]) {
            lemma_digit_not_sep(ipt[t]);
        } else {
            assert('.' as u32 == 46);
            assert(':' as u32 == 58);
            assert('/' as u32 == 47);
        }
    }
    assert forall|t: int| 0 <= t < pre.len() implies #[trigger] pre[t] != '/' by {
        assert(is_dec_digit(pre[t]));
        lemma_digit_not_sep(pre[t]);
    }
    lemma_split_on_whole(pre, '/');
    lemma_split_on_append(ipt, pre, '/');
    let s = spec_format_ipnet(n);
    assert(s == ipt + seq!['/'] + pre);
    assert(split_on(s, '/') == seq![ipt] + seq![pre]);
    assert(split_on(s, '/') =~= seq![ipt, pre]);
    lemma_format_parse_ip(n.ip);
    assert(valid_prefix_text(pre));
    assert(dec_seq_val(pre) == n.netmask_len as nat);
    assert(spec_parse_ipnet(s) == Some(IPNet { ip: n.ip, netmask_len: n.netmask_len }));
}

/// Reading a valid CIDR text, printing the value and reading it again
/// gives the same value: parsing canonicalizes.
pub proof fn lemma_parse_format_parse_ipnet(s: Seq<char>)
    requires
        spec_parse_ipnet(s) is Some,
    ensures
        spec_parse_ipnet(spec_format_ipnet(spec_parse_ipnet(s)->Some_0)) == spec_parse_ipnet(s),
{
    let n = spec_parse_ipnet(s)->Some_0;
    assert(n.well_formed());
    lemma_format_parse_ipnet(n);
}

} // verus!
