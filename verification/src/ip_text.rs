//! Reading and writing the textual form of addresses: dotted decimal for
//! IPv4, colon-separated hexadecimal groups with one optional `::` for
//! IPv6, and the canonical printers that invert them.

use vstd::prelude::*;

use crate::text::{
    all_hex_digits, dec_chars, dec_seq_val, dec_str, hex_chars, hex_seq_val, hex_str,
    is_dec_digit, is_hex_digit, join_with, lemma_dec_str_props, lemma_split_join,
    parse_dec_octet, split_chars, split_on, valid_dec_octet, valid_hex_group,
};

verus! {

/// The value named by a dotted-decimal IPv4 text: four octets, most
/// significant first.
pub open spec fn spec_parse_ipv4(s: Seq<char>) -> Option<u32> {
    let parts = split_on(s, '.');
    if parts.len() == 4 && valid_dec_octet(parts[0]) && valid_dec_octet(parts[1])
        && valid_dec_octet(parts[2]) && valid_dec_octet(parts[3]) {
        Some(
            (dec_seq_val(parts[0]) * 0x1000000 + dec_seq_val(parts[1]) * 0x10000 + dec_seq_val(
                parts[2],
            ) * 0x100 + dec_seq_val(parts[3])) as u32,
        )
    } else {
        None
    }
}

/// The dotted-decimal text of the IPv4 value `a`.
pub open spec fn spec_format_ipv4(a: u32) -> Seq<char> {
    dec_str(a as int / 0x1000000) + seq!['.'] + dec_str((a as int / 0x10000) % 256) + seq!['.']
        + dec_str((a as int / 0x100) % 256) + seq!['.'] + dec_str(a as int % 256)
}

/// Reads an IPv4 text, accepting exactly what `spec_parse_ipv4` names.
pub fn parse_ipv4(s: &[char]) -> (r: Option<u32>)
    ensures
        r == spec_parse_ipv4(s@),
{
    let parts = split_chars(s, '.');
    if parts.len() != 4 {
        proof {
            crate::text::lemma_split_on_len(s@, '.');
        }
        return None;
    }
    let o0 = match parse_dec_octet(parts[0].as_slice()) {
        Some(v) => v,
        None => {
            return None;
        },
    };
    let o1 = match parse_dec_octet(parts[1].as_slice()) {
        Some(v) => v,
        None => {
            return None;
        },
    };
    let o2 = match parse_dec_octet(parts[2].as_slice()) {
        Some(v) => v,
        None => {
            return None;
        },
    };
    let o3 = match parse_dec_octet(parts[3].as_slice()) {
        Some(v) => v,
        None => {
            return None;
        },
    };
    Some((o0 as u32) * 0x1000000 + (o1 as u32) * 0x10000 + (o2 as u32) * 0x100 + o3 as u32)
}

/// Writes the IPv4 value `a` in dotted decimal.
pub fn format_ipv4(a: u32) -> (r: String)
    ensures
        r@ == spec_format_ipv4(a),
{
    let o0 = (a / 0x1000000) as u8;
    let o1 = ((a / 0x10000) % 256) as u8;
    let o2 = ((a / 0x100) % 256) as u8;
    let o3 = (a % 256) as u8;
    proof {
        reveal_strlit(".");
        assert("."@ =~= seq!['.']);
    }
    let mut r = dec_chars(o0);
    r.append(".");
    let p1 = dec_chars(o1);
    r.append(p1.as_str());
    r.append(".");
    let p2 = dec_chars(o2);
    r.append(p2.as_str());
    r.append(".");
    let p3 = dec_chars(o3);
    r.append(p3.as_str());
    proof {
        assert(r@ =~= spec_format_ipv4(a));
    }
    r
}

/// A decimal digit is not a dot, a hexadecimal digit is not a colon, a
/// separator never hides in a numeral.
pub proof fn lemma_digit_not_sep(c: char)
    ensures
        is_dec_digit(c) ==> c != '.' && c != '/' && c != ':',
        is_hex_digit(c) ==> c != '.' && c != '/' && c != ':',
{
    assert('.' as u32 == 46);
    assert('/' as u32 == 47);
    assert(':' as u32 == 58);
}

/// Printing an IPv4 value and reading the text back gives the value.
pub proof fn lemma_format_parse_ipv4(a: u32)
    ensures
        spec_parse_ipv4(spec_format_ipv4(a)) == Some(a),
{
    let o0 = a as int / 0x1000000;
    let o1 = (a as int / 0x10000) % 256;
    let o2 = (a as int / 0x100) % 256;
    let o3 = a as int % 256;
    assert(0 <= o0 < 256 && 0 <= o1 < 256 && 0 <= o2 < 256 && 0 <= o3 < 256);
    lemma_dec_str_props(o0);
    lemma_dec_str_props(o1);
    lemma_dec_str_props(o2);
    lemma_dec_str_props(o3);
    let parts = seq![dec_str(o0), dec_str(o1), dec_str(o2), dec_str(o3)];
    assert forall|j: int, i: int|
        0 <= j < parts.len() && 0 <= i < parts[j].len() implies #[trigger] parts[j][i]
        != '.' by {
        assert(is_dec_digit(parts[j][i]));
        lemma_digit_not_sep(parts[j][i]);
    }
    lemma_split_join(parts, '.');
    assert(join_with(parts, '.') =~= spec_format_ipv4(a)) by {
        reveal_with_fuel(join_with, 5);
        assert(parts.drop_first() =~= seq![dec_str(o1), dec_str(o2), dec_str(o3)]);
        assert(parts.drop_first().drop_first() =~= seq![dec_str(o2), dec_str(o3)]);
        assert(parts.drop_first().drop_first().drop_first() =~= seq![dec_str(o3)]);
    }
    let sp = split_on(spec_format_ipv4(a), '.');
    assert(sp == parts);
    assert(valid_dec_octet(parts[0]) && valid_dec_octet(parts[1]) && valid_dec_octet(parts[2])
        && valid_dec_octet(parts[3]));
    assert(o0 * 0x1000000 + o1 * 0x10000 + o2 * 0x100 + o3 == a) by {
        lemma_u32_octet_sum(a);
    }
}

/// An unsigned 32-bit value is the weighted sum of its four octets.
pub proof fn lemma_u32_octet_sum(a: u32)
    ensures
        (a as int / 0x1000000) * 0x1000000 + ((a as int / 0x10000) % 256) * 0x10000 + ((
        a as int / 0x100) % 256) * 0x100 + a as int % 256 == a as int,
{
    let n = a as int;
    assert((n / 0x1000000) * 0x1000000 + ((n / 0x10000) % 256) * 0x10000 + ((n / 0x100) % 256)
        * 0x100 + n % 256 == n) by (nonlinear_arith)
        requires
            0 <= n < 0x100000000,
    ;
}

} // verus!

verus! {

/// 2^16 raised to `k`: the weight of a group `k` places from the low end.
pub open spec fn group_pow(k: int) -> int
    decreases k,
{
    if k <= 0 {
        1
    } else {
        65536 * group_pow(k - 1)
    }
}

/// The value of a group sequence, most significant group first.
pub open spec fn from_groups(gs: Seq<u16>) -> int
    decreases gs.len(),
{
    if gs.len() == 0 {
        0
    } else {
        from_groups(gs.drop_last()) * 65536 + gs.last()
    }
}

/// The low `k` groups of `a`, most significant first.
pub open spec fn to_groups_rec(a: int, k: int) -> Seq<u16>
    decreases k,
{
    if k <= 0 {
        Seq::empty()
    } else {
        to_groups_rec(a / 65536, k - 1).push((a % 65536) as u16)
    }
}

/// The eight groups of an IPv6 value.
pub open spec fn ipv6_groups(a: u128) -> Seq<u16> {
    to_groups_rec(a as int, 8)
}

/// Group weights are positive and grow with the exponent.
pub proof fn lemma_group_pow_pos(k: int)
    ensures
        group_pow(k) >= 1,
    decreases k,
{
    if k > 0 {
        lemma_group_pow_pos(k - 1);
    }
}

/// Group weights are monotonic in the exponent.
pub proof fn lemma_group_pow_mono(k1: int, k2: int)
    requires
        k1 <= k2,
    ensures
        group_pow(k1) <= group_pow(k2),
    decreases k2 - k1,
{
    if k1 < k2 {
        lemma_group_pow_mono(k1, k2 - 1);
        lemma_group_pow_pos(k2 - 1);
        if k2 > 0 {
            assert(group_pow(k2) == 65536 * group_pow(k2 - 1));
        }
    }
}

/// Eight groups weigh exactly 2^128.
pub proof fn lemma_group_pow_8()
    ensures
        group_pow(8) == 0x100000000000000000000000000000000,
{
    reveal_with_fuel(group_pow, 9);
}

/// A group sequence's value lies below the weight of its length.
pub proof fn lemma_from_groups_bound(gs: Seq<u16>)
    ensures
        0 <= from_groups(gs) < group_pow(gs.len() as int),
    decreases gs.len(),
{
    if gs.len() == 0 {
    } else {
        let p = gs.drop_last();
        lemma_from_groups_bound(p);
        assert(group_pow(gs.len() as int) == 65536 * group_pow(gs.len() - 1));
        assert(from_groups(p) * 65536 <= (group_pow(gs.len() - 1) - 1) * 65536) by (
        nonlinear_arith)
            requires
                from_groups(p) <= group_pow(gs.len() - 1) - 1,
        ;
        assert(from_groups(p) * 65536 >= 0) by (nonlinear_arith)
            requires
                from_groups(p) >= 0,
        ;
    }
}

/// Splitting a value into groups and reassembling them gives the value
/// back.
pub proof fn lemma_from_to_groups(a: int, k: int)
    requires
        0 <= a < group_pow(k),
        0 <= k,
    ensures
        from_groups(to_groups_rec(a, k)) == a,
    decreases k,
{
    if k == 0 {
        assert(group_pow(0) == 1);
        assert(to_groups_rec(a, 0) =~= Seq::<u16>::empty());
    } else {
        let gs = to_groups_rec(a, k);
        let q = a / 65536;
        assert(group_pow(k) == 65536 * group_pow(k - 1));
        assert(q < group_pow(k - 1) && q >= 0) by (nonlinear_arith)
            requires
                0 <= a < 65536 * group_pow(k - 1),
                q == a / 65536,
                group_pow(k - 1) >= 1,
        {
            lemma_group_pow_pos(k - 1);
        }
        lemma_from_to_groups(q, k - 1);
        assert(gs.drop_last() == to_groups_rec(q, k - 1));
        assert(gs.last() == (a % 65536) as u16);
        assert(a % 65536 >= 0 && a % 65536 < 65536);
        assert(from_groups(gs) == q * 65536 + a % 65536);
        assert(q * 65536 + a % 65536 == a) by (nonlinear_arith)
            requires
                q == a / 65536,
                0 <= a,
        ;
    }
}

/// Every piece of `parts` is a hexadecimal group.
pub open spec fn all_valid_groups(parts: Seq<Seq<char>>) -> bool {
    forall|j: int| 0 <= j < parts.len() ==> valid_hex_group(#[trigger] parts[j])
}

/// The group values named by the pieces.
pub open spec fn group_vals(parts: Seq<Seq<char>>) -> Seq<u16> {
    parts.map_values(|p: Seq<char>| (hex_seq_val(p) as u16))
}

/// The groups named by a colon-separated list of hexadecimal groups; the
/// empty text names the empty list.
pub open spec fn spec_group_list(s: Seq<char>) -> Option<Seq<u16>> {
    if s.len() == 0 {
        Some(Seq::empty())
    } else {
        let parts = split_on(s, ':');
        if all_valid_groups(parts) {
            Some(group_vals(parts))
        } else {
            None
        }
    }
}

/// The position of the first `::` in `s`, or -1 when there is none.
pub open spec fn find_double_colon(s: Seq<char>) -> int
    decreases s.len(),
{
    if s.len() < 2 {
        -1
    } else if s[0] == ':' && s[1] == ':' {
        0
    } else {
        let r = find_double_colon(s.drop_first());
        if r < 0 {
            -1
        } else {
            r + 1
        }
    }
}

/// `k` zero groups.
pub open spec fn zero_groups(k: int) -> Seq<u16> {
    Seq::new(k as nat, |i: int| 0u16)
}

/// The value named by an IPv6 text: eight plain groups, or two group
/// lists around one `::` that stands for the missing zero groups.
pub open spec fn spec_parse_ipv6(s: Seq<char>) -> Option<u128> {
    let i = find_double_colon(s);
    if i < 0 {
        match spec_group_list(s) {
            Some(gs) => if gs.len() == 8 {
                Some(from_groups(gs) as u128)
            } else {
                None
            },
            None => None,
        }
    } else {
        let left = s.take(i);
        let right = s.skip(i + 2);
        match (spec_group_list(left), spec_group_list(right)) {
            (Some(l), Some(r)) => if l.len() + r.len() <= 7 {
                Some(from_groups(l + zero_groups(8 - l.len() - r.len()) + r) as u128)
            } else {
                None
            },
            _ => None,
        }
    }
}

/// Where a `::` stands at `i` and nowhere earlier, the search names `i`.
pub proof fn lemma_find_double_colon_at(s: Seq<char>, i: int)
    requires
        0 <= i,
        i + 1 < s.len(),
        s[i] == ':',
        s[i + 1] == ':',
        forall|j: int| 0 <= j < i ==> !(#[trigger] s[j] == ':' && s[j + 1] == ':'),
    ensures
        find_double_colon(s) == i,
    decreases i,
{
    if i == 0 {
    } else {
        let s2 = s.drop_first();
        assert(forall|j: int| 0 <= j < s2.len() ==> #[trigger] s2[j] == s[j + 1]);
        assert(!(s[0] == ':' && s[1] == ':'));
        lemma_find_double_colon_at(s2, i - 1);
    }
}

/// Where no `::` stands anywhere, the search names -1.
pub proof fn lemma_find_double_colon_none(s: Seq<char>)
    requires
        forall|j: int| 0 <= j < s.len() - 1 ==> !(#[trigger] s[j] == ':' && s[j + 1] == ':'),
    ensures
        find_double_colon(s) == -1,
    decreases s.len(),
{
    if s.len() >= 2 {
        let s2 = s.drop_first();
        assert(forall|j: int| 0 <= j < s2.len() ==> #[trigger] s2[j] == s[j + 1]);
        lemma_find_double_colon_none(s2);
    }
}

/// Reads a colon-separated group list, as `spec_group_list` names it.
pub fn parse_group_list(s: &[char]) -> (r: Option<Vec<u16>>)
    ensures
        match r {
            Some(v) => spec_group_list(s@) == Some(v@),
            None => spec_group_list(s@) is None,
        },
{
    if s.len() == 0 {
        let v: Vec<u16> = Vec::new();
        proof {
            assert(v@ =~= Seq::<u16>::empty());
        }
        return Some(v);
    }
    let parts = split_chars(s, ':');
    let ghost sparts = split_on(s@, ':');
    let mut out: Vec<u16> = Vec::new();
    let mut i: usize = 0;
    while i < parts.len()
        invariant
            0 <= i <= parts@.len(),
            s@.len() != 0,
            sparts == split_on(s@, ':'),
            parts@.len() == sparts.len(),
            forall|j: int| 0 <= j < parts@.len() ==> #[trigger] parts@[j]@ == sparts[j],
            out@.len() == i,
            forall|j: int|
                0 <= j < i ==> valid_hex_group(#[trigger] sparts[j]) && out@[j] as nat
                    == hex_seq_val(sparts[j]),
        decreases parts@.len() - i,
    {
        match crate::text::parse_hex_group(parts[i].as_slice()) {
            Some(g) => {
                out.push(g);
            },
            None => {
                proof {
                    assert(!valid_hex_group(sparts[i as int]));
                    assert(!all_valid_groups(sparts));
                    assert(s@.len() != 0);
                }
                return None;
            },
        }
        i += 1;
    }
    proof {
        assert(all_valid_groups(sparts));
        assert(out@ =~= group_vals(sparts)) by {
            assert(forall|j: int|
                0 <= j < sparts.len() ==> #[trigger] group_vals(sparts)[j] == (hex_seq_val(
                    sparts[j],
                ) as u16));
            assert(forall|j: int| 0 <= j < out@.len() ==> #[trigger] out@[j] == (hex_seq_val(
                sparts[j],
            ) as u16)) by {
                assert(forall|j: int|
                    0 <= j < out@.len() ==> hex_seq_val(#[trigger] sparts[j]) < 65536) by {
                    assert forall|j: int| 0 <= j < out@.len() implies hex_seq_val(
                        #[trigger] sparts[j],
                    ) < 65536 by {
                        crate::text::lemma_hex_seq_val_bound(sparts[j]);
                    }
                }
            }
        }
    }
    Some(out)
}

/// Reassembles a group sequence into its value.
pub fn from_groups_exec(gs: &[u16]) -> (r: u128)
    requires
        gs@.len() <= 8,
    ensures
        r as int == from_groups(gs@),
{
    let mut val: u128 = 0;
    let mut i: usize = 0;
    proof {
        assert(gs@.take(0) =~= Seq::<u16>::empty());
    }
    while i < gs.len()
        invariant
            0 <= i <= gs@.len() <= 8,
            val as int == from_groups(gs@.take(i as int)),
        decreases gs@.len() - i,
    {
        proof {
            lemma_from_groups_bound(gs@.take(i as int));
            lemma_group_pow_mono(i as int, 7);
            lemma_group_pow_8();
            assert(group_pow(7) * 65536 == group_pow(8));
            assert(val as int <= group_pow(7) - 1);
            assert(val as int * 65536 <= (group_pow(7) - 1) * 65536) by (nonlinear_arith)
                requires
                    val as int <= group_pow(7) - 1,
            ;
            assert(gs@.take(i + 1).drop_last() =~= gs@.take(i as int));
            assert(gs@.take(i + 1).last() == gs@[i as int]);
        }
        val = val * 65536 + gs[i] as u128;
        i += 1;
    }
    proof {
        assert(gs@.take(gs@.len() as int) =~= gs@);
    }
    val
}

/// Reads an IPv6 text, accepting exactly what `spec_parse_ipv6` names.
pub fn parse_ipv6(s: &[char]) -> (r: Option<u128>)
    ensures
        r == spec_parse_ipv6(s@),
{
    let n = s.len();
    let mut found: bool = false;
    let mut fi: usize = 0;
    let mut j: usize = 0;
    while n >= 1 && j < n - 1
        invariant
            0 <= j <= n,
            n == s@.len(),
            found ==> fi + 1 < n && s@[fi as int] == ':' && s@[fi as int + 1] == ':' && forall|
                t: int,
            | 0 <= t < fi ==> !(#[trigger] s@[t] == ':' && s@[t + 1] == ':'),
            !found ==> forall|t: int| 0 <= t < j ==> !(#[trigger] s@[t] == ':' && s@[t + 1] == ':'),
        decreases n - j,
    {
        if !found && s[j] == ':' && s[j + 1] == ':' {
            found = true;
            fi = j;
        }
        j += 1;
    }
    if found {
        proof {
            lemma_find_double_colon_at(s@, fi as int);
        }
        let left = vstd::slice::slice_subrange(s, 0, fi);
        let right = vstd::slice::slice_subrange(s, fi + 2, n);
        proof {
            assert(left@ =~= s@.take(fi as int));
            assert(right@ =~= s@.skip(fi as int + 2));
        }
        let lv = match parse_group_list(left) {
            Some(v) => v,
            None => {
                return None;
            },
        };
        let rv = match parse_group_list(right) {
            Some(v) => v,
            None => {
                return None;
            },
        };
        if lv.len() > 7 || rv.len() > 7 || lv.len() + rv.len() > 7 {
            return None;
        }
        let ghost l0 = lv@;
        let ghost r0 = rv@;
        let mut full: Vec<u16> = lv;
        let mut fill = 8 - full.len() - rv.len();
        proof {
            assert(full@ =~= l0 + zero_groups(full@.len() - l0.len()));
        }
        while fill > 0
            invariant
                full@.len() + fill + r0.len() == 8,
                l0.len() <= full@.len(),
                full@ == l0 + zero_groups(full@.len() - l0.len()),
            decreases fill,
        {
            full.push(0u16);
            proof {
                assert(full@ =~= l0 + zero_groups(full@.len() - l0.len()));
            }
            fill = fill - 1;
        }
        let mut rvm = rv;
        full.append(&mut rvm);
        proof {
            assert(full@ =~= l0 + zero_groups(8 - l0.len() - r0.len()) + r0);
            lemma_from_groups_bound(full@);
            lemma_group_pow_8();
        }
        Some(from_groups_exec(full.as_slice()))
    } else {
        proof {
            assert(forall|t: int| 0 <= t < s@.len() - 1 ==> !(#[trigger] s@[t] == ':' && s@[t + 1]
                == ':'));
            lemma_find_double_colon_none(s@);
        }
        let gv = match parse_group_list(s) {
            Some(v) => v,
            None => {
                return None;
            },
        };
        if gv.len() != 8 {
            return None;
        }
        proof {
            lemma_from_groups_bound(gv@);
            lemma_group_pow_8();
        }
        Some(from_groups_exec(gv.as_slice()))
    }
}

} // verus!

verus! {

/// The number of consecutive zero groups starting at `i`.
pub open spec fn run_len(gs: Seq<u16>, i: int) -> int
    decreases gs.len() - i,
{
    if i < 0 || i >= gs.len() || gs[i] != 0 {
        0
    } else {
        1 + run_len(gs, i + 1)
    }
}

/// The start of the first longest zero run at or after `i`; `gs.len()`
/// when every run from `i` on is empty.
pub open spec fn best_run_start(gs: Seq<u16>, i: int) -> int
    decreases gs.len() - i,
{
    if i >= gs.len() {
        i
    } else {
        let b = best_run_start(gs, i + 1);
        if run_len(gs, i) >= run_len(gs, b) {
            i
        } else {
            b
        }
    }
}

/// The groups written as hexadecimal texts.
pub open spec fn hex_group_strs(gs: Seq<u16>) -> Seq<Seq<char>> {
    gs.map_values(|g: u16| hex_str(g as int))
}

/// The canonical text of the IPv6 value `a`: the groups in lower-case
/// hexadecimal joined with colons, the first longest run of at least two
/// zero groups folded into one `::`.
pub open spec fn spec_format_ipv6(a: u128) -> Seq<char> {
    let gs = ipv6_groups(a);
    let b = best_run_start(gs, 0);
    let l = run_len(gs, b);
    if l >= 2 {
        join_with(hex_group_strs(gs.take(b)), ':') + seq![':'] + seq![':'] + join_with(
            hex_group_strs(gs.skip(b + l)),
            ':',
        )
    } else {
        join_with(hex_group_strs(gs), ':')
    }
}

/// A zero run stays inside the sequence and covers only zero groups.
pub proof fn lemma_run_len_bounds(gs: Seq<u16>, i: int)
    requires
        0 <= i <= gs.len(),
    ensures
        0 <= run_len(gs, i) <= gs.len() - i,
        forall|j: int| i <= j < i + run_len(gs, i) ==> gs[j] == 0,
    decreases gs.len() - i,
{
    if i < gs.len() && gs[i] == 0 {
        lemma_run_len_bounds(gs, i + 1);
    }
}

/// The chosen run start stays inside the sequence.
pub proof fn lemma_best_run_bounds(gs: Seq<u16>, i: int)
    requires
        0 <= i <= gs.len(),
    ensures
        i <= best_run_start(gs, i) <= gs.len(),
    decreases gs.len() - i,
{
    if i < gs.len() {
        lemma_best_run_bounds(gs, i + 1);
    }
}

/// The low `k` groups of `a`, computed as `to_groups_rec` names them.
pub fn to_groups_exec(a: u128, k: usize) -> (r: Vec<u16>)
    ensures
        r@ == to_groups_rec(a as int, k as int),
        r@.len() == k,
    decreases k,
{
    if k == 0 {
        let v: Vec<u16> = Vec::new();
        proof {
            assert(v@ =~= to_groups_rec(a as int, 0));
        }
        v
    } else {
        let mut v = to_groups_exec(a / 65536, k - 1);
        v.push((a % 65536) as u16);
        v
    }
}

/// The length of the zero run starting at `i`.
pub fn run_len_exec(gs: &[u16], i: usize) -> (r: usize)
    requires
        i <= gs@.len(),
    ensures
        r as int == run_len(gs@, i as int),
        r <= gs@.len() - i,
    decreases gs@.len() - i,
{
    if i >= gs.len() || gs[i] != 0 {
        0
    } else {
        1 + run_len_exec(gs, i + 1)
    }
}

/// Writes the groups joined with colons.
pub fn join_groups(gs: &[u16]) -> (r: String)
    ensures
        r@ == join_with(hex_group_strs(gs@), ':'),
{
    if gs.len() == 0 {
        let v = String::new();
        proof {
            assert(hex_group_strs(gs@) =~= Seq::<Seq<char>>::empty());
            assert(v@ =~= join_with(hex_group_strs(gs@), ':'));
        }
        return v;
    }
    proof {
        reveal_strlit(":");
        assert(":"@ =~= seq![':']);
    }
    let mut r = hex_chars(gs[0]);
    proof {
        assert(hex_group_strs(gs@.take(1)) =~= seq![hex_str(gs@[0] as int)]);
        assert(r@ == join_with(hex_group_strs(gs@.take(1)), ':'));
    }
    let mut i: usize = 1;
    while i < gs.len()
        invariant
            1 <= i <= gs@.len(),
            ":"@ == seq![':'],
            r@ == join_with(hex_group_strs(gs@.take(i as int)), ':'),
        decreases gs@.len() - i,
    {
        r.append(":");
        let g = hex_chars(gs[i]);
        r.append(g.as_str());
        proof {
            let ps = hex_group_strs(gs@.take(i as int));
            assert(ps.len() >= 1);
            lemma_join_with_push(ps, hex_str(gs@[i as int] as int), ':');
            assert(hex_group_strs(gs@.take(i + 1)) =~= ps.push(hex_str(gs@[i as int] as int)));
        }
        i += 1;
    }
    proof {
        assert(gs@.take(gs@.len() as int) =~= gs@);
    }
    r
}

/// Joining one more piece appends a separator and the piece.
pub proof fn lemma_join_with_push(parts: Seq<Seq<char>>, p: Seq<char>, sep: char)
    requires
        parts.len() >= 1,
    ensures
        join_with(parts.push(p), sep) == join_with(parts, sep) + seq![sep] + p,
    decreases parts.len(),
{
    if parts.len() == 1 {
        let w = parts.push(p);
        assert(w.len() == 2);
        assert(w[0] == parts[0]);
        assert(w.drop_first() =~= seq![p]);
        assert(join_with(seq![p], sep) == p);
        assert(join_with(w, sep) =~= join_with(parts, sep) + seq![sep] + p);
    } else {
        let rest = parts.drop_first();
        lemma_join_with_push(rest, p, sep);
        let w = parts.push(p);
        assert(w.len() == parts.len() + 1);
        assert(w[0] == parts[0]);
        assert(w.drop_first() =~= rest.push(p));
        assert(join_with(w, sep) == w[0] + seq![sep] + join_with(rest.push(p), sep));
        assert(join_with(w, sep) =~= join_with(parts, sep) + seq![sep] + p);
    }
}

/// Writes the IPv6 value `a` in its canonical text.
pub fn format_ipv6(a: u128) -> (r: String)
    ensures
        r@ == spec_format_ipv6(a),
{
    let gs = to_groups_exec(a, 8);
    let ghost gsq = gs@;
    let mut b: usize = gs.len();
    let mut i: usize = gs.len();
    while i > 0
        invariant
            0 <= i <= gsq.len(),
            gs@ == gsq,
            gsq.len() == 8,
            b as int == best_run_start(gsq, i as int),
        decreases i,
    {
        proof {
            lemma_best_run_bounds(gsq, i as int);
        }
        let rl_i = run_len_exec(gs.as_slice(), i - 1);
        let rl_b = run_len_exec(gs.as_slice(), b);
        if rl_i >= rl_b {
            b = i - 1;
        }
        i -= 1;
    }
    proof {
        lemma_best_run_bounds(gsq, 0);
    }
    let l = run_len_exec(gs.as_slice(), b);
    if l >= 2 {
        proof {
            lemma_run_len_bounds(gsq, b as int);
        }
        let left = vstd::slice::slice_subrange(gs.as_slice(), 0, b);
        let right = vstd::slice::slice_subrange(gs.as_slice(), b + l, gs.len());
        proof {
            reveal_strlit(":");
            assert(":"@ =~= seq![':']);
        }
        let mut r = join_groups(left);
        r.append(":");
        r.append(":");
        let jr = join_groups(right);
        r.append(jr.as_str());
        proof {
            assert(left@ =~= gsq.take(b as int));
            assert(right@ =~= gsq.skip(b as int + l as int));
            assert(r@ =~= spec_format_ipv6(a));
        }
        r
    } else {
        let r = join_groups(gs.as_slice());
        r
    }
}

} // verus!

verus! {

/// In a join of nonempty, separator-free pieces the separator never
/// doubles, the first and last characters come from the pieces, and the
/// result is nonempty.
pub proof fn lemma_join_no_double_sep(parts: Seq<Seq<char>>, sep: char)
    requires
        parts.len() >= 1,
        forall|j: int| 0 <= j < parts.len() ==> #[trigger] parts[j].len() >= 1,
        forall|j: int, i: int|
            0 <= j < parts.len() && 0 <= i < parts[j].len() ==> #[trigger] parts[j][i] != sep,
    ensures
        join_with(parts, sep).len() >= 1,
        join_with(parts, sep)[0] == parts[0][0],
        join_with(parts, sep).last() != sep,
        forall|t: int|
            0 <= t < join_with(parts, sep).len() - 1 ==> !(#[trigger] join_with(parts, sep)[t]
                == sep && join_with(parts, sep)[t + 1] == sep),
    decreases parts.len(),
{
    let s = join_with(parts, sep);
    if parts.len() == 1 {
        assert(s == parts[0]);
        assert(s.last() == parts[0][s.len() - 1]);
        assert(forall|t: int| 0 <= t < s.len() ==> #[trigger] s[t] != sep);
    } else {
        let rest = parts.drop_first();
        assert(forall|j: int| 0 <= j < rest.len() ==> #[trigger] rest[j] == parts[j + 1]);
        lemma_join_no_double_sep(rest, sep);
        let jr = join_with(rest, sep);
        let m = parts[0].len() as int;
        assert(s == parts[0] + seq![sep] + jr);
        assert(s.len() == m + 1 + jr.len());
        assert(forall|t: int| 0 <= t < m ==> #[trigger] s[t] == parts[0][t]);
        assert(s[m] == sep);
        assert(forall|t: int| m < t < s.len() ==> #[trigger] s[t] == jr[t - m - 1]);
        assert(s[0] == parts[0][0]);
        assert(s.last() == jr.last());
        assert(jr[0] == rest[0][0]);
        assert(rest[0][0] != sep);
        assert forall|t: int| 0 <= t < s.len() - 1 implies !(#[trigger] s[t] == sep && s[t + 1]
            == sep) by {
            if t < m {
                assert(s[t] == parts[0][t]);
                assert(parts[0][t] != sep);
            } else if t == m {
                assert(s[t + 1] == jr[0]);
            } else {
                assert(s[t] == jr[t - m - 1]);
                assert(s[t + 1] == jr[t - m]);
            }
        }
    }
}

/// The hexadecimal texts of a group sequence are nonempty and free of any
/// separator character.
pub proof fn lemma_hex_group_strs_props(gs: Seq<u16>)
    ensures
        hex_group_strs(gs).len() == gs.len(),
        forall|j: int| 0 <= j < gs.len() ==> #[trigger] hex_group_strs(gs)[j].len() >= 1,
        forall|j: int, i: int|
            0 <= j < gs.len() && 0 <= i < hex_group_strs(gs)[j].len()
                ==> #[trigger] hex_group_strs(gs)[j][i] != ':' && hex_group_strs(gs)[j][i] != '.'
                && hex_group_strs(gs)[j][i] != '/',
        forall|j: int| 0 <= j < gs.len() ==> valid_hex_group(#[trigger] hex_group_strs(gs)[j]),
        forall|j: int|
            0 <= j < gs.len() ==> hex_seq_val(#[trigger] hex_group_strs(gs)[j]) == gs[j],
{
    assert forall|j: int| 0 <= j < gs.len() implies valid_hex_group(#[trigger] hex_group_strs(gs)[j])
        && hex_group_strs(gs)[j].len() >= 1 && hex_seq_val(hex_group_strs(gs)[j]) == gs[j] by {
        crate::text::lemma_hex_str_props(gs[j] as int);
        assert(hex_group_strs(gs)[j] == hex_str(gs[j] as int));
    }
    assert forall|j: int, i: int|
        0 <= j < gs.len() && 0 <= i < hex_group_strs(gs)[j].len() implies #[trigger] hex_group_strs(
        gs,
    )[j][i] != ':' && hex_group_strs(gs)[j][i] != '.' && hex_group_strs(gs)[j][i] != '/' by {
        assert(all_hex_digits(hex_group_strs(gs)[j]));
        assert(is_hex_digit(hex_group_strs(gs)[j][i]));
        lemma_digit_not_sep(hex_group_strs(gs)[j][i]);
    }
}

/// Reading a join of hexadecimal group texts gives the groups back.
pub proof fn lemma_group_list_of_join(gs: Seq<u16>)
    ensures
        spec_group_list(join_with(hex_group_strs(gs), ':')) == Some(gs),
{
    let ps = hex_group_strs(gs);
    lemma_hex_group_strs_props(gs);
    if gs.len() == 0 {
        assert(ps =~= Seq::<Seq<char>>::empty());
        assert(join_with(ps, ':') =~= Seq::<char>::empty());
        assert(gs =~= Seq::<u16>::empty());
    } else {
        let s = join_with(ps, ':');
        lemma_join_no_double_sep(ps, ':');
        assert(s.len() != 0);
        lemma_split_join(ps, ':');
        assert(split_on(s, ':') == ps);
        assert(all_valid_groups(ps));
        assert(group_vals(ps) =~= gs);
    }
}

/// Printing an IPv6 value and reading the text back gives the value.
pub proof fn lemma_format_parse_ipv6(a: u128)
    ensures
        spec_parse_ipv6(spec_format_ipv6(a)) == Some(a),
{
    let gs = ipv6_groups(a);
    lemma_group_pow_8();
    lemma_from_to_groups(a as int, 8);
    assert(gs.len() == 8) by {
        lemma_to_groups_len(a as int, 8);
    }
    let b = best_run_start(gs, 0);
    let l = run_len(gs, b);
    lemma_best_run_bounds(gs, 0);
    lemma_run_len_bounds(gs, b);
    let s = spec_format_ipv6(a);
    if l >= 2 {
        let gsl = gs.take(b);
        let gsr = gs.skip(b + l);
        let jl = join_with(hex_group_strs(gsl), ':');
        let jr = join_with(hex_group_strs(gsr), ':');
        assert(s == jl + seq![':'] + seq![':'] + jr);
        lemma_hex_group_strs_props(gsl);
        lemma_hex_group_strs_props(gsr);
        lemma_group_list_of_join(gsl);
        lemma_group_list_of_join(gsr);
        let m = jl.len() as int;
        assert(s.len() == m + 2 + jr.len());
        assert(forall|t: int| 0 <= t < m ==> #[trigger] s[t] == jl[t]);
        assert(s[m] == ':');
        assert(s[m + 1] == ':');
        assert(forall|t: int| m + 2 <= t < s.len() ==> #[trigger] s[t] == jr[t - m - 2]);
        if gsl.len() == 0 {
            assert(jl.len() == 0);
            assert(m == 0);
            lemma_find_double_colon_at(s, 0);
        } else {
            lemma_join_no_double_sep(hex_group_strs(gsl), ':');
            assert forall|t: int| 0 <= t < m implies !(#[trigger] s[t] == ':' && s[t + 1]
                == ':') by {
                if t < m - 1 {
                    assert(s[t] == jl[t] && s[t + 1] == jl[t + 1]);
                } else {
                    assert(s[t] == jl.last());
                }
            }
            lemma_find_double_colon_at(s, m);
        }
        assert(find_double_colon(s) == m);
        assert(s.take(m) =~= jl);
        assert(s.skip(m + 2) =~= jr);
        assert(spec_group_list(jl) == Some(gsl));
        assert(spec_group_list(jr) == Some(gsr));
        assert(gsl.len() + gsr.len() == 8 - l);
        assert(gsl.len() + gsr.len() <= 7);
        let full = gsl + zero_groups(8 - gsl.len() - gsr.len()) + gsr;
        assert(full =~= gs) by {
            assert(forall|j: int| b <= j < b + l ==> gs[j] == 0);
        }
        assert(from_groups(gs) == a as int);
        assert(spec_parse_ipv6(s) == Some(a));
    } else {
        assert(s == join_with(hex_group_strs(gs), ':'));
        lemma_hex_group_strs_props(gs);
        lemma_join_no_double_sep(hex_group_strs(gs), ':');
        lemma_group_list_of_join(gs);
        assert(forall|j: int| 0 <= j < s.len() - 1 ==> !(#[trigger] s[j] == ':' && s[j + 1]
            == ':'));
        lemma_find_double_colon_none(s);
        assert(from_groups(gs) == a as int);
        assert(spec_parse_ipv6(s) == Some(a));
    }
}

/// Splitting into `k` groups gives `k` groups.
pub proof fn lemma_to_groups_len(a: int, k: int)
    requires
        k >= 0,
    ensures
        to_groups_rec(a, k).len() == k,
    decreases k,
{
    if k > 0 {
        lemma_to_groups_len(a / 65536, k - 1);
    }
}

} // verus!
