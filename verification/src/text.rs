//! Textual form of addresses: the character-level helpers, splitting and
//! joining on a separator, and decimal and hexadecimal digit strings, each
//! with its specification and the round-trip lemmas the address printers
//! and parsers rest on.

use vstd::prelude::*;

verus! {

/// `c` is a decimal digit.
pub open spec fn is_dec_digit(c: char) -> bool {
    48 <= c as u32 <= 57
}

/// The value of the decimal digit `c`.
pub open spec fn dec_val(c: char) -> nat {
    (c as u32 - 48) as nat
}

/// `c` is a lower-case hexadecimal digit.
pub open spec fn is_hex_digit(c: char) -> bool {
    is_dec_digit(c) || (97 <= c as u32 <= 102)
}

/// The value of the hexadecimal digit `c`.
pub open spec fn hex_val(c: char) -> nat {
    if is_dec_digit(c) {
        dec_val(c)
    } else {
        (c as u32 - 87) as nat
    }
}

/// Every character of `s` is a decimal digit.
pub open spec fn all_dec_digits(s: Seq<char>) -> bool {
    forall|i: int| 0 <= i < s.len() ==> is_dec_digit(#[trigger] s[i])
}

/// Every character of `s` is a lower-case hexadecimal digit.
pub open spec fn all_hex_digits(s: Seq<char>) -> bool {
    forall|i: int| 0 <= i < s.len() ==> is_hex_digit(#[trigger] s[i])
}

/// The value of `s` read as a decimal numeral.
pub open spec fn dec_seq_val(s: Seq<char>) -> nat
    decreases s.len(),
{
    if s.len() == 0 {
        0
    } else {
        dec_seq_val(s.drop_last()) * 10 + dec_val(s.last())
    }
}

/// The value of `s` read as a hexadecimal numeral.
pub open spec fn hex_seq_val(s: Seq<char>) -> nat
    decreases s.len(),
{
    if s.len() == 0 {
        0
    } else {
        hex_seq_val(s.drop_last()) * 16 + hex_val(s.last())
    }
}

/// The digit character for the value `d`, decimal digits first, then the
/// lower-case hexadecimal letters.
pub open spec fn digit_char(d: int) -> char {
    seq!['0', '1', '2', '3', '4', '5', '6', '7', '8', '9', 'a', 'b', 'c', 'd', 'e', 'f'][d]
}

/// The decimal numeral of `n`, most significant digit first, without
/// leading zeros.
pub open spec fn dec_str(n: int) -> Seq<char>
    decreases n,
{
    if n < 10 {
        seq![digit_char(n)]
    } else {
        dec_str(n / 10).push(digit_char(n % 10))
    }
}

/// The hexadecimal numeral of `n`, most significant digit first, without
/// leading zeros, in lower case.
pub open spec fn hex_str(n: int) -> Seq<char>
    decreases n,
{
    if n < 16 {
        seq![digit_char(n)]
    } else {
        hex_str(n / 16).push(digit_char(n % 16))
    }
}

/// The pieces of `s` between occurrences of `sep`, in order; a string
/// without the separator is one piece, and every separator adds a piece.
pub open spec fn split_on(s: Seq<char>, sep: char) -> Seq<Seq<char>>
    decreases s.len(),
{
    if s.len() == 0 {
        seq![Seq::<char>::empty()]
    } else if s[0] == sep {
        seq![Seq::<char>::empty()] + split_on(s.drop_first(), sep)
    } else {
        let rest = split_on(s.drop_first(), sep);
        seq![seq![s[0]] + rest[0]] + rest.drop_first()
    }
}

/// The pieces joined back with the separator between them.
pub open spec fn join_with(parts: Seq<Seq<char>>, sep: char) -> Seq<char>
    decreases parts.len(),
{
    if parts.len() == 0 {
        Seq::empty()
    } else if parts.len() == 1 {
        parts[0]
    } else {
        parts[0] + seq![sep] + join_with(parts.drop_first(), sep)
    }
}

/// Splitting always yields at least one piece.
pub proof fn lemma_split_on_len(s: Seq<char>, sep: char)
    ensures
        split_on(s, sep).len() >= 1,
    decreases s.len(),
{
    if s.len() != 0 {
        lemma_split_on_len(s.drop_first(), sep);
    }
}

/// A piece free of the separator, a separator, then the rest: splitting
/// peels the piece off whole.
pub proof fn lemma_split_on_append(seg: Seq<char>, rest: Seq<char>, sep: char)
    requires
        forall|i: int| 0 <= i < seg.len() ==> #[trigger] seg[i] != sep,
    ensures
        split_on(seg + seq![sep] + rest, sep) == seq![seg] + split_on(rest, sep),
    decreases seg.len(),
{
    let s = seg + seq![sep] + rest;
    if seg.len() == 0 {
        assert(seg =~= Seq::<char>::empty());
        assert(s =~= seq![sep] + rest);
        assert(s[0] == sep);
        assert(s.drop_first() =~= rest);
        assert(split_on(s, sep) =~= seq![seg] + split_on(rest, sep));
    } else {
        let seg2 = seg.drop_first();
        assert(forall|i: int| 0 <= i < seg2.len() ==> #[trigger] seg2[i] == seg[i + 1]);
        lemma_split_on_append(seg2, rest, sep);
        lemma_split_on_len(rest, sep);
        assert(s.len() > 0);
        assert(s[0] == seg[0]);
        assert(seg[0] != sep);
        assert(s.drop_first() =~= seg2 + seq![sep] + rest);
        let r = split_on(s.drop_first(), sep);
        assert(r == seq![seg2] + split_on(rest, sep));
        assert(r[0] == seg2);
        assert(split_on(s, sep) == seq![seq![s[0]] + r[0]] + r.drop_first());
        assert(seq![s[0]] + r[0] =~= seg);
        assert(r.drop_first() =~= split_on(rest, sep));
        assert(split_on(s, sep) =~= seq![seg] + split_on(rest, sep));
    }
}

/// A string free of the separator splits into itself alone.
pub proof fn lemma_split_on_whole(seg: Seq<char>, sep: char)
    requires
        forall|i: int| 0 <= i < seg.len() ==> #[trigger] seg[i] != sep,
    ensures
        split_on(seg, sep) == seq![seg],
    decreases seg.len(),
{
    if seg.len() == 0 {
        assert(seg =~= Seq::<char>::empty());
        assert(split_on(seg, sep) =~= seq![seg]);
    } else {
        let seg2 = seg.drop_first();
        assert(forall|i: int| 0 <= i < seg2.len() ==> #[trigger] seg2[i] == seg[i + 1]);
        lemma_split_on_whole(seg2, sep);
        assert(seg[0] != sep);
        let r = split_on(seg2, sep);
        assert(r == seq![seg2]);
        assert(split_on(seg, sep) == seq![seq![seg[0]] + r[0]] + r.drop_first());
        assert(seq![seg[0]] + seg2 =~= seg);
        assert(r.drop_first() =~= Seq::<Seq<char>>::empty());
        assert(split_on(seg, sep) =~= seq![seg]);
    }
}

/// Joining pieces that are free of the separator and splitting again gives
/// the pieces back.
pub proof fn lemma_split_join(parts: Seq<Seq<char>>, sep: char)
    requires
        parts.len() >= 1,
        forall|j: int, i: int|
            0 <= j < parts.len() && 0 <= i < parts[j].len() ==> #[trigger] parts[j][i] != sep,
    ensures
        split_on(join_with(parts, sep), sep) == parts,
    decreases parts.len(),
{
    if parts.len() == 1 {
        lemma_split_on_whole(parts[0], sep);
        assert(split_on(join_with(parts, sep), sep) =~= parts);
    } else {
        let rest = parts.drop_first();
        assert(forall|j: int, i: int|
            0 <= j < rest.len() && 0 <= i < rest[j].len() ==> #[trigger] rest[j][i] != sep);
        lemma_split_join(rest, sep);
        lemma_split_on_append(parts[0], join_with(rest, sep), sep);
        assert(join_with(parts, sep) == parts[0] + seq![sep] + join_with(rest, sep));
        assert(split_on(join_with(parts, sep), sep) =~= parts);
    }
}

/// The characters of `s`, one slice element per character.
pub fn str_to_chars(s: &str) -> (r: Vec<char>)
    ensures
        r@ == s@,
{
    let n = s.unicode_len();
    let mut r: Vec<char> = Vec::new();
    let mut i: usize = 0;
    while i < n
        invariant
            0 <= i <= n,
            n == s@.len(),
            r@ == s@.take(i as int),
        decreases n - i,
    {
        let c = s.get_char(i);
        r.push(c);
        proof {
            assert(s@.take(i + 1) =~= s@.take(i as int).push(s@[i as int]));
        }
        i += 1;
    }
    proof {
        assert(s@.take(n as int) =~= s@);
    }
    r
}

/// The pieces of `s` between occurrences of `sep`, as `split_on` names
/// them.
pub fn split_chars(s: &[char], sep: char) -> (r: Vec<Vec<char>>)
    ensures
        r@.len() == split_on(s@, sep).len(),
        forall|j: int| 0 <= j < r@.len() ==> #[trigger] r@[j]@ == split_on(s@, sep)[j],
{
    let mut i: usize = s.len();
    let mut acc: Vec<Vec<char>> = Vec::new();
    acc.push(Vec::new());
    proof {
        assert(s@.skip(i as int) =~= Seq::<char>::empty());
        assert(acc@[0]@ =~= split_on(s@.skip(i as int), sep)[0]);
    }
    while i > 0
        invariant
            0 <= i <= s@.len(),
            acc@.len() == split_on(s@.skip(i as int), sep).len(),
            forall|j: int|
                0 <= j < acc@.len() ==> #[trigger] acc@[j]@ == split_on(s@.skip(i as int), sep)[j],
        decreases i,
    {
        let c = s[i - 1];
        let ghost prev = s@.skip(i as int);
        proof {
            assert(s@.skip(i - 1) =~= seq![s@[i - 1]] + prev);
            assert((seq![s@[i - 1]] + prev).drop_first() =~= prev);
            lemma_split_on_len(prev, sep);
        }
        if c == sep {
            acc.insert(0, Vec::new());
            proof {
                assert(split_on(s@.skip(i - 1), sep) =~= seq![Seq::<char>::empty()] + split_on(
                    prev,
                    sep,
                ));
            }
        } else {
            let mut first = acc.remove(0);
            first.insert(0, c);
            acc.insert(0, first);
            proof {
                let post = split_on(s@.skip(i - 1), sep);
                let r = split_on(prev, sep);
                assert(post =~= seq![seq![s@[i - 1]] + r[0]] + r.drop_first());
                assert(acc@[0]@ =~= seq![s@[i - 1]] + r[0]);
                assert(forall|j: int| 1 <= j < acc@.len() ==> #[trigger] acc@[j]@ == post[j]);
            }
        }
        i -= 1;
    }
    proof {
        assert(s@.skip(0) =~= s@);
    }
    acc
}

} // verus!

verus! {

/// The sixteen digit characters carry their own values.
pub proof fn lemma_digit_char_val(d: int)
    requires
        0 <= d < 16,
    ensures
        is_hex_digit(digit_char(d)),
        hex_val(digit_char(d)) == d,
        0 <= d < 10 ==> is_dec_digit(digit_char(d)) && dec_val(digit_char(d)) == d,
        d >= 10 ==> !is_dec_digit(digit_char(d)),
{
    if d == 0 {
        assert(digit_char(0) == '0');
    } else if d == 1 {
        assert(digit_char(1) == '1');
    } else if d == 2 {
        assert(digit_char(2) == '2');
    } else if d == 3 {
        assert(digit_char(3) == '3');
    } else if d == 4 {
        assert(digit_char(4) == '4');
    } else if d == 5 {
        assert(digit_char(5) == '5');
    } else if d == 6 {
        assert(digit_char(6) == '6');
    } else if d == 7 {
        assert(digit_char(7) == '7');
    } else if d == 8 {
        assert(digit_char(8) == '8');
    } else if d == 9 {
        assert(digit_char(9) == '9');
    } else if d == 10 {
        assert(digit_char(10) == 'a');
    } else if d == 11 {
        assert(digit_char(11) == 'b');
    } else if d == 12 {
        assert(digit_char(12) == 'c');
    } else if d == 13 {
        assert(digit_char(13) == 'd');
    } else if d == 14 {
        assert(digit_char(14) == 'e');
    } else {
        assert(digit_char(15) == 'f');
    }
}

/// The decimal numeral of `n` reads back as `n`, is all digits, and has
/// the length and leading digit the value dictates.
pub proof fn lemma_dec_str_props(n: int)
    requires
        0 <= n,
    ensures
        all_dec_digits(dec_str(n)),
        dec_seq_val(dec_str(n)) == n,
        dec_str(n).len() >= 1,
        n < 10 ==> dec_str(n).len() == 1,
        10 <= n < 100 ==> dec_str(n).len() == 2,
        100 <= n < 1000 ==> dec_str(n).len() == 3,
        (dec_str(n)[0] == '0' <==> n == 0),
    decreases n,
{
    if n < 10 {
        lemma_digit_char_val(n);
        let s = dec_str(n);
        assert(s =~= seq![digit_char(n)]);
        assert(s.drop_last() =~= Seq::<char>::empty());
        assert(dec_seq_val(Seq::<char>::empty()) == 0);
        assert(s.last() == digit_char(n));
        assert(dec_seq_val(s) == dec_seq_val(s.drop_last()) * 10 + dec_val(s.last()));
        assert(dec_seq_val(s) == n);
        assert(digit_char(0) == '0');
    } else {
        lemma_dec_str_props(n / 10);
        lemma_digit_char_val(n % 10);
        let p = dec_str(n / 10);
        let s = dec_str(n);
        assert(s == p.push(digit_char(n % 10)));
        assert(s.drop_last() =~= p);
        assert(s.last() == digit_char(n % 10));
        assert(dec_seq_val(s) == dec_seq_val(p) * 10 + dec_val(digit_char(n % 10)));
        assert(n / 10 * 10 + n % 10 == n);
        assert(forall|i: int| 0 <= i < s.len() ==> #[trigger] s[i] == if i < p.len() {
            p[i]
        } else {
            digit_char(n % 10)
        });
        assert(s[0] == p[0]);
        assert(n / 10 > 0);
    }
}

/// The hexadecimal numeral of `n` reads back as `n`, is all hexadecimal
/// digits, and a value below 2^16 prints in at most four digits.
pub proof fn lemma_hex_str_props(n: int)
    requires
        0 <= n,
    ensures
        all_hex_digits(hex_str(n)),
        hex_seq_val(hex_str(n)) == n,
        hex_str(n).len() >= 1,
        n < 16 ==> hex_str(n).len() == 1,
        16 <= n < 256 ==> hex_str(n).len() == 2,
        256 <= n < 4096 ==> hex_str(n).len() == 3,
        4096 <= n < 65536 ==> hex_str(n).len() == 4,
    decreases n,
{
    if n < 16 {
        lemma_digit_char_val(n);
        let s = hex_str(n);
        assert(s =~= seq![digit_char(n)]);
        assert(s.drop_last() =~= Seq::<char>::empty());
        assert(hex_seq_val(Seq::<char>::empty()) == 0);
        assert(s.last() == digit_char(n));
        assert(hex_seq_val(s) == hex_seq_val(s.drop_last()) * 16 + hex_val(s.last()));
        assert(hex_seq_val(s) == n);
    } else {
        lemma_hex_str_props(n / 16);
        lemma_digit_char_val(n % 16);
        let p = hex_str(n / 16);
        let s = hex_str(n);
        assert(s == p.push(digit_char(n % 16)));
        assert(s.drop_last() =~= p);
        assert(s.last() == digit_char(n % 16));
        assert(hex_seq_val(s) == hex_seq_val(p) * 16 + hex_val(digit_char(n % 16)));
        assert(n / 16 * 16 + n % 16 == n);
        assert(forall|i: int| 0 <= i < s.len() ==> #[trigger] s[i] == if i < p.len() {
            p[i]
        } else {
            digit_char(n % 16)
        });
    }
}

/// The digit character for a value below sixteen, as a one-character
/// text.
pub fn digit_str_of(d: u8) -> (c: &'static str)
    requires
        d < 16,
    ensures
        c@ == seq![digit_char(d as int)],
{
    match d {
        0 => {
            proof {
                reveal_strlit("0");
                assert("0"@ =~= seq![digit_char(0)]);
            }
            "0"
        },
        1 => {
            proof {
                reveal_strlit("1");
                assert("1"@ =~= seq![digit_char(1)]);
            }
            "1"
        },
        2 => {
            proof {
                reveal_strlit("2");
                assert("2"@ =~= seq![digit_char(2)]);
            }
            "2"
        },
        3 => {
            proof {
                reveal_strlit("3");
                assert("3"@ =~= seq![digit_char(3)]);
            }
            "3"
        },
        4 => {
            proof {
                reveal_strlit("4");
                assert("4"@ =~= seq![digit_char(4)]);
            }
            "4"
        },
        5 => {
            proof {
                reveal_strlit("5");
                assert("5"@ =~= seq![digit_char(5)]);
            }
            "5"
        },
        6 => {
            proof {
                reveal_strlit("6");
                assert("6"@ =~= seq![digit_char(6)]);
            }
            "6"
        },
        7 => {
            proof {
                reveal_strlit("7");
                assert("7"@ =~= seq![digit_char(7)]);
            }
            "7"
        },
        8 => {
            proof {
                reveal_strlit("8");
                assert("8"@ =~= seq![digit_char(8)]);
            }
            "8"
        },
        9 => {
            proof {
                reveal_strlit("9");
                assert("9"@ =~= seq![digit_char(9)]);
            }
            "9"
        },
        10 => {
            proof {
                reveal_strlit("a");
                assert("a"@ =~= seq![digit_char(10)]);
            }
            "a"
        },
        11 => {
            proof {
                reveal_strlit("b");
                assert("b"@ =~= seq![digit_char(11)]);
            }
            "b"
        },
        12 => {
            proof {
                reveal_strlit("c");
                assert("c"@ =~= seq![digit_char(12)]);
            }
            "c"
        },
        13 => {
            proof {
                reveal_strlit("d");
                assert("d"@ =~= seq![digit_char(13)]);
            }
            "d"
        },
        14 => {
            proof {
                reveal_strlit("e");
                assert("e"@ =~= seq![digit_char(14)]);
            }
            "e"
        },
        _ => {
            proof {
                reveal_strlit("f");
                assert("f"@ =~= seq![digit_char(15)]);
            }
            "f"
        },
    }
}

/// The value of a decimal digit character, or nothing for another
/// character.
pub fn dec_digit_val(c: char) -> (r: Option<u8>)
    ensures
        match r {
            Some(v) => is_dec_digit(c) && v as nat == dec_val(c),
            None => !is_dec_digit(c),
        },
{
    let cp = c as u32;
    if 48 <= cp && cp <= 57 {
        Some((cp - 48) as u8)
    } else {
        None
    }
}

/// The value of a lower-case hexadecimal digit character, or nothing for
/// another character.
pub fn hex_digit_val(c: char) -> (r: Option<u8>)
    ensures
        match r {
            Some(v) => is_hex_digit(c) && v as nat == hex_val(c),
            None => !is_hex_digit(c),
        },
{
    let cp = c as u32;
    if 48 <= cp && cp <= 57 {
        Some((cp - 48) as u8)
    } else if 97 <= cp && cp <= 102 {
        Some((cp - 87) as u8)
    } else {
        None
    }
}

/// A decimal octet as text: one to three digits, no leading zero, value
/// at most 255.
pub open spec fn valid_dec_octet(s: Seq<char>) -> bool {
    &&& 1 <= s.len() <= 3
    &&& all_dec_digits(s)
    &&& (s.len() > 1 ==> s[0] != '0')
    &&& dec_seq_val(s) <= 255
}

/// A hexadecimal group as text: one to four hexadecimal digits.
pub open spec fn valid_hex_group(s: Seq<char>) -> bool {
    &&& 1 <= s.len() <= 4
    &&& all_hex_digits(s)
}

/// Reads a decimal octet, accepting exactly the texts `valid_dec_octet`
/// names and giving their value.
pub fn parse_dec_octet(s: &[char]) -> (r: Option<u8>)
    ensures
        match r {
            Some(v) => valid_dec_octet(s@) && v as nat == dec_seq_val(s@),
            None => !valid_dec_octet(s@),
        },
{
    let n = s.len();
    if n < 1 || n > 3 {
        return None;
    }
    if n > 1 && s[0] == '0' {
        return None;
    }
    let mut val: u32 = 0;
    let mut i: usize = 0;
    while i < n
        invariant
            0 <= i <= n <= 3,
            n == s@.len(),
            all_dec_digits(s@.take(i as int)),
            val as nat == dec_seq_val(s@.take(i as int)),
            val < 1000,
        decreases n - i,
    {
        match dec_digit_val(s[i]) {
            None => {
                return None;
            },
            Some(d) => {
                proof {
                    assert(s@.take(i + 1).drop_last() =~= s@.take(i as int));
                    assert(s@.take(i + 1).last() == s@[i as int]);
                    assert(forall|j: int|
                        0 <= j < i + 1 ==> #[trigger] s@.take(i + 1)[j] == s@[j]);
                    assert(dec_seq_val(s@.take(i as int)) < 100) by {
                        lemma_dec_seq_val_bound(s@.take(i as int));
                    }
                }
                val = val * 10 + d as u32;
            },
        }
        i += 1;
    }
    proof {
        assert(s@.take(n as int) =~= s@);
    }
    if val > 255 {
        None
    } else {
        Some(val as u8)
    }
}

/// A numeral of at most two digits is below one hundred, of at most three
/// below one thousand, of at most four hexadecimal digits below 2^16.
pub proof fn lemma_dec_seq_val_bound(s: Seq<char>)
    requires
        all_dec_digits(s),
    ensures
        s.len() <= 1 ==> dec_seq_val(s) < 10,
        s.len() <= 2 ==> dec_seq_val(s) < 100,
        s.len() <= 3 ==> dec_seq_val(s) < 1000,
    decreases s.len(),
{
    if s.len() > 0 {
        let p = s.drop_last();
        assert(forall|i: int| 0 <= i < p.len() ==> #[trigger] p[i] == s[i]);
        lemma_dec_seq_val_bound(p);
        assert(is_dec_digit(s.last()));
        assert(dec_val(s.last()) < 10);
    }
}

/// The same bounds for hexadecimal numerals.
pub proof fn lemma_hex_seq_val_bound(s: Seq<char>)
    requires
        all_hex_digits(s),
    ensures
        s.len() <= 1 ==> hex_seq_val(s) < 16,
        s.len() <= 2 ==> hex_seq_val(s) < 256,
        s.len() <= 3 ==> hex_seq_val(s) < 4096,
        s.len() <= 4 ==> hex_seq_val(s) < 65536,
    decreases s.len(),
{
    if s.len() > 0 {
        let p = s.drop_last();
        assert(forall|i: int| 0 <= i < p.len() ==> #[trigger] p[i] == s[i]);
        lemma_hex_seq_val_bound(p);
        assert(is_hex_digit(s.last()));
        assert(hex_val(s.last()) < 16);
    }
}

/// Reads a hexadecimal group, accepting exactly the texts
/// `valid_hex_group` names and giving their value.
pub fn parse_hex_group(s: &[char]) -> (r: Option<u16>)
    ensures
        match r {
            Some(v) => valid_hex_group(s@) && v as nat == hex_seq_val(s@),
            None => !valid_hex_group(s@),
        },
{
    let n = s.len();
    if n < 1 || n > 4 {
        return None;
    }
    let mut val: u32 = 0;
    let mut i: usize = 0;
    while i < n
        invariant
            0 <= i <= n <= 4,
            n == s@.len(),
            all_hex_digits(s@.take(i as int)),
            val as nat == hex_seq_val(s@.take(i as int)),
            val < 65536,
        decreases n - i,
    {
        match hex_digit_val(s[i]) {
            None => {
                return None;
            },
            Some(d) => {
                proof {
                    assert(s@.take(i + 1).drop_last() =~= s@.take(i as int));
                    assert(s@.take(i + 1).last() == s@[i as int]);
                    assert(forall|j: int|
                        0 <= j < i + 1 ==> #[trigger] s@.take(i + 1)[j] == s@[j]);
                    assert(hex_seq_val(s@.take(i as int)) < 4096) by {
                        lemma_hex_seq_val_bound(s@.take(i as int));
                    }
                }
                val = val * 16 + d as u32;
            },
        }
        i += 1;
    }
    proof {
        assert(s@.take(n as int) =~= s@);
        lemma_hex_seq_val_bound(s@);
    }
    Some(val as u16)
}

/// Writes `n` as its decimal numeral.
pub fn dec_chars(n: u8) -> (r: String)
    ensures
        r@ == dec_str(n as int),
    decreases n,
{
    if n < 10 {
        let mut r = String::new();
        r.append(digit_str_of(n));
        proof {
            assert(r@ =~= dec_str(n as int));
        }
        r
    } else {
        let mut r = dec_chars(n / 10);
        r.append(digit_str_of(n % 10));
        proof {
            assert(r@ =~= dec_str(n as int));
        }
        r
    }
}

/// Writes `n` as its hexadecimal numeral.
pub fn hex_chars(n: u16) -> (r: String)
    ensures
        r@ == hex_str(n as int),
    decreases n,
{
    if n < 16 {
        let mut r = String::new();
        r.append(digit_str_of(n as u8));
        proof {
            assert(r@ =~= hex_str(n as int));
        }
        r
    } else {
        let mut r = hex_chars(n / 16);
        r.append(digit_str_of((n % 16) as u8));
        proof {
            assert(r@ =~= hex_str(n as int));
        }
        r
    }
}

} // verus!

verus! {

/// Every character of a join satisfies what the separator and every
/// piece's characters satisfy.
pub proof fn lemma_join_chars(parts: Seq<Seq<char>>, sep: char, p: spec_fn(char) -> bool)
    requires
        p(sep),
        forall|j: int, i: int|
            0 <= j < parts.len() && 0 <= i < parts[j].len() ==> p(#[trigger] parts[j][i]),
    ensures
        forall|t: int| 0 <= t < join_with(parts, sep).len() ==> p(#[trigger] join_with(parts, sep)[t]),
    decreases parts.len(),
{
    let s = join_with(parts, sep);
    if parts.len() == 0 {
    } else if parts.len() == 1 {
        assert(forall|t: int| 0 <= t < s.len() ==> #[trigger] s[t] == parts[0][t]);
    } else {
        let rest = parts.drop_first();
        assert(forall|j: int| 0 <= j < rest.len() ==> #[trigger] rest[j] == parts[j + 1]);
        lemma_join_chars(rest, sep, p);
        let jr = join_with(rest, sep);
        let m = parts[0].len() as int;
        assert(s == parts[0] + seq![sep] + jr);
        assert forall|t: int| 0 <= t < s.len() implies p(#[trigger] s[t]) by {
            if t < m {
                assert(s[t] == parts[0][t]);
            } else if t == m {
                assert(s[t] == sep);
            } else {
                assert(s[t] == jr[t - m - 1]);
            }
        }
    }
}

} // verus!

verus! {

/// Whether two texts hold the same characters.
pub fn str_eq(a: &str, b: &str) -> (r: bool)
    ensures
        r == (a@ == b@),
{
    let na = a.unicode_len();
    let nb = b.unicode_len();
    if na != nb {
        proof {
            assert(a@ != b@);
        }
        return false;
    }
    let mut i: usize = 0;
    while i < na
        invariant
            0 <= i <= na,
            na == a@.len(),
            na == b@.len(),
            forall|j: int| 0 <= j < i ==> a@[j] == b@[j],
        decreases na - i,
    {
        if a.get_char(i) != b.get_char(i) {
            proof {
                assert(a@[i as int] != b@[i as int]);
            }
            return false;
        }
        i += 1;
    }
    proof {
        assert(a@ =~= b@);
    }
    true
}

} // verus!
