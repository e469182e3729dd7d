//! The dynamic-workspace name codec.
//!
//! A dynamic workspace is named `<prefix><5-digit zero-padded index>`.
//! `encode` builds such a name; `decode` strips the prefix and parses the
//! remainder as an unsigned integer, leniently: any all-digit remainder
//! (with an optional leading `+`, as integer parsing accepts) is valid,
//! whatever its width.

use vstd::arithmetic::div_mod::lemma_div_denominator;
use vstd::arithmetic::div_mod::lemma_div_is_ordered;
use vstd::arithmetic::div_mod::lemma_fundamental_div_mod;
use vstd::prelude::*;
use vstd::string::*;

verus! {

/// The decimal digit character for a value in `[0, 10)`.
pub open spec fn digit_char(d: int) -> char {
    if d == 0 {
        '0'
    } else if d == 1 {
        '1'
    } else if d == 2 {
        '2'
    } else if d == 3 {
        '3'
    } else if d == 4 {
        '4'
    } else if d == 5 {
        '5'
    } else if d == 6 {
        '6'
    } else if d == 7 {
        '7'
    } else if d == 8 {
        '8'
    } else {
        '9'
    }
}

/// Whether `c` is a decimal digit.
pub open spec fn is_digit(c: char) -> bool {
    48 <= c as int <= 57
}

/// The numeric value of a digit character.
pub open spec fn digit_val(c: char) -> int {
    c as int - 48
}

/// The five digits of `i`, zero-padded, for `i` in `[0, 99999]`.
pub open spec fn pad5(i: int) -> Seq<char> {
    seq![
        digit_char(i / 10000 % 10),
        digit_char(i / 1000 % 10),
        digit_char(i / 100 % 10),
        digit_char(i / 10 % 10),
        digit_char(i % 10),
    ]
}

/// The name of the dynamic workspace with index `i` under `prefix`.
pub open spec fn encoded(prefix: Seq<char>, i: int) -> Seq<char> {
    prefix + pad5(i)
}

/// Whether every character of `s` is a decimal digit.
pub open spec fn all_digits(s: Seq<char>) -> bool {
    forall|i: int| 0 <= i < s.len() ==> is_digit(#[trigger] s[i])
}

/// The value of a digit string, most significant digit first.
pub open spec fn digits_val(s: Seq<char>) -> int
    decreases s.len(),
{
    if s.len() == 0 {
        0
    } else {
        digits_val(s.drop_last()) * 10 + digit_val(s.last())
    }
}

/// The digit part of a numeral: an optional leading `+` is dropped.
pub open spec fn digit_body(s: Seq<char>) -> Seq<char> {
    if s.len() > 0 && s[0] == '+' {
        s.drop_first()
    } else {
        s
    }
}

/// What parsing `s` as an unsigned machine integer yields: the value of its
/// digits if there is at least one, all are digits, and the value fits;
/// nothing otherwise.
pub open spec fn parsed_index(s: Seq<char>) -> Option<int> {
    let d = digit_body(s);
    if d.len() > 0 && all_digits(d) && digits_val(d) <= usize::MAX as int {
        Some(digits_val(d))
    } else {
        None
    }
}

/// Whether `name` starts with `prefix`.
pub open spec fn has_prefix(name: Seq<char>, prefix: Seq<char>) -> bool {
    prefix.len() <= name.len() && name.subrange(0, prefix.len() as int) == prefix
}

/// What decoding `name` under `prefix` yields: the parsed index of the part
/// after the prefix, or nothing when the prefix is absent or the remainder
/// does not parse.
pub open spec fn decoded(prefix: Seq<char>, name: Seq<char>) -> Option<int> {
    if has_prefix(name, prefix) {
        parsed_index(name.skip(prefix.len() as int))
    } else {
        None
    }
}

/// The single-character string for a digit value.
fn digit_str(d: usize) -> (r: &'static str)
    requires
        d < 10,
    ensures
        r@ == seq![digit_char(d as int)],
{
    if d == 0 {
        proof {
            reveal_strlit("0");
        }
        let s = "0";
        assert(s@ =~= seq![digit_char(0)]);
        s
    } else if d == 1 {
        proof {
            reveal_strlit("1");
        }
        let s = "1";
        assert(s@ =~= seq![digit_char(1)]);
        s
    } else if d == 2 {
        proof {
            reveal_strlit("2");
        }
        let s = "2";
        assert(s@ =~= seq![digit_char(2)]);
        s
    } else if d == 3 {
        proof {
            reveal_strlit("3");
        }
        let s = "3";
        assert(s@ =~= seq![digit_char(3)]);
        s
    } else if d == 4 {
        proof {
            reveal_strlit("4");
        }
        let s = "4";
        assert(s@ =~= seq![digit_char(4)]);
        s
    } else if d == 5 {
        proof {
            reveal_strlit("5");
        }
        let s = "5";
        assert(s@ =~= seq![digit_char(5)]);
        s
    } else if d == 6 {
        proof {
            reveal_strlit("6");
        }
        let s = "6";
        assert(s@ =~= seq![digit_char(6)]);
        s
    } else if d == 7 {
        proof {
            reveal_strlit("7");
        }
        let s = "7";
        assert(s@ =~= seq![digit_char(7)]);
        s
    } else if d == 8 {
        proof {
            reveal_strlit("8");
        }
        let s = "8";
        assert(s@ =~= seq![digit_char(8)]);
        s
    } else {
        proof {
            reveal_strlit("9");
        }
        let s = "9";
        assert(s@ =~= seq![digit_char(9)]);
        s
    }
}

/// Builds the name of the dynamic workspace with the given index under the
/// given prefix: the prefix followed by the index, zero-padded to five
/// digits.
pub fn encode(prefix: &str, index: usize) -> (r: String)
    requires
        index <= 99999,
    ensures
        r@ == encoded(prefix@, index as int),
{
    let mut r = String::from_str(prefix);
    r.append(digit_str(index / 10000 % 10));
    r.append(digit_str(index / 1000 % 10));
    r.append(digit_str(index / 100 % 10));
    r.append(digit_str(index / 10 % 10));
    r.append(digit_str(index % 10));
    proof {
        assert(r@ =~= encoded(prefix@, index as int));
    }
    r
}

/// A digit string has a value no smaller than zero.
proof fn lemma_digits_val_nonneg(s: Seq<char>)
    requires
        all_digits(s),
    ensures
        digits_val(s) >= 0,
    decreases s.len(),
{
    if s.len() > 0 {
        assert(all_digits(s.drop_last()));
        lemma_digits_val_nonneg(s.drop_last());
        assert(is_digit(s.last()));
    }
}

/// A digit string's value is no smaller than the value of any of its
/// leading parts.
proof fn lemma_digits_val_prefix(s: Seq<char>, k: int)
    requires
        all_digits(s),
        0 <= k <= s.len(),
    ensures
        digits_val(s) >= digits_val(s.subrange(0, k)),
    decreases s.len() - k,
{
    if k < s.len() {
        assert(s.subrange(0, k + 1).drop_last() =~= s.subrange(0, k));
        assert(s.subrange(0, k + 1).last() == s[k]);
        assert(all_digits(s.subrange(0, k)));
        lemma_digits_val_nonneg(s.subrange(0, k));
        assert(is_digit(s[k]));
        assert(digits_val(s.subrange(0, k + 1)) == digits_val(s.subrange(0, k)) * 10 + digit_val(
            s[k],
        ));
        lemma_digits_val_prefix(s, k + 1);
    } else {
        assert(s.subrange(0, k) =~= s);
    }
}

/// Parses a string as an unsigned machine integer: an optional leading
/// `+`, then at least one decimal digit, whose value must fit.
pub fn parse_index(s: &str) -> (r: Option<usize>)
    ensures
        r is Some <==> parsed_index(s@) is Some,
        r matches Some(v) ==> parsed_index(s@) == Some(v as int),
{
    let len = s.unicode_len();
    let mut i: usize = 0;
    if len > 0 {
        let c0 = s.get_char(0);
        if c0 == '+' {
            i = 1;
        }
    }
    let ghost start = i as int;
    let ghost d = digit_body(s@);
    proof {
        assert(d =~= s@.skip(start));
    }
    if i >= len {
        proof {
            assert(d.len() == 0);
        }
        return None;
    }
    let mut acc: usize = 0;
    while i < len
        invariant
            0 <= start <= i as int <= len,
            start < len,
            len == s@.len(),
            d == s@.skip(start),
            d == digit_body(s@),
            all_digits(d.subrange(0, i as int - start)),
            acc as int == digits_val(d.subrange(0, i as int - start)),
        decreases len - i,
    {
        let c = s.get_char(i);
        let cv = c as u32;
        proof {
            assert(s@.skip(start).len() == len - start);
            assert(s@.skip(start)[i as int - start] == s@[i as int]);
        }
        if cv < 48 || cv > 57 {
            proof {
                assert(!is_digit(d[i as int - start]));
            }
            return None;
        }
        let dv = (cv - 48) as usize;
        proof {
            assert(is_digit(s@[i as int]));
            assert(digit_val(s@[i as int]) == dv as int);
        }
        let ghost m = usize::MAX as int;
        let ghost a = acc as int;
        let ghost v = dv as int;
        if acc > (usize::MAX - dv) / 10 {
            // no machine integer can hold this many digits, however they go on
            proof {
                lemma_fundamental_div_mod(m - v, 10);
                assert(10 * a + v > m);
                if all_digits(d) {
                    assert(d.subrange(0, i as int - start + 1).drop_last() =~= d.subrange(
                        0,
                        i as int - start,
                    ));
                    assert(d.subrange(0, i as int - start + 1).last() == d[i as int - start]);
                    assert(digits_val(d.subrange(0, i as int - start + 1)) == a * 10 + v);
                    lemma_digits_val_prefix(d, i as int - start + 1);
                    assert(digits_val(d) > m);
                }
            }
            return None;
        }
        proof {
            lemma_fundamental_div_mod(m - v, 10);
            assert(10 * a + v <= m);
        }
        acc = acc * 10 + dv;
        proof {
            assert(d.subrange(0, i as int - start + 1).drop_last() =~= d.subrange(
                0,
                i as int - start,
            ));
            assert(d.subrange(0, i as int - start + 1).last() == d[i as int - start]);
        }
        i += 1;
    }
    proof {
        assert(d.subrange(0, len - start) =~= d);
        assert(d.len() > 0);
    }
    Some(acc)
}

/// Decodes a workspace name under a prefix: strips the prefix and parses
/// the remainder; yields nothing when the name does not carry the prefix
/// or the remainder is not a numeral.
pub fn decode(prefix: &str, name: &str) -> (r: Option<usize>)
    ensures
        r is Some <==> decoded(prefix@, name@) is Some,
        r matches Some(v) ==> decoded(prefix@, name@) == Some(v as int),
{
    if !crate::order::str_starts_with(name, prefix) {
        return None;
    }
    let plen = prefix.unicode_len();
    let nlen = name.unicode_len();
    let rest = name.substring_char(plen, nlen);
    proof {
        assert(rest@ =~= name@.skip(plen as int));
    }
    parse_index(rest)
}

/// The character for a digit value is a digit and carries that value.
proof fn lemma_digit_char_val(d: int)
    requires
        0 <= d < 10,
    ensures
        is_digit(digit_char(d)),
        digit_val(digit_char(d)) == d,
{
}

/// The padded digits of an index in range are all digits and evaluate back
/// to the index.
proof fn lemma_pad5_val(i: int)
    requires
        0 <= i <= 99999,
    ensures
        all_digits(pad5(i)),
        digits_val(pad5(i)) == i,
{
    let v4 = i / 10000 % 10;
    let v3 = i / 1000 % 10;
    let v2 = i / 100 % 10;
    let v1 = i / 10 % 10;
    let v0 = i % 10;
    lemma_digit_char_val(v4);
    lemma_digit_char_val(v3);
    lemma_digit_char_val(v2);
    lemma_digit_char_val(v1);
    lemma_digit_char_val(v0);
    let s = pad5(i);
    assert(all_digits(s)) by {
        assert(forall|k: int| 0 <= k < 5 ==> is_digit(#[trigger] s[k]));
    }
    // unfold the value of the five-character string
    let s4 = seq![digit_char(v4)];
    let s3 = seq![digit_char(v4), digit_char(v3)];
    let s2 = seq![digit_char(v4), digit_char(v3), digit_char(v2)];
    let s1 = seq![digit_char(v4), digit_char(v3), digit_char(v2), digit_char(v1)];
    assert(s.drop_last() =~= s1);
    assert(s1.drop_last() =~= s2);
    assert(s2.drop_last() =~= s3);
    assert(s3.drop_last() =~= s4);
    assert(s4.drop_last() =~= Seq::<char>::empty());
    assert(digits_val(Seq::<char>::empty()) == 0);
    assert(digits_val(s4) == v4);
    assert(digits_val(s3) == v4 * 10 + v3);
    assert(digits_val(s2) == (v4 * 10 + v3) * 10 + v2);
    assert(digits_val(s1) == ((v4 * 10 + v3) * 10 + v2) * 10 + v1);
    assert(digits_val(s) == (((v4 * 10 + v3) * 10 + v2) * 10 + v1) * 10 + v0);
    // the five digits reassemble the index
    lemma_div_is_ordered(i, 99999, 10000);
    assert(99999int / 10000 == 9);
    assert(i / 10000 <= 9);
    vstd::arithmetic::div_mod::lemma_small_mod((i / 10000) as nat, 10);
    assert(v4 == i / 10000);
    lemma_div_denominator(i, 1000, 10);
    assert(i / 1000 / 10 == i / 10000);
    lemma_fundamental_div_mod(i / 1000, 10);
    assert(v4 * 10 + v3 == i / 1000);
    lemma_div_denominator(i, 100, 10);
    assert(i / 100 / 10 == i / 1000);
    lemma_fundamental_div_mod(i / 100, 10);
    assert((i / 1000) * 10 + v2 == i / 100);
    lemma_div_denominator(i, 10, 10);
    assert(i / 10 / 10 == i / 100);
    lemma_fundamental_div_mod(i / 10, 10);
    assert((i / 100) * 10 + v1 == i / 10);
    lemma_fundamental_div_mod(i, 10);
    assert((i / 10) * 10 + v0 == i);
}

/// Law: the codec round-trips. Encoding an index in the supported range
/// under any prefix and decoding the result under the same prefix gives
/// the index back.
pub proof fn lemma_codec_round_trip(prefix: Seq<char>, i: int)
    requires
        0 <= i <= 99999,
    ensures
        decoded(prefix, encoded(prefix, i)) == Some(i),
{
    let name = encoded(prefix, i);
    assert(name.subrange(0, prefix.len() as int) =~= prefix);
    assert(has_prefix(name, prefix));
    assert(name.skip(prefix.len() as int) =~= pad5(i));
    lemma_pad5_val(i);
    assert(is_digit(pad5(i)[0]));
    assert(pad5(i)[0] != '+');
    assert(digit_body(pad5(i)) == pad5(i));
    assert(i <= usize::MAX as int);
}

/// Law: a name that does not carry the prefix decodes to nothing.
pub proof fn lemma_decode_non_member(prefix: Seq<char>, name: Seq<char>)
    requires
        !has_prefix(name, prefix),
    ensures
        decoded(prefix, name) is None,
{
}

} // verus!
