use vstd::prelude::*;

verus! {

/// Whether a character is a decimal digit.
pub open spec fn is_digit(c: char) -> bool {
    48 <= c as u32 <= 57
}

/// The numeric value of a decimal digit character.
pub open spec fn digit_val(c: char) -> int {
    c as u32 - 48
}

/// The character for a decimal digit value.
pub open spec fn digit_char(d: int) -> char {
    if d == 0 {
        '0'
    } else if d == 1 {
        '1'
    } else if d == 2 {
        '2'
    } else if d == 3 {
        '3'
    } else if d == 4 {
        '4'
    } else if d == 5 {
        '5'
    } else if d == 6 {
        '6'
    } else if d == 7 {
        '7'
    } else if d == 8 {
        '8'
    } else {
        '9'
    }
}

/// Every character of the text is a decimal digit.
pub open spec fn all_digits(s: Seq<char>) -> bool {
    forall|i: int| 0 <= i < s.len() ==> is_digit(s[i])
}

/// The number a digit text denotes, most significant digit first.
pub open spec fn digits_val(s: Seq<char>) -> int
    decreases s.len(),
{
    if s.len() == 0 {
        0
    } else {
        digits_val(s.drop_last()) * 10 + digit_val(s.last())
    }
}

/// The canonical decimal text of a non-negative number: no sign and no
/// leading zero except for zero itself.
pub open spec fn spec_fmt_nat(n: int) -> Seq<char>
    decreases n,
{
    if n < 10 {
        seq![digit_char(n)]
    } else {
        spec_fmt_nat(n / 10).push(digit_char(n % 10))
    }
}

/// The canonical decimal text of an integer: a minus sign and the
/// magnitude for negative numbers, the magnitude alone otherwise.
pub open spec fn spec_fmt_int(v: int) -> Seq<char> {
    if v < 0 {
        seq!['-'] + spec_fmt_nat(-v)
    } else {
        spec_fmt_nat(v)
    }
}

/// One decimal digit as text.
fn digit_str(d: u32) -> (r: &'static str)
    requires
        d < 10,
    ensures
        r@ =~= seq![digit_char(d as int)],
{
    proof {
        reveal_strlit("0");
        reveal_strlit("1");
        reveal_strlit("2");
        reveal_strlit("3");
        reveal_strlit("4");
        reveal_strlit("5");
        reveal_strlit("6");
        reveal_strlit("7");
        reveal_strlit("8");
        reveal_strlit("9");
    }
    match d {
        0 => "0",
        1 => "1",
        2 => "2",
        3 => "3",
        4 => "4",
        5 => "5",
        6 => "6",
        7 => "7",
        8 => "8",
        _ => "9",
    }
}

/// Appends the canonical decimal digits of `n` to `out`.
fn push_u32_digits(n: u32, out: &mut String)
    ensures
        final(out)@ == old(out)@ + spec_fmt_nat(n as int),
    decreases n,
{
    if n >= 10 {
        push_u32_digits(n / 10, out);
    }
    let d = digit_str(n % 10);
    out.append(d);
    proof {
        if n >= 10 {
            assert(spec_fmt_nat(n as int) == spec_fmt_nat(n as int / 10).push(
                digit_char(n as int % 10),
            ));
            assert(final(out)@ =~= old(out)@ + spec_fmt_nat(n as int));
        } else {
            assert(final(out)@ =~= old(out)@ + spec_fmt_nat(n as int));
        }
    }
}

/// The canonical decimal text of a non-negative number.
pub fn format_u32(n: u32) -> (r: String)
    ensures
        r@ == spec_fmt_nat(n as int),
{
    let mut out = String::new();
    push_u32_digits(n, &mut out);
    proof {
        assert(out@ =~= spec_fmt_nat(n as int));
    }
    out
}

/// The canonical decimal text of an integer.
pub fn format_i32(v: i32) -> (r: String)
    ensures
        r@ == spec_fmt_int(v as int),
{
    if v >= 0 {
        format_u32(v as u32)
    } else {
        let magnitude: u32 = (-(v as i64)) as u32;
        let mut out = String::new();
        out.append("-");
        proof {
            reveal_strlit("-");
            assert(out@ =~= seq!['-']);
        }
        push_u32_digits(magnitude, &mut out);
        proof {
            assert(out@ =~= seq!['-'] + spec_fmt_nat(-(v as int)));
        }
        out
    }
}


/// A digit text denotes a non-negative number.
pub proof fn lemma_digits_val_nonneg(s: Seq<char>)
    requires
        all_digits(s),
    ensures
        digits_val(s) >= 0,
    decreases s.len(),
{
    if s.len() > 0 {
        assert(all_digits(s.drop_last()));
        lemma_digits_val_nonneg(s.drop_last());
    }
}

/// A prefix of a digit text denotes at most what the whole text denotes.
pub proof fn lemma_digits_val_prefix_le(s: Seq<char>, j: int)
    requires
        all_digits(s),
        0 <= j <= s.len(),
    ensures
        digits_val(s.take(j)) <= digits_val(s),
    decreases s.len() - j,
{
    if j == s.len() {
        assert(s.take(j) =~= s);
    } else {
        lemma_digits_val_prefix_le(s, j + 1);
        assert(s.take(j + 1).drop_last() =~= s.take(j));
        assert(all_digits(s.take(j)));
        lemma_digits_val_nonneg(s.take(j));
        assert(digits_val(s.take(j + 1)) == digits_val(s.take(j)) * 10 + digit_val(
            s.take(j + 1).last(),
        ));
        assert(digits_val(s.take(j)) * 10 >= digits_val(s.take(j))) by (nonlinear_arith)
            requires
                digits_val(s.take(j)) >= 0,
        ;
    }
}

/// The number an optionally signed decimal text denotes, exactly when the
/// text is a sign followed by at least one digit (or digits alone) and the
/// value fits the signed 32-bit range.
pub open spec fn spec_parse_i32(s: Seq<char>) -> Option<i32> {
    if s.len() == 0 {
        None
    } else {
        let has_sign = s[0] == '-' || s[0] == '+';
        let digits = if has_sign {
            s.skip(1)
        } else {
            s
        };
        if digits.len() == 0 || !all_digits(digits) {
            None
        } else {
            let magnitude = digits_val(digits);
            let value = if s[0] == '-' {
                -magnitude
            } else {
                magnitude
            };
            if i32::MIN <= value <= i32::MAX {
                Some(value as i32)
            } else {
                None
            }
        }
    }
}

/// Parses an optionally signed decimal text as a 32-bit integer; rejects
/// every other shape and every out-of-range value.
pub fn parse_i32_str(s: &str) -> (r: Option<i32>)
    ensures
        r == spec_parse_i32(s@),
{
    let len = s.unicode_len();
    if len == 0 {
        return None;
    }
    let first = s.get_char(0);
    let has_sign = first == '-' || first == '+';
    let start: usize = if has_sign {
        1
    } else {
        0
    };
    if start == len {
        return None;
    }
    let ghost digits = if has_sign {
        s@.skip(1)
    } else {
        s@
    };
    let mut acc: u64 = 0;
    let mut idx: usize = start;
    while idx < len
        invariant
            len == s@.len(),
            start <= idx <= len,
            start == (if has_sign {
                1int
            } else {
                0int
            }),
            has_sign == (s@[0] == '-' || s@[0] == '+'),
            digits == (if has_sign {
                s@.skip(1)
            } else {
                s@
            }),
            start < len,
            acc <= 0x8000_0000u64,
            all_digits(digits.take(idx - start)),
            acc == digits_val(digits.take(idx - start)),
        decreases len - idx,
    {
        let c = s.get_char(idx);
        let cu = c as u32;
        proof {
            assert(digits.len() == len - start);
            assert(digits[idx - start] == s@[idx as int]);
        }
        if cu < 48 || cu > 57 {
            proof {
                assert(!is_digit(digits[idx - start]));
                assert(!all_digits(digits));
            }
            return None;
        }
        let d: u64 = (cu - 48) as u64;
        acc = acc * 10 + d;
        proof {
            assert(digits.take(idx - start + 1).drop_last() =~= digits.take(idx - start));
            assert(digits.take(idx - start + 1).last() == digits[idx - start]);
            assert(acc == digits_val(digits.take(idx - start + 1)));
            assert(all_digits(digits.take(idx - start + 1)));
        }
        if acc > 0x8000_0000u64 {
            proof {
                if all_digits(digits) {
                    lemma_digits_val_prefix_le(digits, idx - start + 1);
                    assert(digits_val(digits) > 0x8000_0000);
                }
            }
            return None;
        }
        idx += 1;
    }
    proof {
        assert(digits.take(len - start) =~= digits);
    }
    if has_sign && first == '-' {
        if acc > 0x8000_0000u64 {
            return None;
        }
        Some((-(acc as i64)) as i32)
    } else {
        if acc > 0x7FFF_FFFFu64 {
            return None;
        }
        Some(acc as i32)
    }
}

/// The position of the first occurrence of a character, or the length of
/// the text when it does not occur.
pub open spec fn spec_find_char(s: Seq<char>, c: char) -> int
    decreases s.len(),
{
    if s.len() == 0 {
        0
    } else if s[0] == c {
        0
    } else {
        1 + spec_find_char(s.skip(1), c)
    }
}

/// The first occurrence is characterised by what precedes it: a position
/// before which the character does not occur, and which holds it or is the
/// end, is the first occurrence.
pub proof fn lemma_find_char_unique(s: Seq<char>, c: char, j: int)
    requires
        0 <= j <= s.len(),
        forall|i: int| 0 <= i < j ==> s[i] != c,
        j < s.len() ==> s[j] == c,
    ensures
        spec_find_char(s, c) == j,
    decreases s.len(),
{
    if s.len() == 0 {
    } else if j == 0 {
    } else {
        assert(s[0] != c);
        assert forall|i: int| 0 <= i < j - 1 implies s.skip(1)[i] != c by {
            assert(s.skip(1)[i] == s[i + 1]);
        }
        assert(j - 1 < s.skip(1).len() ==> s.skip(1)[j - 1] == c);
        lemma_find_char_unique(s.skip(1), c, j - 1);
    }
}

/// The properties of the first occurrence: it is in range, nothing before
/// it is the character, and it is the character unless it is the end.
pub proof fn lemma_find_char_props(s: Seq<char>, c: char)
    ensures
        0 <= spec_find_char(s, c) <= s.len(),
        spec_find_char(s, c) < s.len() ==> s[spec_find_char(s, c)] == c,
        forall|i: int| 0 <= i < spec_find_char(s, c) ==> s[i] != c,
    decreases s.len(),
{
    if s.len() > 0 && s[0] != c {
        lemma_find_char_props(s.skip(1), c);
        assert forall|i: int| 0 <= i < spec_find_char(s, c) implies s[i] != c by {
            if i > 0 {
                assert(s.skip(1)[i - 1] == s[i]);
            }
        }
        assert(s.skip(1)[spec_find_char(s.skip(1), c)] == s[spec_find_char(s, c)] || spec_find_char(
            s.skip(1),
            c,
        ) == s.skip(1).len());
    }
}

/// The position of the first occurrence of a character in a text, or the
/// text's length when it does not occur.
pub fn find_char(s: &str, c: char) -> (r: usize)
    ensures
        r == spec_find_char(s@, c),
{
    let len = s.unicode_len();
    let mut i: usize = 0;
    while i < len
        invariant
            len == s@.len(),
            i <= len,
            forall|k: int| 0 <= k < i ==> s@[k] != c,
        decreases len - i,
    {
        if s.get_char(i) == c {
            proof {
                lemma_find_char_unique(s@, c, i as int);
            }
            return i;
        }
        i += 1;
    }
    proof {
        lemma_find_char_unique(s@, c, len as int);
    }
    len
}

/// The canonical decimal text of a non-negative number is one or more
/// digits.
pub proof fn lemma_fmt_nat_digits(n: int)
    requires
        n >= 0,
    ensures
        all_digits(spec_fmt_nat(n)),
        spec_fmt_nat(n).len() >= 1,
    decreases n,
{
    if n < 10 {
        assert(is_digit(digit_char(n)));
    } else {
        vstd::arithmetic::div_mod::lemma_mod_pos_bound(n, 10);
        vstd::arithmetic::div_mod::lemma_div_pos_is_pos(n, 10);
        lemma_fmt_nat_digits(n / 10);
        assert(is_digit(digit_char(n % 10)));
        assert forall|i: int| 0 <= i < spec_fmt_nat(n).len() implies is_digit(
            spec_fmt_nat(n)[i],
        ) by {
            if i < spec_fmt_nat(n / 10).len() {
                assert(spec_fmt_nat(n)[i] == spec_fmt_nat(n / 10)[i]);
            }
        }
    }
}

/// The canonical decimal text of a non-negative number denotes it.
pub proof fn lemma_fmt_nat_val(n: int)
    requires
        n >= 0,
    ensures
        digits_val(spec_fmt_nat(n)) == n,
    decreases n,
{
    if n < 10 {
        let s = spec_fmt_nat(n);
        assert(s.drop_last() =~= Seq::<char>::empty());
        assert(digits_val(Seq::<char>::empty()) == 0);
        assert(digits_val(s) == digit_val(digit_char(n)));
    } else {
        vstd::arithmetic::div_mod::lemma_mod_pos_bound(n, 10);
        vstd::arithmetic::div_mod::lemma_div_pos_is_pos(n, 10);
        lemma_fmt_nat_val(n / 10);
        let s = spec_fmt_nat(n);
        assert(s.drop_last() =~= spec_fmt_nat(n / 10));
        assert(s.last() == digit_char(n % 10));
        assert(digit_val(digit_char(n % 10)) == n % 10) by {
            assert(0 <= n % 10 < 10);
        }
        vstd::arithmetic::div_mod::lemma_fundamental_div_mod(n, 10);
    }
}

/// Every character of the canonical decimal text of an integer is a digit
/// or a leading minus sign.
pub proof fn lemma_fmt_int_chars(v: int)
    ensures
        forall|i: int|
            0 <= i < spec_fmt_int(v).len() ==> (#[trigger] spec_fmt_int(v)[i] == '-' || is_digit(
                spec_fmt_int(v)[i],
            )),
        spec_fmt_int(v).len() >= 1,
{
    if v < 0 {
        lemma_fmt_nat_digits(-v);
        assert forall|i: int| 0 <= i < spec_fmt_int(v).len() implies (#[trigger] spec_fmt_int(
            v,
        )[i] == '-' || is_digit(spec_fmt_int(v)[i])) by {
            if i > 0 {
                assert(spec_fmt_int(v)[i] == spec_fmt_nat(-v)[i - 1]);
            }
        }
    } else {
        lemma_fmt_nat_digits(v);
    }
}

/// Parsing the canonical decimal text of an integer in the signed 32-bit
/// range gives the integer back.
pub proof fn lemma_fmt_int_parse(v: int)
    requires
        i32::MIN <= v <= i32::MAX,
    ensures
        spec_parse_i32(spec_fmt_int(v)) == Some(v as i32),
{
    if v >= 0 {
        let s = spec_fmt_nat(v);
        lemma_fmt_nat_digits(v);
        lemma_fmt_nat_val(v);
        assert(is_digit(s[0]));
        assert(s[0] != '-' && s[0] != '+');
    } else {
        let s = spec_fmt_int(v);
        lemma_fmt_nat_digits(-v);
        lemma_fmt_nat_val(-v);
        assert(s[0] == '-');
        assert(s.skip(1) =~= spec_fmt_nat(-v));
    }
}
} // verus!
