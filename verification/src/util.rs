//! Small verified string utilities: display width (character count),
//! decimal rendering of numbers, and decimal parsing of host-supplied text.

use vstd::prelude::*;
use vstd::std_specs::iter::IteratorSpec;

verus! {

broadcast use vstd::string::axiom_spec_iter, vstd::string::next_postcondition;

/// Every character encodes to at least one byte, so a string holds no more
/// characters than bytes.
proof fn lemma_encode_utf8_len(v: Seq<char>)
    ensures
        vstd::utf8::encode_utf8(v).len() >= v.len(),
    decreases v.len(),
{
    if v.len() > 0 {
        lemma_encode_utf8_len(v.drop_first());
        assert(vstd::utf8::encode_scalar(v[0] as u32).len() >= 1);
    }
}

/// The number of characters in `s`.  The status line treats every character
/// as occupying one display column, so this is also a fragment's width.
pub fn char_count(s: &str) -> (n: usize)
    ensures
        n == s@.len(),
{
    let bytes_len: usize = s.as_bytes().len();
    proof {
        broadcast use vstd::slice::axiom_spec_len;

        lemma_encode_utf8_len(s@);
        assert(s@.len() <= bytes_len);
    }
    let mut it = s.chars();
    let mut n: usize = 0;
    loop
        invariant_except_break
            it.obeys_prophetic_iter_laws(),
            n + it.remaining().len() == s@.len(),
            s@.len() <= bytes_len,
        ensures
            n == s@.len(),
        decreases bytes_len - n,
    {
        match it.next() {
            Some(_c) => {
                n = n + 1;
            },
            None => {
                break ;
            },
        }
    }
    n
}

/// The character for one decimal digit.
pub open spec fn digit_char(d: int) -> char
    recommends
        0 <= d < 10,
{
    if d == 0 {
        '0'
    } else if d == 1 {
        '1'
    } else if d == 2 {
        '2'
    } else if d == 3 {
        '3'
    } else if d == 4 {
        '4'
    } else if d == 5 {
        '5'
    } else if d == 6 {
        '6'
    } else if d == 7 {
        '7'
    } else if d == 8 {
        '8'
    } else {
        '9'
    }
}

/// The usual decimal rendering of `n`, without a sign or leading zeros.
pub open spec fn dec_spec(n: int) -> Seq<char>
    recommends
        n >= 0,
    decreases n,
{
    if n < 10 {
        seq![digit_char(n)]
    } else {
        dec_spec(n / 10).push(digit_char(n % 10))
    }
}

fn digit_string(d: usize) -> (r: String)
    requires
        d < 10,
    ensures
        r@ == seq![digit_char(d as int)],
{
    proof {
        reveal_strlit("0");
        reveal_strlit("1");
        reveal_strlit("2");
        reveal_strlit("3");
        reveal_strlit("4");
        reveal_strlit("5");
        reveal_strlit("6");
        reveal_strlit("7");
        reveal_strlit("8");
        reveal_strlit("9");
    }
    let r = match d {
        0 => String::from_str("0"),
        1 => String::from_str("1"),
        2 => String::from_str("2"),
        3 => String::from_str("3"),
        4 => String::from_str("4"),
        5 => String::from_str("5"),
        6 => String::from_str("6"),
        7 => String::from_str("7"),
        8 => String::from_str("8"),
        _ => String::from_str("9"),
    };
    proof {
        assert(r@ =~= seq![digit_char(d as int)]);
    }
    r
}

/// Render `n` in decimal.
pub fn dec_string(n: usize) -> (r: String)
    ensures
        r@ == dec_spec(n as int),
        r@.len() >= 1,
    decreases n,
{
    if n < 10 {
        digit_string(n)
    } else {
        let mut s = dec_string(n / 10);
        let d = digit_string(n % 10);
        s.append(d.as_str());
        proof {
            assert(s@ =~= dec_spec(n as int));
        }
        s
    }
}

/// A decimal rendering consists of digits.
pub proof fn lemma_dec_spec_digits(n: int)
    requires
        n >= 0,
    ensures
        dec_spec(n).len() >= 1,
        all_digits(dec_spec(n)),
    decreases n,
{
    if n < 10 {
        assert('0' <= digit_char(n) <= '9');
    } else {
        lemma_dec_spec_digits(n / 10);
        assert('0' <= digit_char(n % 10) <= '9');
        assert forall|i: int| 0 <= i < dec_spec(n).len() implies '0' <= #[trigger] dec_spec(n)[i]
            <= '9' by {
            if i < dec_spec(n / 10).len() {
                assert(dec_spec(n)[i] == dec_spec(n / 10)[i]);
            }
        }
    }
}

/// Rendering a number and reading the digits back yields the number.
pub proof fn lemma_dec_spec_val(n: int)
    requires
        n >= 0,
    ensures
        digits_val(dec_spec(n)) == n,
    decreases n,
{
    if n < 10 {
        assert(dec_spec(n).drop_last() =~= Seq::<char>::empty());
        assert(dec_spec(n).last() == digit_char(n));
        assert(digit_char(n) as int - '0' as int == n);
        assert(digits_val(dec_spec(n)) == digits_val(Seq::<char>::empty()) * 10 + (digit_char(n)
            as int - '0' as int));
    } else {
        lemma_dec_spec_val(n / 10);
        assert(dec_spec(n).drop_last() =~= dec_spec(n / 10));
        assert(dec_spec(n).last() == digit_char(n % 10));
        assert(digit_char(n % 10) as int - '0' as int == n % 10);
        assert(digits_val(dec_spec(n)) == digits_val(dec_spec(n / 10)) * 10 + (digit_char(n % 10)
            as int - '0' as int));
        assert(n / 10 * 10 + n % 10 == n);
    }
}

/// All characters of `v` are decimal digits.
pub open spec fn all_digits(v: Seq<char>) -> bool {
    forall|i: int| 0 <= i < v.len() ==> '0' <= #[trigger] v[i] <= '9'
}

/// The number denoted by a digit sequence (most significant first).
pub open spec fn digits_val(v: Seq<char>) -> int
    recommends
        all_digits(v),
    decreases v.len(),
{
    if v.len() == 0 {
        0
    } else {
        digits_val(v.drop_last()) * 10 + (v.last() as int - '0' as int)
    }
}

/// A digit sequence denotes at least the value of any of its prefixes, so a
/// value that overflows while scanning left to right stays overflowed.
proof fn lemma_digits_val_prefix_le(v: Seq<char>, n: int)
    requires
        all_digits(v),
        0 <= n <= v.len(),
    ensures
        digits_val(v.subrange(0, n)) <= digits_val(v),
        digits_val(v) >= 0,
    decreases v.len() - n,
{
    if n == v.len() {
        assert(v.subrange(0, n) =~= v);
        lemma_digits_val_nonneg(v);
    } else {
        lemma_digits_val_prefix_le(v, n + 1);
        let p = v.subrange(0, n);
        let q = v.subrange(0, n + 1);
        assert(q.drop_last() =~= p);
        lemma_digits_val_nonneg(p);
        assert(digits_val(q) == digits_val(p) * 10 + (v[n] as int - '0' as int));
        assert(digits_val(p) <= digits_val(p) * 10) by (nonlinear_arith)
            requires
                digits_val(p) >= 0,
        ;
    }
}

proof fn lemma_digits_val_nonneg(v: Seq<char>)
    requires
        all_digits(v),
    ensures
        digits_val(v) >= 0,
    decreases v.len(),
{
    if v.len() > 0 {
        assert(forall|i: int| 0 <= i < v.drop_last().len() ==> v.drop_last()[i] == v[i]);
        lemma_digits_val_nonneg(v.drop_last());
    }
}

/// Parse an unsigned decimal number, as the host writes pane ids and exit
/// codes.  Succeeds exactly on non-empty all-digit strings whose value fits
/// in a `u32`; leading zeros are accepted.
pub fn parse_u32(s: &str) -> (r: Option<u32>)
    ensures
        match r {
            Some(v) => s@.len() > 0 && all_digits(s@) && digits_val(s@) == v as int,
            None => s@.len() == 0 || !all_digits(s@) || digits_val(s@) > u32::MAX as int,
        },
{
    if !s.is_ascii() {
        // A non-ASCII string holds a character outside '0'..='9'.
        proof {
            if all_digits(s@) {
                assert forall|i: int| 0 <= i < s@.len() implies '\0' <= #[trigger] s@[i]
                    <= '\u{7f}' by {
                    assert('0' <= s@[i] <= '9');
                }
                assert(vstd::utf8::is_ascii_chars(s@));
            }
        }
        return None;
    }
    proof {
        broadcast use vstd::string::is_ascii_spec_bytes;

    }
    let b = s.as_bytes();
    let n = b.len();
    if n == 0 {
        return None;
    }
    proof {
        assert(b@ =~= Seq::new(s@.len(), |i: int| s@[i] as u8));
    }
    let mut acc: u32 = 0;
    let mut i: usize = 0;
    while i < n
        invariant
            b@ == Seq::new(s@.len(), |j: int| s@[j] as u8),
            forall|j: int| 0 <= j < s@.len() ==> '\0' <= #[trigger] s@[j] <= '\u{7f}',
            n == s@.len(),
            0 <= i <= n,
            all_digits(s@.subrange(0, i as int)),
            acc as int == digits_val(s@.subrange(0, i as int)),
        decreases n - i,
    {
        let c = b[i];
        if c < 48 || c > 57 {
            proof {
                assert(s@[i as int] as u32 == c as u32);
                assert(!('0' <= s@[i as int] <= '9'));
                assert(!all_digits(s@));
            }
            return None;
        }
        let d: u32 = (c - 48) as u32;
        proof {
            assert(s@[i as int] as u32 == c as u32);
            assert('0' <= s@[i as int] <= '9');
            assert(s@[i as int] as int - '0' as int == d as int);
            assert(s@.subrange(0, i + 1 as int).drop_last() =~= s@.subrange(0, i as int));
        }
        if acc > (u32::MAX - d) / 10 {
            // The running value can only grow with further digits.
            proof {
                assert(acc as int * 10 + d as int > u32::MAX as int) by (nonlinear_arith)
                    requires
                        acc as int > ((u32::MAX - d) / 10) as int,
                        0 <= d <= 9,
                        ((u32::MAX - d) / 10) as int == (u32::MAX as int - d as int) / 10,
                ;
                if all_digits(s@) {
                    lemma_digits_val_prefix_le(s@, i + 1);
                    assert(digits_val(s@.subrange(0, i + 1 as int)) == acc as int * 10 + d as int);
                }
            }
            return None;
        }
        proof {
            assert(acc as int * 10 + d as int <= u32::MAX as int) by (nonlinear_arith)
                requires
                    acc as int <= ((u32::MAX - d) / 10) as int,
                    0 <= d <= 9,
                    ((u32::MAX - d) / 10) as int == (u32::MAX as int - d as int) / 10,
            ;
        }
        acc = acc * 10 + d;
        i = i + 1;
        proof {
            assert(all_digits(s@.subrange(0, i as int)));
            assert(acc as int == digits_val(s@.subrange(0, i as int)));
        }
    }
    proof {
        assert(s@.subrange(0, n as int) =~= s@);
    }
    Some(acc)
}

} // verus!
