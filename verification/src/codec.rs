//! Broadcast encoding of the alert tracker.
//!
//! Sibling status-line instances exchange their whole tracker as text so a
//! freshly created instance can catch up.  An entry `(k, a)` is written as
//! `k:s:p;` with `k` in decimal, `s` the outcome flag and `p` the blink
//! phase, each `0` or `1`; entries follow each other in list order.

use vstd::prelude::*;

use crate::alerts::AlertTracker;
use crate::alerts::TabAlert;
use crate::alerts::distinct_keys;
use crate::util::all_digits;
use crate::util::dec_spec;
use crate::util::dec_string;
use crate::util::digits_val;

verus! {

/// `1` for a set flag, `0` for a clear one.
pub open spec fn flag_char(b: bool) -> char {
    if b {
        '1'
    } else {
        '0'
    }
}

/// The text of one entry.
pub open spec fn encode_entry_spec(k: usize, a: TabAlert) -> Seq<char> {
    dec_spec(k as int) + seq![':', flag_char(a.success), ':', flag_char(a.alternate_color), ';']
}

/// The text of a whole entry list.
pub open spec fn encode_spec(s: Seq<(usize, TabAlert)>) -> Seq<char>
    decreases s.len(),
{
    if s.len() == 0 {
        Seq::empty()
    } else {
        encode_entry_spec(s[0].0, s[0].1) + encode_spec(s.drop_first())
    }
}

/// The number of leading decimal digits of `p`.
pub open spec fn digit_run(p: Seq<char>) -> int
    decreases p.len(),
{
    if p.len() == 0 || !('0' <= p[0] <= '9') {
        0
    } else {
        1 + digit_run(p.drop_first())
    }
}

/// The first entry of `p`, if `p` starts with a well-formed one.
pub open spec fn parse_entry(p: Seq<char>) -> Option<(usize, TabAlert)> {
    let d = digit_run(p);
    if d >= 1 && d + 5 <= p.len() && digits_val(p.subrange(0, d)) <= usize::MAX as int && p[d]
        == ':' && (p[d + 1] == '0' || p[d + 1] == '1') && p[d + 2] == ':' && (p[d + 3] == '0' || p[d
        + 3] == '1') && p[d + 4] == ';' {
        Some(
            (
                digits_val(p.subrange(0, d)) as usize,
                TabAlert { success: p[d + 1] == '1', alternate_color: p[d + 3] == '1' },
            ),
        )
    } else {
        None
    }
}

/// Some list entry carries key `k`.
pub open spec fn seq_contains_key(s: Seq<(usize, TabAlert)>, k: usize) -> bool {
    exists|j: int| 0 <= j < s.len() && (#[trigger] s[j]).0 == k
}

/// Parse `p` entry by entry onto the accumulator `acc`; reject text with a
/// malformed entry, an oversized key, a repeated key, or trailing garbage.
pub open spec fn decode_loop(p: Seq<char>, acc: Seq<(usize, TabAlert)>) -> Option<
    Seq<(usize, TabAlert)>,
>
    decreases p.len(),
{
    if p.len() == 0 {
        Some(acc)
    } else {
        match parse_entry(p) {
            None => None,
            Some((k, a)) => if seq_contains_key(acc, k) {
                None
            } else {
                decode_loop(p.skip(digit_run(p) + 5), acc.push((k, a)))
            },
        }
    }
}

/// The entry list denoted by `p`, if any.
pub open spec fn decode_spec(p: Seq<char>) -> Option<Seq<(usize, TabAlert)>> {
    decode_loop(p, Seq::empty())
}

/// Serialize the tracker for broadcast to sibling instances.
pub fn encode_alerts(t: &AlertTracker) -> (r: String)
    requires
        t.wf(),
    ensures
        r@ == encode_spec(t.entries_seq()),
{
    proof {
        reveal_strlit(":");
        reveal_strlit(";");
        reveal_strlit("0");
        reveal_strlit("1");
    }
    let ghost s = t.entries_seq();
    let n = t.len();
    let mut out = String::new();
    let mut i: usize = 0;
    while i < n
        invariant
            t.wf(),
            s == t.entries_seq(),
            n == s.len(),
            0 <= i <= n,
            out@ == encode_spec(s.subrange(0, i as int)),
        decreases n - i,
    {
        let (k, a) = t.entry_at(i);
        let num = dec_string(k);
        out.append(num.as_str());
        out.append(":");
        out.append(if a.success { "1" } else { "0" });
        out.append(":");
        out.append(if a.alternate_color { "1" } else { "0" });
        out.append(";");
        i = i + 1;
        proof {
            reveal_strlit(":");
            reveal_strlit(";");
            reveal_strlit("0");
            reveal_strlit("1");
            assert(out@ =~= encode_spec(s.subrange(0, i - 1)) + encode_entry_spec(k, a)) by {
                assert(":"@ =~= seq![':']);
                assert(";"@ =~= seq![';']);
                assert("0"@ =~= seq!['0']);
                assert("1"@ =~= seq!['1']);
            }
            lemma_encode_spec_snoc(s.subrange(0, i as int));
            assert(s.subrange(0, i as int).drop_last() =~= s.subrange(0, i - 1));
            assert(s.subrange(0, i as int).last() == s[i - 1]);
        }
    }
    proof {
        assert(s.subrange(0, n as int) =~= s);
    }
    out
}

/// Splitting the last entry off an encoding.
proof fn lemma_encode_spec_snoc(s: Seq<(usize, TabAlert)>)
    requires
        s.len() >= 1,
    ensures
        encode_spec(s) == encode_spec(s.drop_last()) + encode_entry_spec(s.last().0, s.last().1),
    decreases s.len(),
{
    if s.len() == 1 {
        assert(s.drop_first() =~= Seq::<(usize, TabAlert)>::empty());
        assert(s.drop_last() =~= Seq::<(usize, TabAlert)>::empty());
        assert(encode_spec(s) =~= encode_spec(s.drop_last()) + encode_entry_spec(
            s.last().0,
            s.last().1,
        ));
    } else {
        lemma_encode_spec_snoc(s.drop_first());
        assert(s.drop_first().drop_last() =~= s.drop_last().drop_first());
        assert(s.drop_first().last() == s.last());
        assert(s.drop_last()[0] == s[0]);
        assert(s.drop_last().len() >= 1);
        assert(encode_spec(s) == encode_entry_spec(s[0].0, s[0].1) + encode_spec(s.drop_first()));
        assert(encode_spec(s.drop_last()) == encode_entry_spec(s[0].0, s[0].1) + encode_spec(
            s.drop_last().drop_first(),
        ));
        assert(encode_spec(s) =~= encode_spec(s.drop_last()) + encode_entry_spec(
            s.last().0,
            s.last().1,
        ));
    }
}

/// Deserialize a broadcast payload.  Succeeds exactly on well-formed
/// encodings with pairwise distinct keys, and returns the entry list in
/// payload order.
pub fn decode_alerts(s: &str) -> (r: Option<AlertTracker>)
    ensures
        match r {
            Some(t) => t.wf() && decode_spec(s@) == Some(t.entries_seq()),
            None => decode_spec(s@) is None,
        },
{
    if !s.is_ascii() {
        proof {
            if decode_spec(s@) is Some {
                lemma_decode_ascii(s@, Seq::empty());
            }
        }
        return None;
    }
    proof {
        broadcast use vstd::string::is_ascii_spec_bytes;

    }
    let b = s.as_bytes();
    let n = b.len();
    proof {
        broadcast use vstd::slice::axiom_spec_len;

        assert(b@ =~= Seq::new(s@.len(), |i: int| s@[i] as u8));
    }
    let mut t = AlertTracker::new();
    let mut pos: usize = 0;
    proof {
        assert(s@.skip(0) =~= s@);
    }
    while pos < n
        invariant
            b@ == Seq::new(s@.len(), |j: int| s@[j] as u8),
            forall|j: int| 0 <= j < s@.len() ==> '\0' <= #[trigger] s@[j] <= '\u{7f}',
            n == s@.len(),
            0 <= pos <= n,
            t.wf(),
            decode_spec(s@) == decode_loop(s@.skip(pos as int), t.entries_seq()),
        decreases n - pos,
    {
        let ghost p = s@.skip(pos as int);
        // Scan the digit run of the key.
        let mut j: usize = pos;
        let mut acc: usize = 0;
        let mut overflow = false;
        while j < n && b[j] >= 48 && b[j] <= 57
            invariant
                b@ == Seq::new(s@.len(), |j2: int| s@[j2] as u8),
                forall|j2: int| 0 <= j2 < s@.len() ==> '\0' <= #[trigger] s@[j2] <= '\u{7f}',
                n == s@.len(),
                pos <= j <= n,
                all_digits(s@.subrange(pos as int, j as int)),
                !overflow ==> acc as int == digits_val(s@.subrange(pos as int, j as int)),
                overflow ==> digits_val(s@.subrange(pos as int, j as int)) > usize::MAX as int,
            decreases n - j,
        {
            let c = b[j];
            let d: usize = (c - 48) as usize;
            proof {
                assert(s@[j as int] as u32 == c as u32);
                assert('0' <= s@[j as int] <= '9');
                assert(s@[j as int] as int - '0' as int == d as int);
                assert(s@.subrange(pos as int, j + 1 as int).drop_last() =~= s@.subrange(
                    pos as int,
                    j as int,
                ));
                lemma_digits_val_lower(s@.subrange(pos as int, j as int));
            }
            if overflow || acc > (usize::MAX - d) / 10 {
                proof {
                    if !overflow {
                        assert(acc as int * 10 + d as int > usize::MAX as int)
                            by (nonlinear_arith)
                            requires
                                acc as int > ((usize::MAX - d) / 10) as int,
                                0 <= d <= 9,
                                ((usize::MAX - d) / 10) as int == (usize::MAX as int - d as int)
                                    / 10,
                        ;
                    } else {
                        assert(digits_val(s@.subrange(pos as int, j + 1 as int)) > usize::MAX
                            as int) by (nonlinear_arith)
                            requires
                                digits_val(s@.subrange(pos as int, j + 1 as int)) == digits_val(
                                    s@.subrange(pos as int, j as int),
                                ) * 10 + (s@[j as int] as int - '0' as int),
                                digits_val(s@.subrange(pos as int, j as int)) > usize::MAX as int,
                                s@[j as int] as int - '0' as int >= 0,
                        ;
                    }
                }
                overflow = true;
            } else {
                proof {
                    assert(acc as int * 10 + d as int <= usize::MAX as int) by (nonlinear_arith)
                        requires
                            acc as int <= ((usize::MAX - d) / 10) as int,
                            0 <= d <= 9,
                            ((usize::MAX - d) / 10) as int == (usize::MAX as int - d as int) / 10,
                    ;
                }
                acc = acc * 10 + d;
            }
            j = j + 1;
        }
        let d = j - pos;
        proof {
            if j < n {
                assert((s@[j as int] as u32) < 128);
                assert(b@[j as int] == s@[j as int] as u8);
                assert(!('0' <= s@[j as int] <= '9'));
            }
            lemma_digit_run_of(s@, pos as int, j as int);
            assert(p.subrange(0, d as int) =~= s@.subrange(pos as int, j as int));
        }
        // The entry needs a key and exactly five more characters.
        if d == 0 || n - j < 5 || overflow {
            proof {
                assert(parse_entry(p) is None);
            }
            return None;
        }
        let c1 = b[j];
        let f1 = b[j + 1];
        let c2 = b[j + 2];
        let f2 = b[j + 3];
        let c3 = b[j + 4];
        proof {
            assert(p.subrange(0, d as int) =~= s@.subrange(pos as int, j as int));
            assert(p[d as int] == s@[j as int]);
            assert(p[d + 1] == s@[j + 1]);
            assert(p[d + 2] == s@[j + 2]);
            assert(p[d + 3] == s@[j + 3]);
            assert(p[d + 4] == s@[j + 4]);
            assert(s@[j as int] as u32 == c1 as u32);
            assert(s@[j + 1] as u32 == f1 as u32);
            assert(s@[j + 2] as u32 == c2 as u32);
            assert(s@[j + 3] as u32 == f2 as u32);
            assert(s@[j + 4] as u32 == c3 as u32);
        }
        if !(c1 == 58 && c2 == 58 && c3 == 59 && (f1 == 48 || f1 == 49) && (f2 == 48 || f2
            == 49)) {
            return None;
        }
        let k = acc;
        let a = TabAlert { success: f1 == 49, alternate_color: f2 == 49 };
        proof {
            assert(parse_entry(p) == Some((k, a)));
        }
        match t.get(k) {
            Some(_) => {
                proof {
                    t.lemma_contains(k);
                    assert(seq_contains_key(t.entries_seq(), k));
                }
                return None;
            },
            None => {
                proof {
                    t.lemma_contains(k);
                    assert(!seq_contains_key(t.entries_seq(), k));
                }
                t.insert(k, a);
            },
        }
        pos = j + 5;
        proof {
            assert(s@.skip(pos as int) =~= p.skip(d + 5));
        }
    }
    proof {
        assert(s@.skip(n as int) =~= Seq::<char>::empty());
    }
    Some(t)
}

/// Law: a broadcast payload decodes back to exactly the entry list that
/// produced it, so a catching-up instance adopts the sender's tracker
/// verbatim.
pub proof fn lemma_round_trip(s: Seq<(usize, TabAlert)>)
    requires
        distinct_keys(s),
    ensures
        decode_spec(encode_spec(s)) == Some(s),
{
    assert(Seq::<(usize, TabAlert)>::empty() + s =~= s);
    lemma_decode_loop_round(s, Seq::empty());
}

proof fn lemma_decode_loop_round(s: Seq<(usize, TabAlert)>, acc: Seq<(usize, TabAlert)>)
    requires
        distinct_keys(acc + s),
    ensures
        decode_loop(encode_spec(s), acc) == Some(acc + s),
    decreases s.len(),
{
    if s.len() == 0 {
        assert(encode_spec(s) =~= Seq::<char>::empty());
        assert(acc + s =~= acc);
    } else {
        let k = s[0].0;
        let a = s[0].1;
        let dec = dec_spec(k as int);
        let tail5 = seq![':', flag_char(a.success), ':', flag_char(a.alternate_color), ';'];
        let rest = encode_spec(s.drop_first());
        let p = encode_spec(s);
        crate::util::lemma_dec_spec_digits(k as int);
        crate::util::lemma_dec_spec_val(k as int);
        let d = dec.len() as int;
        assert(p =~= dec + (tail5 + rest));
        assert(p.subrange(0, d) =~= dec);
        assert(p[d] == ':' && p[d + 1] == flag_char(a.success) && p[d + 2] == ':' && p[d + 3]
            == flag_char(a.alternate_color) && p[d + 4] == ';');
        assert(p.skip(0) =~= p);
        lemma_digit_run_of(p, 0, d);
        assert(parse_entry(p) == Some((k, a)));
        assert(!seq_contains_key(acc, k)) by {
            if seq_contains_key(acc, k) {
                let j = choose|j: int| 0 <= j < acc.len() && (#[trigger] acc[j]).0 == k;
                assert((acc + s)[j] == acc[j]);
                assert((acc + s)[acc.len() as int] == s[0]);
            }
        }
        assert(p.skip(d + 5) =~= rest);
        assert(acc.push((k, a)) + s.drop_first() =~= acc + s);
        lemma_decode_loop_round(s.drop_first(), acc.push((k, a)));
    }
}

/// A digit sequence denotes a non-negative number.
proof fn lemma_digits_val_lower(v: Seq<char>)
    requires
        all_digits(v),
    ensures
        digits_val(v) >= 0,
    decreases v.len(),
{
    if v.len() > 0 {
        assert(forall|i: int| 0 <= i < v.drop_last().len() ==> v.drop_last()[i] == v[i]);
        lemma_digits_val_lower(v.drop_last());
    }
}

/// The digit run of `s.skip(from)` ends exactly at `to` when the characters
/// in between are digits and the one at `to`, if any, is not.
proof fn lemma_digit_run_of(s: Seq<char>, from: int, to: int)
    requires
        0 <= from <= to <= s.len(),
        all_digits(s.subrange(from, to)),
        to < s.len() ==> !('0' <= s[to] <= '9'),
    ensures
        digit_run(s.skip(from)) == to - from,
    decreases to - from,
{
    let p = s.skip(from);
    if from == to {
        if p.len() > 0 {
            assert(p[0] == s[to]);
        }
    } else {
        assert(p[0] == s[from]);
        assert(s.subrange(from, to)[0] == s[from]);
        assert('0' <= p[0] <= '9');
        assert(p.drop_first() =~= s.skip(from + 1));
        assert(forall|i: int| 0 <= i < to - from - 1 ==> #[trigger] s.subrange(from + 1, to)[i]
            == s.subrange(from, to)[i + 1]);
        lemma_digit_run_of(s, from + 1, to);
    }
}

/// Only ASCII text decodes successfully.
proof fn lemma_decode_ascii(p: Seq<char>, acc: Seq<(usize, TabAlert)>)
    requires
        decode_loop(p, acc) is Some,
    ensures
        vstd::utf8::is_ascii_chars(p),
    decreases p.len(),
{
    if p.len() == 0 {
    } else {
        let d = digit_run(p);
        let (k, a) = parse_entry(p)->Some_0;
        lemma_digit_run_digits(p);
        lemma_decode_ascii(p.skip(d + 5), acc.push((k, a)));
        assert forall|i: int| 0 <= i < p.len() implies '\0' <= #[trigger] p[i] <= '\u{7f}' by {
            if i < d {
                assert('0' <= p[i] <= '9');
            } else if i < d + 5 {
                assert(p[d] == ':' && p[d + 2] == ':' && p[d + 4] == ';');
                assert(p[d + 1] == '0' || p[d + 1] == '1');
                assert(p[d + 3] == '0' || p[d + 3] == '1');
            } else {
                assert(p.skip(d + 5)[i - d - 5] == p[i]);
            }
        }
    }
}

/// The characters inside a digit run are digits.
proof fn lemma_digit_run_digits(p: Seq<char>)
    ensures
        0 <= digit_run(p) <= p.len(),
        forall|i: int| 0 <= i < digit_run(p) ==> '0' <= #[trigger] p[i] <= '9',
    decreases p.len(),
{
    if p.len() == 0 || !('0' <= p[0] <= '9') {
    } else {
        lemma_digit_run_digits(p.drop_first());
        assert forall|i: int| 0 <= i < digit_run(p) implies '0' <= #[trigger] p[i] <= '9' by {
            if i > 0 {
                assert(p.drop_first()[i - 1] == p[i]);
            }
        }
    }
}

} // verus!
