//! Verified parser for canonical server frames.
//!
//! [`decode_server`] accepts exactly the canonical frames defined in
//! [`crate::codec`]: it is proved sound (an accepted frame is the
//! canonical encoding of the returned message) and complete (a
//! rejected frame is the canonical encoding of no message at all).
//!
//! Each sub-parser carries the same two-sided contract through a
//! `..._at` predicate: on success the recognized value's encoding sits
//! exactly on the consumed range and is the only value whose encoding
//! does; on failure no value's encoding sits at the position.

use vstd::prelude::*;

use crate::codec::chars_to_string;
use crate::codec::str_to_chars;
use crate::codec::dec;
use crate::codec::esc;
use crate::codec::esc_char;
use crate::codec::hex_digit;
use crate::codec::is_ctl;
use crate::codec::is_digit;
use crate::codec::jcell;
use crate::codec::jcells;
use crate::codec::jcoord;
use crate::codec::jhist;
use crate::codec::jnum;
use crate::codec::jplayer;
use crate::codec::jstr;
use crate::codec::jtoken;
use crate::codec::spec_server_frame;
use crate::codec::DecodeError;
use crate::protocol::history_view;
use crate::protocol::Cell;
use crate::protocol::CellV;
use crate::protocol::Coord;
use crate::protocol::Player;
use crate::protocol::PlayerV;
use crate::protocol::ServerMessage;
use crate::protocol::ServerMessageV;
use crate::protocol::Token;
use crate::protocol::TokenV;

verus! {

/// A fixed literal occupies `[i, i + lit.len())` in `s`.
pub open spec fn lit_at(s: Seq<char>, i: int, lit: Seq<char>) -> bool {
    &&& 0 <= i
    &&& i + lit.len() <= s.len()
    &&& s.subrange(i, i + lit.len()) == lit
}

/// The canonical string for `v` occupies `[i, j)` in `s`.
pub open spec fn str_at(s: Seq<char>, i: int, v: Seq<char>, j: int) -> bool {
    &&& 0 <= i
    &&& j == i + jstr(v).len()
    &&& j <= s.len()
    &&& s.subrange(i, j) == jstr(v)
}

/// The canonical decimal for `n` occupies `[i, j)` in `s`, and is not
/// followed by another digit.
pub open spec fn num_at(s: Seq<char>, i: int, n: u32, j: int) -> bool {
    &&& 0 <= i
    &&& j == i + dec(n as nat).len()
    &&& j <= s.len()
    &&& s.subrange(i, j) == dec(n as nat)
    &&& (j == s.len() || !is_digit(s[j]))
}

/// Escaping distributes over concatenation.
pub proof fn lemma_esc_concat(a: Seq<char>, b: Seq<char>)
    ensures
        esc(a + b) == esc(a) + esc(b),
    decreases b.len(),
{
    if b.len() == 0 {
        assert(a + b =~= a);
        assert(esc(a) + esc(b) =~= esc(a));
    } else {
        lemma_esc_concat(a, b.drop_last());
        assert((a + b).drop_last() =~= a + b.drop_last());
        assert((a + b).last() == b.last());
        assert(esc(a + b) == esc(a + b.drop_last()) + esc_char(b.last()));
        assert(esc(a) + esc(b) =~= esc(a) + esc(b.drop_last()) + esc_char(b.last()));
        assert(esc(a + b) =~= esc(a) + esc(b));
    }
}

/// Escaping never shortens a sequence.
pub proof fn lemma_esc_len(a: Seq<char>)
    ensures
        esc(a).len() >= a.len(),
    decreases a.len(),
{
    if a.len() > 0 {
        lemma_esc_len(a.drop_last());
    }
}

/// The escaped form of `v` splits at any position `n` of `v`.
pub proof fn lemma_esc_split(v: Seq<char>, n: int)
    requires
        0 <= n < v.len(),
    ensures
        esc(v) == esc(v.take(n)) + esc_char(v[n]) + esc(v.skip(n + 1)),
{
    assert(v =~= (v.take(n) + seq![v[n]]) + v.skip(n + 1));
    lemma_esc_concat(v.take(n) + seq![v[n]], v.skip(n + 1));
    lemma_esc_concat(v.take(n), seq![v[n]]);
    assert(seq![v[n]].drop_last() =~= Seq::<char>::empty());
    assert(esc(seq![v[n]]) == esc(Seq::<char>::empty()) + esc_char(v[n]));
    assert(esc(seq![v[n]]) =~= esc_char(v[n]));
    assert(esc(v) =~= esc(v.take(n)) + esc_char(v[n]) + esc(v.skip(n + 1)));
}

/// What the input must look like at the frontier of a partly parsed
/// string: if the whole of `v2` is already consumed, the closing quote
/// follows; otherwise the escape code of the next character of `v2`
/// follows.
proof fn lemma_str_progress(s: Seq<char>, i: int, k: int, acc: Seq<char>, v2: Seq<char>, j2: int)
    requires
        str_at(s, i, v2, j2),
        esc(acc) == s.subrange(i + 1, k),
        acc.len() <= v2.len(),
        v2.take(acc.len() as int) == acc,
        i + 1 <= k <= s.len(),
    ensures
        v2 == acc ==> j2 == k + 1 && k < s.len() && s[k] == '"',
        v2 != acc ==> acc.len() < v2.len() && k + esc_char(v2[acc.len() as int]).len() < j2
            && (forall|m: int|
            0 <= m < esc_char(v2[acc.len() as int]).len() ==> s[k + m] == esc_char(
                v2[acc.len() as int],
            )[m]),
{
    let e = jstr(v2);
    assert(e == seq!['"'] + esc(v2) + seq!['"']);
    if v2 == acc {
        assert(esc(v2).len() == k - i - 1);
        assert(j2 == k + 1);
        assert(s[k] == s.subrange(i, j2)[k - i]);
        assert(e[k - i] == '"');
    } else {
        assert(acc.len() < v2.len()) by {
            if acc.len() == v2.len() {
                assert(v2.take(acc.len() as int) =~= v2);
            }
        }
        let n = acc.len() as int;
        let c0 = v2[n];
        lemma_esc_split(v2, n);
        assert(esc(v2.take(n)) == esc(acc));
        lemma_esc_len(v2.skip(n + 1));
        assert(esc(v2).len() >= esc(acc).len() + esc_char(c0).len());
        assert(j2 == i + 2 + esc(v2).len());
        assert(k + esc_char(c0).len() < j2);
        assert forall|m: int| 0 <= m < esc_char(c0).len() implies s[k + m] == esc_char(c0)[m] by {
            assert(s[k + m] == s.subrange(i, j2)[k + m - i]);
            assert(e[k + m - i] == esc(v2)[k + m - i - 1]);
            assert(esc(v2)[k - i - 1 + m] == (esc(acc) + esc_char(c0) + esc(v2.skip(n + 1)))[k - i
                - 1 + m]);
        }
    }
}

/// Recognizes one fixed literal at `i`.
fn eat_lit(s: &Vec<char>, i: usize, lit: &str) -> (r: Option<usize>)
    requires
        i <= s@.len(),
    ensures
        (match r {
            Some(j) => i + lit@.len() == j && lit_at(s@, i as int, lit@),
            None => !lit_at(s@, i as int, lit@),
        }),
{
    let n = lit.unicode_len();
    if n > s.len() - i {
        return None;
    }
    let slen = s.len();
    let mut m: usize = 0;
    while m < n
        invariant
            n == lit@.len(),
            m <= n,
            slen == s@.len(),
            i + n <= slen,
            forall|t: int| 0 <= t < m ==> s@[i + t] == lit@[t],
        decreases n - m,
    {
        if s[i + m] != lit.get_char(m) {
            proof {
                assert(!lit_at(s@, i as int, lit@)) by {
                    if lit_at(s@, i as int, lit@) {
                        assert(s@.subrange(i as int, i + lit@.len())[m as int] == lit@[m as int]);
                    }
                }
            }
            return None;
        }
        m += 1;
    }
    proof {
        assert(s@.subrange(i as int, i + lit@.len()) =~= lit@);
    }
    Some(i + n)
}

/// The numeric value of a digit sequence, most significant first.
pub open spec fn val_of(d: Seq<char>) -> nat
    decreases d.len(),
{
    if d.len() == 0 {
        0
    } else {
        val_of(d.drop_last()) * 10 + (((d.last() as u32) - 48) as nat)
    }
}

/// The canonical decimal of `n` is nonempty, all digits, and starts
/// with `'0'` only for zero itself; its value is `n`.
proof fn lemma_dec_shape(n: nat)
    ensures
        dec(n).len() >= 1,
        forall|m: int| 0 <= m < dec(n).len() ==> is_digit(#[trigger] dec(n)[m]),
        dec(n)[0] == '0' ==> n == 0,
        val_of(dec(n)) == n,
    decreases n,
{
    if n < 10 {
        assert(dec(n) =~= seq![hex_digit(n as u32)]);
        assert(dec(n).drop_last() =~= Seq::<char>::empty());
        assert(val_of(Seq::<char>::empty()) == 0);
    } else {
        lemma_dec_shape(n / 10);
        let a = dec(n / 10);
        let x = hex_digit((n % 10) as u32);
        assert(dec(n) == a + seq![x]);
        assert forall|m: int| 0 <= m < dec(n).len() implies is_digit(#[trigger] dec(n)[m]) by {
            if m < a.len() {
                assert(dec(n)[m] == a[m]);
            } else {
                assert(dec(n)[m] == x);
            }
        }
        assert(dec(n)[0] == a[0]);
        assert(dec(n).drop_last() =~= a);
        assert(dec(n).last() == x);
        assert(val_of(dec(n)) == (n / 10) * 10 + n % 10);
    }
}

/// Two characters with one code point are one character.
proof fn lemma_char_code_eq(c1: char, c2: char)
    requires
        c1 as u32 == c2 as u32,
    ensures
        c1 == c2,
{
}

/// The code point of a decimal digit character.
proof fn lemma_hex_digit_code(v: nat)
    requires
        v < 10,
    ensures
        hex_digit(v as u32) as u32 == 48 + v,
{
}

/// A nonempty digit sequence without a leading zero is the canonical
/// decimal of its own value.
proof fn lemma_dec_canon(d: Seq<char>)
    requires
        d.len() >= 1,
        forall|m: int| 0 <= m < d.len() ==> is_digit(#[trigger] d[m]),
        d.len() > 1 ==> d[0] != '0',
    ensures
        d == dec(val_of(d)),
    decreases d.len(),
{
    if d.len() == 1 {
        let v = val_of(d);
        assert(d.drop_last() =~= Seq::<char>::empty());
        assert(val_of(Seq::<char>::empty()) == 0);
        let c: char = d[0];
        assert(v == ((c as u32) - 48) as nat);
        assert(v < 10);
        assert(dec(v) == seq![hex_digit(v as u32)]);
        lemma_hex_digit_code(v);
        assert(c as u32 == 48 + v);
        lemma_char_code_eq(hex_digit(v as u32), c);
        assert(d =~= dec(v));
    } else {
        let a = d.drop_last();
        assert(forall|m: int| 0 <= m < a.len() ==> a[m] == d[m]);
        assert(forall|m: int| 0 <= m < a.len() ==> is_digit(#[trigger] a[m]));
        assert(a[0] == d[0]);
        lemma_dec_canon(a);
        lemma_val_pos(a);
        let v = val_of(d);
        let cl: char = d.last();
        assert(cl == d[d.len() - 1]);
        assert(is_digit(d[d.len() - 1]));
        assert(v == val_of(a) * 10 + (((cl as u32) - 48) as nat));
        assert(v >= 10);
        assert(v / 10 == val_of(a) && v % 10 == (((cl as u32) - 48) as nat)) by {
            assert((((cl as u32) - 48) as nat) < 10);
        }
        assert(dec(v) == dec(v / 10) + seq![hex_digit((v % 10) as u32)]);
        lemma_hex_digit_code(v % 10);
        assert(cl as u32 == 48 + (v % 10));
        lemma_char_code_eq(hex_digit((v % 10) as u32), cl);
        assert(d =~= dec(v));
    }
}

/// A digit sequence without a leading zero has a positive value.
proof fn lemma_val_pos(d: Seq<char>)
    requires
        d.len() >= 1,
        forall|m: int| 0 <= m < d.len() ==> is_digit(#[trigger] d[m]),
        d[0] != '0',
    ensures
        val_of(d) >= 1,
    decreases d.len(),
{
    if d.len() == 1 {
        let c: char = d[0];
        assert(is_digit(d[0]));
        assert(d.drop_last() =~= Seq::<char>::empty());
        assert(val_of(Seq::<char>::empty()) == 0);
        assert(d.last() == d[0]);
        assert(val_of(d) == ((c as u32) - 48) as nat);
        if c as u32 == 48 {
            lemma_char_code_eq(c, '0');
        }
        assert(c as u32 >= 49);
    } else {
        let a = d.drop_last();
        assert(forall|m: int| 0 <= m < a.len() ==> a[m] == d[m]);
        assert(a[0] == d[0]);
        assert(forall|m: int| 0 <= m < a.len() ==> is_digit(#[trigger] a[m]));
        lemma_val_pos(a);
        assert(val_of(d) == val_of(a) * 10 + (((d.last() as u32) - 48) as nat));
        assert(val_of(a) >= 1);
    }
}









/// A prefix of a digit sequence is worth no more than the whole.
proof fn lemma_val_prefix(d: Seq<char>, m: int)
    requires
        0 <= m <= d.len(),
    ensures
        val_of(d.take(m)) <= val_of(d),
    decreases d.len() - m,
{
    if m < d.len() {
        lemma_val_prefix(d, m + 1);
        let t = d.take(m + 1);
        assert(t.drop_last() =~= d.take(m));
        assert(val_of(d.take(m)) <= val_of(t));
    } else {
        assert(d.take(m) =~= d);
    }
}

/// Recognizes a canonical decimal number at `i`.
fn parse_u32(s: &Vec<char>, i: usize) -> (r: Option<(u32, usize)>)
    requires
        i <= s@.len(),
    ensures
        (match r {
            Some(p) => num_at(s@, i as int, p.0, p.1 as int) && p.1 <= s@.len() && (forall|
                n2: u32,
                j2: int,
            | num_at(s@, i as int, n2, j2) ==> n2 == p.0 && j2 == p.1),
            None => forall|n2: u32, j2: int| !num_at(s@, i as int, n2, j2),
        }),
{
    if i == s.len() || !(48 <= s[i] as u32 && s[i] as u32 <= 57) {
        proof {
            assert forall|n2: u32, j2: int| !num_at(s@, i as int, n2, j2) by {
                if num_at(s@, i as int, n2, j2) {
                    lemma_dec_shape(n2 as nat);
                    assert(s@[i as int] == s@.subrange(i as int, j2)[0]);
                    assert(is_digit(s@[i as int]));
                }
            }
        }
        return None;
    }
    if s[i] == '0' {
        if i + 1 < s.len() && 48 <= s[i + 1] as u32 && s[i + 1] as u32 <= 57 {
            proof {
                assert forall|n2: u32, j2: int| !num_at(s@, i as int, n2, j2) by {
                    if num_at(s@, i as int, n2, j2) {
                        lemma_dec_shape(n2 as nat);
                        assert(dec(n2 as nat)[0] == s@.subrange(i as int, j2)[0]);
                        assert(n2 == 0);
                        assert(dec(0nat) =~= seq!['0']);
                        assert(j2 == i + 1);
                        assert(is_digit(s@[j2]));
                    }
                }
            }
            return None;
        }
        proof {
            assert(dec(0nat) =~= seq!['0']);
            assert(s@.subrange(i as int, i as int + 1) =~= seq!['0']);
            assert(num_at(s@, i as int, 0u32, i as int + 1));
            assert forall|n2: u32, j2: int| num_at(s@, i as int, n2, j2) implies n2 == 0u32 && j2
                == i + 1 by {
                lemma_dec_shape(n2 as nat);
                assert(dec(n2 as nat)[0] == s@.subrange(i as int, j2)[0]);
                assert(n2 == 0);
                assert(dec(0nat) =~= seq!['0']);
            }
        }
        return Some((0, i + 1));
    }
    let mut k: usize = i + 1;
    let mut acc: u64 = (s[i] as u32 - 48) as u64;
    proof {
        assert(s@.subrange(i as int, i as int + 1) =~= seq![s@[i as int]]);
        assert(s@.subrange(i as int, i as int + 1).drop_last() =~= Seq::<char>::empty());
        assert(val_of(Seq::<char>::empty()) == 0);
        assert(acc == val_of(s@.subrange(i as int, k as int)));
    }
    while k < s.len() && 48 <= s[k] as u32 && s[k] as u32 <= 57
        invariant
            i < k <= s@.len(),
            acc == val_of(s@.subrange(i as int, k as int)),
            acc <= u32::MAX,
            forall|t: int| i <= t < k ==> is_digit(#[trigger] s@[t]),
            s@[i as int] != '0',
            is_digit(s@[i as int]),
        decreases s@.len() - k,
    {
        let d = s[k] as u32 - 48;
        let next = acc * 10 + d as u64;
        proof {
            let run = s@.subrange(i as int, k as int + 1);
            assert(run.drop_last() =~= s@.subrange(i as int, k as int));
            assert(next == val_of(run));
        }
        if next > u32::MAX as u64 {
            proof {
                assert forall|n2: u32, j2: int| !num_at(s@, i as int, n2, j2) by {
                    if num_at(s@, i as int, n2, j2) {
                        lemma_dec_shape(n2 as nat);
                        let e = dec(n2 as nat);
                        assert(j2 > k) by {
                            if j2 <= k {
                                assert(is_digit(s@[j2]));
                            }
                        }
                        let whole = s@.subrange(i as int, j2);
                        assert(whole.take(k + 1 - i) =~= s@.subrange(i as int, k as int + 1));
                        lemma_val_prefix(whole, k + 1 - i);
                        assert(val_of(whole) == n2 as nat);
                        assert(n2 as nat >= next as nat);
                    }
                }
            }
            return None;
        }
        acc = next;
        k += 1;
    }
    proof {
        let run = s@.subrange(i as int, k as int);
        assert(run[0] == s@[i as int]);
        lemma_dec_canon(run);
        assert(run == dec(acc as nat));
        assert(num_at(s@, i as int, acc as u32, k as int));
        assert forall|n2: u32, j2: int| num_at(s@, i as int, n2, j2) implies n2 == acc as u32 && j2
            == k by {
            lemma_dec_shape(n2 as nat);
            let e = dec(n2 as nat);
            assert(j2 == k) by {
                if j2 < k {
                    assert(is_digit(s@[j2]));
                }
                if j2 > k {
                    assert(e[k - i] == s@.subrange(i as int, j2)[k - i]);
                    assert(is_digit(s@[k as int]));
                }
            }
            assert(s@.subrange(i as int, j2) == run);
            assert(val_of(e) == n2 as nat);
        }
    }
    Some((acc as u32, k))
}

/// The control character with the given code point.
fn ctl_char(v: u32) -> (c: char)
    requires
        v < 32,
    ensures
        c as u32 == v,
{
    match v {
        0 => '\u{00}',
        1 => '\u{01}',
        2 => '\u{02}',
        3 => '\u{03}',
        4 => '\u{04}',
        5 => '\u{05}',
        6 => '\u{06}',
        7 => '\u{07}',
        8 => '\u{08}',
        9 => '\u{09}',
        10 => '\u{0a}',
        11 => '\u{0b}',
        12 => '\u{0c}',
        13 => '\u{0d}',
        14 => '\u{0e}',
        15 => '\u{0f}',
        16 => '\u{10}',
        17 => '\u{11}',
        18 => '\u{12}',
        19 => '\u{13}',
        20 => '\u{14}',
        21 => '\u{15}',
        22 => '\u{16}',
        23 => '\u{17}',
        24 => '\u{18}',
        25 => '\u{19}',
        26 => '\u{1a}',
        27 => '\u{1b}',
        28 => '\u{1c}',
        29 => '\u{1d}',
        30 => '\u{1e}',
        _ => '\u{1f}',
    }
}

/// The value of a lowercase hex digit character, if it is one.
fn hex_val(c: char) -> (r: Option<u32>)
    ensures
        (match r {
            Some(v) => v < 16 && hex_digit(v) == c,
            None => forall|v: u32| v < 16 ==> hex_digit(v) != c,
        }),
{
    match c {
        '0' => Some(0),
        '1' => Some(1),
        '2' => Some(2),
        '3' => Some(3),
        '4' => Some(4),
        '5' => Some(5),
        '6' => Some(6),
        '7' => Some(7),
        '8' => Some(8),
        '9' => Some(9),
        'a' => Some(10),
        'b' => Some(11),
        'c' => Some(12),
        'd' => Some(13),
        'e' => Some(14),
        'f' => Some(15),
        _ => None,
    }
}

/// Hex digits are distinct.
proof fn lemma_hex_inj(a: u32, b: u32)
    requires
        a < 16,
        b < 16,
        hex_digit(a) == hex_digit(b),
    ensures
        a == b,
{
}

/// Recognizes a canonical JSON string at `i`.
fn parse_string(s: &Vec<char>, i: usize) -> (r: Option<(Vec<char>, usize)>)
    requires
        i <= s@.len(),
    ensures
        (match r {
            Some(p) => str_at(s@, i as int, p.0@, p.1 as int) && p.1 <= s@.len() && (forall|
                v2: Seq<char>,
                j2: int,
            | str_at(s@, i as int, v2, j2) ==> v2 == p.0@ && j2 == p.1),
            None => forall|v2: Seq<char>, j2: int| !str_at(s@, i as int, v2, j2),
        }),
{
    let slen = s.len();
    if i == slen || s[i] != '"' {
        proof {
            assert forall|v2: Seq<char>, j2: int| !str_at(s@, i as int, v2, j2) by {
                if str_at(s@, i as int, v2, j2) {
                    assert(s@[i as int] == s@.subrange(i as int, j2)[0]);
                    assert(jstr(v2)[0] == '"');
                }
            }
        }
        return None;
    }
    let mut acc: Vec<char> = Vec::new();
    let mut k: usize = i + 1;
    proof {
        assert(esc(acc@) =~= s@.subrange(i as int + 1, k as int));
        assert(forall|v2: Seq<char>, j2: int|
            str_at(s@, i as int, v2, j2) ==> acc@.len() <= v2.len() && v2.take(acc@.len() as int)
                =~= acc@);
    }
    loop
        invariant
            i + 1 <= k <= slen,
            slen == s@.len(),
            i < slen,
            s@[i as int] == '"',
            esc(acc@) == s@.subrange(i as int + 1, k as int),
            forall|v2: Seq<char>, j2: int|
                str_at(s@, i as int, v2, j2) ==> acc@.len() <= v2.len() && v2.take(
                    acc@.len() as int,
                ) == acc@,
        decreases slen - k,
    {
        if k == slen {
            proof {
                assert forall|v2: Seq<char>, j2: int| !str_at(s@, i as int, v2, j2) by {
                    if str_at(s@, i as int, v2, j2) {
                        lemma_str_progress(s@, i as int, k as int, acc@, v2, j2);
                    }
                }
            }
            return None;
        }
        let c = s[k];
        if c == '"' {
            proof {
                assert(s@.subrange(i as int, k as int + 1) =~= seq!['"'] + esc(acc@) + seq!['"']);
                assert(str_at(s@, i as int, acc@, k as int + 1));
                assert forall|v2: Seq<char>, j2: int|
                    str_at(s@, i as int, v2, j2) implies v2 == acc@ && j2 == k + 1 by {
                    lemma_str_progress(s@, i as int, k as int, acc@, v2, j2);
                    if v2 != acc@ {
                        let c0 = v2[acc@.len() as int];
                        assert(s@[k as int] == esc_char(c0)[0]);
                        assert(esc_char(c0)[0] != '"') by {
                            if c0 == '"' || c0 == '\\' || is_ctl(c0) {
                                assert(esc_char(c0)[0] == '\\');
                            } else {
                                assert(esc_char(c0)[0] == c0);
                            }
                        }
                    }
                }
            }
            return Some((acc, k + 1));
        } else if c == '\\' {
            let ghost acc0 = acc@;
            proof {
                assert forall|v2: Seq<char>, j2: int|
                    str_at(s@, i as int, v2, j2) implies v2 != acc0 && esc_char(
                    v2[acc0.len() as int],
                )[0] == '\\' by {
                    lemma_str_progress(s@, i as int, k as int, acc0, v2, j2);
                }
            }
            if k + 1 == slen {
                proof {
                    assert forall|v2: Seq<char>, j2: int| !str_at(s@, i as int, v2, j2) by {
                        if str_at(s@, i as int, v2, j2) {
                            lemma_str_progress(s@, i as int, k as int, acc0, v2, j2);
                            let c0 = v2[acc0.len() as int];
                            assert(esc_char(c0).len() >= 2) by {
                                if !(c0 == '"' || c0 == '\\' || is_ctl(c0)) {
                                    assert(esc_char(c0)[0] == c0);
                                }
                            }
                        }
                    }
                }
                return None;
            }
            let c2 = s[k + 1];
            if c2 == '"' || c2 == '\\' {
                let d = if c2 == '"' {
                    '"'
                } else {
                    '\\'
                };
                proof {
                    assert(esc_char(d) =~= seq![s@[k as int], s@[k as int + 1]]);
                    assert forall|v2: Seq<char>, j2: int|
                        str_at(s@, i as int, v2, j2) implies acc0.push(d).len() <= v2.len()
                        && v2.take(acc0.push(d).len() as int) == acc0.push(d) by {
                        lemma_str_progress(s@, i as int, k as int, acc0, v2, j2);
                        let c0 = v2[acc0.len() as int];
                        assert(esc_char(c0)[0] == '\\' && esc_char(c0).len() >= 2 && esc_char(
                            c0,
                        )[1] == s@[k as int + 1]) by {
                            if !(c0 == '"' || c0 == '\\' || is_ctl(c0)) {
                                assert(esc_char(c0)[0] == c0);
                            }
                        }
                        assert(c0 == d) by {
                            if is_ctl(c0) {
                                assert(esc_char(c0)[1] == 'u');
                            }
                        }
                        assert(v2.take(acc0.len() as int + 1) =~= v2.take(
                            acc0.len() as int,
                        ).push(c0));
                    }
                }
                acc.push(d);
                k += 2;
                proof {
                    assert(acc@.drop_last() =~= acc0);
                    assert(acc@.last() == d);
                    assert(esc(acc@) == esc(acc0) + esc_char(d));
                    assert(esc(acc@) =~= s@.subrange(i as int + 1, k as int));
                }
            } else if c2 == 'u' {
                if slen - k <= 6 {
                    proof {
                        assert forall|v2: Seq<char>, j2: int| !str_at(s@, i as int, v2, j2) by {
                            if str_at(s@, i as int, v2, j2) {
                                lemma_str_progress(s@, i as int, k as int, acc0, v2, j2);
                                let c0 = v2[acc0.len() as int];
                                assert(is_ctl(c0)) by {
                                    if !(c0 == '"' || c0 == '\\' || is_ctl(c0)) {
                                        assert(esc_char(c0)[0] == c0);
                                    }
                                    if c0 == '"' || c0 == '\\' {
                                        assert(esc_char(c0)[1] == s@[k as int + 1]);
                                    }
                                }
                                assert(esc_char(c0).len() == 6);
                            }
                        }
                    }
                    return None;
                }
                proof {
                    assert forall|v2: Seq<char>, j2: int|
                        str_at(s@, i as int, v2, j2) implies is_ctl(v2[acc0.len() as int]) && (
                    forall|m: int|
                        0 <= m < 6 ==> s@[k + m] == esc_char(v2[acc0.len() as int])[m]) by {
                        lemma_str_progress(s@, i as int, k as int, acc0, v2, j2);
                        let c0 = v2[acc0.len() as int];
                        assert(is_ctl(c0)) by {
                            if !(c0 == '"' || c0 == '\\' || is_ctl(c0)) {
                                assert(esc_char(c0)[0] == c0);
                            }
                            if c0 == '"' || c0 == '\\' {
                                assert(esc_char(c0)[1] == s@[k as int + 1]);
                            }
                        }
                    }
                }
                if s[k + 2] != '0' || s[k + 3] != '0' {
                    proof {
                        assert forall|v2: Seq<char>, j2: int| !str_at(s@, i as int, v2, j2) by {
                            if str_at(s@, i as int, v2, j2) {
                                let c0 = v2[acc0.len() as int];
                                assert(esc_char(c0)[2] == '0' && esc_char(c0)[3] == '0');
                            }
                        }
                    }
                    return None;
                }
                let c4 = s[k + 4];
                let v1: u32 = if c4 == '0' {
                    0
                } else if c4 == '1' {
                    1
                } else {
                    proof {
                        assert forall|v2: Seq<char>, j2: int| !str_at(s@, i as int, v2, j2) by {
                            if str_at(s@, i as int, v2, j2) {
                                let c0 = v2[acc0.len() as int];
                                let cv = c0 as u32;
                                assert(esc_char(c0)[4] == hex_digit(cv / 16));
                                assert(cv / 16 == 0 || cv / 16 == 1);
                            }
                        }
                    }
                    return None;
                };
                let v2d = match hex_val(s[k + 5]) {
                    Some(v) => v,
                    None => {
                        proof {
                            assert forall|v2: Seq<char>, j2: int| !str_at(s@, i as int, v2, j2) by {
                                if str_at(s@, i as int, v2, j2) {
                                    let c0 = v2[acc0.len() as int];
                                    let cv = c0 as u32;
                                    assert(esc_char(c0)[5] == hex_digit(cv % 16));
                                    assert(cv % 16 < 16);
                                }
                            }
                        }
                        return None;
                    },
                };
                let d = ctl_char(16 * v1 + v2d);
                proof {
                    let cvd = (16 * v1 + v2d) as u32;
                    assert(is_ctl(d));
                    assert(cvd / 16 == v1 && cvd % 16 == v2d);
                    assert(esc_char(d) == seq![
                        '\\',
                        'u',
                        '0',
                        '0',
                        hex_digit(v1),
                        hex_digit(v2d),
                    ]);
                    assert(hex_digit(v1) == s@[k as int + 4]);
                    assert(esc_char(d) =~= seq![
                        s@[k as int],
                        s@[k as int + 1],
                        s@[k as int + 2],
                        s@[k as int + 3],
                        s@[k as int + 4],
                        s@[k as int + 5],
                    ]);
                    assert forall|v2: Seq<char>, j2: int|
                        str_at(s@, i as int, v2, j2) implies acc0.push(d).len() <= v2.len()
                        && v2.take(acc0.push(d).len() as int) == acc0.push(d) by {
                        lemma_str_progress(s@, i as int, k as int, acc0, v2, j2);
                        let c0 = v2[acc0.len() as int];
                        let cv = c0 as u32;
                        assert(is_ctl(c0));
                        assert(esc_char(c0) == seq![
                            '\\',
                            'u',
                            '0',
                            '0',
                            hex_digit(cv / 16),
                            hex_digit(cv % 16),
                        ]);
                        assert(s@[k as int + 4] == esc_char(c0)[4]);
                        assert(s@[k as int + 5] == esc_char(c0)[5]);
                        assert(esc_char(c0)[4] == hex_digit(cv / 16));
                        assert(esc_char(c0)[5] == hex_digit(cv % 16));
                        assert(hex_digit(cv / 16) == hex_digit(v1));
                        lemma_hex_inj(cv / 16, v1);
                        assert(hex_digit(cv % 16) == hex_digit(v2d));
                        lemma_hex_inj(cv % 16, v2d);
                        assert(cv == 16 * v1 + v2d);
                        lemma_char_code_eq(c0, d);
                        assert(v2.take(acc0.len() as int + 1) =~= v2.take(
                            acc0.len() as int,
                        ).push(c0));
                    }
                }
                acc.push(d);
                k += 6;
                proof {
                    assert(acc@.drop_last() =~= acc0);
                    assert(acc@.last() == d);
                    assert(esc(acc@) == esc(acc0) + esc_char(d));
                    assert(esc(acc@) =~= s@.subrange(i as int + 1, k as int));
                }
            } else {
                proof {
                    assert forall|v2: Seq<char>, j2: int| !str_at(s@, i as int, v2, j2) by {
                        if str_at(s@, i as int, v2, j2) {
                            lemma_str_progress(s@, i as int, k as int, acc0, v2, j2);
                            let c0 = v2[acc0.len() as int];
                            assert(esc_char(c0)[0] == '\\');
                            assert(c0 == '"' || c0 == '\\' || is_ctl(c0)) by {
                                if !(c0 == '"' || c0 == '\\' || is_ctl(c0)) {
                                    assert(esc_char(c0)[0] == c0);
                                }
                            }
                            assert(esc_char(c0)[1] == s@[k as int + 1]);
                        }
                    }
                }
                return None;
            }
        } else if (c as u32) < 32 {
            proof {
                assert forall|v2: Seq<char>, j2: int| !str_at(s@, i as int, v2, j2) by {
                    if str_at(s@, i as int, v2, j2) {
                        lemma_str_progress(s@, i as int, k as int, acc@, v2, j2);
                        if v2 != acc@ {
                            let c0 = v2[acc@.len() as int];
                            assert(s@[k as int] == esc_char(c0)[0]);
                            if c0 == '"' || c0 == '\\' || is_ctl(c0) {
                                assert(esc_char(c0)[0] == '\\');
                            } else {
                                assert(esc_char(c0)[0] == c0);
                            }
                        }
                    }
                }
            }
            return None;
        } else {
            let ghost acc0 = acc@;
            proof {
                assert forall|v2: Seq<char>, j2: int|
                    str_at(s@, i as int, v2, j2) implies acc0.push(s@[k as int]).len() <= v2.len()
                    && v2.take(acc0.push(s@[k as int]).len() as int) == acc0.push(s@[k as int]) by {
                    lemma_str_progress(s@, i as int, k as int, acc0, v2, j2);
                    let c0 = v2[acc0.len() as int];
                    assert(s@[k as int] == esc_char(c0)[0]);
                    assert(c0 == s@[k as int]) by {
                        if c0 == '"' || c0 == '\\' || is_ctl(c0) {
                            assert(esc_char(c0)[0] == '\\');
                        } else {
                            assert(esc_char(c0)[0] == c0);
                        }
                    }
                    assert(v2.take(acc0.len() as int + 1) =~= v2.take(acc0.len() as int).push(c0));
                }
            }
            acc.push(c);
            k += 1;
            proof {
                assert(acc@.drop_last() =~= acc0);
                assert(acc@.last() == c);
                assert(esc_char(c) =~= seq![c]);
                assert(esc(acc@) == esc(acc0) + esc_char(c));
                assert(esc(acc@) =~= s@.subrange(i as int + 1, k as int));
            }
        }
    }
}

/// The canonical token object for `t` occupies `[i, j)` in `s`.
pub open spec fn token_at(s: Seq<char>, i: int, t: TokenV, j: int) -> bool {
    &&& 0 <= i
    &&& j == i + jtoken(t).len()
    &&& j <= s.len()
    &&& s.subrange(i, j) == jtoken(t)
}

/// The canonical coordinate object for `c` occupies `[i, j)` in `s`.
pub open spec fn coord_at(s: Seq<char>, i: int, c: Coord, j: int) -> bool {
    &&& 0 <= i
    &&& j == i + jcoord(c).len()
    &&& j <= s.len()
    &&& s.subrange(i, j) == jcoord(c)
}

/// The canonical cell object for `c` occupies `[i, j)` in `s`.
pub open spec fn cell_at(s: Seq<char>, i: int, c: CellV, j: int) -> bool {
    &&& 0 <= i
    &&& j == i + jcell(c).len()
    &&& j <= s.len()
    &&& s.subrange(i, j) == jcell(c)
}

/// The canonical participant object for `p` occupies `[i, j)` in `s`.
pub open spec fn player_at(s: Seq<char>, i: int, p: PlayerV, j: int) -> bool {
    &&& 0 <= i
    &&& j == i + jplayer(p).len()
    &&& j <= s.len()
    &&& s.subrange(i, j) == jplayer(p)
}

/// Extracts the middle part of a known three-part slice of `s`, at
/// caller-chosen position terms.
proof fn lemma_part(
    s: Seq<char>,
    i: int,
    j: int,
    pre: Seq<char>,
    mid: Seq<char>,
    post: Seq<char>,
    p: int,
    q: int,
)
    requires
        0 <= i <= j <= s.len(),
        s.subrange(i, j) == pre + mid + post,
        j - i == pre.len() + mid.len() + post.len(),
        p == i + pre.len(),
        q == p + mid.len(),
    ensures
        s.subrange(p, q) == mid,
{
    assert forall|t: int| 0 <= t < mid.len() implies s.subrange(p, q)[t] == mid[t] by {
        let w = pre.len() + t;
        assert(s.subrange(i, j)[w] == s[w + i]);
        assert((pre + mid + post)[w] == (pre + mid)[w]);
        assert((pre + mid)[w] == mid[w - pre.len()]);
        assert(s.subrange(p, q)[t] == s[t + p]);
        assert(s[w + i] == s[t + p]);
    }
    assert(s.subrange(p, q) =~= mid);
}

/// Joining two adjacent known slices of `s`.
proof fn lemma_join2(s: Seq<char>, i: int, m: int, j: int, a: Seq<char>, b: Seq<char>)
    requires
        0 <= i <= m <= j <= s.len(),
        s.subrange(i, m) == a,
        s.subrange(m, j) == b,
    ensures
        s.subrange(i, j) == a + b,
{
    assert forall|t: int| 0 <= t < a.len() implies #[trigger] s[i + t] == a[t] by {
        assert(s.subrange(i, m)[t] == a[t]);
    }
    assert forall|t: int| 0 <= t < b.len() implies #[trigger] s[m + t] == b[t] by {
        assert(s.subrange(m, j)[t] == b[t]);
    }
    assert forall|t: int| 0 <= t < j - i implies s.subrange(i, j)[t] == (a + b)[t] by {
        if t < a.len() {
            assert(s[i + t] == a[t]);
        } else {
            assert(s[m + (t - a.len())] == b[t - a.len()]);
        }
    }
    assert(s.subrange(i, j) =~= a + b);
}

/// Where each part of a canonical token object sits.
proof fn lemma_token_parts(s: Seq<char>, i: int, t: TokenV, j: int)
    requires
        token_at(s, i, t, j),
    ensures
        lit_at(s, i, "{\"code\":"@),
        str_at(
            s,
            i + "{\"code\":"@.len(),
            t.code,
            i + "{\"code\":"@.len() + jstr(t.code).len(),
        ),
        lit_at(s, i + "{\"code\":"@.len() + jstr(t.code).len(), ",\"color\":"@),
        str_at(
            s,
            i + "{\"code\":"@.len() + jstr(t.code).len() + ",\"color\":"@.len(),
            t.color,
            j - 1,
        ),
        lit_at(s, j - 1, "}"@),
{
    let a1 = "{\"code\":"@;
    let a2 = jstr(t.code);
    let a3 = ",\"color\":"@;
    let a4 = jstr(t.color);
    let a5 = "}"@;
    reveal_strlit("}");
    assert("}"@.len() == 1);
    assert(jtoken(t) == a1 + a2 + a3 + a4 + a5);
    assert((a1 + a2).len() == a1.len() + a2.len());
    assert((a1 + a2 + a3).len() == a1.len() + a2.len() + a3.len());
    assert((a1 + a2 + a3 + a4).len() == a1.len() + a2.len() + a3.len() + a4.len());
    assert(jtoken(t).len() == a1.len() + a2.len() + a3.len() + a4.len() + a5.len());
    assert((a2 + a3 + a4 + a5).len() == a2.len() + a3.len() + a4.len() + a5.len());
    assert((a3 + a4 + a5).len() == a3.len() + a4.len() + a5.len());
    assert((a4 + a5).len() == a4.len() + a5.len());
    assert(jtoken(t) =~= Seq::<char>::empty() + a1 + (a2 + a3 + a4 + a5));
    lemma_part(s, i, j, Seq::<char>::empty(), a1, (a2 + a3 + a4 + a5), i, i + a1.len());
    assert(jtoken(t) =~= a1 + a2 + (a3 + a4 + a5));
    lemma_part(s, i, j, a1, a2, (a3 + a4 + a5), i + a1.len(), i + a1.len() + a2.len());
    assert(jtoken(t) =~= (a1 + a2) + a3 + (a4 + a5));
    lemma_part(s, i, j, a1 + a2, a3, (a4 + a5), i + a1.len() + a2.len(), i + a1.len() + a2.len() + a3.len());
    lemma_part(s, i, j, a1 + a2 + a3, a4, a5, i + a1.len() + a2.len() + a3.len(), j - 1);
    assert(jtoken(t) =~= (a1 + a2 + a3 + a4) + a5 + Seq::<char>::empty());
    lemma_part(s, i, j, a1 + a2 + a3 + a4, a5, Seq::<char>::empty(), j - 1, j - 1 + a5.len());
}

/// Recognizes a canonical token object at `i`.
fn parse_token(s: &Vec<char>, i: usize) -> (r: Option<(Token, usize)>)
    requires
        i <= s@.len(),
    ensures
        (match r {
            Some(p) => token_at(s@, i as int, p.0@, p.1 as int) && p.1 <= s@.len() && (forall|
                t2: TokenV,
                j2: int,
            | token_at(s@, i as int, t2, j2) ==> t2 == p.0@ && j2 == p.1),
            None => forall|t2: TokenV, j2: int| !token_at(s@, i as int, t2, j2),
        }),
{
    let j1 = match eat_lit(s, i, "{\"code\":") {
        Some(j) => j,
        None => {
            proof {
                assert forall|t2: TokenV, j2: int| !token_at(s@, i as int, t2, j2) by {
                    if token_at(s@, i as int, t2, j2) {
                        lemma_token_parts(s@, i as int, t2, j2);
                    }
                }
            }
            return None;
        },
    };
    let (code, j2) = match parse_string(s, j1) {
        Some(p) => p,
        None => {
            proof {
                assert forall|t2: TokenV, j2x: int| !token_at(s@, i as int, t2, j2x) by {
                    if token_at(s@, i as int, t2, j2x) {
                        lemma_token_parts(s@, i as int, t2, j2x);
                    }
                }
            }
            return None;
        },
    };
    let j3 = match eat_lit(s, j2, ",\"color\":") {
        Some(j) => j,
        None => {
            proof {
                assert forall|t2: TokenV, j2x: int| !token_at(s@, i as int, t2, j2x) by {
                    if token_at(s@, i as int, t2, j2x) {
                        lemma_token_parts(s@, i as int, t2, j2x);
                    }
                }
            }
            return None;
        },
    };
    let (color, j4) = match parse_string(s, j3) {
        Some(p) => p,
        None => {
            proof {
                assert forall|t2: TokenV, j2x: int| !token_at(s@, i as int, t2, j2x) by {
                    if token_at(s@, i as int, t2, j2x) {
                        lemma_token_parts(s@, i as int, t2, j2x);
                    }
                }
            }
            return None;
        },
    };
    let j5 = match eat_lit(s, j4, "}") {
        Some(j) => j,
        None => {
            proof {
                assert forall|t2: TokenV, j2x: int| !token_at(s@, i as int, t2, j2x) by {
                    if token_at(s@, i as int, t2, j2x) {
                        lemma_token_parts(s@, i as int, t2, j2x);
                    }
                }
            }
            return None;
        },
    };
    let t = Token { code: chars_to_string(&code), color: chars_to_string(&color) };
    proof {
        lemma_join2(s@, i as int, j1 as int, j2 as int, "{\"code\":"@, jstr(code@));
        lemma_join2(
            s@,
            i as int,
            j2 as int,
            j3 as int,
            "{\"code\":"@ + jstr(code@),
            ",\"color\":"@,
        );
        lemma_join2(
            s@,
            i as int,
            j3 as int,
            j4 as int,
            "{\"code\":"@ + jstr(code@) + ",\"color\":"@,
            jstr(color@),
        );
        lemma_join2(
            s@,
            i as int,
            j4 as int,
            j5 as int,
            "{\"code\":"@ + jstr(code@) + ",\"color\":"@ + jstr(color@),
            "}"@,
        );
        assert(token_at(s@, i as int, t@, j5 as int));
        assert forall|t2: TokenV, j2x: int|
            token_at(s@, i as int, t2, j2x) implies t2 == t@ && j2x == j5 by {
            lemma_token_parts(s@, i as int, t2, j2x);
            assert(t2.code == code@ && t2.color == color@);
            assert(t2 =~= t@);
        }
    }
    Some((t, j5))
}

/// Where each part of a canonical coordinate object sits.
proof fn lemma_coord_parts(s: Seq<char>, i: int, c: Coord, j: int)
    requires
        coord_at(s, i, c, j),
    ensures
        lit_at(s, i, "{\"x\":"@),
        num_at(s, i + "{\"x\":"@.len(), c.x, i + "{\"x\":"@.len() + jnum(c.x).len()),
        lit_at(s, i + "{\"x\":"@.len() + jnum(c.x).len(), ",\"y\":"@),
        num_at(
            s,
            i + "{\"x\":"@.len() + jnum(c.x).len() + ",\"y\":"@.len(),
            c.y,
            j - 1,
        ),
        lit_at(s, j - 1, "}"@),
{
    let a1 = "{\"x\":"@;
    let a2 = jnum(c.x);
    let a3 = ",\"y\":"@;
    let a4 = jnum(c.y);
    let a5 = "}"@;
    reveal_strlit("}");
    assert("}"@.len() == 1);
    assert(jcoord(c) == a1 + a2 + a3 + a4 + a5);
    assert((a1 + a2).len() == a1.len() + a2.len());
    assert((a1 + a2 + a3).len() == a1.len() + a2.len() + a3.len());
    assert((a1 + a2 + a3 + a4).len() == a1.len() + a2.len() + a3.len() + a4.len());
    assert(jcoord(c).len() == a1.len() + a2.len() + a3.len() + a4.len() + a5.len());
    assert((a2 + a3 + a4 + a5).len() == a2.len() + a3.len() + a4.len() + a5.len());
    assert((a3 + a4 + a5).len() == a3.len() + a4.len() + a5.len());
    assert((a4 + a5).len() == a4.len() + a5.len());
    assert(jcoord(c) =~= Seq::<char>::empty() + a1 + (a2 + a3 + a4 + a5));
    lemma_part(s, i, j, Seq::<char>::empty(), a1, (a2 + a3 + a4 + a5), i, i + a1.len());
    assert(jcoord(c) =~= a1 + a2 + (a3 + a4 + a5));
    lemma_part(s, i, j, a1, a2, (a3 + a4 + a5), i + a1.len(), i + a1.len() + a2.len());
    assert(jcoord(c) =~= (a1 + a2) + a3 + (a4 + a5));
    lemma_part(s, i, j, a1 + a2, a3, (a4 + a5), i + a1.len() + a2.len(), i + a1.len() + a2.len() + a3.len());
    lemma_part(s, i, j, a1 + a2 + a3, a4, a5, i + a1.len() + a2.len() + a3.len(), j - 1);
    assert(jcoord(c) =~= (a1 + a2 + a3 + a4) + a5 + Seq::<char>::empty());
    lemma_part(s, i, j, a1 + a2 + a3 + a4, a5, Seq::<char>::empty(), j - 1, j - 1 + a5.len());
    reveal_strlit(",\"y\":");
    reveal_strlit("}");
    assert(s[i + a1.len() + a2.len()] == a3[0]);
    assert(!is_digit(s[i + a1.len() + a2.len()]));
    assert(s[j - 1] == a5[0]);
    assert(!is_digit(s[j - 1]));
}

/// Recognizes a canonical coordinate object at `i`.
fn parse_coord(s: &Vec<char>, i: usize) -> (r: Option<(Coord, usize)>)
    requires
        i <= s@.len(),
    ensures
        (match r {
            Some(p) => coord_at(s@, i as int, p.0, p.1 as int) && p.1 <= s@.len() && (forall|
                c2: Coord,
                j2: int,
            | coord_at(s@, i as int, c2, j2) ==> c2 == p.0 && j2 == p.1),
            None => forall|c2: Coord, j2: int| !coord_at(s@, i as int, c2, j2),
        }),
{
    let j1 = match eat_lit(s, i, "{\"x\":") {
        Some(j) => j,
        None => {
            proof {
                assert forall|c2: Coord, j2: int| !coord_at(s@, i as int, c2, j2) by {
                    if coord_at(s@, i as int, c2, j2) {
                        lemma_coord_parts(s@, i as int, c2, j2);
                    }
                }
            }
            return None;
        },
    };
    let (x, j2) = match parse_u32(s, j1) {
        Some(p) => p,
        None => {
            proof {
                assert forall|c2: Coord, j2x: int| !coord_at(s@, i as int, c2, j2x) by {
                    if coord_at(s@, i as int, c2, j2x) {
                        lemma_coord_parts(s@, i as int, c2, j2x);
                    }
                }
            }
            return None;
        },
    };
    let j3 = match eat_lit(s, j2, ",\"y\":") {
        Some(j) => j,
        None => {
            proof {
                assert forall|c2: Coord, j2x: int| !coord_at(s@, i as int, c2, j2x) by {
                    if coord_at(s@, i as int, c2, j2x) {
                        lemma_coord_parts(s@, i as int, c2, j2x);
                    }
                }
            }
            return None;
        },
    };
    let (y, j4) = match parse_u32(s, j3) {
        Some(p) => p,
        None => {
            proof {
                assert forall|c2: Coord, j2x: int| !coord_at(s@, i as int, c2, j2x) by {
                    if coord_at(s@, i as int, c2, j2x) {
                        lemma_coord_parts(s@, i as int, c2, j2x);
                    }
                }
            }
            return None;
        },
    };
    let j5 = match eat_lit(s, j4, "}") {
        Some(j) => j,
        None => {
            proof {
                assert forall|c2: Coord, j2x: int| !coord_at(s@, i as int, c2, j2x) by {
                    if coord_at(s@, i as int, c2, j2x) {
                        lemma_coord_parts(s@, i as int, c2, j2x);
                    }
                }
            }
            return None;
        },
    };
    let c = Coord { x, y };
    proof {
        lemma_join2(s@, i as int, j1 as int, j2 as int, "{\"x\":"@, jnum(x));
        lemma_join2(s@, i as int, j2 as int, j3 as int, "{\"x\":"@ + jnum(x), ",\"y\":"@);
        lemma_join2(
            s@,
            i as int,
            j3 as int,
            j4 as int,
            "{\"x\":"@ + jnum(x) + ",\"y\":"@,
            jnum(y),
        );
        lemma_join2(
            s@,
            i as int,
            j4 as int,
            j5 as int,
            "{\"x\":"@ + jnum(x) + ",\"y\":"@ + jnum(y),
            "}"@,
        );
        assert(coord_at(s@, i as int, c, j5 as int));
        assert forall|c2: Coord, j2x: int|
            coord_at(s@, i as int, c2, j2x) implies c2 == c && j2x == j5 by {
            lemma_coord_parts(s@, i as int, c2, j2x);
        }
    }
    Some((c, j5))
}

/// Where each part of a canonical cell object sits.
proof fn lemma_cell_parts(s: Seq<char>, i: int, c: CellV, j: int)
    requires
        cell_at(s, i, c, j),
    ensures
        lit_at(s, i, "{\"coord\":"@),
        coord_at(
            s,
            i + "{\"coord\":"@.len(),
            c.coord,
            i + "{\"coord\":"@.len() + jcoord(c.coord).len(),
        ),
        lit_at(s, i + "{\"coord\":"@.len() + jcoord(c.coord).len(), ",\"value\":"@),
        token_at(
            s,
            i + "{\"coord\":"@.len() + jcoord(c.coord).len() + ",\"value\":"@.len(),
            c.value,
            j - 1,
        ),
        lit_at(s, j - 1, "}"@),
{
    let a1 = "{\"coord\":"@;
    let a2 = jcoord(c.coord);
    let a3 = ",\"value\":"@;
    let a4 = jtoken(c.value);
    let a5 = "}"@;
    reveal_strlit("}");
    assert("}"@.len() == 1);
    assert(jcell(c) == a1 + a2 + a3 + a4 + a5);
    assert((a1 + a2).len() == a1.len() + a2.len());
    assert((a1 + a2 + a3).len() == a1.len() + a2.len() + a3.len());
    assert((a1 + a2 + a3 + a4).len() == a1.len() + a2.len() + a3.len() + a4.len());
    assert(jcell(c).len() == a1.len() + a2.len() + a3.len() + a4.len() + a5.len());
    assert((a2 + a3 + a4 + a5).len() == a2.len() + a3.len() + a4.len() + a5.len());
    assert((a3 + a4 + a5).len() == a3.len() + a4.len() + a5.len());
    assert((a4 + a5).len() == a4.len() + a5.len());
    assert(jcell(c) =~= Seq::<char>::empty() + a1 + (a2 + a3 + a4 + a5));
    lemma_part(s, i, j, Seq::<char>::empty(), a1, (a2 + a3 + a4 + a5), i, i + a1.len());
    assert(jcell(c) =~= a1 + a2 + (a3 + a4 + a5));
    lemma_part(s, i, j, a1, a2, (a3 + a4 + a5), i + a1.len(), i + a1.len() + a2.len());
    assert(jcell(c) =~= (a1 + a2) + a3 + (a4 + a5));
    lemma_part(s, i, j, a1 + a2, a3, (a4 + a5), i + a1.len() + a2.len(), i + a1.len() + a2.len() + a3.len());
    lemma_part(s, i, j, a1 + a2 + a3, a4, a5, i + a1.len() + a2.len() + a3.len(), j - 1);
    assert(jcell(c) =~= (a1 + a2 + a3 + a4) + a5 + Seq::<char>::empty());
    lemma_part(s, i, j, a1 + a2 + a3 + a4, a5, Seq::<char>::empty(), j - 1, j - 1 + a5.len());
}

/// Recognizes a canonical cell object at `i`.
fn parse_cell(s: &Vec<char>, i: usize) -> (r: Option<(Cell, usize)>)
    requires
        i <= s@.len(),
    ensures
        (match r {
            Some(p) => cell_at(s@, i as int, p.0@, p.1 as int) && p.1 <= s@.len() && (forall|
                c2: CellV,
                j2: int,
            | cell_at(s@, i as int, c2, j2) ==> c2 == p.0@ && j2 == p.1),
            None => forall|c2: CellV, j2: int| !cell_at(s@, i as int, c2, j2),
        }),
{
    let j1 = match eat_lit(s, i, "{\"coord\":") {
        Some(j) => j,
        None => {
            proof {
                assert forall|c2: CellV, j2: int| !cell_at(s@, i as int, c2, j2) by {
                    if cell_at(s@, i as int, c2, j2) {
                        lemma_cell_parts(s@, i as int, c2, j2);
                    }
                }
            }
            return None;
        },
    };
    let (coord, j2) = match parse_coord(s, j1) {
        Some(p) => p,
        None => {
            proof {
                assert forall|c2: CellV, j2x: int| !cell_at(s@, i as int, c2, j2x) by {
                    if cell_at(s@, i as int, c2, j2x) {
                        lemma_cell_parts(s@, i as int, c2, j2x);
                    }
                }
            }
            return None;
        },
    };
    let j3 = match eat_lit(s, j2, ",\"value\":") {
        Some(j) => j,
        None => {
            proof {
                assert forall|c2: CellV, j2x: int| !cell_at(s@, i as int, c2, j2x) by {
                    if cell_at(s@, i as int, c2, j2x) {
                        lemma_cell_parts(s@, i as int, c2, j2x);
                    }
                }
            }
            return None;
        },
    };
    let (value, j4) = match parse_token(s, j3) {
        Some(p) => p,
        None => {
            proof {
                assert forall|c2: CellV, j2x: int| !cell_at(s@, i as int, c2, j2x) by {
                    if cell_at(s@, i as int, c2, j2x) {
                        lemma_cell_parts(s@, i as int, c2, j2x);
                    }
                }
            }
            return None;
        },
    };
    let j5 = match eat_lit(s, j4, "}") {
        Some(j) => j,
        None => {
            proof {
                assert forall|c2: CellV, j2x: int| !cell_at(s@, i as int, c2, j2x) by {
                    if cell_at(s@, i as int, c2, j2x) {
                        lemma_cell_parts(s@, i as int, c2, j2x);
                    }
                }
            }
            return None;
        },
    };
    let c = Cell { coord, value };
    proof {
        lemma_join2(s@, i as int, j1 as int, j2 as int, "{\"coord\":"@, jcoord(coord));
        lemma_join2(
            s@,
            i as int,
            j2 as int,
            j3 as int,
            "{\"coord\":"@ + jcoord(coord),
            ",\"value\":"@,
        );
        lemma_join2(
            s@,
            i as int,
            j3 as int,
            j4 as int,
            "{\"coord\":"@ + jcoord(coord) + ",\"value\":"@,
            jtoken(value@),
        );
        lemma_join2(
            s@,
            i as int,
            j4 as int,
            j5 as int,
            "{\"coord\":"@ + jcoord(coord) + ",\"value\":"@ + jtoken(value@),
            "}"@,
        );
        assert(cell_at(s@, i as int, c@, j5 as int));
        assert forall|c2: CellV, j2x: int|
            cell_at(s@, i as int, c2, j2x) implies c2 == c@ && j2x == j5 by {
            lemma_cell_parts(s@, i as int, c2, j2x);
            assert(c2 =~= c@);
        }
    }
    Some((c, j5))
}

/// Where each part of a canonical participant object sits.
proof fn lemma_player_parts(s: Seq<char>, i: int, p: PlayerV, j: int)
    requires
        player_at(s, i, p, j),
    ensures
        lit_at(s, i, "{\"id\":"@),
        str_at(s, i + "{\"id\":"@.len(), p.id, i + "{\"id\":"@.len() + jstr(p.id).len()),
        lit_at(s, i + "{\"id\":"@.len() + jstr(p.id).len(), ",\"name\":"@),
        str_at(
            s,
            i + "{\"id\":"@.len() + jstr(p.id).len() + ",\"name\":"@.len(),
            p.name,
            i + "{\"id\":"@.len() + jstr(p.id).len() + ",\"name\":"@.len() + jstr(p.name).len(),
        ),
        lit_at(
            s,
            i + "{\"id\":"@.len() + jstr(p.id).len() + ",\"name\":"@.len() + jstr(p.name).len(),
            ",\"token\":"@,
        ),
        token_at(
            s,
            i + "{\"id\":"@.len() + jstr(p.id).len() + ",\"name\":"@.len() + jstr(p.name).len()
                + ",\"token\":"@.len(),
            p.token,
            j - 1,
        ),
        lit_at(s, j - 1, "}"@),
{
    let a1 = "{\"id\":"@;
    let a2 = jstr(p.id);
    let a3 = ",\"name\":"@;
    let a4 = jstr(p.name);
    let a5 = ",\"token\":"@;
    let a6 = jtoken(p.token);
    let a7 = "}"@;
    reveal_strlit("}");
    assert("}"@.len() == 1);
    assert(jplayer(p) == a1 + a2 + a3 + a4 + a5 + a6 + a7);
    assert((a1 + a2).len() == a1.len() + a2.len());
    assert((a1 + a2 + a3).len() == a1.len() + a2.len() + a3.len());
    assert((a1 + a2 + a3 + a4).len() == a1.len() + a2.len() + a3.len() + a4.len());
    assert((a1 + a2 + a3 + a4 + a5).len() == a1.len() + a2.len() + a3.len() + a4.len() + a5.len());
    assert((a1 + a2 + a3 + a4 + a5 + a6).len() == a1.len() + a2.len() + a3.len() + a4.len()
        + a5.len() + a6.len());
    assert(jplayer(p).len() == a1.len() + a2.len() + a3.len() + a4.len() + a5.len() + a6.len()
        + a7.len());
    assert((a2 + a3 + a4 + a5 + a6 + a7).len() == a2.len() + a3.len() + a4.len() + a5.len() + a6.len() + a7.len());
    assert((a3 + a4 + a5 + a6 + a7).len() == a3.len() + a4.len() + a5.len() + a6.len() + a7.len());
    assert((a4 + a5 + a6 + a7).len() == a4.len() + a5.len() + a6.len() + a7.len());
    assert((a5 + a6 + a7).len() == a5.len() + a6.len() + a7.len());
    assert((a6 + a7).len() == a6.len() + a7.len());
    assert(jplayer(p) =~= Seq::<char>::empty() + a1 + (a2 + a3 + a4 + a5 + a6 + a7));
    lemma_part(s, i, j, Seq::<char>::empty(), a1, (a2 + a3 + a4 + a5 + a6 + a7), i, i + a1.len());
    assert(jplayer(p) =~= a1 + a2 + (a3 + a4 + a5 + a6 + a7));
    lemma_part(s, i, j, a1, a2, (a3 + a4 + a5 + a6 + a7), i + a1.len(), i + a1.len() + a2.len());
    assert(jplayer(p) =~= (a1 + a2) + a3 + (a4 + a5 + a6 + a7));
    lemma_part(s, i, j, a1 + a2, a3, (a4 + a5 + a6 + a7), i + a1.len() + a2.len(), i + a1.len() + a2.len() + a3.len());
    assert(jplayer(p) =~= (a1 + a2 + a3) + a4 + (a5 + a6 + a7));
    lemma_part(s, i, j, a1 + a2 + a3, a4, (a5 + a6 + a7), i + a1.len() + a2.len() + a3.len(), i + a1.len() + a2.len() + a3.len() + a4.len());
    assert(jplayer(p) =~= (a1 + a2 + a3 + a4) + a5 + (a6 + a7));
    lemma_part(s, i, j, a1 + a2 + a3 + a4, a5, (a6 + a7), i + a1.len() + a2.len() + a3.len() + a4.len(), i + a1.len() + a2.len() + a3.len() + a4.len() + a5.len());
    lemma_part(s, i, j, a1 + a2 + a3 + a4 + a5, a6, a7, i + a1.len() + a2.len() + a3.len() + a4.len() + a5.len(), j - 1);
    assert(jplayer(p) =~= (a1 + a2 + a3 + a4 + a5 + a6) + a7 + Seq::<char>::empty());
    lemma_part(s, i, j, a1 + a2 + a3 + a4 + a5 + a6, a7, Seq::<char>::empty(), j - 1, j - 1 + a7.len());
}

/// Recognizes a canonical participant object at `i`.
fn parse_player(s: &Vec<char>, i: usize) -> (r: Option<(Player, usize)>)
    requires
        i <= s@.len(),
    ensures
        (match r {
            Some(p) => player_at(s@, i as int, p.0@, p.1 as int) && p.1 <= s@.len() && (forall|
                p2: PlayerV,
                j2: int,
            | player_at(s@, i as int, p2, j2) ==> p2 == p.0@ && j2 == p.1),
            None => forall|p2: PlayerV, j2: int| !player_at(s@, i as int, p2, j2),
        }),
{
    let j1 = match eat_lit(s, i, "{\"id\":") {
        Some(j) => j,
        None => {
            proof {
                assert forall|p2: PlayerV, j2: int| !player_at(s@, i as int, p2, j2) by {
                    if player_at(s@, i as int, p2, j2) {
                        lemma_player_parts(s@, i as int, p2, j2);
                    }
                }
            }
            return None;
        },
    };
    let (id, j2) = match parse_string(s, j1) {
        Some(p) => p,
        None => {
            proof {
                assert forall|p2: PlayerV, j2x: int| !player_at(s@, i as int, p2, j2x) by {
                    if player_at(s@, i as int, p2, j2x) {
                        lemma_player_parts(s@, i as int, p2, j2x);
                    }
                }
            }
            return None;
        },
    };
    let j3 = match eat_lit(s, j2, ",\"name\":") {
        Some(j) => j,
        None => {
            proof {
                assert forall|p2: PlayerV, j2x: int| !player_at(s@, i as int, p2, j2x) by {
                    if player_at(s@, i as int, p2, j2x) {
                        lemma_player_parts(s@, i as int, p2, j2x);
                    }
                }
            }
            return None;
        },
    };
    let (name, j4) = match parse_string(s, j3) {
        Some(p) => p,
        None => {
            proof {
                assert forall|p2: PlayerV, j2x: int| !player_at(s@, i as int, p2, j2x) by {
                    if player_at(s@, i as int, p2, j2x) {
                        lemma_player_parts(s@, i as int, p2, j2x);
                    }
                }
            }
            return None;
        },
    };
    let j5 = match eat_lit(s, j4, ",\"token\":") {
        Some(j) => j,
        None => {
            proof {
                assert forall|p2: PlayerV, j2x: int| !player_at(s@, i as int, p2, j2x) by {
                    if player_at(s@, i as int, p2, j2x) {
                        lemma_player_parts(s@, i as int, p2, j2x);
                    }
                }
            }
            return None;
        },
    };
    let (token, j6) = match parse_token(s, j5) {
        Some(p) => p,
        None => {
            proof {
                assert forall|p2: PlayerV, j2x: int| !player_at(s@, i as int, p2, j2x) by {
                    if player_at(s@, i as int, p2, j2x) {
                        lemma_player_parts(s@, i as int, p2, j2x);
                    }
                }
            }
            return None;
        },
    };
    let j7 = match eat_lit(s, j6, "}") {
        Some(j) => j,
        None => {
            proof {
                assert forall|p2: PlayerV, j2x: int| !player_at(s@, i as int, p2, j2x) by {
                    if player_at(s@, i as int, p2, j2x) {
                        lemma_player_parts(s@, i as int, p2, j2x);
                    }
                }
            }
            return None;
        },
    };
    let p = Player { id: chars_to_string(&id), name: chars_to_string(&name), token };
    proof {
        lemma_join2(s@, i as int, j1 as int, j2 as int, "{\"id\":"@, jstr(id@));
        lemma_join2(s@, i as int, j2 as int, j3 as int, "{\"id\":"@ + jstr(id@), ",\"name\":"@);
        lemma_join2(
            s@,
            i as int,
            j3 as int,
            j4 as int,
            "{\"id\":"@ + jstr(id@) + ",\"name\":"@,
            jstr(name@),
        );
        lemma_join2(
            s@,
            i as int,
            j4 as int,
            j5 as int,
            "{\"id\":"@ + jstr(id@) + ",\"name\":"@ + jstr(name@),
            ",\"token\":"@,
        );
        lemma_join2(
            s@,
            i as int,
            j5 as int,
            j6 as int,
            "{\"id\":"@ + jstr(id@) + ",\"name\":"@ + jstr(name@) + ",\"token\":"@,
            jtoken(token@),
        );
        lemma_join2(
            s@,
            i as int,
            j6 as int,
            j7 as int,
            "{\"id\":"@ + jstr(id@) + ",\"name\":"@ + jstr(name@) + ",\"token\":"@ + jtoken(
                token@,
            ),
            "}"@,
        );
        assert(player_at(s@, i as int, p@, j7 as int));
        assert forall|p2: PlayerV, j2x: int|
            player_at(s@, i as int, p2, j2x) implies p2 == p@ && j2x == j7 by {
            lemma_player_parts(s@, i as int, p2, j2x);
            assert(p2 =~= p@);
        }
    }
    Some((p, j7))
}


/// The canonical history array for `h` occupies `[i, j)` in `s`.
pub open spec fn hist_at(s: Seq<char>, i: int, h: Seq<CellV>, j: int) -> bool {
    &&& 0 <= i
    &&& j == i + jhist(h).len()
    &&& j <= s.len()
    &&& s.subrange(i, j) == jhist(h)
}

/// What a nonempty prefix of an array body looks like, comma included.
pub open spec fn precells(h: Seq<CellV>) -> Seq<char> {
    if h.len() == 0 {
        Seq::empty()
    } else {
        jcells(h) + seq![',']
    }
}

/// The body of a one-cell array is that cell's object.
proof fn lemma_jcells_single(h: Seq<CellV>)
    requires
        h.len() == 1,
    ensures
        jcells(h) == jcell(h[0]),
{
    assert(h.drop_last() =~= Seq::<CellV>::empty());
    assert(jcells(Seq::<CellV>::empty()) == Seq::<char>::empty());
    assert(jcells(h) =~= jcell(h[0]));
}

/// An array body splits after any leading run of cells.
proof fn lemma_jcells_concat(a: Seq<CellV>, b: Seq<CellV>)
    requires
        b.len() > 0,
    ensures
        jcells(a + b) == precells(a) + jcells(b),
    decreases b.len(),
{
    if b.len() == 1 {
        let w = a + b;
        assert(w.drop_last() =~= a);
        assert(w.last() == b[0]);
        lemma_jcells_single(b);
        if a.len() == 0 {
            assert(w.len() == 1);
            assert(jcells(w) == jcells(a) + Seq::<char>::empty() + jcell(b[0]));
            assert(jcells(Seq::<CellV>::empty()) == Seq::<char>::empty());
            assert(a =~= Seq::<CellV>::empty());
            assert(jcells(w) =~= precells(a) + jcells(b));
        } else {
            assert(w.len() > 1);
            assert(jcells(w) == jcells(a) + seq![','] + jcell(b[0]));
            assert(jcells(w) =~= precells(a) + jcells(b));
        }
    } else {
        let w = a + b;
        assert(w.drop_last() =~= a + b.drop_last());
        assert(w.last() == b.last());
        assert(w.len() > 1);
        lemma_jcells_concat(a, b.drop_last());
        assert(jcells(w) == jcells(a + b.drop_last()) + seq![','] + jcell(b.last()));
        assert(jcells(b) == jcells(b.drop_last()) + seq![','] + jcell(b.last()));
        assert(jcells(w) =~= precells(a) + jcells(b));
    }
}

/// When the expected cell is the candidate's last, the cell object is
/// followed by the closing bracket, which ends the candidate.
#[verifier::rlimit(100)]
proof fn lemma_hist_progress_last(
    s: Seq<char>,
    i: int,
    k: int,
    acc: Seq<CellV>,
    h2: Seq<CellV>,
    j2: int,
)
    requires
        hist_at(s, i, h2, j2),
        h2.len() == acc.len() + 1,
        h2.take(acc.len() as int) == acc,
        0 <= i <= k <= s.len(),
        s.subrange(i, k) == "["@ + precells(acc),
    ensures
        cell_at(s, k, h2[acc.len() as int], k + jcell(h2[acc.len() as int]).len()),
        j2 == k + jcell(h2[acc.len() as int]).len() + 1,
        s[k + jcell(h2[acc.len() as int]).len()] == ']',
{
    reveal_strlit("[");
    reveal_strlit("]");
    let n = acc.len() as int;
    let rest = h2.skip(n);
    let c0 = h2[n];
    assert(rest.len() == 1 && rest[0] == c0);
    assert(h2 =~= acc + rest);
    lemma_jcells_concat(acc, rest);
    lemma_jcells_single(rest);
    assert(jcells(h2) == precells(acc) + jcell(c0));
    assert(k == i + ("["@ + precells(acc)).len());
    assert(jhist(h2) =~= ("["@ + precells(acc)) + jcell(c0) + "]"@);
    lemma_part(s, i, j2, "["@ + precells(acc), jcell(c0), "]"@, k, k + jcell(c0).len());
    assert(jhist(h2) =~= (("["@ + precells(acc)) + jcell(c0)) + "]"@ + Seq::<char>::empty());
    lemma_part(
        s,
        i,
        j2,
        ("["@ + precells(acc)) + jcell(c0),
        "]"@,
        Seq::<char>::empty(),
        k + jcell(c0).len(),
        k + jcell(c0).len() + "]"@.len(),
    );
    assert(s.subrange(k + jcell(c0).len(), k + jcell(c0).len() + 1)[0] == s[0 + (k + jcell(
        c0,
    ).len())]);
    assert(s[0 + (k + jcell(c0).len())] == s[k + jcell(c0).len()]);
}

/// When more cells of the candidate follow the expected one, the cell
/// object is followed by a comma.
#[verifier::rlimit(100)]
proof fn lemma_hist_progress_more(
    s: Seq<char>,
    i: int,
    k: int,
    acc: Seq<CellV>,
    h2: Seq<CellV>,
    j2: int,
)
    requires
        hist_at(s, i, h2, j2),
        h2.len() > acc.len() + 1,
        h2.take(acc.len() as int) == acc,
        0 <= i <= k <= s.len(),
        s.subrange(i, k) == "["@ + precells(acc),
    ensures
        cell_at(s, k, h2[acc.len() as int], k + jcell(h2[acc.len() as int]).len()),
        k + jcell(h2[acc.len() as int]).len() + 1 < j2,
        s[k + jcell(h2[acc.len() as int]).len()] == ',',
{
    reveal_strlit("[");
    reveal_strlit("]");
    let n = acc.len() as int;
    let rest = h2.skip(n);
    let c0 = h2[n];
    assert(rest[0] == c0);
    assert(h2 =~= acc + rest);
    lemma_jcells_concat(acc, rest);
    assert(k == i + ("["@ + precells(acc)).len());
    let tail = h2.skip(n + 1);
    assert(tail =~= rest.skip(1));
    assert(rest =~= seq![c0] + tail);
    lemma_jcells_concat(seq![c0], tail);
    lemma_jcells_single(seq![c0]);
    assert(precells(seq![c0]) == jcell(c0) + seq![',']);
    assert(jcells(rest) == (jcell(c0) + seq![',']) + jcells(tail));
    assert(jhist(h2) =~= ("["@ + precells(acc)) + jcell(c0) + ((seq![','] + jcells(tail))
        + "]"@));
    lemma_part(
        s,
        i,
        j2,
        "["@ + precells(acc),
        jcell(c0),
        (seq![','] + jcells(tail)) + "]"@,
        k,
        k + jcell(c0).len(),
    );
    assert(jhist(h2) =~= (("["@ + precells(acc)) + jcell(c0)) + seq![','] + (jcells(tail)
        + "]"@));
    lemma_part(
        s,
        i,
        j2,
        ("["@ + precells(acc)) + jcell(c0),
        seq![','],
        jcells(tail) + "]"@,
        k + jcell(c0).len(),
        k + jcell(c0).len() + 1,
    );
    assert(s.subrange(k + jcell(c0).len(), k + jcell(c0).len() + 1)[0] == s[0 + (k + jcell(
        c0,
    ).len())]);
    assert(s[0 + (k + jcell(c0).len())] == s[k + jcell(c0).len()]);
}

/// What the input must look like when a cell is expected inside an
/// array: the next candidate cell's object sits at `k`, and after it
/// comes a comma (more cells follow) or the closing bracket (none do).
proof fn lemma_hist_progress(s: Seq<char>, i: int, k: int, acc: Seq<CellV>, h2: Seq<CellV>, j2: int)
    requires
        hist_at(s, i, h2, j2),
        acc.len() < h2.len(),
        h2.take(acc.len() as int) == acc,
        0 <= i <= k <= s.len(),
        s.subrange(i, k) == "["@ + precells(acc),
    ensures
        cell_at(s, k, h2[acc.len() as int], k + jcell(h2[acc.len() as int]).len()),
        h2.len() == acc.len() + 1 ==> j2 == k + jcell(h2[acc.len() as int]).len() + 1 && s[k
            + jcell(h2[acc.len() as int]).len()] == ']',
        h2.len() > acc.len() + 1 ==> k + jcell(h2[acc.len() as int]).len() + 1 < j2 && s[k
            + jcell(h2[acc.len() as int]).len()] == ',',
{
    if h2.len() == acc.len() + 1 {
        lemma_hist_progress_last(s, i, k, acc, h2, j2);
    } else {
        lemma_hist_progress_more(s, i, k, acc, h2, j2);
    }
}

/// Appending a parsed cell and its separating comma keeps the consumed
/// range in the expected shape.
#[verifier::rlimit(100)]
proof fn lemma_consumed_extend(
    s: Seq<char>,
    i: int,
    k0: int,
    k2: int,
    acc: Seq<CellV>,
    c: CellV,
)
    requires
        0 <= i <= k0 <= k2 < s.len(),
        s.subrange(i, k0) == "["@ + precells(acc),
        s.subrange(k0, k2) == jcell(c),
        s[k2] == ',',
    ensures
        s.subrange(i, k2 + 1) == "["@ + precells(acc.push(c)),
{
    reveal_strlit("[");
    lemma_jcells_concat(acc, seq![c]);
    lemma_jcells_single(seq![c]);
    assert(acc.push(c) =~= acc + seq![c]);
    assert(jcells(acc.push(c)) == precells(acc) + jcell(c));
    assert(precells(acc.push(c)) =~= (precells(acc) + jcell(c)) + seq![',']);
    assert(("["@ + precells(acc)).len() == k0 - i);
    assert(jcell(c).len() == k2 - k0);
    assert forall|t: int|
        0 <= t < k2 + 1 - i implies s.subrange(i, k2 + 1)[t] == ("["@ + precells(acc.push(c)))[t]
        by {
        assert(s.subrange(i, k2 + 1)[t] == s[i + t]);
        assert(("["@ + precells(acc.push(c)))[t] == ("["@ + ((precells(acc) + jcell(c))
            + seq![',']))[t]);
        if i + t < k0 {
            assert(s.subrange(i, k0)[t] == s[t + i]);
            assert(("["@ + precells(acc))[t] == ("["@ + ((precells(acc) + jcell(c))
                + seq![',']))[t]);
        } else if i + t < k2 {
            assert(s.subrange(k0, k2)[i + t - k0] == s[(i + t - k0) + k0]);
            assert(s[(i + t - k0) + k0] == s[i + t]);
            assert(jcell(c)[i + t - k0] == ("["@ + ((precells(acc) + jcell(c)) + seq![',']))[t]);
        } else {
            assert(i + t == k2);
            assert(("["@ + ((precells(acc) + jcell(c)) + seq![',']))[t] == ',');
        }
    }
    assert(s.subrange(i, k2 + 1) =~= "["@ + precells(acc.push(c)));
}

/// A parsed cell followed by the closing bracket completes a canonical
/// history array.
#[verifier::rlimit(100)]
proof fn lemma_consumed_close(s: Seq<char>, i: int, k0: int, k2: int, acc: Seq<CellV>, c: CellV)
    requires
        0 <= i <= k0 <= k2 < s.len(),
        s.subrange(i, k0) == "["@ + precells(acc),
        s.subrange(k0, k2) == jcell(c),
        s[k2] == ']',
    ensures
        hist_at(s, i, acc.push(c), k2 + 1),
{
    reveal_strlit("[");
    reveal_strlit("]");
    lemma_jcells_concat(acc, seq![c]);
    lemma_jcells_single(seq![c]);
    assert(acc.push(c) =~= acc + seq![c]);
    assert(jcells(acc.push(c)) == precells(acc) + jcell(c));
    assert(jhist(acc.push(c)) =~= (("["@ + precells(acc)) + jcell(c)) + "]"@);
    assert(("["@ + precells(acc)).len() == k0 - i);
    assert(jcell(c).len() == k2 - k0);
    assert forall|t: int|
        0 <= t < k2 + 1 - i implies s.subrange(i, k2 + 1)[t] == jhist(acc.push(c))[t] by {
        assert(s.subrange(i, k2 + 1)[t] == s[i + t]);
        assert(jhist(acc.push(c))[t] == ((("["@ + precells(acc)) + jcell(c)) + "]"@)[t]);
        if i + t < k0 {
            assert(s.subrange(i, k0)[t] == s[t + i]);
            assert((("["@ + precells(acc)) + jcell(c))[t] == ("["@ + precells(acc))[t]);
        } else if i + t < k2 {
            assert(s.subrange(k0, k2)[i + t - k0] == s[(i + t - k0) + k0]);
            assert(s[(i + t - k0) + k0] == s[i + t]);
            assert((("["@ + precells(acc)) + jcell(c))[t] == jcell(c)[t - (k0 - i)]);
        } else {
            assert(i + t == k2);
            assert(((("["@ + precells(acc)) + jcell(c)) + "]"@)[t] == "]"@[0]);
        }
    }
    assert(s.subrange(i, k2 + 1) =~= jhist(acc.push(c)));
    assert(jhist(acc.push(c)).len() == (k0 - i) + (k2 - k0) + 1) by {
        assert((("["@ + precells(acc)) + jcell(c)).len() == (k0 - i) + (k2 - k0));
    }
}

/// Recognizes a canonical history array at `i`.
fn parse_history(s: &Vec<char>, i: usize) -> (r: Option<(Vec<Cell>, usize)>)
    requires
        i <= s@.len(),
    ensures
        (match r {
            Some(p) => hist_at(s@, i as int, crate::protocol::history_view(p.0@), p.1 as int)
                && p.1 <= s@.len() && (forall|h2: Seq<CellV>, j2: int|
                hist_at(s@, i as int, h2, j2) ==> h2 == crate::protocol::history_view(p.0@) && j2
                    == p.1),
            None => forall|h2: Seq<CellV>, j2: int| !hist_at(s@, i as int, h2, j2),
        }),
{
    let slen = s.len();
    proof {
        reveal_strlit("[");
        reveal_strlit("]");
    }
    let j0 = match eat_lit(s, i, "[") {
        Some(j) => j,
        None => {
            proof {
                assert forall|h2: Seq<CellV>, j2: int| !hist_at(s@, i as int, h2, j2) by {
                    if hist_at(s@, i as int, h2, j2) {
                        assert(jhist(h2) =~= Seq::<char>::empty() + "["@ + (jcells(h2) + "]"@));
                        lemma_part(
                            s@,
                            i as int,
                            j2,
                            Seq::<char>::empty(),
                            "["@,
                            jcells(h2) + "]"@,
                            i as int,
                            i + "["@.len(),
                        );
                    }
                }
            }
            return None;
        },
    };
    if j0 < slen && s[j0] == ']' {
        let out: Vec<Cell> = Vec::new();
        proof {
            assert(jcells(Seq::<CellV>::empty()) == Seq::<char>::empty());
            assert(s@.subrange(i as int, j0 + 1) =~= "["@ + "]"@) by {
                assert(s@.subrange(i as int, j0 as int) == "["@);
                assert(s@.subrange(i as int, j0 + 1)[j0 - i] == s@[(j0 - i) + i]);
                assert(s@[(j0 - i) + i] == s@[j0 as int]);
                assert forall|t: int| 0 <= t < j0 - i implies s@.subrange(i as int, j0 + 1)[t]
                    == "["@[t] by {
                    assert(s@.subrange(i as int, j0 as int)[t] == "["@[t]);
                    assert(s@.subrange(i as int, j0 as int)[t] == s@[t + i]);
                    assert(s@.subrange(i as int, j0 + 1)[t] == s@[t + i]);
                }
            }
            assert(jhist(Seq::<CellV>::empty()) =~= "["@ + "]"@);
            assert(crate::protocol::history_view(out@) =~= Seq::<CellV>::empty());
            assert(hist_at(s@, i as int, crate::protocol::history_view(out@), j0 + 1));
            assert forall|h2: Seq<CellV>, j2: int|
                hist_at(s@, i as int, h2, j2) implies h2 == crate::protocol::history_view(out@)
                && j2 == j0 + 1 by {
                if h2.len() > 0 {
                    assert(precells(Seq::<CellV>::empty()) == Seq::<char>::empty());
                    assert(s@.subrange(i as int, j0 as int) =~= "["@ + precells(
                        Seq::<CellV>::empty(),
                    ));
                    assert(h2.take(0) =~= Seq::<CellV>::empty());
                    lemma_hist_progress(s@, i as int, j0 as int, Seq::<CellV>::empty(), h2, j2);
                    assert(cell_at(s@, j0 as int, h2[0], j0 + jcell(h2[0]).len()));
                    assert(s@.subrange(j0 as int, j0 + jcell(h2[0]).len())[0] == s@[0 + j0]);
                    assert(jcell(h2[0])[0] == '{') by {
                        reveal_strlit("{\"coord\":");
                        assert(jcell(h2[0]) == "{\"coord\":"@ + jcoord(h2[0].coord) + ",\"value\":"@
                            + jtoken(h2[0].value) + "}"@);
                        assert(jcell(h2[0])[0] == "{\"coord\":"@[0]) by {
                            assert((("{\"coord\":"@ + jcoord(h2[0].coord)) + ",\"value\":"@)[0]
                                == "{\"coord\":"@[0]);
                            assert((("{\"coord\":"@ + jcoord(h2[0].coord)) + ",\"value\":"@
                                + jtoken(h2[0].value))[0] == (("{\"coord\":"@ + jcoord(
                                h2[0].coord,
                            )) + ",\"value\":"@)[0]);
                        }
                    }
                } else {
                    assert(h2 =~= Seq::<CellV>::empty());
                    assert(jcells(h2) == Seq::<char>::empty());
                    assert(jhist(h2).len() == 2) by {
                        assert(("["@ + jcells(h2)).len() == 1);
                    }
                }
            }
        }
        return Some((out, j0 + 1));
    }
    let mut acc: Vec<Cell> = Vec::new();
    let mut k: usize = j0;
    proof {
        assert(precells(crate::protocol::history_view(acc@)) == Seq::<char>::empty());
        assert(s@.subrange(i as int, k as int) =~= "["@ + precells(
            crate::protocol::history_view(acc@),
        ));
        assert forall|h2: Seq<CellV>, j2: int|
            hist_at(s@, i as int, h2, j2) implies crate::protocol::history_view(acc@).len()
            < h2.len() && h2.take(crate::protocol::history_view(acc@).len() as int)
            == crate::protocol::history_view(acc@) by {
            if h2.len() == 0 {
                assert(jcells(h2) == Seq::<char>::empty());
                assert(("["@ + jcells(h2)).len() == 1);
                assert(jhist(h2).len() == 2);
                assert(j2 == i + 2);
                assert(s@.subrange(i as int, j2)[1] == s@[1 + i]);
                assert(jhist(h2)[1] == ']') by {
                    assert(jhist(h2)[1] == "]"@[0]);
                }
                assert(s@[j0 as int] == ']');
                assert(j0 < s@.len());
            }
            assert(h2.take(0) =~= crate::protocol::history_view(acc@));
        }
    }
    loop
        invariant
            i <= j0 <= k <= slen,
            slen == s@.len(),
            s@.subrange(i as int, k as int) == "["@ + precells(
                crate::protocol::history_view(acc@),
            ),
            forall|h2: Seq<CellV>, j2: int|
                hist_at(s@, i as int, h2, j2) ==> crate::protocol::history_view(acc@).len()
                    < h2.len() && h2.take(crate::protocol::history_view(acc@).len() as int)
                    == crate::protocol::history_view(acc@),
        decreases slen - k,
    {
        let ghost accv = crate::protocol::history_view(acc@);
        let ghost k0 = k as int;
        let (cell, k2) = match parse_cell(s, k) {
            Some(p) => p,
            None => {
                proof {
                    assert forall|h2: Seq<CellV>, j2: int| !hist_at(s@, i as int, h2, j2) by {
                        if hist_at(s@, i as int, h2, j2) {
                            lemma_hist_progress(s@, i as int, k0, accv, h2, j2);
                        }
                    }
                }
                return None;
            },
        };
        proof {
            assert forall|h2: Seq<CellV>, j2: int|
                hist_at(s@, i as int, h2, j2) implies h2[accv.len() as int] == cell@ && k0 + jcell(
                h2[accv.len() as int],
            ).len() == k2 by {
                lemma_hist_progress(s@, i as int, k0, accv, h2, j2);
            }
        }
        acc.push(cell);
        proof {
            assert(crate::protocol::history_view(acc@) =~= accv.push(cell@));
        }
        if k2 < slen && s[k2] == ',' {
            k = k2 + 1;
            proof {
                let accv2 = crate::protocol::history_view(acc@);
                assert forall|h2: Seq<CellV>, j2: int|
                    hist_at(s@, i as int, h2, j2) implies accv2.len() < h2.len() && h2.take(
                    accv2.len() as int,
                ) == accv2 by {
                    lemma_hist_progress(s@, i as int, k0, accv, h2, j2);
                    if h2.len() == accv.len() + 1 {
                        assert(s@[k0 + jcell(h2[accv.len() as int]).len()] == ']');
                        assert(s@[k2 as int] == ']');
                    }
                    assert(h2.take(accv.len() as int + 1) =~= h2.take(accv.len() as int).push(
                        h2[accv.len() as int],
                    ));
                }
                lemma_consumed_extend(s@, i as int, k0, k2 as int, accv, cell@);
            }
        } else if k2 < slen && s[k2] == ']' {
            proof {
                let accv2 = crate::protocol::history_view(acc@);
                lemma_consumed_close(s@, i as int, k0, k2 as int, accv, cell@);
                assert(hist_at(s@, i as int, accv2, k2 + 1));
                assert forall|h2: Seq<CellV>, j2: int|
                    hist_at(s@, i as int, h2, j2) implies h2 == accv2 && j2 == k2 + 1 by {
                    lemma_hist_progress(s@, i as int, k0, accv, h2, j2);
                    if h2.len() > accv.len() + 1 {
                        assert(s@[k0 + jcell(h2[accv.len() as int]).len()] == ',');
                        assert(s@[k2 as int] == ',');
                    }
                    assert(h2.len() == accv.len() + 1);
                    assert(h2 =~= h2.take(accv.len() as int).push(h2[accv.len() as int]));
                }
            }
            return Some((acc, k2 + 1));
        } else {
            proof {
                assert forall|h2: Seq<CellV>, j2: int| !hist_at(s@, i as int, h2, j2) by {
                    if hist_at(s@, i as int, h2, j2) {
                        lemma_hist_progress(s@, i as int, k0, accv, h2, j2);
                        if h2.len() == accv.len() + 1 {
                            assert(s@[k0 + jcell(h2[accv.len() as int]).len()] == ']');
                            assert(s@[k2 as int] == ']');
                            assert(j2 == k2 + 1);
                        } else {
                            assert(s@[k0 + jcell(h2[accv.len() as int]).len()] == ',');
                            assert(s@[k2 as int] == ',');
                        }
                    }
                }
            }
            return None;
        }
    }
}

/// The discriminant chunk that follows the frame opening for each
/// server message variant, closing quote and following syntax included.
pub open spec fn spec_tag(v: ServerMessageV) -> Seq<char> {
    match v {
        ServerMessageV::Connected(_) => "Connected\",\"data\":"@,
        ServerMessageV::Disconnected(_) => "Disconnected\",\"data\":"@,
        ServerMessageV::Move { .. } => "Move\",\"data\":{\"Cell\":"@,
        ServerMessageV::Win { .. } => "Win\",\"data\":{\"Player\":"@,
        ServerMessageV::SetCell(_) => "SetCell\",\"data\":"@,
        ServerMessageV::SetSession { .. } => "SetSession\",\"data\":{\"session\":"@,
        ServerMessageV::Clean => "Clean\"}"@,
    }
}

/// Two literals at one position agree on every index both cover.
proof fn lemma_tags_agree(s: Seq<char>, j0: int, a: Seq<char>, b: Seq<char>, d: int)
    requires
        lit_at(s, j0, a),
        lit_at(s, j0, b),
        0 <= d < a.len(),
        d < b.len(),
    ensures
        a[d] == b[d],
{
    assert(s.subrange(j0, j0 + a.len())[d] == s[d + j0]);
    assert(s.subrange(j0, j0 + b.len())[d] == s[d + j0]);
}

/// A frame that opens with the header, a chunk, and a remainder
/// shows the header and the chunk at their positions.
proof fn lemma_frame_open(s: Seq<char>, tg: Seq<char>, rest: Seq<char>)
    requires
        s == "{\"message\":\""@ + (tg + rest),
    ensures
        lit_at(s, 0, "{\"message\":\""@),
        lit_at(s, "{\"message\":\""@.len() as int, tg),
{
    let h = "{\"message\":\""@;
    assert(s.subrange(0, s.len() as int) =~= s);
    assert(s =~= (Seq::<char>::empty() + h) + (tg + rest));
    lemma_part(s, 0, s.len() as int, Seq::<char>::empty(), h, tg + rest, 0, h.len() as int);
    assert(s =~= (h + tg) + rest);
    lemma_part(s, 0, s.len() as int, h, tg, rest, h.len() as int, h.len() as int + tg.len());
}

/// The frame of this variant opens with the header and its chunk.
proof fn lemma_frame_tag_connected(s: Seq<char>, v: ServerMessageV)
    requires
        v matches ServerMessageV::Connected(p),
        spec_server_frame(v) == s,
    ensures
        lit_at(s, 0, "{\"message\":\""@),
        lit_at(s, "{\"message\":\""@.len() as int, spec_tag(v)),
{
    let h = "{\"message\":\""@;
    let tg = spec_tag(v);
    match v {
        ServerMessageV::Connected(p) => {
            assert(s =~= h + (tg + (jplayer(p) + "}"@)));
            lemma_frame_open(s, tg, jplayer(p) + "}"@);
        },
        _ => {},
    }
}

/// The frame of this variant opens with the header and its chunk.
proof fn lemma_frame_tag_disconnected(s: Seq<char>, v: ServerMessageV)
    requires
        v matches ServerMessageV::Disconnected(p),
        spec_server_frame(v) == s,
    ensures
        lit_at(s, 0, "{\"message\":\""@),
        lit_at(s, "{\"message\":\""@.len() as int, spec_tag(v)),
{
    let h = "{\"message\":\""@;
    let tg = spec_tag(v);
    match v {
        ServerMessageV::Disconnected(p) => {
            assert(s =~= h + (tg + (jplayer(p) + "}"@)));
            lemma_frame_open(s, tg, jplayer(p) + "}"@);
        },
        _ => {},
    }
}

/// The frame of this variant opens with the header and its chunk.
proof fn lemma_frame_tag_move_msg(s: Seq<char>, v: ServerMessageV)
    requires
        v matches ServerMessageV::Move { cell },
        spec_server_frame(v) == s,
    ensures
        lit_at(s, 0, "{\"message\":\""@),
        lit_at(s, "{\"message\":\""@.len() as int, spec_tag(v)),
{
    let h = "{\"message\":\""@;
    let tg = spec_tag(v);
    match v {
        ServerMessageV::Move { cell } => {
            assert(s =~= h + (tg + (jcell(cell) + "}}"@)));
            lemma_frame_open(s, tg, jcell(cell) + "}}"@);
        },
        _ => {},
    }
}

/// The frame of this variant opens with the header and its chunk.
proof fn lemma_frame_tag_win(s: Seq<char>, v: ServerMessageV)
    requires
        v matches ServerMessageV::Win { player },
        spec_server_frame(v) == s,
    ensures
        lit_at(s, 0, "{\"message\":\""@),
        lit_at(s, "{\"message\":\""@.len() as int, spec_tag(v)),
{
    let h = "{\"message\":\""@;
    let tg = spec_tag(v);
    match v {
        ServerMessageV::Win { player } => {
            assert(s =~= h + (tg + (jstr(player) + "}}"@)));
            lemma_frame_open(s, tg, jstr(player) + "}}"@);
        },
        _ => {},
    }
}

/// The frame of this variant opens with the header and its chunk.
proof fn lemma_frame_tag_setcell(s: Seq<char>, v: ServerMessageV)
    requires
        v matches ServerMessageV::SetCell(cell),
        spec_server_frame(v) == s,
    ensures
        lit_at(s, 0, "{\"message\":\""@),
        lit_at(s, "{\"message\":\""@.len() as int, spec_tag(v)),
{
    let h = "{\"message\":\""@;
    let tg = spec_tag(v);
    match v {
        ServerMessageV::SetCell(cell) => {
            assert(s =~= h + (tg + (jcell(cell) + "}"@)));
            lemma_frame_open(s, tg, jcell(cell) + "}"@);
        },
        _ => {},
    }
}

/// The frame of this variant opens with the header and its chunk.
proof fn lemma_frame_tag_setsession(s: Seq<char>, v: ServerMessageV)
    requires
        v matches ServerMessageV::SetSession { .. },
        spec_server_frame(v) == s,
    ensures
        lit_at(s, 0, "{\"message\":\""@),
        lit_at(s, "{\"message\":\""@.len() as int, spec_tag(v)),
{
    let h = "{\"message\":\""@;
    let tg = spec_tag(v);
    match v {
        ServerMessageV::SetSession { session, history, player } => {
            let rest = jstr(session) + ",\"history\":"@ + jhist(history) + ",\"me\":"@
                + jplayer(player) + "}}"@;
            assert(s =~= h + (tg + rest));
            lemma_frame_open(s, tg, rest);
        },
        _ => {},
    }
}

/// The frame of this variant opens with the header and its chunk.
proof fn lemma_frame_tag_clean(s: Seq<char>, v: ServerMessageV)
    requires
        v matches ServerMessageV::Clean,
        spec_server_frame(v) == s,
    ensures
        lit_at(s, 0, "{\"message\":\""@),
        lit_at(s, "{\"message\":\""@.len() as int, spec_tag(v)),
{
    let tg = spec_tag(v);
    assert(s =~= "{\"message\":\""@ + (tg + Seq::<char>::empty()));
    lemma_frame_open(s, tg, Seq::<char>::empty());
}

/// Every canonical server frame opens with the frame header and its
/// variant's discriminant chunk.
proof fn lemma_frame_tag(s: Seq<char>, v: ServerMessageV)
    requires
        spec_server_frame(v) == s,
    ensures
        lit_at(s, 0, "{\"message\":\""@),
        lit_at(s, "{\"message\":\""@.len() as int, spec_tag(v)),
{
    match v {
        ServerMessageV::Connected(_) => lemma_frame_tag_connected(s, v),
        ServerMessageV::Disconnected(_) => lemma_frame_tag_disconnected(s, v),
        ServerMessageV::Move { .. } => lemma_frame_tag_move_msg(s, v),
        ServerMessageV::Win { .. } => lemma_frame_tag_win(s, v),
        ServerMessageV::SetCell(_) => lemma_frame_tag_setcell(s, v),
        ServerMessageV::SetSession { .. } => lemma_frame_tag_setsession(s, v),
        ServerMessageV::Clean => lemma_frame_tag_clean(s, v),
    }
}

/// A recognized discriminant chunk agrees with the candidate
/// variant's chunk on every index both cover.
proof fn lemma_tag_agrees(s: Seq<char>, a: Seq<char>, v2: ServerMessageV, d: int)
    requires
        lit_at(s, "{\"message\":\""@.len() as int, a),
        spec_server_frame(v2) == s,
        0 <= d < a.len(),
        d < spec_tag(v2).len(),
    ensures
        a[d] == spec_tag(v2)[d],
{
    lemma_frame_tag(s, v2);
    lemma_tags_agree(s, "{\"message\":\""@.len() as int, a, spec_tag(v2), d);
}


/// A frame carrying the `Connected` discriminant is a `Connected` frame,
/// with its payload parts at fixed positions.
#[verifier::rlimit(100)]
proof fn lemma_cand_connected(s: Seq<char>, v2: ServerMessageV)
    requires
        lit_at(s, "{\"message\":\""@.len() as int, "Connected\",\"data\":"@),
        spec_server_frame(v2) == s,
    ensures
        v2 is Connected,
        (v2 matches ServerMessageV::Connected(p2) ==> {
            &&& player_at(s, "{\"message\":\""@.len() as int + "Connected\",\"data\":"@.len(), p2, s.len() - 1)
            &&& lit_at(s, s.len() - 1, "}"@)
            &&& s.len() - 1 == "{\"message\":\""@.len() as int + "Connected\",\"data\":"@.len() + jplayer(p2).len()
        }),
{
    reveal_strlit("Connected\",\"data\":");
    reveal_strlit("Disconnected\",\"data\":");
    reveal_strlit("Move\",\"data\":{\"Cell\":");
    reveal_strlit("Win\",\"data\":{\"Player\":");
    reveal_strlit("SetCell\",\"data\":");
    reveal_strlit("SetSession\",\"data\":{\"session\":");
    reveal_strlit("Clean\"}");
    match v2 {
        ServerMessageV::Connected(p2) => {
            let h = "{\"message\":\""@;
            let tg = "Connected\",\"data\":"@;
            let pl = jplayer(p2);
            reveal_strlit("}");
            assert(s.subrange(0, s.len() as int) =~= s);
            assert((tg + pl).len() == tg.len() + pl.len());
            assert((tg + pl + "}"@).len() == tg.len() + pl.len() + 1);
            assert(s.len() == h.len() + tg.len() + pl.len() + 1) by {
                assert(s.len() == (h + (tg + pl + "}"@)).len());
            }
            assert(s =~= (h + tg) + pl + "}"@);
            lemma_part(
                s,
                0,
                s.len() as int,
                h + tg,
                pl,
                "}"@,
                h.len() as int + tg.len(),
                s.len() - 1,
            );
            assert(s =~= ((h + tg) + pl) + "}"@ + Seq::<char>::empty());
            lemma_part(
                s,
                0,
                s.len() as int,
                (h + tg) + pl,
                "}"@,
                Seq::<char>::empty(),
                s.len() - 1,
                s.len() - 1 + "}"@.len(),
            );
        },
        ServerMessageV::Disconnected(p2) => {
            lemma_tag_agrees(s, "Connected\",\"data\":"@, v2, 0);
        },
        ServerMessageV::Move { cell: c2 } => {
            lemma_tag_agrees(s, "Connected\",\"data\":"@, v2, 0);
        },
        ServerMessageV::Win { player: w2 } => {
            lemma_tag_agrees(s, "Connected\",\"data\":"@, v2, 0);
        },
        ServerMessageV::SetCell(c2) => {
            lemma_tag_agrees(s, "Connected\",\"data\":"@, v2, 0);
        },
        ServerMessageV::SetSession { session: se2, history: hi2, player: pl2 } => {
            lemma_tag_agrees(s, "Connected\",\"data\":"@, v2, 0);
        },
        ServerMessageV::Clean => {
            lemma_tag_agrees(s, "Connected\",\"data\":"@, v2, 1);
        },
    }
}


/// A frame carrying the `Disconnected` discriminant is a `Disconnected` frame,
/// with its payload parts at fixed positions.
#[verifier::rlimit(100)]
proof fn lemma_cand_disconnected(s: Seq<char>, v2: ServerMessageV)
    requires
        lit_at(s, "{\"message\":\""@.len() as int, "Disconnected\",\"data\":"@),
        spec_server_frame(v2) == s,
    ensures
        v2 is Disconnected,
        (v2 matches ServerMessageV::Disconnected(p2) ==> {
            &&& player_at(s, "{\"message\":\""@.len() as int + "Disconnected\",\"data\":"@.len(), p2, s.len() - 1)
            &&& lit_at(s, s.len() - 1, "}"@)
            &&& s.len() - 1 == "{\"message\":\""@.len() as int + "Disconnected\",\"data\":"@.len() + jplayer(p2).len()
        }),
{
    reveal_strlit("Connected\",\"data\":");
    reveal_strlit("Disconnected\",\"data\":");
    reveal_strlit("Move\",\"data\":{\"Cell\":");
    reveal_strlit("Win\",\"data\":{\"Player\":");
    reveal_strlit("SetCell\",\"data\":");
    reveal_strlit("SetSession\",\"data\":{\"session\":");
    reveal_strlit("Clean\"}");
    match v2 {
        ServerMessageV::Disconnected(p2) => {
            let h = "{\"message\":\""@;
            let tg = "Disconnected\",\"data\":"@;
            let pl = jplayer(p2);
            reveal_strlit("}");
            assert(s.subrange(0, s.len() as int) =~= s);
            assert((tg + pl).len() == tg.len() + pl.len());
            assert((tg + pl + "}"@).len() == tg.len() + pl.len() + 1);
            assert(s.len() == h.len() + tg.len() + pl.len() + 1) by {
                assert(s.len() == (h + (tg + pl + "}"@)).len());
            }
            assert(s =~= (h + tg) + pl + "}"@);
            lemma_part(
                s,
                0,
                s.len() as int,
                h + tg,
                pl,
                "}"@,
                h.len() as int + tg.len(),
                s.len() - 1,
            );
            assert(s =~= ((h + tg) + pl) + "}"@ + Seq::<char>::empty());
            lemma_part(
                s,
                0,
                s.len() as int,
                (h + tg) + pl,
                "}"@,
                Seq::<char>::empty(),
                s.len() - 1,
                s.len() - 1 + "}"@.len(),
            );
        },
        ServerMessageV::Connected(p2) => {
            lemma_tag_agrees(s, "Disconnected\",\"data\":"@, v2, 0);
        },
        ServerMessageV::Move { cell: c2 } => {
            lemma_tag_agrees(s, "Disconnected\",\"data\":"@, v2, 0);
        },
        ServerMessageV::Win { player: w2 } => {
            lemma_tag_agrees(s, "Disconnected\",\"data\":"@, v2, 0);
        },
        ServerMessageV::SetCell(c2) => {
            lemma_tag_agrees(s, "Disconnected\",\"data\":"@, v2, 0);
        },
        ServerMessageV::SetSession { session: se2, history: hi2, player: pl2 } => {
            lemma_tag_agrees(s, "Disconnected\",\"data\":"@, v2, 0);
        },
        ServerMessageV::Clean => {
            lemma_tag_agrees(s, "Disconnected\",\"data\":"@, v2, 0);
        },
    }
}


/// A frame carrying the `Move` discriminant is a `Move` frame,
/// with its payload parts at fixed positions.
#[verifier::rlimit(100)]
proof fn lemma_cand_move(s: Seq<char>, v2: ServerMessageV)
    requires
        lit_at(s, "{\"message\":\""@.len() as int, "Move\",\"data\":{\"Cell\":"@),
        spec_server_frame(v2) == s,
    ensures
        v2 is Move,
        (v2 matches ServerMessageV::Move { cell: c2 } ==> {
            &&& cell_at(s, "{\"message\":\""@.len() as int + "Move\",\"data\":{\"Cell\":"@.len(), c2, s.len() - 2)
            &&& lit_at(s, s.len() - 2, "}}"@)
            &&& s.len() - 2 == "{\"message\":\""@.len() as int + "Move\",\"data\":{\"Cell\":"@.len() + jcell(c2).len()
        }),
{
    reveal_strlit("Connected\",\"data\":");
    reveal_strlit("Disconnected\",\"data\":");
    reveal_strlit("Move\",\"data\":{\"Cell\":");
    reveal_strlit("Win\",\"data\":{\"Player\":");
    reveal_strlit("SetCell\",\"data\":");
    reveal_strlit("SetSession\",\"data\":{\"session\":");
    reveal_strlit("Clean\"}");
    match v2 {
        ServerMessageV::Move { cell: c2 } => {
            let h = "{\"message\":\""@;
            let tg = "Move\",\"data\":{\"Cell\":"@;
            let pl = jcell(c2);
            reveal_strlit("}}");
            assert(s.subrange(0, s.len() as int) =~= s);
            assert((tg + pl).len() == tg.len() + pl.len());
            assert((tg + pl + "}}"@).len() == tg.len() + pl.len() + 2);
            assert(s.len() == h.len() + tg.len() + pl.len() + 2) by {
                assert(s.len() == (h + (tg + pl + "}}"@)).len());
            }
            assert(s =~= (h + tg) + pl + "}}"@);
            lemma_part(
                s,
                0,
                s.len() as int,
                h + tg,
                pl,
                "}}"@,
                h.len() as int + tg.len(),
                s.len() - 2,
            );
            assert(s =~= ((h + tg) + pl) + "}}"@ + Seq::<char>::empty());
            lemma_part(
                s,
                0,
                s.len() as int,
                (h + tg) + pl,
                "}}"@,
                Seq::<char>::empty(),
                s.len() - 2,
                s.len() - 2 + "}}"@.len(),
            );
        },
        ServerMessageV::Connected(p2) => {
            lemma_tag_agrees(s, "Move\",\"data\":{\"Cell\":"@, v2, 0);
        },
        ServerMessageV::Disconnected(p2) => {
            lemma_tag_agrees(s, "Move\",\"data\":{\"Cell\":"@, v2, 0);
        },
        ServerMessageV::Win { player: w2 } => {
            lemma_tag_agrees(s, "Move\",\"data\":{\"Cell\":"@, v2, 0);
        },
        ServerMessageV::SetCell(c2) => {
            lemma_tag_agrees(s, "Move\",\"data\":{\"Cell\":"@, v2, 0);
        },
        ServerMessageV::SetSession { session: se2, history: hi2, player: pl2 } => {
            lemma_tag_agrees(s, "Move\",\"data\":{\"Cell\":"@, v2, 0);
        },
        ServerMessageV::Clean => {
            lemma_tag_agrees(s, "Move\",\"data\":{\"Cell\":"@, v2, 0);
        },
    }
}


/// A frame carrying the `Win` discriminant is a `Win` frame,
/// with its payload parts at fixed positions.
#[verifier::rlimit(100)]
proof fn lemma_cand_win(s: Seq<char>, v2: ServerMessageV)
    requires
        lit_at(s, "{\"message\":\""@.len() as int, "Win\",\"data\":{\"Player\":"@),
        spec_server_frame(v2) == s,
    ensures
        v2 is Win,
        (v2 matches ServerMessageV::Win { player: w2 } ==> {
            &&& str_at(s, "{\"message\":\""@.len() as int + "Win\",\"data\":{\"Player\":"@.len(), w2, s.len() - 2)
            &&& lit_at(s, s.len() - 2, "}}"@)
            &&& s.len() - 2 == "{\"message\":\""@.len() as int + "Win\",\"data\":{\"Player\":"@.len() + jstr(w2).len()
        }),
{
    reveal_strlit("Connected\",\"data\":");
    reveal_strlit("Disconnected\",\"data\":");
    reveal_strlit("Move\",\"data\":{\"Cell\":");
    reveal_strlit("Win\",\"data\":{\"Player\":");
    reveal_strlit("SetCell\",\"data\":");
    reveal_strlit("SetSession\",\"data\":{\"session\":");
    reveal_strlit("Clean\"}");
    match v2 {
        ServerMessageV::Win { player: w2 } => {
            let h = "{\"message\":\""@;
            let tg = "Win\",\"data\":{\"Player\":"@;
            let pl = jstr(w2);
            reveal_strlit("}}");
            assert(s.subrange(0, s.len() as int) =~= s);
            assert((tg + pl).len() == tg.len() + pl.len());
            assert((tg + pl + "}}"@).len() == tg.len() + pl.len() + 2);
            assert(s.len() == h.len() + tg.len() + pl.len() + 2) by {
                assert(s.len() == (h + (tg + pl + "}}"@)).len());
            }
            assert(s =~= (h + tg) + pl + "}}"@);
            lemma_part(
                s,
                0,
                s.len() as int,
                h + tg,
                pl,
                "}}"@,
                h.len() as int + tg.len(),
                s.len() - 2,
            );
            assert(s =~= ((h + tg) + pl) + "}}"@ + Seq::<char>::empty());
            lemma_part(
                s,
                0,
                s.len() as int,
                (h + tg) + pl,
                "}}"@,
                Seq::<char>::empty(),
                s.len() - 2,
                s.len() - 2 + "}}"@.len(),
            );
        },
        ServerMessageV::Connected(p2) => {
            lemma_tag_agrees(s, "Win\",\"data\":{\"Player\":"@, v2, 0);
        },
        ServerMessageV::Disconnected(p2) => {
            lemma_tag_agrees(s, "Win\",\"data\":{\"Player\":"@, v2, 0);
        },
        ServerMessageV::Move { cell: c2 } => {
            lemma_tag_agrees(s, "Win\",\"data\":{\"Player\":"@, v2, 0);
        },
        ServerMessageV::SetCell(c2) => {
            lemma_tag_agrees(s, "Win\",\"data\":{\"Player\":"@, v2, 0);
        },
        ServerMessageV::SetSession { session: se2, history: hi2, player: pl2 } => {
            lemma_tag_agrees(s, "Win\",\"data\":{\"Player\":"@, v2, 0);
        },
        ServerMessageV::Clean => {
            lemma_tag_agrees(s, "Win\",\"data\":{\"Player\":"@, v2, 0);
        },
    }
}


/// A frame carrying the `SetCell` discriminant is a `SetCell` frame,
/// with its payload parts at fixed positions.
#[verifier::rlimit(100)]
proof fn lemma_cand_setcell(s: Seq<char>, v2: ServerMessageV)
    requires
        lit_at(s, "{\"message\":\""@.len() as int, "SetCell\",\"data\":"@),
        spec_server_frame(v2) == s,
    ensures
        v2 is SetCell,
        (v2 matches ServerMessageV::SetCell(c2) ==> {
            &&& cell_at(s, "{\"message\":\""@.len() as int + "SetCell\",\"data\":"@.len(), c2, s.len() - 1)
            &&& lit_at(s, s.len() - 1, "}"@)
            &&& s.len() - 1 == "{\"message\":\""@.len() as int + "SetCell\",\"data\":"@.len() + jcell(c2).len()
        }),
{
    reveal_strlit("Connected\",\"data\":");
    reveal_strlit("Disconnected\",\"data\":");
    reveal_strlit("Move\",\"data\":{\"Cell\":");
    reveal_strlit("Win\",\"data\":{\"Player\":");
    reveal_strlit("SetCell\",\"data\":");
    reveal_strlit("SetSession\",\"data\":{\"session\":");
    reveal_strlit("Clean\"}");
    match v2 {
        ServerMessageV::SetCell(c2) => {
            let h = "{\"message\":\""@;
            let tg = "SetCell\",\"data\":"@;
            let pl = jcell(c2);
            reveal_strlit("}");
            assert(s.subrange(0, s.len() as int) =~= s);
            assert((tg + pl).len() == tg.len() + pl.len());
            assert((tg + pl + "}"@).len() == tg.len() + pl.len() + 1);
            assert(s.len() == h.len() + tg.len() + pl.len() + 1) by {
                assert(s.len() == (h + (tg + pl + "}"@)).len());
            }
            assert(s =~= (h + tg) + pl + "}"@);
            lemma_part(
                s,
                0,
                s.len() as int,
                h + tg,
                pl,
                "}"@,
                h.len() as int + tg.len(),
                s.len() - 1,
            );
            assert(s =~= ((h + tg) + pl) + "}"@ + Seq::<char>::empty());
            lemma_part(
                s,
                0,
                s.len() as int,
                (h + tg) + pl,
                "}"@,
                Seq::<char>::empty(),
                s.len() - 1,
                s.len() - 1 + "}"@.len(),
            );
        },
        ServerMessageV::Connected(p2) => {
            lemma_tag_agrees(s, "SetCell\",\"data\":"@, v2, 0);
        },
        ServerMessageV::Disconnected(p2) => {
            lemma_tag_agrees(s, "SetCell\",\"data\":"@, v2, 0);
        },
        ServerMessageV::Move { cell: c2 } => {
            lemma_tag_agrees(s, "SetCell\",\"data\":"@, v2, 0);
        },
        ServerMessageV::Win { player: w2 } => {
            lemma_tag_agrees(s, "SetCell\",\"data\":"@, v2, 0);
        },
        ServerMessageV::SetSession { session: se2, history: hi2, player: pl2 } => {
            lemma_tag_agrees(s, "SetCell\",\"data\":"@, v2, 3);
        },
        ServerMessageV::Clean => {
            lemma_tag_agrees(s, "SetCell\",\"data\":"@, v2, 0);
        },
    }
}


/// A frame carrying the `Clean` discriminant is the `Clean` frame.
proof fn lemma_cand_clean(s: Seq<char>, v2: ServerMessageV)
    requires
        lit_at(s, "{\"message\":\""@.len() as int, "Clean\"}"@),
        spec_server_frame(v2) == s,
    ensures
        v2 is Clean,
        s.len() == "{\"message\":\""@.len() + "Clean\"}"@.len(),
{
    reveal_strlit("Connected\",\"data\":");
    reveal_strlit("Disconnected\",\"data\":");
    reveal_strlit("Move\",\"data\":{\"Cell\":");
    reveal_strlit("Win\",\"data\":{\"Player\":");
    reveal_strlit("SetCell\",\"data\":");
    reveal_strlit("SetSession\",\"data\":{\"session\":");
    reveal_strlit("Clean\"}");
    match v2 {
        ServerMessageV::Clean => {
            assert(s.len() == ("{\"message\":\""@ + "Clean\"}"@).len());
        },
        ServerMessageV::Connected(p2) => {
            lemma_tag_agrees(s, "Clean\"}"@, v2, 1);
        },
        ServerMessageV::Disconnected(p2) => {
            lemma_tag_agrees(s, "Clean\"}"@, v2, 0);
        },
        ServerMessageV::Move { cell: c2 } => {
            lemma_tag_agrees(s, "Clean\"}"@, v2, 0);
        },
        ServerMessageV::Win { player: w2 } => {
            lemma_tag_agrees(s, "Clean\"}"@, v2, 0);
        },
        ServerMessageV::SetCell(c2) => {
            lemma_tag_agrees(s, "Clean\"}"@, v2, 0);
        },
        ServerMessageV::SetSession { session: se2, history: hi2, player: pl2 } => {
            lemma_tag_agrees(s, "Clean\"}"@, v2, 0);
        },
    }
}

/// A frame carrying the `SetSession` discriminant is a `SetSession`
/// frame, with its payload parts at fixed positions.
#[verifier::rlimit(100)]
proof fn lemma_cand_setsession(s: Seq<char>, v2: ServerMessageV)
    requires
        lit_at(s, "{\"message\":\""@.len() as int, "SetSession\",\"data\":{\"session\":"@),
        spec_server_frame(v2) == s,
    ensures
        v2 is SetSession,
        (v2 matches ServerMessageV::SetSession { session: se2, history: hi2, player: pl2 } ==> {
            &&& str_at(
                s,
                "{\"message\":\""@.len() as int + "SetSession\",\"data\":{\"session\":"@.len(),
                se2,
                "{\"message\":\""@.len() as int + "SetSession\",\"data\":{\"session\":"@.len()
                    + jstr(se2).len(),
            )
            &&& lit_at(
                s,
                "{\"message\":\""@.len() as int + "SetSession\",\"data\":{\"session\":"@.len()
                    + jstr(se2).len(),
                ",\"history\":"@,
            )
            &&& hist_at(
                s,
                "{\"message\":\""@.len() as int + "SetSession\",\"data\":{\"session\":"@.len()
                    + jstr(se2).len() + ",\"history\":"@.len(),
                hi2,
                "{\"message\":\""@.len() as int + "SetSession\",\"data\":{\"session\":"@.len()
                    + jstr(se2).len() + ",\"history\":"@.len() + jhist(hi2).len(),
            )
            &&& lit_at(
                s,
                "{\"message\":\""@.len() as int + "SetSession\",\"data\":{\"session\":"@.len()
                    + jstr(se2).len() + ",\"history\":"@.len() + jhist(hi2).len(),
                ",\"me\":"@,
            )
            &&& player_at(
                s,
                "{\"message\":\""@.len() as int + "SetSession\",\"data\":{\"session\":"@.len()
                    + jstr(se2).len() + ",\"history\":"@.len() + jhist(hi2).len()
                    + ",\"me\":"@.len(),
                pl2,
                s.len() - 2,
            )
            &&& lit_at(s, s.len() - 2, "}}"@)
            &&& s.len() - 2 == "{\"message\":\""@.len() as int
                + "SetSession\",\"data\":{\"session\":"@.len() + jstr(se2).len()
                + ",\"history\":"@.len() + jhist(hi2).len() + ",\"me\":"@.len() + jplayer(
                pl2,
            ).len()
        }),
{
    reveal_strlit("Connected\",\"data\":");
    reveal_strlit("Disconnected\",\"data\":");
    reveal_strlit("Move\",\"data\":{\"Cell\":");
    reveal_strlit("Win\",\"data\":{\"Player\":");
    reveal_strlit("SetCell\",\"data\":");
    reveal_strlit("SetSession\",\"data\":{\"session\":");
    reveal_strlit("Clean\"}");
    match v2 {
        ServerMessageV::SetSession { session: se2, history: hi2, player: pl2 } => {
            let h = "{\"message\":\""@;
            let tg = "SetSession\",\"data\":{\"session\":"@;
            let a1 = jstr(se2);
            let a2 = ",\"history\":"@;
            let a3 = jhist(hi2);
            let a4 = ",\"me\":"@;
            let a5 = jplayer(pl2);
            let a6 = "}}"@;
            reveal_strlit("}}");
            assert(s.subrange(0, s.len() as int) =~= s);
            assert((tg + a1).len() == tg.len() + a1.len());
            assert((tg + a1 + a2).len() == tg.len() + a1.len() + a2.len());
            assert((tg + a1 + a2 + a3).len() == tg.len() + a1.len() + a2.len() + a3.len());
            assert((tg + a1 + a2 + a3 + a4).len() == tg.len() + a1.len() + a2.len() + a3.len()
                + a4.len());
            assert((tg + a1 + a2 + a3 + a4 + a5).len() == tg.len() + a1.len() + a2.len() + a3.len()
                + a4.len() + a5.len());
            assert((tg + a1 + a2 + a3 + a4 + a5 + a6).len() == tg.len() + a1.len() + a2.len()
                + a3.len() + a4.len() + a5.len() + 2);
            assert(s.len() == h.len() + tg.len() + a1.len() + a2.len() + a3.len() + a4.len()
                + a5.len() + 2) by {
                assert(s.len() == (h + (tg + a1 + a2 + a3 + a4 + a5 + a6)).len());
            }
            assert(s =~= (h + tg) + a1 + (a2 + a3 + a4 + a5 + a6));
            lemma_part(
                s,
                0,
                s.len() as int,
                h + tg,
                a1,
                a2 + a3 + a4 + a5 + a6,
                h.len() as int + tg.len(),
                h.len() as int + tg.len() + a1.len(),
            );
            assert(s =~= ((h + tg) + a1) + a2 + (a3 + a4 + a5 + a6));
            lemma_part(
                s,
                0,
                s.len() as int,
                (h + tg) + a1,
                a2,
                a3 + a4 + a5 + a6,
                h.len() as int + tg.len() + a1.len(),
                h.len() as int + tg.len() + a1.len() + a2.len(),
            );
            assert(s =~= (((h + tg) + a1) + a2) + a3 + (a4 + a5 + a6));
            lemma_part(
                s,
                0,
                s.len() as int,
                ((h + tg) + a1) + a2,
                a3,
                a4 + a5 + a6,
                h.len() as int + tg.len() + a1.len() + a2.len(),
                h.len() as int + tg.len() + a1.len() + a2.len() + a3.len(),
            );
            assert(s =~= ((((h + tg) + a1) + a2) + a3) + a4 + (a5 + a6));
            lemma_part(
                s,
                0,
                s.len() as int,
                (((h + tg) + a1) + a2) + a3,
                a4,
                a5 + a6,
                h.len() as int + tg.len() + a1.len() + a2.len() + a3.len(),
                h.len() as int + tg.len() + a1.len() + a2.len() + a3.len() + a4.len(),
            );
            assert(s =~= (((((h + tg) + a1) + a2) + a3) + a4) + a5 + a6);
            lemma_part(
                s,
                0,
                s.len() as int,
                ((((h + tg) + a1) + a2) + a3) + a4,
                a5,
                a6,
                h.len() as int + tg.len() + a1.len() + a2.len() + a3.len() + a4.len(),
                s.len() - 2,
            );
            assert(s =~= ((((((h + tg) + a1) + a2) + a3) + a4) + a5) + a6 + Seq::<char>::empty());
            lemma_part(
                s,
                0,
                s.len() as int,
                (((((h + tg) + a1) + a2) + a3) + a4) + a5,
                a6,
                Seq::<char>::empty(),
                s.len() - 2,
                s.len() - 2 + a6.len(),
            );
        },
        ServerMessageV::Connected(_) => {
            lemma_tag_agrees(s, "SetSession\",\"data\":{\"session\":"@, v2, 0);
        },
        ServerMessageV::Disconnected(_) => {
            lemma_tag_agrees(s, "SetSession\",\"data\":{\"session\":"@, v2, 0);
        },
        ServerMessageV::Move { .. } => {
            lemma_tag_agrees(s, "SetSession\",\"data\":{\"session\":"@, v2, 0);
        },
        ServerMessageV::Win { .. } => {
            lemma_tag_agrees(s, "SetSession\",\"data\":{\"session\":"@, v2, 0);
        },
        ServerMessageV::SetCell(_) => {
            lemma_tag_agrees(s, "SetSession\",\"data\":{\"session\":"@, v2, 3);
        },
        ServerMessageV::Clean => {
            lemma_tag_agrees(s, "SetSession\",\"data\":{\"session\":"@, v2, 0);
        },
    }
}


/// Decodes the payload of a frame whose discriminant is already
/// recognized.
#[verifier::rlimit(100)]
fn decode_connected(cs: &Vec<char>, j0: usize, j1: usize) -> (r: Result<ServerMessage, DecodeError>)
    requires
        lit_at(cs@, 0, "{\"message\":\""@),
        j0 == "{\"message\":\""@.len(),
        lit_at(cs@, j0 as int, "Connected\",\"data\":"@),
        j1 == j0 + "Connected\",\"data\":"@.len(),
    ensures
        (match r {
            Ok(m) => cs@ == spec_server_frame(m@) && (forall|v2: ServerMessageV|
                spec_server_frame(v2) == cs@ ==> v2 == m@),
            Err(_) => forall|v2: ServerMessageV| spec_server_frame(v2) != cs@,
        }),
{
    let slen = cs.len();
    proof {
        assert(cs@.subrange(0, j0 as int) =~= cs@.subrange(0, 0 + "{\"message\":\""@.len() as int));
        assert(cs@.subrange(j0 as int, j1 as int) =~= cs@.subrange(
            j0 as int,
            j0 as int + "Connected\",\"data\":"@.len(),
        ));
    }
    let (payload, j2) = match parse_player(cs, j1) {
        Some(p) => p,
        None => {
            proof {
                reveal_strlit("}");
                reveal_strlit("}}");
                assert forall|v2: ServerMessageV| spec_server_frame(v2) != cs@ by {
                    if spec_server_frame(v2) == cs@ {
                        lemma_cand_connected(cs@, v2);
                    }
                }
            }
            return Err(DecodeError);
        },
    };
    let j3 = match eat_lit(cs, j2, "}") {
        Some(j) => j,
        None => {
            proof {
                reveal_strlit("}");
                reveal_strlit("}}");
                assert forall|v2: ServerMessageV| spec_server_frame(v2) != cs@ by {
                    if spec_server_frame(v2) == cs@ {
                        lemma_cand_connected(cs@, v2);
                    }
                }
            }
            return Err(DecodeError);
        },
    };
    if j3 != slen {
        proof {
            reveal_strlit("}");
            reveal_strlit("}}");
            assert forall|v2: ServerMessageV| spec_server_frame(v2) != cs@ by {
                if spec_server_frame(v2) == cs@ {
                    lemma_cand_connected(cs@, v2);
                }
            }
        }
        return Err(DecodeError);
    }
    let m = ServerMessage::Connected(payload);
    proof {
        let h = "{\"message\":\""@;
        let tg = "Connected\",\"data\":"@;
        lemma_join2(cs@, 0, j0 as int, j1 as int, h, tg);
        lemma_join2(cs@, 0, j1 as int, j2 as int, h + tg, jplayer(payload@));
        lemma_join2(cs@, 0, j2 as int, j3 as int, (h + tg) + jplayer(payload@), "}"@);
        assert(cs@.subrange(0, slen as int) =~= cs@);
        assert(spec_server_frame(m@) =~= ((h + tg) + jplayer(payload@)) + "}"@);
        assert(cs@ == spec_server_frame(m@));
        assert forall|v2: ServerMessageV| spec_server_frame(v2) == cs@ implies v2 == m@ by {
            lemma_cand_connected(cs@, v2);
            assert(v2 =~~= m@);
        }
    }
    Ok(m)
}
/// Decodes the payload of a frame whose discriminant is already
/// recognized.
#[verifier::rlimit(100)]
fn decode_disconnected(cs: &Vec<char>, j0: usize, j1: usize) -> (r: Result<ServerMessage, DecodeError>)
    requires
        lit_at(cs@, 0, "{\"message\":\""@),
        j0 == "{\"message\":\""@.len(),
        lit_at(cs@, j0 as int, "Disconnected\",\"data\":"@),
        j1 == j0 + "Disconnected\",\"data\":"@.len(),
    ensures
        (match r {
            Ok(m) => cs@ == spec_server_frame(m@) && (forall|v2: ServerMessageV|
                spec_server_frame(v2) == cs@ ==> v2 == m@),
            Err(_) => forall|v2: ServerMessageV| spec_server_frame(v2) != cs@,
        }),
{
    let slen = cs.len();
    proof {
        assert(cs@.subrange(0, j0 as int) =~= cs@.subrange(0, 0 + "{\"message\":\""@.len() as int));
        assert(cs@.subrange(j0 as int, j1 as int) =~= cs@.subrange(
            j0 as int,
            j0 as int + "Disconnected\",\"data\":"@.len(),
        ));
    }
    let (payload, j2) = match parse_player(cs, j1) {
        Some(p) => p,
        None => {
            proof {
                reveal_strlit("}");
                reveal_strlit("}}");
                assert forall|v2: ServerMessageV| spec_server_frame(v2) != cs@ by {
                    if spec_server_frame(v2) == cs@ {
                        lemma_cand_disconnected(cs@, v2);
                    }
                }
            }
            return Err(DecodeError);
        },
    };
    let j3 = match eat_lit(cs, j2, "}") {
        Some(j) => j,
        None => {
            proof {
                reveal_strlit("}");
                reveal_strlit("}}");
                assert forall|v2: ServerMessageV| spec_server_frame(v2) != cs@ by {
                    if spec_server_frame(v2) == cs@ {
                        lemma_cand_disconnected(cs@, v2);
                    }
                }
            }
            return Err(DecodeError);
        },
    };
    if j3 != slen {
        proof {
            reveal_strlit("}");
            reveal_strlit("}}");
            assert forall|v2: ServerMessageV| spec_server_frame(v2) != cs@ by {
                if spec_server_frame(v2) == cs@ {
                    lemma_cand_disconnected(cs@, v2);
                }
            }
        }
        return Err(DecodeError);
    }
    let m = ServerMessage::Disconnected(payload);
    proof {
        let h = "{\"message\":\""@;
        let tg = "Disconnected\",\"data\":"@;
        lemma_join2(cs@, 0, j0 as int, j1 as int, h, tg);
        lemma_join2(cs@, 0, j1 as int, j2 as int, h + tg, jplayer(payload@));
        lemma_join2(cs@, 0, j2 as int, j3 as int, (h + tg) + jplayer(payload@), "}"@);
        assert(cs@.subrange(0, slen as int) =~= cs@);
        assert(spec_server_frame(m@) =~= ((h + tg) + jplayer(payload@)) + "}"@);
        assert(cs@ == spec_server_frame(m@));
        assert forall|v2: ServerMessageV| spec_server_frame(v2) == cs@ implies v2 == m@ by {
            lemma_cand_disconnected(cs@, v2);
            assert(v2 =~~= m@);
        }
    }
    Ok(m)
}
/// Decodes the payload of a frame whose discriminant is already
/// recognized.
#[verifier::rlimit(100)]
fn decode_move(cs: &Vec<char>, j0: usize, j1: usize) -> (r: Result<ServerMessage, DecodeError>)
    requires
        lit_at(cs@, 0, "{\"message\":\""@),
        j0 == "{\"message\":\""@.len(),
        lit_at(cs@, j0 as int, "Move\",\"data\":{\"Cell\":"@),
        j1 == j0 + "Move\",\"data\":{\"Cell\":"@.len(),
    ensures
        (match r {
            Ok(m) => cs@ == spec_server_frame(m@) && (forall|v2: ServerMessageV|
                spec_server_frame(v2) == cs@ ==> v2 == m@),
            Err(_) => forall|v2: ServerMessageV| spec_server_frame(v2) != cs@,
        }),
{
    let slen = cs.len();
    proof {
        assert(cs@.subrange(0, j0 as int) =~= cs@.subrange(0, 0 + "{\"message\":\""@.len() as int));
        assert(cs@.subrange(j0 as int, j1 as int) =~= cs@.subrange(
            j0 as int,
            j0 as int + "Move\",\"data\":{\"Cell\":"@.len(),
        ));
    }
    let (payload, j2) = match parse_cell(cs, j1) {
        Some(p) => p,
        None => {
            proof {
                reveal_strlit("}");
                reveal_strlit("}}");
                assert forall|v2: ServerMessageV| spec_server_frame(v2) != cs@ by {
                    if spec_server_frame(v2) == cs@ {
                        lemma_cand_move(cs@, v2);
                    }
                }
            }
            return Err(DecodeError);
        },
    };
    let j3 = match eat_lit(cs, j2, "}}") {
        Some(j) => j,
        None => {
            proof {
                reveal_strlit("}");
                reveal_strlit("}}");
                assert forall|v2: ServerMessageV| spec_server_frame(v2) != cs@ by {
                    if spec_server_frame(v2) == cs@ {
                        lemma_cand_move(cs@, v2);
                    }
                }
            }
            return Err(DecodeError);
        },
    };
    if j3 != slen {
        proof {
            reveal_strlit("}");
            reveal_strlit("}}");
            assert forall|v2: ServerMessageV| spec_server_frame(v2) != cs@ by {
                if spec_server_frame(v2) == cs@ {
                    lemma_cand_move(cs@, v2);
                }
            }
        }
        return Err(DecodeError);
    }
    let m = ServerMessage::Move { cell: payload };
    proof {
        let h = "{\"message\":\""@;
        let tg = "Move\",\"data\":{\"Cell\":"@;
        lemma_join2(cs@, 0, j0 as int, j1 as int, h, tg);
        lemma_join2(cs@, 0, j1 as int, j2 as int, h + tg, jcell(payload@));
        lemma_join2(cs@, 0, j2 as int, j3 as int, (h + tg) + jcell(payload@), "}}"@);
        assert(cs@.subrange(0, slen as int) =~= cs@);
        assert(spec_server_frame(m@) =~= ((h + tg) + jcell(payload@)) + "}}"@);
        assert(cs@ == spec_server_frame(m@));
        assert forall|v2: ServerMessageV| spec_server_frame(v2) == cs@ implies v2 == m@ by {
            lemma_cand_move(cs@, v2);
            assert(v2 =~~= m@);
        }
    }
    Ok(m)
}
/// Decodes the payload of a frame whose discriminant is already
/// recognized.
#[verifier::rlimit(100)]
fn decode_win(cs: &Vec<char>, j0: usize, j1: usize) -> (r: Result<ServerMessage, DecodeError>)
    requires
        lit_at(cs@, 0, "{\"message\":\""@),
        j0 == "{\"message\":\""@.len(),
        lit_at(cs@, j0 as int, "Win\",\"data\":{\"Player\":"@),
        j1 == j0 + "Win\",\"data\":{\"Player\":"@.len(),
    ensures
        (match r {
            Ok(m) => cs@ == spec_server_frame(m@) && (forall|v2: ServerMessageV|
                spec_server_frame(v2) == cs@ ==> v2 == m@),
            Err(_) => forall|v2: ServerMessageV| spec_server_frame(v2) != cs@,
        }),
{
    let slen = cs.len();
    proof {
        assert(cs@.subrange(0, j0 as int) =~= cs@.subrange(0, 0 + "{\"message\":\""@.len() as int));
        assert(cs@.subrange(j0 as int, j1 as int) =~= cs@.subrange(
            j0 as int,
            j0 as int + "Win\",\"data\":{\"Player\":"@.len(),
        ));
    }
    let (payload, j2) = match parse_string(cs, j1) {
        Some(p) => p,
        None => {
            proof {
                reveal_strlit("}");
                reveal_strlit("}}");
                assert forall|v2: ServerMessageV| spec_server_frame(v2) != cs@ by {
                    if spec_server_frame(v2) == cs@ {
                        lemma_cand_win(cs@, v2);
                    }
                }
            }
            return Err(DecodeError);
        },
    };
    let j3 = match eat_lit(cs, j2, "}}") {
        Some(j) => j,
        None => {
            proof {
                reveal_strlit("}");
                reveal_strlit("}}");
                assert forall|v2: ServerMessageV| spec_server_frame(v2) != cs@ by {
                    if spec_server_frame(v2) == cs@ {
                        lemma_cand_win(cs@, v2);
                    }
                }
            }
            return Err(DecodeError);
        },
    };
    if j3 != slen {
        proof {
            reveal_strlit("}");
            reveal_strlit("}}");
            assert forall|v2: ServerMessageV| spec_server_frame(v2) != cs@ by {
                if spec_server_frame(v2) == cs@ {
                    lemma_cand_win(cs@, v2);
                }
            }
        }
        return Err(DecodeError);
    }
    let m = ServerMessage::Win { player: chars_to_string(&payload) };
    proof {
        let h = "{\"message\":\""@;
        let tg = "Win\",\"data\":{\"Player\":"@;
        lemma_join2(cs@, 0, j0 as int, j1 as int, h, tg);
        lemma_join2(cs@, 0, j1 as int, j2 as int, h + tg, jstr(payload@));
        lemma_join2(cs@, 0, j2 as int, j3 as int, (h + tg) + jstr(payload@), "}}"@);
        assert(cs@.subrange(0, slen as int) =~= cs@);
        assert(spec_server_frame(m@) =~= ((h + tg) + jstr(payload@)) + "}}"@);
        assert(cs@ == spec_server_frame(m@));
        assert forall|v2: ServerMessageV| spec_server_frame(v2) == cs@ implies v2 == m@ by {
            lemma_cand_win(cs@, v2);
            assert(v2 =~~= m@);
        }
    }
    Ok(m)
}
/// Decodes the payload of a frame whose discriminant is already
/// recognized.
#[verifier::rlimit(100)]
fn decode_setcell(cs: &Vec<char>, j0: usize, j1: usize) -> (r: Result<ServerMessage, DecodeError>)
    requires
        lit_at(cs@, 0, "{\"message\":\""@),
        j0 == "{\"message\":\""@.len(),
        lit_at(cs@, j0 as int, "SetCell\",\"data\":"@),
        j1 == j0 + "SetCell\",\"data\":"@.len(),
    ensures
        (match r {
            Ok(m) => cs@ == spec_server_frame(m@) && (forall|v2: ServerMessageV|
                spec_server_frame(v2) == cs@ ==> v2 == m@),
            Err(_) => forall|v2: ServerMessageV| spec_server_frame(v2) != cs@,
        }),
{
    let slen = cs.len();
    proof {
        assert(cs@.subrange(0, j0 as int) =~= cs@.subrange(0, 0 + "{\"message\":\""@.len() as int));
        assert(cs@.subrange(j0 as int, j1 as int) =~= cs@.subrange(
            j0 as int,
            j0 as int + "SetCell\",\"data\":"@.len(),
        ));
    }
    let (payload, j2) = match parse_cell(cs, j1) {
        Some(p) => p,
        None => {
            proof {
                reveal_strlit("}");
                reveal_strlit("}}");
                assert forall|v2: ServerMessageV| spec_server_frame(v2) != cs@ by {
                    if spec_server_frame(v2) == cs@ {
                        lemma_cand_setcell(cs@, v2);
                    }
                }
            }
            return Err(DecodeError);
        },
    };
    let j3 = match eat_lit(cs, j2, "}") {
        Some(j) => j,
        None => {
            proof {
                reveal_strlit("}");
                reveal_strlit("}}");
                assert forall|v2: ServerMessageV| spec_server_frame(v2) != cs@ by {
                    if spec_server_frame(v2) == cs@ {
                        lemma_cand_setcell(cs@, v2);
                    }
                }
            }
            return Err(DecodeError);
        },
    };
    if j3 != slen {
        proof {
            reveal_strlit("}");
            reveal_strlit("}}");
            assert forall|v2: ServerMessageV| spec_server_frame(v2) != cs@ by {
                if spec_server_frame(v2) == cs@ {
                    lemma_cand_setcell(cs@, v2);
                }
            }
        }
        return Err(DecodeError);
    }
    let m = ServerMessage::SetCell(payload);
    proof {
        let h = "{\"message\":\""@;
        let tg = "SetCell\",\"data\":"@;
        lemma_join2(cs@, 0, j0 as int, j1 as int, h, tg);
        lemma_join2(cs@, 0, j1 as int, j2 as int, h + tg, jcell(payload@));
        lemma_join2(cs@, 0, j2 as int, j3 as int, (h + tg) + jcell(payload@), "}"@);
        assert(cs@.subrange(0, slen as int) =~= cs@);
        assert(spec_server_frame(m@) =~= ((h + tg) + jcell(payload@)) + "}"@);
        assert(cs@ == spec_server_frame(m@));
        assert forall|v2: ServerMessageV| spec_server_frame(v2) == cs@ implies v2 == m@ by {
            lemma_cand_setcell(cs@, v2);
            assert(v2 =~~= m@);
        }
    }
    Ok(m)
}
/// Decodes the payload of a frame whose discriminant is already
/// recognized.
#[verifier::rlimit(100)]
fn decode_clean(cs: &Vec<char>, j0: usize, j1: usize) -> (r: Result<ServerMessage, DecodeError>)
    requires
        lit_at(cs@, 0, "{\"message\":\""@),
        j0 == "{\"message\":\""@.len(),
        lit_at(cs@, j0 as int, "Clean\"}"@),
        j1 == j0 + "Clean\"}"@.len(),
    ensures
        (match r {
            Ok(m) => cs@ == spec_server_frame(m@) && (forall|v2: ServerMessageV|
                spec_server_frame(v2) == cs@ ==> v2 == m@),
            Err(_) => forall|v2: ServerMessageV| spec_server_frame(v2) != cs@,
        }),
{
    let slen = cs.len();
    proof {
        assert(cs@.subrange(0, j0 as int) =~= cs@.subrange(0, 0 + "{\"message\":\""@.len() as int));
        assert(cs@.subrange(j0 as int, j1 as int) =~= cs@.subrange(
            j0 as int,
            j0 as int + "Clean\"}"@.len(),
        ));
    }
    if j1 != slen {
        proof {
            assert forall|v2: ServerMessageV| spec_server_frame(v2) != cs@ by {
                if spec_server_frame(v2) == cs@ {
                    lemma_cand_clean(cs@, v2);
                }
            }
        }
        return Err(DecodeError);
    }
    let m = ServerMessage::Clean;
    proof {
        lemma_join2(cs@, 0, j0 as int, j1 as int, "{\"message\":\""@, "Clean\"}"@);
        assert(cs@.subrange(0, slen as int) =~= cs@);
        assert(cs@ == spec_server_frame(m@));
        assert forall|v2: ServerMessageV| spec_server_frame(v2) == cs@ implies v2 == m@ by {
            lemma_cand_clean(cs@, v2);
        }
    }
    Ok(m)
}
/// Decodes the payload of a frame whose discriminant is already
/// recognized.
#[verifier::rlimit(100)]
fn decode_setsession(cs: &Vec<char>, j0: usize, j1: usize) -> (r: Result<ServerMessage, DecodeError>)
    requires
        lit_at(cs@, 0, "{\"message\":\""@),
        j0 == "{\"message\":\""@.len(),
        lit_at(cs@, j0 as int, "SetSession\",\"data\":{\"session\":"@),
        j1 == j0 + "SetSession\",\"data\":{\"session\":"@.len(),
    ensures
        (match r {
            Ok(m) => cs@ == spec_server_frame(m@) && (forall|v2: ServerMessageV|
                spec_server_frame(v2) == cs@ ==> v2 == m@),
            Err(_) => forall|v2: ServerMessageV| spec_server_frame(v2) != cs@,
        }),
{
    let slen = cs.len();
    proof {
        assert(cs@.subrange(0, j0 as int) =~= cs@.subrange(0, 0 + "{\"message\":\""@.len() as int));
        assert(cs@.subrange(j0 as int, j1 as int) =~= cs@.subrange(
            j0 as int,
            j0 as int + "SetSession\",\"data\":{\"session\":"@.len(),
        ));
    }
    let (session, j2) = match parse_string(cs, j1) {
        Some(p) => p,
        None => {
            proof {
                reveal_strlit("}");
                reveal_strlit("}}");
                assert forall|v2: ServerMessageV| spec_server_frame(v2) != cs@ by {
                    if spec_server_frame(v2) == cs@ {
                        lemma_cand_setsession(cs@, v2);
                    }
                }
            }
            return Err(DecodeError);
        },
    };
    let j3 = match eat_lit(cs, j2, ",\"history\":") {
        Some(j) => j,
        None => {
            proof {
                reveal_strlit("}");
                reveal_strlit("}}");
                assert forall|v2: ServerMessageV| spec_server_frame(v2) != cs@ by {
                    if spec_server_frame(v2) == cs@ {
                        lemma_cand_setsession(cs@, v2);
                    }
                }
            }
            return Err(DecodeError);
        },
    };
    let (history, j4) = match parse_history(cs, j3) {
        Some(p) => p,
        None => {
            proof {
                reveal_strlit("}");
                reveal_strlit("}}");
                assert forall|v2: ServerMessageV| spec_server_frame(v2) != cs@ by {
                    if spec_server_frame(v2) == cs@ {
                        lemma_cand_setsession(cs@, v2);
                    }
                }
            }
            return Err(DecodeError);
        },
    };
    let j5 = match eat_lit(cs, j4, ",\"me\":") {
        Some(j) => j,
        None => {
            proof {
                reveal_strlit("}");
                reveal_strlit("}}");
                assert forall|v2: ServerMessageV| spec_server_frame(v2) != cs@ by {
                    if spec_server_frame(v2) == cs@ {
                        lemma_cand_setsession(cs@, v2);
                    }
                }
            }
            return Err(DecodeError);
        },
    };
    let (player, j6) = match parse_player(cs, j5) {
        Some(p) => p,
        None => {
            proof {
                reveal_strlit("}");
                reveal_strlit("}}");
                assert forall|v2: ServerMessageV| spec_server_frame(v2) != cs@ by {
                    if spec_server_frame(v2) == cs@ {
                        lemma_cand_setsession(cs@, v2);
                    }
                }
            }
            return Err(DecodeError);
        },
    };
    let j7 = match eat_lit(cs, j6, "}}") {
        Some(j) => j,
        None => {
            proof {
                reveal_strlit("}");
                reveal_strlit("}}");
                assert forall|v2: ServerMessageV| spec_server_frame(v2) != cs@ by {
                    if spec_server_frame(v2) == cs@ {
                        lemma_cand_setsession(cs@, v2);
                    }
                }
            }
            return Err(DecodeError);
        },
    };
    if j7 != slen {
        proof {
            reveal_strlit("}");
            reveal_strlit("}}");
            assert forall|v2: ServerMessageV| spec_server_frame(v2) != cs@ by {
                if spec_server_frame(v2) == cs@ {
                    lemma_cand_setsession(cs@, v2);
                }
            }
        }
        return Err(DecodeError);
    }
    let m = ServerMessage::SetSession {
        session: chars_to_string(&session),
        history,
        player,
    };
    proof {
        let h = "{\"message\":\""@;
        let tg = "SetSession\",\"data\":{\"session\":"@;
        let hv = history_view(history@);
        lemma_join2(cs@, 0, j0 as int, j1 as int, h, tg);
        lemma_join2(cs@, 0, j1 as int, j2 as int, h + tg, jstr(session@));
        lemma_join2(cs@, 0, j2 as int, j3 as int, (h + tg) + jstr(session@), ",\"history\":"@);
        lemma_join2(
            cs@,
            0,
            j3 as int,
            j4 as int,
            ((h + tg) + jstr(session@)) + ",\"history\":"@,
            jhist(hv),
        );
        lemma_join2(
            cs@,
            0,
            j4 as int,
            j5 as int,
            (((h + tg) + jstr(session@)) + ",\"history\":"@) + jhist(hv),
            ",\"me\":"@,
        );
        lemma_join2(
            cs@,
            0,
            j5 as int,
            j6 as int,
            ((((h + tg) + jstr(session@)) + ",\"history\":"@) + jhist(hv)) + ",\"me\":"@,
            jplayer(player@),
        );
        lemma_join2(
            cs@,
            0,
            j6 as int,
            j7 as int,
            (((((h + tg) + jstr(session@)) + ",\"history\":"@) + jhist(hv)) + ",\"me\":"@)
                + jplayer(player@),
            "}}"@,
        );
        assert(cs@.subrange(0, slen as int) =~= cs@);
        assert(spec_server_frame(m@) =~= ((((((h + tg) + jstr(session@)) + ",\"history\":"@)
            + jhist(hv)) + ",\"me\":"@) + jplayer(player@)) + "}}"@);
        assert(cs@ == spec_server_frame(m@));
        assert forall|v2: ServerMessageV| spec_server_frame(v2) == cs@ implies v2 == m@ by {
            lemma_cand_setsession(cs@, v2);
            assert(v2 =~~= m@);
        }
    }
    Ok(m)
}

/// Decodes one inbound frame: returns the message whose canonical
/// encoding the frame is, and an error exactly when the frame is the
/// canonical encoding of no server message.
pub fn decode_server(frame: &str) -> (r: Result<ServerMessage, DecodeError>)
    ensures
        (match r {
            Ok(m) => frame@ == spec_server_frame(m@) && (forall|v2: ServerMessageV|
                spec_server_frame(v2) == frame@ ==> v2 == m@),
            Err(_) => forall|v2: ServerMessageV| spec_server_frame(v2) != frame@,
        }),
{
    let cs = str_to_chars(frame);
    let j0 = match eat_lit(&cs, 0, "{\"message\":\"") {
        Some(j) => j,
        None => {
            proof {
                assert forall|v2: ServerMessageV| spec_server_frame(v2) != cs@ by {
                    if spec_server_frame(v2) == cs@ {
                        lemma_frame_tag(cs@, v2);
                    }
                }
            }
            return Err(DecodeError);
        },
    };
    proof {
        assert(j0 == "{\"message\":\""@.len() as int);
    }
    if let Some(j1) = eat_lit(&cs, j0, "Clean\"}") {
        let r = decode_clean(&cs, j0, j1);
        proof {
            assert(cs@ == frame@);
        }
        return r;
    }
    if let Some(j1) = eat_lit(&cs, j0, "Connected\",\"data\":") {
        let r = decode_connected(&cs, j0, j1);
        proof {
            assert(cs@ == frame@);
        }
        return r;
    }
    if let Some(j1) = eat_lit(&cs, j0, "Disconnected\",\"data\":") {
        let r = decode_disconnected(&cs, j0, j1);
        proof {
            assert(cs@ == frame@);
        }
        return r;
    }
    if let Some(j1) = eat_lit(&cs, j0, "Move\",\"data\":{\"Cell\":") {
        let r = decode_move(&cs, j0, j1);
        proof {
            assert(cs@ == frame@);
        }
        return r;
    }
    if let Some(j1) = eat_lit(&cs, j0, "Win\",\"data\":{\"Player\":") {
        let r = decode_win(&cs, j0, j1);
        proof {
            assert(cs@ == frame@);
        }
        return r;
    }
    if let Some(j1) = eat_lit(&cs, j0, "SetCell\",\"data\":") {
        let r = decode_setcell(&cs, j0, j1);
        proof {
            assert(cs@ == frame@);
        }
        return r;
    }
    if let Some(j1) = eat_lit(&cs, j0, "SetSession\",\"data\":{\"session\":") {
        let r = decode_setsession(&cs, j0, j1);
        proof {
            assert(cs@ == frame@);
        }
        return r;
    }
    proof {
        assert forall|v2: ServerMessageV| spec_server_frame(v2) != cs@ by {
            if spec_server_frame(v2) == cs@ {
                lemma_frame_tag(cs@, v2);
                match v2 {
                    ServerMessageV::Connected(_) => {},
                    ServerMessageV::Disconnected(_) => {},
                    ServerMessageV::Move { .. } => {},
                    ServerMessageV::Win { .. } => {},
                    ServerMessageV::SetCell(_) => {},
                    ServerMessageV::SetSession { .. } => {},
                    ServerMessageV::Clean => {},
                }
            }
        }
    }
    Err(DecodeError)
}

} // verus!

