//! Decimal text: rendering nonnegative integers, and parsing the
//! integer and fixed-point decimal tokens of the image and mesh formats.

use vstd::prelude::*;
use crate::fx::{absi, tdiv, SCALE};
use crate::vec3::COORD_MAX;

verus! {

/// ASCII decimal digits of a nonnegative integer, most significant
/// first.
pub open spec fn dec_bytes(n: int) -> Seq<u8>
    decreases n,
{
    if n < 10 {
        seq![(48 + n) as u8]
    } else {
        dec_bytes(n / 10).push((48 + n % 10) as u8)
    }
}

/// Render a nonnegative integer in decimal.
pub fn u64_to_dec(n: u64) -> (r: Vec<u8>)
    ensures
        r@ == dec_bytes(n as int),
    decreases n,
{
    if n < 10 {
        proof {
            assert(dec_bytes(n as int) =~= seq![(48 + n as int) as u8]);
        }
        let mut v: Vec<u8> = Vec::new();
        v.push(48 + n as u8);
        v
    } else {
        let mut v: Vec<u8> = u64_to_dec(n / 10);
        v.push(48 + (n % 10) as u8);
        v
    }
}

/// An ASCII decimal digit.
pub open spec fn is_digit(b: u8) -> bool {
    48 <= b <= 57
}

/// Fold the digits of `t` onto the accumulator; `None` on the first
/// non-digit.
pub open spec fn parse_dec_rec(t: Seq<u8>, acc: int) -> Option<int>
    decreases t.len(),
{
    if t.len() == 0 {
        Some(acc)
    } else if is_digit(t[0]) {
        parse_dec_rec(t.drop_first(), acc * 10 + (t[0] - 48))
    } else {
        None
    }
}

/// The nonnegative integer denoted by an all-digit token.
pub open spec fn parse_dec(t: Seq<u8>) -> Option<int> {
    if t.len() == 0 {
        None
    } else {
        parse_dec_rec(t, 0)
    }
}

/// The same, rejecting values above 32 bits.
pub open spec fn parse_dec_capped(t: Seq<u8>) -> Option<int> {
    match parse_dec(t) {
        Some(v) => if v <= 0xffffffff {
            Some(v)
        } else {
            None
        },
        None => None,
    }
}

/// The folded value can only grow.
proof fn lemma_parse_dec_lower(t: Seq<u8>, acc: int)
    requires
        acc >= 0,
    ensures
        match parse_dec_rec(t, acc) {
            Some(v) => v >= acc,
            None => true,
        },
    decreases t.len(),
{
    if t.len() > 0 && is_digit(t[0]) {
        lemma_parse_dec_lower(t.drop_first(), acc * 10 + (t[0] - 48));
    }
}

/// Parse an all-digit token into a 32-bit-bounded value.
pub fn parse_dec_u32(t: &[u8]) -> (r: Option<u64>)
    ensures
        r matches Some(v) ==> parse_dec_capped(t@) == Some(v as int),
        r is None ==> parse_dec_capped(t@) is None,
{
    if t.len() == 0 {
        return None;
    }
    let n: usize = t.len();
    let mut acc: u64 = 0;
    let mut i: usize = 0;
    proof {
        assert(t@.subrange(0, n as int) =~= t@);
    }
    while i < n
        invariant
            n == t@.len(),
            0 < n,
            i <= n,
            acc <= 0xffffffff,
            parse_dec_rec(t@, 0) == parse_dec_rec(t@.subrange(i as int, n as int), acc as int),
        decreases n - i,
    {
        let b: u8 = t[i];
        proof {
            assert(t@.subrange(i as int, n as int)[0] == t@[i as int]);
            assert(t@.subrange(i as int, n as int).drop_first() =~= t@.subrange(
                i as int + 1,
                n as int,
            ));
        }
        if b < 48 || 57 < b {
            return None;
        }
        let next: u64 = acc * 10 + (b - 48) as u64;
        if next > 0xffffffff {
            proof {
                lemma_parse_dec_lower(t@.subrange(i as int + 1, n as int), next as int);
            }
            return None;
        }
        acc = next;
        i = i + 1;
    }
    proof {
        assert(t@.subrange(n as int, n as int) =~= Seq::<u8>::empty());
    }
    Some(acc)
}

/// Powers of ten.
pub open spec fn pow10(k: int) -> int
    decreases k,
{
    if k <= 0 {
        1
    } else {
        10 * pow10(k - 1)
    }
}

/// The fixed-point value of a decimal token: an optional minus sign,
/// one or more integer digits, and an optional fraction of one to
/// twelve digits; the magnitude must stay in the coordinate range.
pub open spec fn parse_fixed_spec(t: Seq<u8>) -> Option<int> {
    let neg = t.len() > 0 && t[0] == 45;
    let body = if neg {
        t.drop_first()
    } else {
        t
    };
    let di = dot_index(body);
    let ip = body.subrange(0, di);
    match parse_dec_capped(ip) {
        None => None,
        Some(whole) => {
            let frac = if di < body.len() {
                body.subrange(di + 1, body.len() as int)
            } else {
                Seq::<u8>::empty()
            };
            if di < body.len() && (frac.len() == 0 || frac.len() > 12) {
                None
            } else {
                match if frac.len() == 0 {
                    Some(0int)
                } else {
                    parse_dec_capped(frac)
                } {
                    None => None,
                    Some(f) => {
                        let mag = whole * SCALE + tdiv(f * SCALE, pow10(frac.len() as int));
                        if mag > COORD_MAX as int {
                            None
                        } else if neg {
                            Some(-mag)
                        } else {
                            Some(mag)
                        }
                    },
                }
            }
        },
    }
}

/// Index of the first dot in `t`, or `t.len()`.
pub open spec fn dot_index(t: Seq<u8>) -> int
    decreases t.len(),
{
    if t.len() == 0 {
        0
    } else if t[0] == 46 {
        0
    } else {
        1 + dot_index(t.drop_first())
    }
}

/// The dot index is in range and marks the first dot.
proof fn lemma_dot_index(t: Seq<u8>)
    ensures
        0 <= dot_index(t) <= t.len(),
        dot_index(t) < t.len() ==> t[dot_index(t)] == 46,
        forall|j: int| 0 <= j < dot_index(t) ==> t[j] != 46,
    decreases t.len(),
{
    if t.len() > 0 && t[0] != 46 {
        lemma_dot_index(t.drop_first());
        assert(forall|j: int| 1 <= j < t.len() ==> t[j] == t.drop_first()[j - 1]);
    }
}

/// Find the first dot in `t`, or `t.len()`.
fn find_dot(t: &[u8]) -> (r: usize)
    ensures
        r == dot_index(t@),
{
    let n: usize = t.len();
    let mut i: usize = 0;
    while i < n
        invariant
            n == t@.len(),
            i <= n,
            forall|j: int| 0 <= j < i ==> t@[j] != 46,
        decreases n - i,
    {
        if t[i] == 46 {
            proof {
                lemma_dot_index(t@);
            }
            return i;
        }
        i = i + 1;
    }
    proof {
        lemma_dot_index(t@);
    }
    n
}

/// A parsed nonnegative decimal is nonnegative.
pub proof fn lemma_parse_dec_nonneg(t: Seq<u8>)
    ensures
        parse_dec_capped(t) matches Some(v) ==> 0 <= v <= 0xffffffff,
{
    if t.len() > 0 {
        lemma_parse_dec_lower(t, 0);
    }
}

/// Parse a decimal token into a fixed-point scalar (see
/// `parse_fixed_spec`).
pub fn parse_fixed(t: &[u8]) -> (r: Option<i64>)
    ensures
        r matches Some(v) ==> parse_fixed_spec(t@) == Some(v as int),
        r is None ==> parse_fixed_spec(t@) is None,
{
    let neg: bool = t.len() > 0 && t[0] == 45;
    let body: &[u8] = if neg {
        vstd::slice::slice_subrange(t, 1, t.len())
    } else {
        t
    };
    proof {
        if neg {
            assert(body@ =~= t@.drop_first());
        }
    }
    let di: usize = find_dot(body);
    proof {
        lemma_dot_index(body@);
    }
    let ip: &[u8] = vstd::slice::slice_subrange(body, 0, di);
    let whole: u64 = match parse_dec_u32(ip) {
        Some(v) => v,
        None => {
            return None;
        },
    };
    let fl: usize = if di < body.len() {
        body.len() - di - 1
    } else {
        0
    };
    if di < body.len() && (fl == 0 || fl > 12) {
        return None;
    }
    let f: u64 = if di < body.len() {
        let frac: &[u8] = vstd::slice::slice_subrange(body, di + 1, body.len());
        match parse_dec_u32(frac) {
            Some(v) => v,
            None => {
                return None;
            },
        }
    } else {
        0
    };
    proof {
        lemma_pow10_bounds(fl as int);
        crate::fx::lemma_mul_signs(f as int, SCALE as int);
        crate::fx::lemma_abs_mul(f as int, SCALE as int);
        crate::fx::lemma_tdiv_abs((f as int) * (SCALE as int), pow10(fl as int));
        vstd::arithmetic::div_mod::lemma_div_pos_is_pos(
            (f as int) * (SCALE as int),
            pow10(fl as int),
        );
    }
    let p10: u64 = pow10_exec(fl);
    let fr: u64 = (f * (SCALE as u64)) / p10;
    let mag: u64 = whole * (SCALE as u64) + fr;
    if mag > COORD_MAX as u64 {
        return None;
    }
    if neg {
        Some(-(mag as i64))
    } else {
        Some(mag as i64)
    }
}

/// Powers of ten are positive.
proof fn lemma_pow10_pos(k: int)
    ensures
        pow10(k) >= 1,
    decreases k,
{
    if k > 0 {
        lemma_pow10_pos(k - 1);
    }
}

/// Powers of ten are monotone.
proof fn lemma_pow10_mono(a: int, b: int)
    requires
        0 <= a <= b,
    ensures
        pow10(a) <= pow10(b),
    decreases b,
{
    lemma_pow10_pos(b - 1);
    if a < b {
        lemma_pow10_mono(a, b - 1);
    }
}

/// Powers of ten up to 10^12 fit comfortably.
proof fn lemma_pow10_bounds(k: int)
    requires
        0 <= k <= 12,
    ensures
        1 <= pow10(k) <= 1000000000000,
{
    lemma_pow10_pos(k);
    lemma_pow10_mono(k, 12);
    assert(pow10(12) == 1000000000000) by {
        reveal_with_fuel(pow10, 14);
    }
}

/// Compute a small power of ten.
fn pow10_exec(k: usize) -> (r: u64)
    requires
        k <= 12,
    ensures
        r == pow10(k as int),
{
    proof {
        lemma_pow10_bounds(k as int);
    }
    let mut r: u64 = 1;
    let mut i: usize = 0;
    while i < k
        invariant
            i <= k,
            k <= 12,
            r == pow10(i as int),
            r <= 1000000000000,
        decreases k - i,
    {
        proof {
            lemma_pow10_bounds(i as int + 1);
        }
        r = r * 10;
        i = i + 1;
    }
    r
}

/// A parsed fixed-point token stays within the coordinate range.
pub proof fn lemma_parse_fixed_bounded(t: Seq<u8>)
    ensures
        parse_fixed_spec(t) matches Some(v) ==> absi(v) <= COORD_MAX as int,
{
    let neg = t.len() > 0 && t[0] == 45;
    let body = if neg {
        t.drop_first()
    } else {
        t
    };
    let di = dot_index(body);
    let ip = body.subrange(0, di);
    lemma_parse_dec_nonneg(ip);
    match parse_dec_capped(ip) {
        None => {},
        Some(whole) => {
            let frac = if di < body.len() {
                body.subrange(di + 1, body.len() as int)
            } else {
                Seq::<u8>::empty()
            };
            lemma_parse_dec_nonneg(frac);
            lemma_pow10_pos(frac.len() as int);
            match if frac.len() == 0 {
                Some(0int)
            } else {
                parse_dec_capped(frac)
            } {
                None => {},
                Some(f) => {
                    crate::fx::lemma_mul_signs(f, SCALE as int);
                    vstd::arithmetic::div_mod::lemma_div_pos_is_pos(
                        f * SCALE,
                        pow10(frac.len() as int),
                    );
                    crate::fx::lemma_mul_signs(whole, SCALE as int);
                },
            }
        },
    }
}

/// Whitespace, as the token splitters of the text formats see it.
pub open spec fn is_ws(b: u8) -> bool {
    b == 32 || b == 9 || b == 13 || b == 10
}

/// Index of the first newline in `s`, or `s.len()`.
pub open spec fn nl_index(s: Seq<u8>) -> int
    decreases s.len(),
{
    if s.len() == 0 {
        0
    } else if s[0] == 10 {
        0
    } else {
        1 + nl_index(s.drop_first())
    }
}

/// The newline index is in range and marks the first newline.
pub proof fn lemma_nl_index(s: Seq<u8>)
    ensures
        0 <= nl_index(s) <= s.len(),
        nl_index(s) < s.len() ==> s[nl_index(s)] == 10,
        forall|j: int| 0 <= j < nl_index(s) ==> s[j] != 10,
    decreases s.len(),
{
    if s.len() > 0 && s[0] != 10 {
        lemma_nl_index(s.drop_first());
        assert(forall|j: int| 1 <= j < s.len() ==> s[j] == s.drop_first()[j - 1]);
    }
}

/// The newline-separated lines of `s` (the final line needs no
/// terminator).
pub open spec fn spec_lines(s: Seq<u8>) -> Seq<Seq<u8>>
    decreases s.len(),
    via spec_lines_dec
{
    if s.len() == 0 {
        Seq::empty()
    } else {
        let nl = nl_index(s);
        if nl >= s.len() {
            seq![s]
        } else {
            seq![s.subrange(0, nl)] + spec_lines(s.subrange(nl + 1, s.len() as int))
        }
    }
}

#[via_fn]
proof fn spec_lines_dec(s: Seq<u8>) {
    lemma_nl_index(s);
}

/// Index of the first whitespace byte in `s`, or `s.len()`.
pub open spec fn ws_index(s: Seq<u8>) -> int
    decreases s.len(),
{
    if s.len() == 0 {
        0
    } else if is_ws(s[0]) {
        0
    } else {
        1 + ws_index(s.drop_first())
    }
}

/// The whitespace index is in range and marks the first whitespace.
pub proof fn lemma_ws_index(s: Seq<u8>)
    ensures
        0 <= ws_index(s) <= s.len(),
        ws_index(s) < s.len() ==> is_ws(s[ws_index(s)]),
        forall|j: int| 0 <= j < ws_index(s) ==> !is_ws(s[j]),
    decreases s.len(),
{
    if s.len() > 0 && !is_ws(s[0]) {
        lemma_ws_index(s.drop_first());
        assert(forall|j: int| 1 <= j < s.len() ==> s[j] == s.drop_first()[j - 1]);
    }
}

/// The whitespace-separated tokens of `s`.
pub open spec fn spec_tokens(s: Seq<u8>) -> Seq<Seq<u8>>
    decreases s.len(),
    via spec_tokens_dec
{
    if s.len() == 0 {
        Seq::empty()
    } else if is_ws(s[0]) {
        spec_tokens(s.drop_first())
    } else {
        let e = ws_index(s);
        seq![s.subrange(0, e)] + spec_tokens(s.subrange(e, s.len() as int))
    }
}

#[via_fn]
proof fn spec_tokens_dec(s: Seq<u8>) {
    lemma_ws_index(s);
}

/// Split `s` into lines (see `spec_lines`).
pub fn split_lines(s: &[u8]) -> (r: Vec<Vec<u8>>)
    requires
        s@.len() < 0x10000000000000000,
    ensures
        r@.map_values(|l: Vec<u8>| l@) =~~= spec_lines(s@),
{
    let mut out: Vec<Vec<u8>> = Vec::new();
    let n: usize = s.len();
    let mut start: usize = 0;
    let mut i: usize = 0;
    proof {
        assert(s@.subrange(0, n as int) =~= s@);
    }
    while i < n
        invariant
            n == s@.len(),
            start <= i <= n,
            forall|j: int| start <= j < i ==> s@[j] != 10,
            out@.map_values(|l: Vec<u8>| l@) + spec_lines(s@.subrange(start as int, n as int))
                =~~= spec_lines(s@),
        decreases n - i,
    {
        if s[i] == 10 {
            let line: Vec<u8> = vstd::slice::slice_to_vec(vstd::slice::slice_subrange(s, start, i));
            proof {
                let rest = s@.subrange(start as int, n as int);
                lemma_nl_index(rest);
                assert(forall|j: int|
                    0 <= j < i - start ==> rest[j] == s@[start + j] && (#[trigger] rest[j]) != 10);
                assert(rest[i - start] == s@[i as int]);
                if nl_index(rest) < i - start {
                    assert(rest[nl_index(rest)] == 10);
                }
                if nl_index(rest) > i - start {
                    assert(rest[i - start] != 10);
                }
                assert(nl_index(rest) == i - start);
                assert(rest.subrange(0, i - start) =~= s@.subrange(start as int, i as int));
                assert(rest.subrange(i - start + 1, rest.len() as int) =~= s@.subrange(
                    i as int + 1,
                    n as int,
                ));
                assert(line@ =~= s@.subrange(start as int, i as int));
                assert((out@.map_values(|l: Vec<u8>| l@).push(line@)) + spec_lines(
                    s@.subrange(i as int + 1, n as int),
                ) =~~= out@.map_values(|l: Vec<u8>| l@) + spec_lines(
                    s@.subrange(start as int, n as int),
                ));
                assert(out@.push(line).map_values(|l: Vec<u8>| l@) =~~= out@.map_values(
                    |l: Vec<u8>| l@,
                ).push(line@));
            }
            out.push(line);
            i = i + 1;
            start = i;
        } else {
            i = i + 1;
        }
    }
    if start < n {
        let line: Vec<u8> = vstd::slice::slice_to_vec(vstd::slice::slice_subrange(s, start, n));
        proof {
            let rest = s@.subrange(start as int, n as int);
            lemma_nl_index(rest);
            if nl_index(rest) < rest.len() {
                assert(rest[nl_index(rest)] == 10);
                assert(rest[nl_index(rest)] == s@[start + nl_index(rest)]);
            }
            assert(spec_lines(rest) =~~= seq![rest]);
            assert(line@ =~= rest);
            assert(out@.push(line).map_values(|l: Vec<u8>| l@) =~~= out@.map_values(
                |l: Vec<u8>| l@,
            ).push(line@));
        }
        out.push(line);
    } else {
        proof {
            assert(s@.subrange(start as int, n as int) =~= Seq::<u8>::empty());
        }
    }
    out
}

/// Split `s` into whitespace-separated tokens (see `spec_tokens`).
pub fn tokenize(s: &[u8]) -> (r: Vec<Vec<u8>>)
    requires
        s@.len() < 0x10000000000000000,
    ensures
        r@.map_values(|t: Vec<u8>| t@) =~~= spec_tokens(s@),
{
    let mut out: Vec<Vec<u8>> = Vec::new();
    let n: usize = s.len();
    let mut start: usize = 0;
    let mut i: usize = 0;
    proof {
        assert(s@.subrange(0, n as int) =~= s@);
    }
    while i < n
        invariant
            n == s@.len(),
            start <= i <= n,
            forall|j: int| start <= j < i ==> !is_ws(#[trigger] s@[j]),
            out@.map_values(|t: Vec<u8>| t@) + spec_tokens(s@.subrange(start as int, n as int))
                =~~= spec_tokens(s@),
        decreases n - i,
    {
        let b: u8 = s[i];
        if b == 32 || b == 9 || b == 13 || b == 10 {
            if start < i {
                let tok: Vec<u8> = vstd::slice::slice_to_vec(
                    vstd::slice::slice_subrange(s, start, i),
                );
                proof {
                    let rest = s@.subrange(start as int, n as int);
                    lemma_ws_index(rest);
                    assert(!is_ws(rest[0]));
                    assert(forall|j: int|
                        0 <= j < i - start ==> rest[j] == s@[start + j] && !is_ws(
                            #[trigger] rest[j],
                        ));
                    assert(rest[i - start] == s@[i as int]);
                    if ws_index(rest) < i - start {
                        assert(is_ws(rest[ws_index(rest)]));
                    }
                    if ws_index(rest) > i - start {
                        assert(!is_ws(rest[i - start]));
                    }
                    assert(ws_index(rest) == i - start);
                    assert(rest.subrange(0, i - start) =~= s@.subrange(start as int, i as int));
                    assert(rest.subrange(i - start, rest.len() as int) =~= s@.subrange(
                        i as int,
                        n as int,
                    ));
                    assert(tok@ =~= s@.subrange(start as int, i as int));
                    let mid = s@.subrange(i as int, n as int);
                    assert(mid[0] == s@[i as int]);
                    assert(is_ws(mid[0]));
                    assert(mid.drop_first() =~= s@.subrange(i as int + 1, n as int));
                    assert(spec_tokens(mid) == spec_tokens(mid.drop_first()));
                    assert(spec_tokens(rest) == seq![rest.subrange(0, i - start)] + spec_tokens(
                        rest.subrange(i - start, rest.len() as int),
                    ));
                    assert(rest.subrange(i - start, rest.len() as int) == mid);
                    assert(rest.subrange(0, i - start) == s@.subrange(start as int, i as int));
                    assert(spec_tokens(rest) =~~= seq![s@.subrange(start as int, i as int)]
                        + spec_tokens(s@.subrange(i as int + 1, n as int)));
                    assert((out@.map_values(|t: Vec<u8>| t@).push(tok@)) + spec_tokens(
                        s@.subrange(i as int + 1, n as int),
                    ) =~~= out@.map_values(|t: Vec<u8>| t@) + spec_tokens(
                        s@.subrange(start as int, n as int),
                    ));
                    assert(out@.push(tok).map_values(|t: Vec<u8>| t@) =~~= out@.map_values(
                        |t: Vec<u8>| t@,
                    ).push(tok@));
                }
                out.push(tok);
            } else {
                proof {
                    let rest = s@.subrange(start as int, n as int);
                    assert(rest[0] == s@[i as int]);
                    assert(rest.drop_first() =~= s@.subrange(i as int + 1, n as int));
                }
            }
            i = i + 1;
            start = i;
        } else {
            i = i + 1;
        }
    }
    if start < n {
        let tok: Vec<u8> = vstd::slice::slice_to_vec(vstd::slice::slice_subrange(s, start, n));
        proof {
            let rest = s@.subrange(start as int, n as int);
            lemma_ws_index(rest);
            assert(!is_ws(rest[0]));
            if ws_index(rest) < rest.len() {
                assert(is_ws(rest[ws_index(rest)]));
                assert(rest[ws_index(rest)] == s@[start + ws_index(rest)]);
            }
            assert(ws_index(rest) == rest.len());
            assert(rest.subrange(0, rest.len() as int) =~= rest);
            assert(rest.subrange(rest.len() as int, rest.len() as int) =~= Seq::<u8>::empty());
            assert(spec_tokens(rest) == seq![rest.subrange(0, ws_index(rest))] + spec_tokens(
                rest.subrange(ws_index(rest), rest.len() as int),
            ));
            assert(spec_tokens(rest.subrange(ws_index(rest), rest.len() as int))
                =~~= Seq::<Seq<u8>>::empty());
            assert(spec_tokens(rest) =~~= seq![rest]);
            assert(tok@ =~= rest);
            assert(out@.push(tok).map_values(|t: Vec<u8>| t@) =~~= out@.map_values(
                |t: Vec<u8>| t@,
            ).push(tok@));
        }
        out.push(tok);
    } else {
        proof {
            assert(s@.subrange(start as int, n as int) =~= Seq::<u8>::empty());
        }
    }
    out
}

} // verus!
