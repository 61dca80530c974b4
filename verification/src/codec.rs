//! Serialization of predictions, and its inverse.
//!
//! A `Prediction` is encoded as a JSON object with one field per
//! attribute of its variant: `{"ascent":[...],"burst":{...},"descent":[...]}`
//! for a standard prediction and `{"positions":[...]}` for a ValBal one,
//! each point as an object of its four integer fields. The encoder is
//! specified character by character (`ser_prediction`), the decoder
//! (`parse_prediction`) is its proven inverse, and both are executable.

use vstd::prelude::*;
use vstd::string::{StringExecFns, StrSliceExecFns};
use vstd::arithmetic::mul::{lemma_mul_is_associative};
use vstd::arithmetic::div_mod::{lemma_fundamental_div_mod};
use crate::point::{Point, PointModel, view_points};
use crate::predictor::{
    Prediction, PredictionModel, StandardModel, StandardPrediction, ValBalModel, ValBalPrediction,
};

verus! {

/// The decimal digit character for `d`.
pub open spec fn digit_char(d: int) -> char {
    if d == 0 { '0' }
    else if d == 1 { '1' }
    else if d == 2 { '2' }
    else if d == 3 { '3' }
    else if d == 4 { '4' }
    else if d == 5 { '5' }
    else if d == 6 { '6' }
    else if d == 7 { '7' }
    else if d == 8 { '8' }
    else { '9' }
}

/// Whether `c` is a decimal digit.
pub open spec fn is_digit_char(c: char) -> bool {
    48 <= c as u32 <= 57
}

/// The numeric value of a digit character.
pub open spec fn digit_val(c: char) -> int {
    c as u32 - 48
}

/// The decimal digits of `n`, most significant first.
pub open spec fn ser_nat(n: nat) -> Seq<char>
    decreases n,
{
    if n < 10 {
        seq![digit_char(n as int)]
    } else {
        ser_nat(n / 10) + seq![digit_char((n % 10) as int)]
    }
}

/// The decimal encoding of `n`, with a leading minus when negative.
pub open spec fn ser_int(n: int) -> Seq<char> {
    if n < 0 {
        seq!['-'] + ser_nat((-n) as nat)
    } else {
        ser_nat(n as nat)
    }
}

/// The encoding of one point.
pub open spec fn ser_point(p: PointModel) -> Seq<char> {
    "{\"latitude\":"@ + ser_int(p.latitude) + ",\"longitude\":"@ + ser_int(p.longitude)
        + ",\"altitude\":"@ + ser_int(p.altitude) + ",\"time\":"@ + ser_int(p.time) + "}"@
}

/// The encoding of the points after the first: each preceded by a comma.
pub open spec fn ser_points_more(s: Seq<PointModel>) -> Seq<char>
    decreases s.len(),
{
    if s.len() == 0 {
        Seq::empty()
    } else {
        seq![','] + ser_point(s[0]) + ser_points_more(s.skip(1))
    }
}

/// The comma-joined encoding of a point sequence (without brackets).
pub open spec fn ser_points(s: Seq<PointModel>) -> Seq<char> {
    if s.len() == 0 {
        Seq::empty()
    } else {
        ser_point(s[0]) + ser_points_more(s.skip(1))
    }
}

/// The encoding of a standard prediction.
pub open spec fn ser_standard(m: StandardModel) -> Seq<char> {
    "{\"ascent\":["@ + ser_points(m.ascent) + "],\"burst\":"@ + ser_point(m.burst)
        + ",\"descent\":["@ + ser_points(m.descent) + "]}"@
}

/// The encoding of a ValBal prediction.
pub open spec fn ser_valbal(m: ValBalModel) -> Seq<char> {
    "{\"positions\":["@ + ser_points(m.positions) + "]}"@
}

/// The encoding of a prediction.
pub open spec fn ser_prediction(m: PredictionModel) -> Seq<char> {
    match m {
        PredictionModel::Standard(sm) => ser_standard(sm),
        PredictionModel::ValBal(vm) => ser_valbal(vm),
    }
}

/// Appending one more point extends a joined encoding by a comma and
/// that point's encoding.
pub proof fn lemma_ser_points_more_snoc(s: Seq<PointModel>, p: PointModel)
    ensures
        ser_points_more(s.push(p)) == ser_points_more(s) + (seq![','] + ser_point(p)),
    decreases s.len(),
{
    let x = s.push(p);
    if s.len() == 0 {
        assert(x.skip(1) =~= Seq::<PointModel>::empty());
        assert(x[0] == p);
        assert(ser_points_more(x.skip(1)) == Seq::<char>::empty());
        assert(ser_points_more(x) == seq![','] + ser_point(p) + ser_points_more(x.skip(1)));
        assert(ser_points_more(x) =~= ser_points_more(s) + (seq![','] + ser_point(p)));
    } else {
        assert(x.skip(1) =~= s.skip(1).push(p));
        assert(x[0] == s[0]);
        assert(ser_points_more(x) == seq![','] + ser_point(s[0]) + ser_points_more(
            s.skip(1).push(p),
        ));
        lemma_ser_points_more_snoc(s.skip(1), p);
        assert(ser_points_more(x) =~= ser_points_more(s) + (seq![','] + ser_point(p)));
    }
}

/// The same, for the full joined encoding.
pub proof fn lemma_ser_points_snoc(s: Seq<PointModel>, p: PointModel)
    ensures
        ser_points(s.push(p)) == if s.len() == 0 {
            ser_point(p)
        } else {
            ser_points(s) + (seq![','] + ser_point(p))
        },
{
    if s.len() == 0 {
        assert(s.push(p).skip(1) =~= Seq::<PointModel>::empty());
        assert(s.push(p)[0] == p);
        assert(ser_points(s.push(p)) =~= ser_point(p));
    } else {
        assert(s.push(p).skip(1) =~= s.skip(1).push(p));
        assert(s.push(p)[0] == s[0]);
        lemma_ser_points_more_snoc(s.skip(1), p);
        assert(ser_points(s.push(p)) =~= ser_points(s) + (seq![','] + ser_point(p)));
    }
}

/// The leading digits of `s` folded into `acc`, and what follows them.
pub open spec fn parse_digits(s: Seq<char>, acc: nat) -> (nat, Seq<char>)
    decreases s.len(),
{
    if s.len() > 0 && is_digit_char(s[0]) {
        parse_digits(s.skip(1), (acc * 10 + digit_val(s[0])) as nat)
    } else {
        (acc, s)
    }
}

/// A decimal number read from the front of `s`: its value and the rest.
pub open spec fn parse_nat(s: Seq<char>) -> Option<(nat, Seq<char>)> {
    if s.len() > 0 && is_digit_char(s[0]) {
        Some(parse_digits(s, 0))
    } else {
        None
    }
}

/// A signed decimal number read from the front of `s`.
pub open spec fn parse_int(s: Seq<char>) -> Option<(int, Seq<char>)> {
    if s.len() > 0 && s[0] == '-' {
        match parse_nat(s.skip(1)) {
            Some(nr) => Some((-(nr.0 as int), nr.1)),
            None => None,
        }
    } else {
        match parse_nat(s) {
            Some(nr) => Some((nr.0 as int, nr.1)),
            None => None,
        }
    }
}

/// A signed decimal number that fits a 64-bit signed integer.
pub open spec fn parse_i64(s: Seq<char>) -> Option<(int, Seq<char>)> {
    match parse_int(s) {
        Some(nr) => if -0x8000_0000_0000_0000 <= nr.0 < 0x8000_0000_0000_0000 {
            Some(nr)
        } else {
            None
        },
        None => None,
    }
}

/// The rest of `s` after the exact literal `lit`, when `s` starts with it.
pub open spec fn parse_lit(s: Seq<char>, lit: Seq<char>) -> Option<Seq<char>> {
    if s.len() >= lit.len() && s.take(lit.len() as int) == lit {
        Some(s.skip(lit.len() as int))
    } else {
        None
    }
}

/// One encoded point read from the front of `s`.
pub open spec fn parse_point(s: Seq<char>) -> Option<(PointModel, Seq<char>)> {
    match parse_lit(s, "{\"latitude\":"@) {
        None => None,
        Some(s1) => match parse_i64(s1) {
            None => None,
            Some((lat, s2)) => match parse_lit(s2, ",\"longitude\":"@) {
                None => None,
                Some(s3) => match parse_i64(s3) {
                    None => None,
                    Some((lon, s4)) => match parse_lit(s4, ",\"altitude\":"@) {
                        None => None,
                        Some(s5) => match parse_i64(s5) {
                            None => None,
                            Some((alt, s6)) => match parse_lit(s6, ",\"time\":"@) {
                                None => None,
                                Some(s7) => match parse_i64(s7) {
                                    None => None,
                                    Some((t, s8)) => match parse_lit(s8, "}"@) {
                                        None => None,
                                        Some(s9) => Some(
                                            (
                                                PointModel {
                                                    latitude: lat,
                                                    longitude: lon,
                                                    altitude: alt,
                                                    time: t,
                                                },
                                                s9,
                                            ),
                                        ),
                                    },
                                },
                            },
                        },
                    },
                },
            },
        },
    }
}

/// The encoded points after the first, each preceded by a comma, read
/// from the front of `s`.
pub open spec fn parse_points_more(s: Seq<char>) -> Option<(Seq<PointModel>, Seq<char>)>
    decreases s.len(),
{
    if s.len() > 0 && s[0] == ',' {
        match parse_point(s.skip(1)) {
            None => None,
            Some((p, r)) => if r.len() < s.len() {
                match parse_points_more(r) {
                    None => None,
                    Some((ps, r2)) => Some((seq![p] + ps, r2)),
                }
            } else {
                None
            },
        }
    } else {
        Some((Seq::empty(), s))
    }
}

/// A comma-joined run of encoded points read from the front of `s`.
pub open spec fn parse_points(s: Seq<char>) -> Option<(Seq<PointModel>, Seq<char>)> {
    if s.len() > 0 && s[0] == '{' {
        match parse_point(s) {
            None => None,
            Some((p, r)) => if r.len() < s.len() {
                match parse_points_more(r) {
                    None => None,
                    Some((ps, r2)) => Some((seq![p] + ps, r2)),
                }
            } else {
                None
            },
        }
    } else {
        Some((Seq::empty(), s))
    }
}

/// A whole encoded prediction: the text must be consumed completely.
pub open spec fn parse_prediction(s: Seq<char>) -> Option<PredictionModel> {
    match parse_lit(s, "{\"ascent\":["@) {
        Some(s1) => match parse_points(s1) {
            None => None,
            Some((asc, s2)) => match parse_lit(s2, "],\"burst\":"@) {
                None => None,
                Some(s3) => match parse_point(s3) {
                    None => None,
                    Some((b, s4)) => match parse_lit(s4, ",\"descent\":["@) {
                        None => None,
                        Some(s5) => match parse_points(s5) {
                            None => None,
                            Some((desc, s6)) => match parse_lit(s6, "]}"@) {
                                None => None,
                                Some(s7) => if s7.len() == 0 {
                                    Some(
                                        PredictionModel::Standard(
                                            StandardModel { ascent: asc, burst: b, descent: desc },
                                        ),
                                    )
                                } else {
                                    None
                                },
                            },
                        },
                    },
                },
            },
        },
        None => match parse_lit(s, "{\"positions\":["@) {
            None => None,
            Some(s1) => match parse_points(s1) {
                None => None,
                Some((ps, s2)) => match parse_lit(s2, "]}"@) {
                    None => None,
                    Some(s3) => if s3.len() == 0 {
                        Some(PredictionModel::ValBal(ValBalModel { positions: ps }))
                    } else {
                        None
                    },
                },
            },
        },
    }
}

/// Appends the digit character of `d`.
fn push_digit(out: &mut String, d: u64)
    requires
        d < 10,
    ensures
        final(out)@ == old(out)@ + seq![digit_char(d as int)],
{
    if d == 0 {
        out.append("0");
        proof { reveal_strlit("0"); assert(out@ =~= old(out)@ + seq![digit_char(d as int)]); }
    } else if d == 1 {
        out.append("1");
        proof { reveal_strlit("1"); assert(out@ =~= old(out)@ + seq![digit_char(d as int)]); }
    } else if d == 2 {
        out.append("2");
        proof { reveal_strlit("2"); assert(out@ =~= old(out)@ + seq![digit_char(d as int)]); }
    } else if d == 3 {
        out.append("3");
        proof { reveal_strlit("3"); assert(out@ =~= old(out)@ + seq![digit_char(d as int)]); }
    } else if d == 4 {
        out.append("4");
        proof { reveal_strlit("4"); assert(out@ =~= old(out)@ + seq![digit_char(d as int)]); }
    } else if d == 5 {
        out.append("5");
        proof { reveal_strlit("5"); assert(out@ =~= old(out)@ + seq![digit_char(d as int)]); }
    } else if d == 6 {
        out.append("6");
        proof { reveal_strlit("6"); assert(out@ =~= old(out)@ + seq![digit_char(d as int)]); }
    } else if d == 7 {
        out.append("7");
        proof { reveal_strlit("7"); assert(out@ =~= old(out)@ + seq![digit_char(d as int)]); }
    } else if d == 8 {
        out.append("8");
        proof { reveal_strlit("8"); assert(out@ =~= old(out)@ + seq![digit_char(d as int)]); }
    } else {
        out.append("9");
        proof { reveal_strlit("9"); assert(out@ =~= old(out)@ + seq![digit_char(d as int)]); }
    }
}

/// Appends the decimal digits of `n`.
fn push_nat(out: &mut String, n: u64)
    ensures
        final(out)@ == old(out)@ + ser_nat(n as nat),
    decreases n,
{
    if n < 10 {
        push_digit(out, n);
    } else {
        push_nat(out, n / 10);
        push_digit(out, n % 10);
        proof {
            assert(out@ =~= old(out)@ + (ser_nat((n / 10) as nat) + seq![
                digit_char((n % 10) as int),
            ]));
        }
    }
}

/// Appends the decimal encoding of `n`.
fn push_int(out: &mut String, n: i64)
    ensures
        final(out)@ == old(out)@ + ser_int(n as int),
{
    if n >= 0 {
        push_nat(out, n as u64);
    } else {
        out.append("-");
        let m: u64 = (-(n as i128)) as u64;
        push_nat(out, m);
        proof {
            reveal_strlit("-");
            assert(m as nat == (-(n as int)) as nat);
            assert(out@ =~= old(out)@ + (seq!['-'] + ser_nat((-(n as int)) as nat)));
        }
    }
}

/// Appends the encoding of one point.
fn push_point(out: &mut String, p: &Point)
    ensures
        final(out)@ == old(out)@ + ser_point(p@),
{
    out.append("{\"latitude\":");
    push_int(out, p.latitude);
    out.append(",\"longitude\":");
    push_int(out, p.longitude);
    out.append(",\"altitude\":");
    push_int(out, p.altitude);
    out.append(",\"time\":");
    push_int(out, p.time);
    out.append("}");
    proof {
        assert(out@ =~= old(out)@ + ser_point(p@));
    }
}

/// Appends the comma-joined encoding of the points.
fn push_points(out: &mut String, v: &Vec<Point>)
    ensures
        final(out)@ == old(out)@ + ser_points(view_points(v@)),
{
    let ghost init = out@;
    let mut i: usize = 0;
    proof {
        assert(view_points(v@.take(0)) =~= Seq::<PointModel>::empty());
        assert(out@ =~= init + ser_points(view_points(v@.take(0))));
    }
    while i < v.len()
        invariant
            0 <= i <= v.len(),
            out@ == init + ser_points(view_points(v@.take(i as int))),
        decreases v.len() - i,
    {
        if i > 0 {
            out.append(",");
        }
        push_point(out, &v[i]);
        proof {
            reveal_strlit(",");
            let pre = view_points(v@.take(i as int));
            assert(view_points(v@.take(i + 1)) =~= pre.push(v@[i as int]@));
            lemma_ser_points_snoc(pre, v@[i as int]@);
            if i == 0 {
                assert(out@ =~= init + ser_points(view_points(v@.take(i + 1))));
            } else {
                assert(out@ =~= init + (ser_points(pre) + (seq![','] + ser_point(v@[i as int]@))));
                assert(out@ =~= init + ser_points(view_points(v@.take(i + 1))));
            }
        }
        i = i + 1;
    }
    proof {
        assert(v@.take(v@.len() as int) =~= v@);
    }
}

impl Prediction {
    /// The textual encoding of this prediction, exactly `ser_prediction`
    /// of its model.
    pub fn serialize(&self) -> (r: String)
        ensures
            r@ == ser_prediction(self@),
    {
        let mut out = String::new();
        match self {
            Prediction::Standard(sp) => {
                out.append("{\"ascent\":[");
                push_points(&mut out, &sp.ascent);
                out.append("],\"burst\":");
                push_point(&mut out, &sp.burst);
                out.append(",\"descent\":[");
                push_points(&mut out, &sp.descent);
                out.append("]}");
                proof {
                    assert(out@ =~= ser_standard(sp@));
                }
            },
            Prediction::ValBal(vp) => {
                out.append("{\"positions\":[");
                push_points(&mut out, &vp.positions);
                out.append("]}");
                proof {
                    assert(out@ =~= ser_valbal(vp@));
                }
            },
        }
        out
    }
}

/// Ten to the power `k`.
pub open spec fn pow10(k: nat) -> nat
    decreases k,
{
    if k == 0 {
        1
    } else {
        10 * pow10((k - 1) as nat)
    }
}

pub proof fn lemma_digit_char(d: int)
    requires
        0 <= d < 10,
    ensures
        is_digit_char(digit_char(d)),
        digit_val(digit_char(d)) == d,
{
}

/// A number's encoding is a nonempty run of digit characters.
pub proof fn lemma_ser_nat_digits(n: nat)
    ensures
        ser_nat(n).len() >= 1,
        forall|i: int| 0 <= i < ser_nat(n).len() ==> is_digit_char(#[trigger] ser_nat(n)[i]),
    decreases n,
{
    if n < 10 {
        lemma_digit_char(n as int);
    } else {
        lemma_ser_nat_digits(n / 10);
        lemma_digit_char((n % 10) as int);
        assert forall|i: int| 0 <= i < ser_nat(n).len() implies is_digit_char(
            #[trigger] ser_nat(n)[i],
        ) by {
            if i < ser_nat(n / 10).len() {
                assert(ser_nat(n)[i] == ser_nat(n / 10)[i]);
            } else {
                assert(ser_nat(n)[i] == digit_char((n % 10) as int));
            }
        }
    }
}

/// Reading the digits of `n`'s encoding folds `n` into the accumulator.
pub proof fn lemma_parse_digits_ser_nat(n: nat, rest: Seq<char>, acc: nat)
    ensures
        parse_digits(ser_nat(n) + rest, acc) == parse_digits(
            rest,
            acc * pow10(ser_nat(n).len() as nat) + n,
        ),
    decreases n,
{
    lemma_ser_nat_digits(n);
    if n < 10 {
        lemma_digit_char(n as int);
        let s = ser_nat(n) + rest;
        assert(s[0] == digit_char(n as int));
        assert(s.skip(1) =~= rest);
        assert(parse_digits(s, acc) == parse_digits(rest, acc * 10 + n));
        assert(pow10(0) == 1);
        assert(pow10(1) == 10);
    } else {
        let hi = ser_nat(n / 10);
        let d = digit_char((n % 10) as int);
        let l = hi.len() as nat;
        assert(ser_nat(n) + rest =~= hi + (seq![d] + rest));
        lemma_parse_digits_ser_nat(n / 10, seq![d] + rest, acc);
        let acc2 = acc * pow10(l) + n / 10;
        assert(parse_digits(ser_nat(n) + rest, acc) == parse_digits(seq![d] + rest, acc2));
        lemma_digit_char((n % 10) as int);
        assert((seq![d] + rest)[0] == d);
        assert((seq![d] + rest).skip(1) =~= rest);
        assert(parse_digits(seq![d] + rest, acc2) == parse_digits(rest, acc2 * 10 + n % 10));
        assert(acc2 * 10 == (acc * pow10(l)) * 10 + (n / 10) * 10);
        lemma_mul_is_associative(acc as int, pow10(l) as int, 10);
        assert((acc * pow10(l)) * 10 == acc * (pow10(l) * 10));
        assert(pow10(l + 1) == 10 * pow10(l));
        lemma_fundamental_div_mod(n as int, 10);
        assert((n / 10) * 10 + n % 10 == n);
        assert(acc2 * 10 + n % 10 == acc * pow10(l + 1) + n);
        assert(ser_nat(n).len() == l + 1);
    }
}

/// Reading a number's encoding yields the number and the rest, when the
/// rest does not begin with another digit.
pub proof fn lemma_parse_nat_ser_nat(n: nat, rest: Seq<char>)
    requires
        rest.len() == 0 || !is_digit_char(rest[0]),
    ensures
        parse_nat(ser_nat(n) + rest) == Some((n, rest)),
{
    lemma_ser_nat_digits(n);
    let s = ser_nat(n) + rest;
    assert(s[0] == ser_nat(n)[0]);
    lemma_parse_digits_ser_nat(n, rest, 0);
    assert(0 * pow10(ser_nat(n).len() as nat) == 0);
    assert(parse_digits(rest, n) == (n, rest));
}

/// The same for a signed encoding.
pub proof fn lemma_parse_int_ser_int(n: int, rest: Seq<char>)
    requires
        rest.len() == 0 || !is_digit_char(rest[0]),
    ensures
        parse_int(ser_int(n) + rest) == Some((n, rest)),
{
    if n < 0 {
        let m = (-n) as nat;
        lemma_ser_nat_digits(m);
        let s = ser_int(n) + rest;
        assert(s =~= seq!['-'] + (ser_nat(m) + rest));
        assert(s[0] == '-');
        assert(s.skip(1) =~= ser_nat(m) + rest);
        lemma_parse_nat_ser_nat(m, rest);
    } else {
        let s = ser_int(n) + rest;
        lemma_ser_nat_digits(n as nat);
        assert(s[0] == ser_nat(n as nat)[0]);
        assert(is_digit_char(s[0]));
        assert(s[0] != '-');
        lemma_parse_nat_ser_nat(n as nat, rest);
    }
}

/// The same through the 64-bit range filter, for values in range.
pub proof fn lemma_parse_i64_ser_int(n: int, rest: Seq<char>)
    requires
        -0x8000_0000_0000_0000 <= n < 0x8000_0000_0000_0000,
        rest.len() == 0 || !is_digit_char(rest[0]),
    ensures
        parse_i64(ser_int(n) + rest) == Some((n, rest)),
{
    lemma_parse_int_ser_int(n, rest);
}

/// Reading a literal off a text that starts with it yields the rest.
pub proof fn lemma_parse_lit_prefix(lit: Seq<char>, rest: Seq<char>)
    ensures
        parse_lit(lit + rest, lit) == Some(rest),
{
    assert((lit + rest).take(lit.len() as int) =~= lit);
    assert((lit + rest).skip(lit.len() as int) =~= rest);
}

/// The value folded by `parse_digits` never falls below the accumulator
/// it starts from.
pub proof fn lemma_parse_digits_ge(s: Seq<char>, acc: nat)
    ensures
        parse_digits(s, acc).0 >= acc,
    decreases s.len(),
{
    if s.len() > 0 && is_digit_char(s[0]) {
        lemma_parse_digits_ge(s.skip(1), (acc * 10 + digit_val(s[0])) as nat);
    }
}

/// The characters of `text`, in order.
fn chars_of(text: &str) -> (v: Vec<char>)
    ensures
        v@ == text@,
{
    let n = text.unicode_len();
    let mut v: Vec<char> = Vec::new();
    while v.len() < n
        invariant
            n == text@.len(),
            v@.len() <= n,
            v@ == text@.take(v@.len() as int),
        decreases n - v.len(),
    {
        let c = text.get_char(v.len());
        v.push(c);
        proof {
            assert(v@ =~= text@.take(v@.len() as int));
        }
    }
    proof {
        assert(text@.take(n as int) =~= text@);
    }
    v
}

/// The position after the literal `lit` at position `i` of `v`, when the
/// text continues with exactly that literal.
fn p_lit(v: &Vec<char>, i: usize, lit: &str) -> (r: Option<usize>)
    requires
        i <= v@.len(),
    ensures
        (match r {
            Some(j) => i <= j <= v@.len() && j - i == lit@.len() && parse_lit(
                v@.skip(i as int),
                lit@,
            ) == Some(v@.skip(j as int)),
            None => parse_lit(v@.skip(i as int), lit@) is None,
        }),
{
    let n = lit.unicode_len();
    if v.len() - i < n {
        return None;
    }
    let mut j: usize = 0;
    while j < n
        invariant
            0 <= j <= n,
            n == lit@.len(),
            i + n <= v@.len(),
            v@.len() <= usize::MAX,
            forall|k: int| 0 <= k < j ==> v@[i + k] == lit@[k],
        decreases n - j,
    {
        if v[i + j] != lit.get_char(j) {
            proof {
                let ss = v@.skip(i as int);
                assert(ss[j as int] == v@[i + j]);
                if ss.take(n as int) == lit@ {
                    assert(ss.take(n as int)[j as int] == ss[j as int]);
                }
            }
            return None;
        }
        j = j + 1;
    }
    proof {
        let ss = v@.skip(i as int);
        assert forall|k: int| 0 <= k < n implies ss.take(n as int)[k] == lit@[k] by {
            assert(ss[k] == v@[i + k]);
        }
        assert(ss.take(n as int) =~= lit@);
        assert(ss.skip(n as int) =~= v@.skip(i + n));
    }
    Some(i + n)
}

/// A signed 64-bit number read at position `i` of `v`, and the position
/// after its digits.
fn p_i64(v: &Vec<char>, i: usize) -> (r: Option<(i64, usize)>)
    requires
        i <= v@.len(),
    ensures
        (match r {
            Some(pr) => i < pr.1 <= v@.len() && parse_i64(v@.skip(i as int)) == Some(
                (pr.0 as int, v@.skip(pr.1 as int)),
            ),
            None => parse_i64(v@.skip(i as int)) is None,
        }),
{
    let ghost s = v@.skip(i as int);
    let mut k: usize = i;
    let neg: bool = if k < v.len() && v[k] == '-' {
        k = k + 1;
        true
    } else {
        false
    };
    proof {
        if neg {
            assert(s[0] == '-');
            assert(s.skip(1) =~= v@.skip(k as int));
        }
    }
    if k == v.len() {
        return None;
    }
    let c0 = v[k];
    let code0: u32 = c0 as u32;
    if code0 < 48 || code0 > 57 {
        proof {
            assert(v@.skip(k as int)[0] == v@[k as int]);
            assert(!is_digit_char(v@[k as int]));
            if !neg {
                assert(s[0] == v@[k as int]);
            }
        }
        return None;
    }
    let ghost d0 = k;
    proof {
        assert(v@.skip(k as int)[0] == v@[k as int]);
        assert(is_digit_char(v@[d0 as int]));
    }
    let mut acc: u64 = 0;
    let mut more: bool = true;
    while more
        invariant
            s == v@.skip(i as int),
            v@.len() <= usize::MAX,
            i <= d0 <= k <= v@.len(),
            d0 < v@.len(),
            is_digit_char(v@[d0 as int]),
            neg ==> d0 == i + 1 && s.len() > 0 && s[0] == '-',
            !neg ==> d0 == i,
            acc <= 0x8000_0000_0000_0000,
            parse_digits(v@.skip(d0 as int), 0) == parse_digits(v@.skip(k as int), acc as nat),
            more ==> k < v@.len() && is_digit_char(v@[k as int]),
            !more ==> (k == v@.len() || !is_digit_char(v@[k as int])),
        decreases v@.len() - k,
    {
        let c = v[k];
        let d: u64 = ((c as u32) - 48) as u64;
        proof {
            assert(digit_val(v@[k as int]) == d as int);
        }
        let nv: u128 = acc as u128 * 10 + d as u128;
        if nv > 0x8000_0000_0000_0000u128 {
            proof {
                let sk = v@.skip(k as int);
                assert(sk[0] == v@[k as int]);
                assert(sk.skip(1) =~= v@.skip(k as int + 1));
                assert(parse_digits(sk, acc as nat) == parse_digits(
                    v@.skip(k as int + 1),
                    (acc * 10 + digit_val(sk[0])) as nat,
                ));
                lemma_parse_digits_ge(v@.skip(k as int + 1), (acc * 10 + digit_val(sk[0])) as nat);
                let value = parse_digits(v@.skip(d0 as int), 0).0;
                assert(value > 0x8000_0000_0000_0000);
                assert(v@.skip(d0 as int)[0] == v@[d0 as int]);
                assert(parse_nat(v@.skip(d0 as int)) == Some(parse_digits(v@.skip(d0 as int), 0)));
                if neg {
                    assert(s.skip(1) =~= v@.skip(d0 as int));
                    assert(parse_int(s) == Some(
                        (-(value as int), parse_digits(v@.skip(d0 as int), 0).1),
                    ));
                } else {
                    assert(s =~= v@.skip(d0 as int));
                    assert(s[0] != '-');
                }
            }
            return None;
        }
        acc = nv as u64;
        k = k + 1;
        proof {
            let sk = v@.skip(k - 1);
            assert(sk[0] == v@[k - 1]);
            assert(sk.skip(1) =~= v@.skip(k as int));
        }
        if k == v.len() {
            more = false;
        } else {
            let c2 = v[k];
            let code2: u32 = c2 as u32;
            more = code2 >= 48 && code2 <= 57;
            proof {
                assert(v@.skip(k as int)[0] == v@[k as int]);
            }
        }
    }
    proof {
        let sk = v@.skip(k as int);
        assert(k < v@.len() ==> sk[0] == v@[k as int]);
        assert(parse_digits(sk, acc as nat) == (acc as nat, sk));
        assert(v@.skip(d0 as int)[0] == v@[d0 as int]);
        assert(parse_nat(v@.skip(d0 as int)) == Some((acc as nat, sk)));
    }
    if neg {
        let value: i64 = if acc == 0x8000_0000_0000_0000u64 {
            i64::MIN
        } else {
            -(acc as i64)
        };
        proof {
            assert(s.skip(1) =~= v@.skip(d0 as int));
            assert(parse_int(s) == Some((-(acc as int), v@.skip(k as int))));
            assert(value as int == -(acc as int));
        }
        Some((value, k))
    } else {
        proof {
            assert(s =~= v@.skip(d0 as int));
            assert(is_digit_char(s[0]));
            assert(s[0] != '-');
        }
        if acc >= 0x8000_0000_0000_0000u64 {
            proof {
                assert(parse_int(s) == Some((acc as int, v@.skip(k as int))));
            }
            return None;
        }
        proof {
            assert(parse_int(s) == Some((acc as int, v@.skip(k as int))));
        }
        Some((acc as i64, k))
    }
}

/// One encoded point read at position `i` of `v`.
fn p_point(v: &Vec<char>, i: usize) -> (r: Option<(Point, usize)>)
    requires
        i <= v@.len(),
    ensures
        (match r {
            Some(pr) => i < pr.1 <= v@.len() && parse_point(v@.skip(i as int)) == Some(
                (pr.0@, v@.skip(pr.1 as int)),
            ),
            None => parse_point(v@.skip(i as int)) is None,
        }),
{
    let j1 = match p_lit(v, i, "{\"latitude\":") {
        None => { return None; },
        Some(j) => j,
    };
    let (lat, j2) = match p_i64(v, j1) {
        None => { return None; },
        Some(pr) => pr,
    };
    let j3 = match p_lit(v, j2, ",\"longitude\":") {
        None => { return None; },
        Some(j) => j,
    };
    let (lon, j4) = match p_i64(v, j3) {
        None => { return None; },
        Some(pr) => pr,
    };
    let j5 = match p_lit(v, j4, ",\"altitude\":") {
        None => { return None; },
        Some(j) => j,
    };
    let (alt, j6) = match p_i64(v, j5) {
        None => { return None; },
        Some(pr) => pr,
    };
    let j7 = match p_lit(v, j6, ",\"time\":") {
        None => { return None; },
        Some(j) => j,
    };
    let (t, j8) = match p_i64(v, j7) {
        None => { return None; },
        Some(pr) => pr,
    };
    let j9 = match p_lit(v, j8, "}") {
        None => { return None; },
        Some(j) => j,
    };
    proof {
        reveal_strlit("{\"latitude\":");
        reveal_strlit("}");
    }
    Some((Point { latitude: lat, longitude: lon, altitude: alt, time: t }, j9))
}

/// A comma-joined run of encoded points read at position `i` of `v`.
fn p_points(v: &Vec<char>, i: usize) -> (r: Option<(Vec<Point>, usize)>)
    requires
        i <= v@.len(),
    ensures
        (match r {
            Some(pr) => i <= pr.1 <= v@.len() && parse_points(v@.skip(i as int)) == Some(
                (view_points(pr.0@), v@.skip(pr.1 as int)),
            ),
            None => parse_points(v@.skip(i as int)) is None,
        }),
{
    if i == v.len() || v[i] != '{' {
        let out: Vec<Point> = Vec::new();
        proof {
            let s = v@.skip(i as int);
            assert(i == v@.len() ==> s.len() == 0);
            assert(i < v@.len() ==> s[0] == v@[i as int]);
            assert(view_points(out@) =~= Seq::<PointModel>::empty());
        }
        return Some((out, i));
    }
    let (first, j) = match p_point(v, i) {
        None => { return None; },
        Some(pr) => pr,
    };
    proof {
        assert(v@.skip(i as int)[0] == v@[i as int]);
    }
    let mut out: Vec<Point> = Vec::new();
    out.push(first);
    let mut k: usize = j;
    let mut going: bool = k < v.len() && v[k] == ',';
    proof {
        assert(view_points(out@) =~= seq![first@]);
    }
    while going
        invariant
            i <= k <= v@.len(),
            v@.len() <= usize::MAX,
            going == (k < v@.len() && v@[k as int] == ','),
            (match parse_points_more(v@.skip(k as int)) {
                Some(pr) => parse_points(v@.skip(i as int)) == Some(
                    (view_points(out@) + pr.0, pr.1),
                ),
                None => parse_points(v@.skip(i as int)) is None,
            }),
        decreases v@.len() - k,
    {
        let ghost sk = v@.skip(k as int);
        proof {
            assert(sk[0] == ',');
            assert(sk.skip(1) =~= v@.skip(k + 1));
        }
        let (p2, j2) = match p_point(v, k + 1) {
            None => { return None; },
            Some(pr) => pr,
        };
        proof {
            assert(v@.skip(j2 as int).len() < sk.len());
            let rec = parse_points_more(v@.skip(j2 as int));
            if rec is Some {
                assert(view_points(out@.push(p2)) =~= view_points(out@) + seq![p2@]);
                assert((view_points(out@) + seq![p2@]) + rec->Some_0.0 =~= view_points(out@) + (
                seq![p2@] + rec->Some_0.0));
            }
        }
        out.push(p2);
        k = j2;
        going = k < v.len() && v[k] == ',';
    }
    proof {
        let sk = v@.skip(k as int);
        assert(k < v@.len() ==> sk[0] == v@[k as int]);
        assert(parse_points_more(sk) == Some((Seq::<PointModel>::empty(), sk)));
        assert(view_points(out@) + Seq::<PointModel>::empty() =~= view_points(out@));
    }
    Some((out, k))
}

impl Prediction {
    /// Decodes a serialized prediction, returning exactly what
    /// `parse_prediction` says the text holds.
    pub fn deserialize(text: &str) -> (r: Option<Prediction>)
        ensures
            (match r {
                Some(p) => parse_prediction(text@) == Some(p@),
                None => parse_prediction(text@) is None,
            }),
    {
        let v = chars_of(text);
        proof {
            assert(v@.skip(0) =~= text@);
        }
        match p_lit(&v, 0, "{\"ascent\":[") {
            Some(j1) => {
                let (ascent, j2) = match p_points(&v, j1) {
                    None => { return None; },
                    Some(pr) => pr,
                };
                let j3 = match p_lit(&v, j2, "],\"burst\":") {
                    None => { return None; },
                    Some(j) => j,
                };
                let (burst, j4) = match p_point(&v, j3) {
                    None => { return None; },
                    Some(pr) => pr,
                };
                let j5 = match p_lit(&v, j4, ",\"descent\":[") {
                    None => { return None; },
                    Some(j) => j,
                };
                let (descent, j6) = match p_points(&v, j5) {
                    None => { return None; },
                    Some(pr) => pr,
                };
                let j7 = match p_lit(&v, j6, "]}") {
                    None => { return None; },
                    Some(j) => j,
                };
                if j7 != v.len() {
                    return None;
                }
                Some(Prediction::Standard(StandardPrediction { ascent, burst, descent }))
            },
            None => {
                let j1 = match p_lit(&v, 0, "{\"positions\":[") {
                    None => { return None; },
                    Some(j) => j,
                };
                let (positions, j2) = match p_points(&v, j1) {
                    None => { return None; },
                    Some(pr) => pr,
                };
                let j3 = match p_lit(&v, j2, "]}") {
                    None => { return None; },
                    Some(j) => j,
                };
                if j3 != v.len() {
                    return None;
                }
                Some(Prediction::ValBal(ValBalPrediction { positions }))
            },
        }
    }
}

/// Every field of the point's model fits a 64-bit signed integer.
pub open spec fn point_model_in_i64(p: PointModel) -> bool {
    &&& -0x8000_0000_0000_0000 <= p.latitude < 0x8000_0000_0000_0000
    &&& -0x8000_0000_0000_0000 <= p.longitude < 0x8000_0000_0000_0000
    &&& -0x8000_0000_0000_0000 <= p.altitude < 0x8000_0000_0000_0000
    &&& -0x8000_0000_0000_0000 <= p.time < 0x8000_0000_0000_0000
}

pub open spec fn points_in_i64(s: Seq<PointModel>) -> bool {
    forall|i: int| 0 <= i < s.len() ==> point_model_in_i64(#[trigger] s[i])
}

/// Every point of the prediction's model fits 64-bit signed integers.
pub open spec fn prediction_model_in_i64(m: PredictionModel) -> bool {
    match m {
        PredictionModel::Standard(sm) => {
            &&& points_in_i64(sm.ascent)
            &&& point_model_in_i64(sm.burst)
            &&& points_in_i64(sm.descent)
        },
        PredictionModel::ValBal(vm) => points_in_i64(vm.positions),
    }
}

/// Reading a point's encoding yields the point and the rest.
#[verifier::rlimit(60)]
pub proof fn lemma_parse_point_ser_point(p: PointModel, rest: Seq<char>)
    requires
        point_model_in_i64(p),
    ensures
        parse_point(ser_point(p) + rest) == Some((p, rest)),
        ser_point(p).len() > 12,
        (ser_point(p) + rest)[0] == '{',
{
    let lit1 = "{\"latitude\":"@;
    let lit2 = ",\"longitude\":"@;
    let lit3 = ",\"altitude\":"@;
    let lit4 = ",\"time\":"@;
    let lit5 = "}"@;
    reveal_strlit("{\"latitude\":");
    reveal_strlit(",\"longitude\":");
    reveal_strlit(",\"altitude\":");
    reveal_strlit(",\"time\":");
    reveal_strlit("}");
    let t8 = lit5 + rest;
    let t7 = ser_int(p.time) + t8;
    let t6 = lit4 + t7;
    let t5 = ser_int(p.altitude) + t6;
    let t4 = lit3 + t5;
    let t3 = ser_int(p.longitude) + t4;
    let t2 = lit2 + t3;
    let t1 = ser_int(p.latitude) + t2;
    let s = ser_point(p) + rest;
    assert(s =~= lit1 + t1);
    lemma_parse_lit_prefix(lit1, t1);
    assert(parse_lit(s, lit1) == Some(t1));
    assert(t2[0] == ',' && !is_digit_char(t2[0]));
    lemma_parse_i64_ser_int(p.latitude, t2);
    assert(parse_i64(t1) == Some((p.latitude, t2)));
    lemma_parse_lit_prefix(lit2, t3);
    assert(t4[0] == ',' && !is_digit_char(t4[0]));
    lemma_parse_i64_ser_int(p.longitude, t4);
    assert(parse_i64(t3) == Some((p.longitude, t4)));
    lemma_parse_lit_prefix(lit3, t5);
    assert(t6[0] == ',' && !is_digit_char(t6[0]));
    lemma_parse_i64_ser_int(p.altitude, t6);
    assert(parse_i64(t5) == Some((p.altitude, t6)));
    lemma_parse_lit_prefix(lit4, t7);
    assert(t8[0] == '}' && !is_digit_char(t8[0]));
    lemma_parse_i64_ser_int(p.time, t8);
    assert(parse_i64(t7) == Some((p.time, t8)));
    lemma_parse_lit_prefix(lit5, rest);
    assert(parse_lit(t8, lit5) == Some(rest));
    assert(parse_point(s) == Some((PointModel {
        latitude: p.latitude,
        longitude: p.longitude,
        altitude: p.altitude,
        time: p.time,
    }, rest)));
    assert(PointModel {
        latitude: p.latitude,
        longitude: p.longitude,
        altitude: p.altitude,
        time: p.time,
    } == p);
    assert(s[0] == lit1[0]);
}

/// Reading the encoding of the points after the first yields them and
/// the rest, when the rest does not begin with another comma.
pub proof fn lemma_parse_points_more_ser(s: Seq<PointModel>, rest: Seq<char>)
    requires
        points_in_i64(s),
        rest.len() == 0 || rest[0] != ',',
    ensures
        parse_points_more(ser_points_more(s) + rest) == Some((s, rest)),
    decreases s.len(),
{
    if s.len() == 0 {
        assert(ser_points_more(s) + rest =~= rest);
        assert(parse_points_more(rest) == Some((Seq::<PointModel>::empty(), rest)));
        assert(Seq::<PointModel>::empty() =~= s);
    } else {
        let tail = ser_points_more(s.skip(1)) + rest;
        let x = ser_points_more(s) + rest;
        assert(x =~= seq![','] + (ser_point(s[0]) + tail));
        assert(x[0] == ',');
        assert(x.skip(1) =~= ser_point(s[0]) + tail);
        assert(point_model_in_i64(s[0]));
        lemma_parse_point_ser_point(s[0], tail);
        assert(parse_point(x.skip(1)) == Some((s[0], tail)));
        assert(tail.len() < x.len());
        lemma_parse_points_more_ser(s.skip(1), rest);
        assert(parse_points_more(tail) == Some((s.skip(1), rest)));
        assert(seq![s[0]] + s.skip(1) =~= s);
    }
}

/// Reading a joined encoding of points yields them and the rest, when
/// the rest does not begin with another point or separator.
pub proof fn lemma_parse_points_ser(s: Seq<PointModel>, rest: Seq<char>)
    requires
        points_in_i64(s),
        rest.len() == 0 || (rest[0] != '{' && rest[0] != ','),
    ensures
        parse_points(ser_points(s) + rest) == Some((s, rest)),
{
    if s.len() == 0 {
        assert(ser_points(s) + rest =~= rest);
        assert(parse_points(rest) == Some((Seq::<PointModel>::empty(), rest)));
        assert(Seq::<PointModel>::empty() =~= s);
    } else {
        let tail = ser_points_more(s.skip(1)) + rest;
        let x = ser_points(s) + rest;
        assert(x =~= ser_point(s[0]) + tail);
        assert(point_model_in_i64(s[0]));
        lemma_parse_point_ser_point(s[0], tail);
        assert(x[0] == '{');
        assert(parse_point(x) == Some((s[0], tail)));
        assert(tail.len() < x.len());
        lemma_parse_points_more_ser(s.skip(1), rest);
        assert(parse_points_more(tail) == Some((s.skip(1), rest)));
        assert(seq![s[0]] + s.skip(1) =~= s);
    }
}

/// The model of any executable prediction value fits 64-bit integers,
/// so decoding its serialized text always yields it back.
pub proof fn lemma_prediction_view_in_i64(p: &Prediction)
    ensures
        prediction_model_in_i64(p@),
{
    match p {
        Prediction::Standard(sp) => {
            assert forall|i: int| 0 <= i < view_points(sp.ascent@).len() implies point_model_in_i64(
                #[trigger] view_points(sp.ascent@)[i],
            ) by {
                assert(view_points(sp.ascent@)[i] == sp.ascent@[i]@);
            }
            assert forall|i: int|
                0 <= i < view_points(sp.descent@).len() implies point_model_in_i64(
                #[trigger] view_points(sp.descent@)[i],
            ) by {
                assert(view_points(sp.descent@)[i] == sp.descent@[i]@);
            }
        },
        Prediction::ValBal(vp) => {
            assert forall|i: int|
                0 <= i < view_points(vp.positions@).len() implies point_model_in_i64(
                #[trigger] view_points(vp.positions@)[i],
            ) by {
                assert(view_points(vp.positions@)[i] == vp.positions@[i]@);
            }
        },
    }
}

/// Decoding the encoded text of a prediction yields the prediction
/// itself: serialization loses nothing.
#[verifier::rlimit(60)]
pub proof fn lemma_parse_ser_prediction(m: PredictionModel)
    requires
        prediction_model_in_i64(m),
    ensures
        parse_prediction(ser_prediction(m)) == Some(m),
{
    let lit_a = "{\"ascent\":["@;
    let lit_b = "],\"burst\":"@;
    let lit_c = ",\"descent\":["@;
    let lit_d = "]}"@;
    let lit_p = "{\"positions\":["@;
    reveal_strlit("{\"ascent\":[");
    reveal_strlit("],\"burst\":");
    reveal_strlit(",\"descent\":[");
    reveal_strlit("]}");
    reveal_strlit("{\"positions\":[");
    match m {
        PredictionModel::Standard(sm) => {
            let t6 = lit_d + Seq::<char>::empty();
            let t5 = ser_points(sm.descent) + t6;
            let t4 = lit_c + t5;
            let t3 = ser_point(sm.burst) + t4;
            let t2 = lit_b + t3;
            let t1 = ser_points(sm.ascent) + t2;
            let s = ser_prediction(m);
            assert(s =~= lit_a + t1);
            lemma_parse_lit_prefix(lit_a, t1);
            assert(parse_lit(s, lit_a) == Some(t1));
            assert(t2[0] == ']' && t2[0] != '{' && t2[0] != ',');
            lemma_parse_points_ser(sm.ascent, t2);
            assert(parse_points(t1) == Some((sm.ascent, t2)));
            lemma_parse_lit_prefix(lit_b, t3);
            lemma_parse_point_ser_point(sm.burst, t4);
            assert(parse_point(t3) == Some((sm.burst, t4)));
            lemma_parse_lit_prefix(lit_c, t5);
            assert(t6[0] == ']' && t6[0] != '{' && t6[0] != ',');
            lemma_parse_points_ser(sm.descent, t6);
            assert(parse_points(t5) == Some((sm.descent, t6)));
            assert(t6 =~= lit_d + Seq::<char>::empty());
            lemma_parse_lit_prefix(lit_d, Seq::<char>::empty());
            assert(parse_lit(t6, lit_d) == Some(Seq::<char>::empty()));
            assert(StandardModel { ascent: sm.ascent, burst: sm.burst, descent: sm.descent }
                == sm);
        },
        PredictionModel::ValBal(vm) => {
            let t2 = lit_d + Seq::<char>::empty();
            let t1 = ser_points(vm.positions) + t2;
            let s = ser_prediction(m);
            assert(s =~= lit_p + t1);
            assert(s[2] == lit_p[2]);
            assert(parse_lit(s, lit_a) is None) by {
                if s.len() >= lit_a.len() && s.take(lit_a.len() as int) == lit_a {
                    assert(s.take(lit_a.len() as int)[2] == s[2]);
                }
            }
            lemma_parse_lit_prefix(lit_p, t1);
            assert(parse_lit(s, lit_p) == Some(t1));
            assert(t2[0] == ']' && t2[0] != '{' && t2[0] != ',');
            lemma_parse_points_ser(vm.positions, t2);
            assert(parse_points(t1) == Some((vm.positions, t2)));
            lemma_parse_lit_prefix(lit_d, Seq::<char>::empty());
            assert(parse_lit(t2, lit_d) == Some(Seq::<char>::empty()));
            assert(ValBalModel { positions: vm.positions } == vm);
        },
    }
}

} // verus!
