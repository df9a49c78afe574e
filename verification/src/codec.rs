//! The stats file format.
//!
//! The record is persisted as one small JSON object with exactly the keys
//! `won`, `lost` and `average`, in that order, as this library writes them:
//! `{"won":0,"lost":0,"average":0}`.  The parser accepts any amount of
//! whitespace between tokens, so files written by earlier runs with pretty
//! printing load as well.  `won` and `lost` are unsigned decimal integers;
//! `average` is an unsigned decimal number with an optional fraction part,
//! validated and then recomputed from the counters, which determine it.

use vstd::prelude::*;
use crate::stats::StatsRecord;
use crate::stats::rate_centi_spec;
use crate::stats::rate_centi;
use crate::stats::lemma_rate_centi_bound;

verus! {

/// JSON whitespace: space, tab, line feed, carriage return.
pub open spec fn is_ws(b: u8) -> bool {
    b == 32 || b == 9 || b == 10 || b == 13
}

/// An ASCII decimal digit.
pub open spec fn is_digit(b: u8) -> bool {
    48 <= b && b <= 57
}

/// The first index at or after `i` holding no whitespace.
pub open spec fn ws_end(s: Seq<u8>, i: int) -> int
    recommends
        0 <= i <= s.len(),
    decreases s.len() - i when 0 <= i <= s.len()
{
    if i < s.len() && is_ws(s[i]) {
        ws_end(s, i + 1)
    } else {
        i
    }
}

/// The first index at or after `i` holding no decimal digit.
pub open spec fn digits_end(s: Seq<u8>, i: int) -> int
    recommends
        0 <= i <= s.len(),
    decreases s.len() - i when 0 <= i <= s.len()
{
    if i < s.len() && is_digit(s[i]) {
        digits_end(s, i + 1)
    } else {
        i
    }
}

/// Where a run of digits is followed by a non-digit (or the end), the run
/// ends exactly there.
pub proof fn lemma_digits_end_at(s: Seq<u8>, i: int, j: int)
    requires
        0 <= i <= j <= s.len(),
        forall|k: int| i <= k < j ==> is_digit(#[trigger] s[k]),
        j == s.len() || !is_digit(s[j]),
    ensures
        digits_end(s, i) == j,
    decreases j - i,
{
    if i < j {
        assert(is_digit(s[i]));
        lemma_digits_end_at(s, i + 1, j);
    }
}

/// The value of the digit run `s[i..j)`, most significant first.
pub open spec fn dec_val(s: Seq<u8>, i: int, j: int) -> nat
    recommends
        0 <= i <= j <= s.len(),
    decreases j - i when i <= j
{
    if i >= j {
        0
    } else {
        dec_val(s, i, j - 1) * 10 + (s[j - 1] - 48) as nat
    }
}

/// The byte at index `i` is `b`.
pub open spec fn byte_at(s: Seq<u8>, i: int, b: u8) -> bool {
    0 <= i < s.len() && s[i] == b
}

/// The bytes of `l` occur in `s` starting at index `i`.
pub open spec fn lit_at(s: Seq<u8>, i: int, l: Seq<u8>) -> bool {
    &&& 0 <= i
    &&& i + l.len() <= s.len()
    &&& forall|k: int| 0 <= k < l.len() ==> s[i + k] == #[trigger] l[k]
}

/// `"won"`, quotes included.
pub open spec fn lit_won() -> Seq<u8> {
    seq![34u8, 119u8, 111u8, 110u8, 34u8]
}

/// `"lost"`, quotes included.
pub open spec fn lit_lost() -> Seq<u8> {
    seq![34u8, 108u8, 111u8, 115u8, 116u8, 34u8]
}

/// `"average"`, quotes included.
pub open spec fn lit_average() -> Seq<u8> {
    seq![34u8, 97u8, 118u8, 101u8, 114u8, 97u8, 103u8, 101u8, 34u8]
}

/// Where an unsigned decimal number (digits, optionally a point and more
/// digits) starts at `i`, the index just past it; `None` where none does.
pub open spec fn number_end(s: Seq<u8>, i: int) -> Option<int>
    recommends
        0 <= i <= s.len(),
{
    let j = digits_end(s, i);
    if j == i {
        Option::None
    } else if byte_at(s, j, 46) {
        let k = digits_end(s, j + 1);
        if k == j + 1 {
            Option::None
        } else {
            Option::Some(k)
        }
    } else {
        Option::Some(j)
    }
}

/// The grammar of the stats file, as one deterministic scan: the `won`
/// and `lost` values where the whole input is a well-formed stats object,
/// `None` otherwise.
pub open spec fn parse_spec(s: Seq<u8>) -> Option<(nat, nat)> {
    let i0 = ws_end(s, 0);
    if !byte_at(s, i0, 123) {
        Option::None
    } else {
        let i1 = ws_end(s, i0 + 1);
        if !lit_at(s, i1, lit_won()) {
            Option::None
        } else {
            let i2 = ws_end(s, i1 + 5);
            if !byte_at(s, i2, 58) {
                Option::None
            } else {
                let i3 = ws_end(s, i2 + 1);
                let i4 = digits_end(s, i3);
                if i4 == i3 {
                    Option::None
                } else {
                    let won = dec_val(s, i3, i4);
                    let i5 = ws_end(s, i4);
                    if !byte_at(s, i5, 44) {
                        Option::None
                    } else {
                        let i6 = ws_end(s, i5 + 1);
                        if !lit_at(s, i6, lit_lost()) {
                            Option::None
                        } else {
                            let i7 = ws_end(s, i6 + 6);
                            if !byte_at(s, i7, 58) {
                                Option::None
                            } else {
                                let i8 = ws_end(s, i7 + 1);
                                let i9 = digits_end(s, i8);
                                if i9 == i8 {
                                    Option::None
                                } else {
                                    let lost = dec_val(s, i8, i9);
                                    parse_tail(s, i9, won, lost)
                                }
                            }
                        }
                    }
                }
            }
        }
    }
}

/// The rest of the grammar after the `lost` value: the `average` member
/// and the closing brace.
pub open spec fn parse_tail(s: Seq<u8>, i9: int, won: nat, lost: nat) -> Option<(nat, nat)>
    recommends
        0 <= i9 <= s.len(),
{
    let i10 = ws_end(s, i9);
    if !byte_at(s, i10, 44) {
        Option::None
    } else {
        let i11 = ws_end(s, i10 + 1);
        if !lit_at(s, i11, lit_average()) {
            Option::None
        } else {
            let i12 = ws_end(s, i11 + 9);
            if !byte_at(s, i12, 58) {
                Option::None
            } else {
                let i13 = ws_end(s, i12 + 1);
                match number_end(s, i13) {
                    Option::None => Option::None,
                    Option::Some(i14) => {
                        let i15 = ws_end(s, i14);
                        if !byte_at(s, i15, 125) {
                            Option::None
                        } else {
                            let i16 = ws_end(s, i15 + 1);
                            if i16 == s.len() {
                                Option::Some((won, lost))
                            } else {
                                Option::None
                            }
                        }
                    },
                }
            }
        }
    }
}

/// What loading a stats file yields: the parsed counters where the input
/// is well-formed and both fit, the rate recomputed from them.
pub open spec fn parse_stats_spec(s: Seq<u8>) -> Option<StatsRecord> {
    match parse_spec(s) {
        Option::None => Option::None,
        Option::Some(p) => if p.0 <= u32::MAX as nat && p.1 <= u32::MAX as nat {
            Option::Some(
                (StatsRecord {
                    won: p.0 as u32,
                    lost: p.1 as u32,
                    rate_centi: rate_centi_spec(p.0, p.1) as u32,
                }),
            )
        } else {
            Option::None
        },
    }
}

/// Skip whitespace from `i`.
fn skip_ws(s: &Vec<u8>, i: usize) -> (r: usize)
    requires
        i as int <= s@.len(),
    ensures
        r as int == ws_end(s@, i as int),
        i <= r,
        r as int <= s@.len(),
{
    let n = s.len();
    let mut j: usize = i;
    while j < n && (s[j] == 32 || s[j] == 9 || s[j] == 10 || s[j] == 13)
        invariant
            i <= j,
            j as int <= s@.len(),
            n == s@.len(),
            ws_end(s@, i as int) == ws_end(s@, j as int),
        decreases s@.len() - j,
    {
        j += 1;
    }
    j
}

/// Scan a run of digits from `i`: its end, whether its value fits a
/// `u32`, and the value where it does.
fn scan_digits(s: &Vec<u8>, i: usize) -> (r: (usize, bool, u32))
    requires
        i as int <= s@.len(),
    ensures
        r.0 as int == digits_end(s@, i as int),
        i <= r.0,
        r.0 as int <= s@.len(),
        r.1 <==> dec_val(s@, i as int, r.0 as int) <= u32::MAX,
        r.1 ==> r.2 == dec_val(s@, i as int, r.0 as int),
{
    let n = s.len();
    let mut j: usize = i;
    let mut acc: u64 = 0;
    let mut big: bool = false;
    while j < n && s[j] >= 48 && s[j] <= 57
        invariant
            i <= j,
            j as int <= s@.len(),
            n == s@.len(),
            digits_end(s@, i as int) == digits_end(s@, j as int),
            !big ==> acc == dec_val(s@, i as int, j as int) && acc <= u32::MAX as u64,
            big ==> dec_val(s@, i as int, j as int) > u32::MAX,
        decreases s@.len() - j,
    {
        let d: u64 = (s[j] - 48) as u64;
        proof {
            assert(dec_val(s@, i as int, j + 1) == dec_val(s@, i as int, j as int) * 10 + (
            s@[j as int] - 48));
        }
        if !big {
            acc = acc * 10 + d;
            if acc > 0xffff_ffff {
                big = true;
            }
        }
        j += 1;
    }
    if big {
        (j, false, 0)
    } else {
        (j, true, acc as u32)
    }
}

/// Scan an unsigned decimal number from `i`: whether one starts there,
/// and the index just past it where one does.
fn scan_number(s: &Vec<u8>, i: usize) -> (r: (bool, usize))
    requires
        i as int <= s@.len(),
    ensures
        r.0 <==> number_end(s@, i as int) is Some,
        r.0 ==> number_end(s@, i as int) == Option::Some(r.1 as int),
        r.0 ==> i <= r.1 && r.1 as int <= s@.len(),
{
    let (j, _, _) = scan_digits(s, i);
    if j == i {
        (false, i)
    } else if j < s.len() && s[j] == 46 {
        let (k, _, _) = scan_digits(s, j + 1);
        if k == j + 1 {
            (false, i)
        } else {
            (true, k)
        }
    } else {
        (true, j)
    }
}

/// Whether the bytes of `l` occur in `s` starting at `i`.
fn has_lit(s: &Vec<u8>, i: usize, l: &Vec<u8>) -> (r: bool)
    requires
        i as int <= s@.len(),
    ensures
        r == lit_at(s@, i as int, l@),
{
    let n = s.len();
    if n - i < l.len() {
        return false;
    }
    let m = l.len();
    let mut k: usize = 0;
    while k < m
        invariant
            k <= m,
            m == l@.len(),
            n == s@.len(),
            i + m <= n,
            forall|t: int| 0 <= t < k ==> s@[i + t] == #[trigger] l@[t],
        decreases m - k,
    {
        if s[i + k] != l[k] {
            proof {
                assert(s@[i + k as int] != l@[k as int]);
            }
            return false;
        }
        k += 1;
    }
    true
}

/// `"won"` as bytes.
fn lit_won_vec() -> (r: Vec<u8>)
    ensures
        r@ == lit_won(),
{
    let mut v: Vec<u8> = Vec::new();
    v.push(34);
    v.push(119);
    v.push(111);
    v.push(110);
    v.push(34);
    proof {
        assert(v@ =~= lit_won());
    }
    v
}

/// `"lost"` as bytes.
fn lit_lost_vec() -> (r: Vec<u8>)
    ensures
        r@ == lit_lost(),
{
    let mut v: Vec<u8> = Vec::new();
    v.push(34);
    v.push(108);
    v.push(111);
    v.push(115);
    v.push(116);
    v.push(34);
    proof {
        assert(v@ =~= lit_lost());
    }
    v
}

/// `"average"` as bytes.
fn lit_average_vec() -> (r: Vec<u8>)
    ensures
        r@ == lit_average(),
{
    let mut v: Vec<u8> = Vec::new();
    v.push(34);
    v.push(97);
    v.push(118);
    v.push(101);
    v.push(114);
    v.push(97);
    v.push(103);
    v.push(101);
    v.push(34);
    proof {
        assert(v@ =~= lit_average());
    }
    v
}

/// Parse a stats file.
///
/// Returns the record exactly when the bytes are a well-formed stats
/// object whose counters fit a `u32`; the rate is recomputed from the
/// counters.  Returns `None` on any malformed or overflowing input.
pub fn parse_stats(s: &Vec<u8>) -> (r: Option<StatsRecord>)
    ensures
        r == parse_stats_spec(s@),
{
    let i0 = skip_ws(s, 0);
    if !(i0 < s.len() && s[i0] == 123) {
        return Option::None;
    }
    let lw = lit_won_vec();
    let i1 = skip_ws(s, i0 + 1);
    if !has_lit(s, i1, &lw) {
        return Option::None;
    }
    proof {
        assert(lit_won().len() == 5);
    }
    let i2 = skip_ws(s, i1 + 5);
    if !(i2 < s.len() && s[i2] == 58) {
        return Option::None;
    }
    let i3 = skip_ws(s, i2 + 1);
    let (i4, fits_w, won_v) = scan_digits(s, i3);
    if i4 == i3 {
        return Option::None;
    }
    let i5 = skip_ws(s, i4);
    if !(i5 < s.len() && s[i5] == 44) {
        return Option::None;
    }
    let ll = lit_lost_vec();
    let i6 = skip_ws(s, i5 + 1);
    if !has_lit(s, i6, &ll) {
        return Option::None;
    }
    proof {
        assert(lit_lost().len() == 6);
    }
    let i7 = skip_ws(s, i6 + 6);
    if !(i7 < s.len() && s[i7] == 58) {
        return Option::None;
    }
    let i8 = skip_ws(s, i7 + 1);
    let (i9, fits_l, lost_v) = scan_digits(s, i8);
    if i9 == i8 {
        return Option::None;
    }
    let i10 = skip_ws(s, i9);
    if !(i10 < s.len() && s[i10] == 44) {
        return Option::None;
    }
    let la = lit_average_vec();
    let i11 = skip_ws(s, i10 + 1);
    if !has_lit(s, i11, &la) {
        return Option::None;
    }
    proof {
        assert(lit_average().len() == 9);
    }
    let i12 = skip_ws(s, i11 + 9);
    if !(i12 < s.len() && s[i12] == 58) {
        return Option::None;
    }
    let i13 = skip_ws(s, i12 + 1);
    let (okn, i14) = scan_number(s, i13);
    if !okn {
        return Option::None;
    }
    let i15 = skip_ws(s, i14);
    if !(i15 < s.len() && s[i15] == 125) {
        return Option::None;
    }
    let i16 = skip_ws(s, i15 + 1);
    if i16 != s.len() {
        return Option::None;
    }
    if !(fits_w && fits_l) {
        return Option::None;
    }
    let rate = rate_centi(won_v, lost_v);
    proof {
        lemma_rate_centi_bound(won_v as nat, lost_v as nat);
    }
    Option::Some(StatsRecord { won: won_v, lost: lost_v, rate_centi: rate })
}

/// The decimal digits of `n`, most significant first.
pub open spec fn dec_seq(n: nat) -> Seq<u8>
    decreases n,
{
    if n < 10 {
        seq![(48 + n) as u8]
    } else {
        dec_seq(n / 10).push((48 + n % 10) as u8)
    }
}

pub proof fn lemma_dec_seq_digits(n: nat)
    ensures
        dec_seq(n).len() >= 1,
        forall|k: int| 0 <= k < dec_seq(n).len() ==> is_digit(#[trigger] dec_seq(n)[k]),
    decreases n,
{
    if n >= 10 {
        lemma_dec_seq_digits(n / 10);
    }
}

/// Where the digits of `n` occur at `i`, the digit run there is worth `n`.
pub proof fn lemma_dec_val_at(s: Seq<u8>, i: int, n: nat)
    requires
        lit_at(s, i, dec_seq(n)),
    ensures
        dec_val(s, i, i + dec_seq(n).len()) == n,
    decreases n,
{
    lemma_dec_seq_digits(n);
    if n < 10 {
        assert(s[i] == dec_seq(n)[0]);
        assert(s[i] == (48 + n) as u8);
        assert(dec_val(s, i, i) == 0);
        assert(dec_val(s, i, i + 1) == (s[i] - 48) as nat);
    } else {
        let d = dec_seq(n);
        let dh = dec_seq(n / 10);
        assert(d == dh.push((48 + n % 10) as u8));
        assert(d.len() == dh.len() + 1);
        assert forall|k: int| 0 <= k < dh.len() implies s[i + k] == #[trigger] dh[k] by {
            assert(d[k] == dh[k]);
        }
        lemma_dec_val_at(s, i, n / 10);
        assert(dec_val(s, i, i + dh.len()) == n / 10);
        assert(s[i + d.len() - 1] == d[d.len() - 1]);
        assert(s[i + d.len() - 1] == (48 + n % 10) as u8);
        assert(dec_val(s, i, i + d.len()) == dec_val(s, i, i + d.len() - 1) * 10 + (s[i + d.len()
            - 1] - 48) as nat);
        assert(dec_val(s, i, i + d.len()) == (n / 10) * 10 + n % 10);
    }
}

/// Append the decimal digits of `n`.
fn push_dec(out: &mut Vec<u8>, n: u32)
    ensures
        final(out)@ == old(out)@ + dec_seq(n as nat),
    decreases n,
{
    if n < 10 {
        out.push(48 + n as u8);
        proof {
            assert(final(out)@ =~= old(out)@ + dec_seq(n as nat));
        }
    } else {
        push_dec(out, n / 10);
        out.push(48 + (n % 10) as u8);
        proof {
            assert(final(out)@ =~= old(out)@ + dec_seq(n as nat));
        }
    }
}

/// The serialized `average` member value: `0` before any game has ended,
/// else the scaled rate as a percentage with two fraction digits.
pub open spec fn avg_seq(won: nat, lost: nat) -> Seq<u8> {
    if won + lost == 0 {
        seq![48u8]
    } else {
        let c = rate_centi_spec(won, lost);
        dec_seq(c / 100) + seq![46u8, (48 + (c / 10) % 10) as u8, (48 + c % 10) as u8]
    }
}

/// `{"won":`.
pub open spec fn obj_open() -> Seq<u8> {
    seq![123u8, 34u8, 119u8, 111u8, 110u8, 34u8, 58u8]
}

/// `,"lost":`.
pub open spec fn mid_lost() -> Seq<u8> {
    seq![44u8, 34u8, 108u8, 111u8, 115u8, 116u8, 34u8, 58u8]
}

/// `,"average":`.
pub open spec fn mid_avg() -> Seq<u8> {
    seq![44u8, 34u8, 97u8, 118u8, 101u8, 114u8, 97u8, 103u8, 101u8, 34u8, 58u8]
}

/// The serialized form of the given counters.
pub open spec fn render_spec(won: nat, lost: nat) -> Seq<u8> {
    obj_open() + dec_seq(won) + mid_lost() + dec_seq(lost) + mid_avg() + avg_seq(won, lost)
        + seq![125u8]
}

/// The serialized form of a record: determined by its counters.
pub open spec fn render_stats_spec(r: StatsRecord) -> Seq<u8> {
    render_spec(r.won as nat, r.lost as nat)
}

/// Serialize a record for saving.
pub fn render_stats(r: &StatsRecord) -> (out: Vec<u8>)
    ensures
        out@ == render_stats_spec(*r),
{
    let mut out: Vec<u8> = Vec::new();
    out.push(123);
    out.push(34);
    out.push(119);
    out.push(111);
    out.push(110);
    out.push(34);
    out.push(58);
    proof {
        assert(out@ =~= obj_open());
    }
    push_dec(&mut out, r.won);
    out.push(44);
    out.push(34);
    out.push(108);
    out.push(111);
    out.push(115);
    out.push(116);
    out.push(34);
    out.push(58);
    proof {
        assert(out@ =~= obj_open() + dec_seq(r.won as nat) + mid_lost());
    }
    push_dec(&mut out, r.lost);
    out.push(44);
    out.push(34);
    out.push(97);
    out.push(118);
    out.push(101);
    out.push(114);
    out.push(97);
    out.push(103);
    out.push(101);
    out.push(34);
    out.push(58);
    proof {
        assert(out@ =~= obj_open() + dec_seq(r.won as nat) + mid_lost() + dec_seq(
        r.lost as nat) + mid_avg());
    }
    if r.won == 0 && r.lost == 0 {
        out.push(48);
    } else {
        let c = rate_centi(r.won, r.lost);
        proof {
            lemma_rate_centi_bound(r.won as nat, r.lost as nat);
        }
        push_dec(&mut out, c / 100);
        out.push(46);
        out.push(48 + ((c / 10) % 10) as u8);
        out.push(48 + (c % 10) as u8);
    }
    proof {
        assert(out@ =~= obj_open() + dec_seq(r.won as nat) + mid_lost() + dec_seq(
        r.lost as nat) + mid_avg() + avg_seq(r.won as nat, r.lost as nat));
    }
    out.push(125);
    proof {
        assert(out@ =~= render_stats_spec(*r));
    }
    out
}

/// The default file content written on first run:
/// `{"won":0,"lost":0,"average":0}`.
pub fn default_stats_json() -> (out: Vec<u8>)
    ensures
        out@ == render_spec(0, 0),
{
    let zero = StatsRecord { won: 0, lost: 0, rate_centi: 0 };
    render_stats(&zero)
}

/// Round trip: saving a record and loading the saved bytes yields the
/// record again.
#[verifier::rlimit(60)]
pub proof fn lemma_save_load_round_trip(r: StatsRecord)
    requires
        r.wf(),
    ensures
        parse_stats_spec(render_stats_spec(r)) == Option::Some(r),
{
    let w = r.won as nat;
    let l = r.lost as nat;
    let s = render_spec(w, l);
    let d1 = dec_seq(w);
    let d2 = dec_seq(l);
    let e = avg_seq(w, l);
    lemma_dec_seq_digits(w);
    lemma_dec_seq_digits(l);
    lemma_rate_centi_bound(w, l);
    assert(obj_open().len() == 7);
    assert(mid_lost().len() == 8);
    assert(mid_avg().len() == 11);
    let a1 = 7 + d1.len() as int;
    let a2 = a1 + 8;
    let a3 = a2 + d2.len() as int;
    let a4 = a3 + 11;
    let a5 = a4 + e.len() as int;
    assert(s.len() == a5 + 1);

    // where each segment's bytes sit in the whole
    assert forall|k: int| 0 <= k < 7 implies s[k] == #[trigger] obj_open()[k] by {}
    assert forall|k: int| 0 <= k < d1.len() implies s[7 + k] == #[trigger] d1[k] by {}
    assert forall|k: int| 0 <= k < 8 implies s[a1 + k] == #[trigger] mid_lost()[k] by {}
    assert forall|k: int| 0 <= k < d2.len() implies s[a2 + k] == #[trigger] d2[k] by {}
    assert forall|k: int| 0 <= k < 11 implies s[a3 + k] == #[trigger] mid_avg()[k] by {}
    assert forall|k: int| 0 <= k < e.len() implies s[a4 + k] == #[trigger] e[k] by {}
    assert(s[a5] == 125);

    // `{` then `"won"` then `:`
    assert(s[0] == 123);
    assert(ws_end(s, 0) == 0);
    assert(byte_at(s, 0, 123));
    assert(s[1] == 34);
    assert(ws_end(s, 1) == 1);
    assert(lit_at(s, 1, lit_won())) by {
        assert forall|k: int| 0 <= k < 5 implies s[1 + k] == #[trigger] lit_won()[k] by {
            assert(s[1 + k] == obj_open()[1 + k]);
        }
    }
    assert(s[6] == 58);
    assert(ws_end(s, 6) == 6);
    assert(byte_at(s, 6, 58));

    // the digits of `won`
    assert(lit_at(s, 7, d1));
    assert(is_digit(s[7]));
    assert(ws_end(s, 7) == 7);
    assert(s[a1] == 44);
    lemma_digits_end_at(s, 7, a1);
    lemma_dec_val_at(s, 7, w);
    assert(dec_val(s, 7, a1) == w);

    // `,` then `"lost"` then `:`
    assert(ws_end(s, a1) == a1);
    assert(byte_at(s, a1, 44));
    assert(s[a1 + 1] == 34);
    assert(ws_end(s, a1 + 1) == a1 + 1);
    assert(lit_at(s, a1 + 1, lit_lost())) by {
        assert forall|k: int| 0 <= k < 6 implies s[a1 + 1 + k] == #[trigger] lit_lost()[k] by {
            assert(s[a1 + (1 + k)] == mid_lost()[1 + k]);
        }
    }
    assert(s[a1 + 7] == 58);
    assert(ws_end(s, a1 + 7) == a1 + 7);
    assert(byte_at(s, a1 + 7, 58));

    // the digits of `lost`
    assert(lit_at(s, a2, d2));
    assert(is_digit(s[a2]));
    assert(ws_end(s, a2) == a2);
    assert(s[a3] == 44);
    lemma_digits_end_at(s, a2, a3);
    lemma_dec_val_at(s, a2, l);
    assert(dec_val(s, a2, a3) == l);

    // `,` then `"average"` then `:`
    assert(ws_end(s, a3) == a3);
    assert(byte_at(s, a3, 44));
    assert(s[a3 + 1] == 34);
    assert(ws_end(s, a3 + 1) == a3 + 1);
    assert(lit_at(s, a3 + 1, lit_average())) by {
        assert forall|k: int| 0 <= k < 9 implies s[a3 + 1 + k] == #[trigger] lit_average()[k] by {
            assert(s[a3 + (1 + k)] == mid_avg()[1 + k]);
        }
    }
    assert(s[a3 + 10] == 58);
    assert(ws_end(s, a3 + 10) == a3 + 10);
    assert(byte_at(s, a3 + 10, 58));

    // the average value, then `}` and the end
    if w + l == 0 {
        assert(e =~= seq![48u8]);
        assert(s[a4] == 48);
        assert(is_digit(s[a4]));
        assert(ws_end(s, a4) == a4);
        lemma_digits_end_at(s, a4, a5);
        assert(!byte_at(s, a5, 46));
        assert(number_end(s, a4) == Option::Some(a5));
    } else {
        let c = rate_centi_spec(w, l);
        let dc = dec_seq(c / 100);
        let m = dc.len() as int;
        lemma_dec_seq_digits(c / 100);
        assert(e == dc + seq![46u8, (48 + (c / 10) % 10) as u8, (48 + c % 10) as u8]);
        assert(e.len() == m + 3);
        assert forall|k: int| 0 <= k < m implies is_digit(#[trigger] s[a4 + k]) by {
            assert(s[a4 + k] == e[k]);
            assert(e[k] == dc[k]);
        }
        assert(s[a4 + m] == e[m]);
        assert(s[a4 + m] == 46);
        assert(is_digit(s[a4]));
        assert(ws_end(s, a4) == a4);
        lemma_digits_end_at(s, a4, a4 + m);
        assert(byte_at(s, a4 + m, 46));
        assert(s[a4 + m + 1] == e[m + 1]);
        assert(is_digit(s[a4 + m + 1]));
        assert(s[a4 + m + 2] == e[m + 2]);
        assert(is_digit(s[a4 + m + 2]));
        lemma_digits_end_at(s, a4 + m + 1, a5);
        assert(number_end(s, a4) == Option::Some(a5));
    }
    assert(ws_end(s, a5) == a5);
    assert(byte_at(s, a5, 125));
    assert(ws_end(s, a5 + 1) == s.len());

    // the scan as a whole
    assert(parse_spec(s) == Option::Some((w, l)));
    assert((rate_centi_spec(w, l) as u32) == r.rate_centi);
    assert(parse_stats_spec(s) == Option::Some(r));
}

} // verus!
