//! Segment serialization: one line of structured output.
//!
//! A segment list is rendered as a single-line array of records with the
//! fields in fixed order `start`, `end`, `speaker_id`. Times are the
//! engine's sample offsets divided by the engine rate, written as exact
//! decimals (16000 divides a power of ten, so `n / 16000` has a finite
//! decimal expansion of at most seven fractional digits); trailing zeros
//! are trimmed down to at least one fractional digit, so whole seconds
//! read `2.0`, not `2`. Nothing is rounded and nothing is re-derived: the
//! record is built wholly in memory from the validated values, and the
//! caller writes it to the primary stream in one piece.

use vstd::prelude::*;

use crate::segments::SegmentList;
use crate::segments::SpeakerSegment;
use crate::segments::ENGINE_SAMPLE_RATE;

verus! {

// --- decimal rendering ---------------------------------------------------

/// Decimal ASCII digits of `n`, most significant first, no leading zeros.
pub open spec fn spec_dec(n: nat) -> Seq<u8>
    decreases n,
{
    if n < 10 {
        seq![(48 + n) as u8]
    } else {
        spec_dec(n / 10).push((48 + n % 10) as u8)
    }
}

/// The low `w` decimal digits of `f`, zero padded to exactly `w` digits,
/// most significant first.
pub open spec fn frac_digits(f: nat, w: nat) -> Seq<u8>
    decreases w,
{
    if w == 0 {
        Seq::empty()
    } else {
        frac_digits(f / 10, (w - 1) as nat).push((48 + f % 10) as u8)
    }
}

/// Drop trailing `0` digits, but keep at least one digit.
pub open spec fn trim_zeros(s: Seq<u8>) -> Seq<u8>
    decreases s.len(),
{
    if s.len() <= 1 {
        s
    } else if s.last() == 48 {
        trim_zeros(s.drop_last())
    } else {
        s
    }
}

/// The exact decimal rendering of `n / 16000` seconds: integer part, a
/// point, then the fraction `(n % 16000) * 625 / 10^7` with trailing zeros
/// trimmed (625 = 10^7 / 16000).
pub open spec fn spec_seconds(n: nat) -> Seq<u8> {
    spec_dec(n / 16000) + seq![46u8] + trim_zeros(frac_digits((n % 16000) * 625, 7))
}

/// Append the decimal digits of `n`.
fn push_dec(out: &mut Vec<u8>, n: u64)
    ensures
        final(out)@ == old(out)@ + spec_dec(n as nat),
    decreases n,
{
    if n < 10 {
        out.push(48 + n as u8);
    } else {
        push_dec(out, n / 10);
        out.push(48 + (n % 10) as u8);
    }
    assert(out@ =~= old(out)@ + spec_dec(n as nat));
}

/// Append the low `w` digits of `f`, zero padded to `w`.
fn push_frac(out: &mut Vec<u8>, f: u64, w: u64)
    ensures
        final(out)@ == old(out)@ + frac_digits(f as nat, w as nat),
    decreases w,
{
    if w > 0 {
        push_frac(out, f / 10, w - 1);
        out.push(48 + (f % 10) as u8);
    }
    assert(out@ =~= old(out)@ + frac_digits(f as nat, w as nat));
}

proof fn lemma_frac_len(f: nat, w: nat)
    ensures
        frac_digits(f, w).len() == w,
    decreases w,
{
    if w > 0 {
        lemma_frac_len(f / 10, (w - 1) as nat);
    }
}

/// Append the exact decimal seconds of sample offset `n`.
fn push_seconds(out: &mut Vec<u8>, n: u64)
    ensures
        final(out)@ == old(out)@ + spec_seconds(n as nat),
{
    let ip = n / ENGINE_SAMPLE_RATE;
    let frac = (n % ENGINE_SAMPLE_RATE) * 625;
    push_dec(out, ip);
    out.push(46);
    let mut f2: u64 = frac;
    let mut w: u64 = 7;
    while w > 1 && f2 % 10 == 0
        invariant
            1 <= w <= 7,
            trim_zeros(frac_digits(f2 as nat, w as nat)) == trim_zeros(
                frac_digits(frac as nat, 7),
            ),
        decreases w,
    {
        proof {
            let s = frac_digits(f2 as nat, w as nat);
            lemma_frac_len(f2 as nat, w as nat);
            assert(s == frac_digits((f2 / 10) as nat, (w - 1) as nat).push(48u8));
            assert(s.last() == 48);
            assert(s.drop_last() =~= frac_digits((f2 / 10) as nat, (w - 1) as nat));
        }
        f2 = f2 / 10;
        w = w - 1;
    }
    proof {
        let s = frac_digits(f2 as nat, w as nat);
        lemma_frac_len(f2 as nat, w as nat);
        if w > 1 {
            assert(s.last() == (48 + f2 as nat % 10) as u8);
            assert(s.last() != 48);
        }
        assert(trim_zeros(s) == s);
    }
    push_frac(out, f2, w);
    assert(out@ =~= old(out)@ + spec_seconds(n as nat));
}

// --- the record grammar --------------------------------------------------

/// The opening of a record up to the start value: `{"start":`.
pub open spec fn key_start() -> Seq<u8> {
    seq![123u8, 34, 115, 116, 97, 114, 116, 34, 58]
}

/// Between the start and end values: `,"end":`.
pub open spec fn key_end() -> Seq<u8> {
    seq![44u8, 34, 101, 110, 100, 34, 58]
}

/// Between the end value and the speaker index: `,"speaker_id":`.
pub open spec fn key_speaker() -> Seq<u8> {
    seq![44u8, 34, 115, 112, 101, 97, 107, 101, 114, 95, 105, 100, 34, 58]
}

fn push_key_start(out: &mut Vec<u8>)
    ensures
        final(out)@ == old(out)@ + key_start(),
{
    out.push(123);
    out.push(34);
    out.push(115);
    out.push(116);
    out.push(97);
    out.push(114);
    out.push(116);
    out.push(34);
    out.push(58);
    assert(out@ =~= old(out)@ + key_start());
}

fn push_key_end(out: &mut Vec<u8>)
    ensures
        final(out)@ == old(out)@ + key_end(),
{
    out.push(44);
    out.push(34);
    out.push(101);
    out.push(110);
    out.push(100);
    out.push(34);
    out.push(58);
    assert(out@ =~= old(out)@ + key_end());
}

fn push_key_speaker(out: &mut Vec<u8>)
    ensures
        final(out)@ == old(out)@ + key_speaker(),
{
    out.push(44);
    out.push(34);
    out.push(115);
    out.push(112);
    out.push(101);
    out.push(97);
    out.push(107);
    out.push(101);
    out.push(114);
    out.push(95);
    out.push(105);
    out.push(100);
    out.push(34);
    out.push(58);
    assert(out@ =~= old(out)@ + key_speaker());
}

/// One record: fields in fixed order `start`, `end`, `speaker_id`.
pub open spec fn spec_render_segment(s: SpeakerSegment) -> Seq<u8> {
    key_start() + spec_seconds(s.start as nat) + key_end() + spec_seconds(s.end as nat)
        + key_speaker() + spec_dec(s.speaker_id as nat) + seq![125u8]
}

fn push_segment(out: &mut Vec<u8>, s: SpeakerSegment)
    ensures
        final(out)@ == old(out)@ + spec_render_segment(s),
{
    push_key_start(out);
    push_seconds(out, s.start);
    push_key_end(out);
    push_seconds(out, s.end);
    push_key_speaker(out);
    push_dec(out, s.speaker_id as u64);
    out.push(125);
    assert(out@ =~= old(out)@ + spec_render_segment(s));
}

/// The comma-separated records, in list order.
pub open spec fn spec_render_items(l: Seq<SpeakerSegment>) -> Seq<u8>
    decreases l.len(),
{
    if l.len() == 0 {
        Seq::empty()
    } else if l.len() == 1 {
        spec_render_segment(l[0])
    } else {
        spec_render_items(l.drop_last()) + seq![44u8] + spec_render_segment(l.last())
    }
}

/// The whole primary record: an array of the records, one line.
pub open spec fn spec_output(l: Seq<SpeakerSegment>) -> Seq<u8> {
    seq![91u8] + spec_render_items(l) + seq![93u8]
}

/// Render a validated segment list as the single primary output record.
///
/// The result is exactly [`spec_output`] of the list: `[` + the records,
/// comma separated and in emission order, + `]`. Every numeric value is
/// rendered exactly ([`lemma_seconds_value`]), nothing else can appear in
/// the output, and [`lemma_output_single_line`] shows the record never
/// contains a line break.
pub fn serialize_segments(list: &SegmentList) -> (r: Vec<u8>)
    ensures
        r@ == spec_output(list@),
{
    let mut out: Vec<u8> = Vec::new();
    out.push(91);
    let n = list.len();
    let mut i: usize = 0;
    while i < n
        invariant
            i <= n,
            n == list@.len(),
            out@ == seq![91u8] + spec_render_items(list@.take(i as int)),
        decreases n - i,
    {
        if i > 0 {
            out.push(44);
        }
        let s = list.get(i);
        push_segment(&mut out, s);
        proof {
            let t1 = list@.take(i + 1 as int);
            assert(t1.drop_last() =~= list@.take(i as int));
            assert(t1.last() == list@[i as int]);
            assert(out@ =~= seq![91u8] + spec_render_items(t1));
        }
        i = i + 1;
    }
    proof {
        assert(list@.take(n as int) =~= list@);
    }
    out.push(93);
    assert(out@ =~= spec_output(list@));
    out
}

// --- the exactness law ---------------------------------------------------

/// Powers of ten.
pub open spec fn pow10(w: nat) -> nat
    decreases w,
{
    if w == 0 {
        1
    } else {
        10 * pow10((w - 1) as nat)
    }
}

/// The number a digit string denotes, read in base ten.
pub open spec fn digits_val(s: Seq<u8>) -> int
    decreases s.len(),
{
    if s.len() == 0 {
        0
    } else {
        digits_val(s.drop_last()) * 10 + (s.last() - 48)
    }
}

proof fn lemma_dec_value(n: nat)
    ensures
        digits_val(spec_dec(n)) == n,
    decreases n,
{
    if n < 10 {
        assert(spec_dec(n).drop_last() =~= Seq::<u8>::empty());
        assert(digits_val(Seq::<u8>::empty()) == 0);
        assert(digits_val(spec_dec(n)) == n);
    } else {
        lemma_dec_value(n / 10);
        assert(spec_dec(n).drop_last() =~= spec_dec(n / 10));
        assert(digits_val(spec_dec(n)) == n);
    }
}

proof fn lemma_frac_value(f: nat, w: nat)
    requires
        f < pow10(w),
    ensures
        digits_val(frac_digits(f, w)) == f,
    decreases w,
{
    if w == 0 {
    } else {
        assert(f / 10 < pow10((w - 1) as nat)) by (nonlinear_arith)
            requires
                f < 10 * pow10((w - 1) as nat),
        ;
        lemma_frac_value(f / 10, (w - 1) as nat);
        assert(frac_digits(f, w).drop_last() =~= frac_digits(f / 10, (w - 1) as nat));
    }
}

/// Trimming trailing zeros only rescales: the trimmed digits times the
/// power of ten of the dropped places recover the full digit string's
/// value.
proof fn lemma_trim_value(s: Seq<u8>)
    requires
        s.len() >= 1,
    ensures
        digits_val(trim_zeros(s)) * pow10((s.len() - trim_zeros(s).len()) as nat) == digits_val(s),
    decreases s.len(),
{
    lemma_trim_prefix(s);
    assert(pow10(0) == 1);
    if s.len() <= 1 {
        assert(trim_zeros(s) == s);
        assert((s.len() - trim_zeros(s).len()) as nat == 0);
        assert(digits_val(trim_zeros(s)) * pow10((s.len() - trim_zeros(s).len()) as nat)
            == digits_val(s));
    } else if s.last() == 48 {
        let d = s.drop_last();
        lemma_trim_value(d);
        lemma_trim_prefix(d);
        let t = trim_zeros(s);
        assert(t == trim_zeros(d));
        let k = (d.len() - t.len()) as nat;
        assert(digits_val(s) == digits_val(d) * 10);
        assert(pow10(k + 1) == 10 * pow10(k));
        assert(digits_val(t) * pow10(k + 1) == digits_val(t) * (10 * pow10(k)));
        assert(digits_val(t) * (10 * pow10(k)) == (digits_val(t) * pow10(k)) * 10)
            by (nonlinear_arith);
        assert((s.len() - t.len()) as nat == k + 1);
        assert(digits_val(t) * pow10((s.len() - t.len()) as nat) == digits_val(s));
    } else {
        assert(trim_zeros(s) == s);
        assert((s.len() - trim_zeros(s).len()) as nat == 0);
        assert(pow10((s.len() - trim_zeros(s).len()) as nat) == 1);
        assert(digits_val(trim_zeros(s)) * pow10((s.len() - trim_zeros(s).len()) as nat)
            == digits_val(s)) by (nonlinear_arith)
            requires
                trim_zeros(s) == s,
                pow10((s.len() - trim_zeros(s).len()) as nat) == 1,
        ;
    }
}

/// The rendered time is exact. Read the two digit strings of
/// [`spec_seconds`] back as the decimal `ip.f`: that decimal equals
/// `n / 16000` with no rounding, stated here cross-multiplied over the
/// integers. Nothing of the engine's reported offset is lost in the
/// output.
pub proof fn lemma_seconds_value(n: nat)
    ensures
        ({
            let ip = digits_val(spec_dec(n / 16000));
            let f = trim_zeros(frac_digits((n % 16000) * 625, 7));
            16000 * (ip * pow10(f.len()) + digits_val(f)) == n * pow10(f.len())
        }),
{
    let q = n / 16000;
    let r = n % 16000;
    let full = r * 625;
    lemma_dec_value(q);
    assert(pow10(7) == 10000000) by {
        reveal_with_fuel(pow10, 8);
    }
    assert(full < pow10(7)) by (nonlinear_arith)
        requires
            r < 16000,
            full == r * 625,
            pow10(7) == 10000000,
    ;
    lemma_frac_value(full, 7);
    lemma_frac_len(full, 7);
    let t = trim_zeros(frac_digits(full, 7));
    lemma_trim_prefix(frac_digits(full, 7));
    lemma_trim_value(frac_digits(full, 7));
    let flen = t.len();
    let dropped = (7 - flen) as nat;
    let fv = digits_val(t);
    assert(fv * pow10(dropped) == full);
    assert(n == 16000 * q + r);
    assert(pow10(7) == pow10(flen) * pow10(dropped)) by {
        lemma_pow10_add(flen, dropped);
    }
    assert(16000 * (q * pow10(flen) + fv) * pow10(dropped) == n * pow10(flen) * pow10(dropped))
        by (nonlinear_arith)
        requires
            fv * pow10(dropped) == full,
            full == r * 625,
            n == 16000 * q + r,
            pow10(flen) * pow10(dropped) == pow10(7),
            pow10(7) == 10000000,
    ;
    assert(pow10(dropped) >= 1) by {
        lemma_pow10_pos(dropped);
    }
    assert(16000 * (q * pow10(flen) + fv) == n * pow10(flen)) by (nonlinear_arith)
        requires
            16000 * (q * pow10(flen) + fv) * pow10(dropped) == n * pow10(flen) * pow10(dropped),
            pow10(dropped) >= 1,
    ;
}

proof fn lemma_pow10_pos(w: nat)
    ensures
        pow10(w) >= 1,
    decreases w,
{
    if w > 0 {
        lemma_pow10_pos((w - 1) as nat);
    }
}

proof fn lemma_pow10_add(a: nat, b: nat)
    ensures
        pow10(a + b) == pow10(a) * pow10(b),
    decreases a,
{
    if a == 0 {
        assert(a + b == b);
        assert(pow10(a) == 1);
        assert(pow10(a + b) == pow10(a) * pow10(b));
    } else {
        lemma_pow10_add((a - 1) as nat, b);
        assert(pow10(a) == 10 * pow10((a - 1) as nat));
        assert(a + b >= 1 && ((a + b - 1) as nat) == (a - 1) as nat + b);
        assert(pow10(a + b) == 10 * pow10((a - 1) as nat + b));
        assert(10 * (pow10((a - 1) as nat) * pow10(b)) == (10 * pow10((a - 1) as nat)) * pow10(b))
            by (nonlinear_arith);
    }
}

// --- the one-line law ----------------------------------------------------

/// No byte of `s` is a line feed.
pub open spec fn line_free(s: Seq<u8>) -> bool {
    forall|i: int| 0 <= i < s.len() ==> s[i] != 10
}

proof fn lemma_line_free_concat(a: Seq<u8>, b: Seq<u8>)
    requires
        line_free(a),
        line_free(b),
    ensures
        line_free(a + b),
{
    assert forall|i: int| 0 <= i < (a + b).len() implies (a + b)[i] != 10 by {
        if i < a.len() {
            assert((a + b)[i] == a[i]);
        } else {
            assert((a + b)[i] == b[i - a.len()]);
        }
    }
}

/// Every byte of `s` is a decimal digit.
pub open spec fn all_digits(s: Seq<u8>) -> bool {
    forall|i: int| 0 <= i < s.len() ==> 48 <= #[trigger] s[i] <= 57
}

proof fn lemma_dec_digits(n: nat)
    ensures
        all_digits(spec_dec(n)),
        spec_dec(n).len() >= 1,
        n >= 1 ==> spec_dec(n)[0] != 48,
    decreases n,
{
    if n < 10 {
    } else {
        lemma_dec_digits(n / 10);
        assert forall|i: int| 0 <= i < spec_dec(n).len() implies 48 <= #[trigger] spec_dec(
            n,
        )[i] <= 57 by {
            if i < spec_dec(n / 10).len() {
                assert(spec_dec(n)[i] == spec_dec(n / 10)[i]);
            }
        }
        assert(spec_dec(n)[0] == spec_dec(n / 10)[0]);
    }
}

proof fn lemma_frac_digits_all(f: nat, w: nat)
    ensures
        all_digits(frac_digits(f, w)),
    decreases w,
{
    if w > 0 {
        lemma_frac_digits_all(f / 10, (w - 1) as nat);
        let prev = frac_digits(f / 10, (w - 1) as nat);
        assert forall|i: int| 0 <= i < frac_digits(f, w).len() implies 48 <= #[trigger] frac_digits(
            f,
            w,
        )[i] <= 57 by {
            if i < prev.len() {
                assert(frac_digits(f, w)[i] == prev[i]);
            }
        }
    }
}

/// Trimming keeps a non-empty prefix of the digits.
proof fn lemma_trim_prefix(s: Seq<u8>)
    requires
        s.len() >= 1,
    ensures
        1 <= trim_zeros(s).len() <= s.len(),
        forall|i: int| 0 <= i < trim_zeros(s).len() ==> trim_zeros(s)[i] == s[i],
    decreases s.len(),
{
    if s.len() <= 1 {
    } else if s.last() == 48 {
        lemma_trim_prefix(s.drop_last());
        assert forall|i: int| 0 <= i < trim_zeros(s).len() implies trim_zeros(s)[i] == s[i] by {
            assert(trim_zeros(s)[i] == s.drop_last()[i]);
        }
    } else {
    }
}

/// The shape of a rendered time: digits, a point, then one to seven
/// fraction digits, with no leading zero on a nonzero integer part. Every
/// time in the output is therefore a plain decimal numeral.
pub proof fn lemma_seconds_shape(n: nat)
    ensures
        ({
            let ip = spec_dec(n / 16000);
            let f = trim_zeros(frac_digits((n % 16000) * 625, 7));
            &&& spec_seconds(n) == ip + seq![46u8] + f
            &&& all_digits(ip)
            &&& ip.len() >= 1
            &&& n / 16000 >= 1 ==> ip[0] != 48
            &&& all_digits(f)
            &&& 1 <= f.len() <= 7
        }),
{
    lemma_dec_digits(n / 16000);
    lemma_frac_digits_all((n % 16000) * 625, 7);
    lemma_frac_len((n % 16000) * 625, 7);
    let s0 = frac_digits((n % 16000) * 625, 7);
    lemma_trim_prefix(s0);
    let f = trim_zeros(s0);
    assert forall|i: int| 0 <= i < f.len() implies 48 <= #[trigger] f[i] <= 57 by {
        assert(f[i] == s0[i]);
    }
}

proof fn lemma_seconds_line_free(n: nat)
    ensures
        line_free(spec_seconds(n)),
{
    lemma_seconds_shape(n);
    let ip = spec_dec(n / 16000);
    let f = trim_zeros(frac_digits((n % 16000) * 625, 7));
    lemma_line_free_concat(ip, seq![46u8]);
    lemma_line_free_concat(ip + seq![46u8], f);
    assert(spec_seconds(n) == (ip + seq![46u8]) + f);
}

proof fn lemma_segment_line_free(s: SpeakerSegment)
    ensures
        line_free(spec_render_segment(s)),
{
    lemma_seconds_line_free(s.start as nat);
    lemma_seconds_line_free(s.end as nat);
    lemma_dec_digits(s.speaker_id as nat);
    let a = key_start();
    let b = spec_seconds(s.start as nat);
    let c = key_end();
    let d = spec_seconds(s.end as nat);
    let e = key_speaker();
    let f = spec_dec(s.speaker_id as nat);
    let g = seq![125u8];
    lemma_line_free_concat(a, b);
    lemma_line_free_concat(a + b, c);
    lemma_line_free_concat(a + b + c, d);
    lemma_line_free_concat(a + b + c + d, e);
    lemma_line_free_concat(a + b + c + d + e, f);
    lemma_line_free_concat(a + b + c + d + e + f, g);
}

proof fn lemma_items_line_free(l: Seq<SpeakerSegment>)
    ensures
        line_free(spec_render_items(l)),
    decreases l.len(),
{
    if l.len() == 0 {
    } else if l.len() == 1 {
        lemma_segment_line_free(l[0]);
    } else {
        lemma_items_line_free(l.drop_last());
        lemma_segment_line_free(l.last());
        lemma_line_free_concat(spec_render_items(l.drop_last()), seq![44u8]);
        lemma_line_free_concat(
            spec_render_items(l.drop_last()) + seq![44u8],
            spec_render_segment(l.last()),
        );
    }
}

/// The primary record is one line: no byte of it is a line feed, whatever
/// the segments are.
pub proof fn lemma_output_single_line(l: Seq<SpeakerSegment>)
    ensures
        line_free(spec_output(l)),
{
    lemma_items_line_free(l);
    lemma_line_free_concat(seq![91u8], spec_render_items(l));
    lemma_line_free_concat(seq![91u8] + spec_render_items(l), seq![93u8]);
    assert(spec_output(l) == (seq![91u8] + spec_render_items(l)) + seq![93u8]);
}

/// An empty run serializes to exactly the two-byte empty array `[]`.
pub proof fn lemma_empty_output()
    ensures
        spec_output(Seq::<SpeakerSegment>::empty()) =~= seq![91u8, 93u8],
{
}

} // verus!
