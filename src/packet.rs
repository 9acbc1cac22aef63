//! Spot records and the grammar that reads them from feed lines.

use vstd::prelude::*;
use vstd::string::{StringSliceAdditionalSpecFns, StringExecFns};
use crate::grammar::{
    Class, in_class, is_digit, run_end, lemma_run_end, scan, digits_value, dot_count,
    after_dot, read_digits, lemma_class_ascii, class_has,
};
use crate::text::{chars_of, is_ascii_bytes, ascii_string, copy_range};

verus! {

/// A non-negative decimal number: `mantissa / 10^scale`. The parser gives it
/// in lowest terms (`scale` is zero or `mantissa` is not a multiple of ten),
/// so that equal values read from the feed compare equal.
#[derive(Clone, Copy, Debug, PartialEq, Eq, Structural)]
pub struct Decimal {
    pub mantissa: u64,
    pub scale: u64,
}

/// The value of a frequency text made of digits and dots, in lowest terms:
/// at most one dot, at least one digit, and a digit string that fits in 64
/// bits; else zero.
pub open spec fn decimal_of(t: Seq<u8>) -> Decimal {
    if dot_count(t) <= 1 && dot_count(t) < t.len() && digits_value(t) <= u64::MAX {
        let n = normal(digits_value(t), if dot_count(t) == 1 { after_dot(t) } else { 0 });
        Decimal { mantissa: n.0 as u64, scale: n.1 as u64 }
    } else {
        Decimal { mantissa: 0, scale: 0 }
    }
}

pub open spec fn all_digits(t: Seq<u8>) -> bool {
    forall|i: int| 0 <= i < t.len() ==> is_digit(#[trigger] t[i])
}

/// The value of a signal-to-noise text made of digits and minus signs: an
/// optional leading minus and at least one digit, within 64 bits; else zero.
pub open spec fn snr_of(t: Seq<u8>) -> i64 {
    let neg = t.len() > 0 && t[0] == 45;
    let u = if neg { t.subrange(1, t.len() as int) } else { t };
    if u.len() > 0 && all_digits(u) && digits_value(u) <= i64::MAX {
        if neg { -(digits_value(u) as int) as i64 } else { digits_value(u) as i64 }
    } else {
        0
    }
}

/// The value of a speed text made of digits, where it fits in a byte; else zero.
pub open spec fn speed_of(t: Seq<u8>) -> u8 {
    if digits_value(t) <= u8::MAX { digits_value(t) as u8 } else { 0 }
}

/// One spot: who heard whom, where, and how well.
#[derive(Clone, Debug)]
pub struct RbnPacket {
    /// Callsign of the spotter
    pub spotter: String,
    /// Frequency in kHz
    pub frequency: Decimal,
    /// Callsign of the spotted station
    pub spotted: String,
    /// Mode used
    pub mode: String,
    /// Signal-to-noise ratio in dB
    pub snr: i64,
    /// Signal speed
    pub speed: u8,
    /// Message
    pub message: String,
    /// Time of day in UTC, four digits
    pub time: String,
}

/// The mathematical content of a spot.
pub struct PacketView {
    pub spotter: Seq<char>,
    pub frequency: Decimal,
    pub spotted: Seq<char>,
    pub mode: Seq<char>,
    pub snr: i64,
    pub speed: u8,
    pub message: Seq<char>,
    pub time: Seq<char>,
}

impl View for RbnPacket {
    type V = PacketView;

    open spec fn view(&self) -> PacketView {
        PacketView {
            spotter: self.spotter@,
            frequency: self.frequency,
            spotted: self.spotted@,
            mode: self.mode@,
            snr: self.snr,
            speed: self.speed,
            message: self.message@,
            time: self.time@,
        }
    }
}

impl PartialEq for RbnPacket {
    fn eq(&self, o: &RbnPacket) -> (r: bool)
        ensures
            r == (self@ == o@),
    {
        self.spotter == o.spotter && self.frequency == o.frequency && self.spotted == o.spotted
            && self.mode == o.mode && self.snr == o.snr && self.speed == o.speed && self.message
            == o.message && self.time == o.time
    }
}

impl vstd::std_specs::cmp::PartialEqSpecImpl for RbnPacket {
    open spec fn obeys_eq_spec() -> bool {
        true
    }

    open spec fn eq_spec(&self, o: &RbnPacket) -> bool {
        self@ == o@
    }
}

/// Where each field of a spot lies in a line: start and end of each.
pub struct Cuts {
    pub spotter: (int, int),
    pub frequency: (int, int),
    pub spotted: (int, int),
    pub mode: (int, int),
    pub snr: (int, int),
    pub speed: (int, int),
    pub message: (int, int),
    pub time: (int, int),
}

/// `DX de `
pub open spec fn marker() -> Seq<u8> {
    seq![68u8, 88, 32, 100, 101, 32]
}

/// `-#:`, after the spotter; the dash is taken from the end of the callsign run.
pub open spec fn spotter_tag() -> Seq<u8> {
    seq![35u8, 58]
}

/// ` dB`
pub open spec fn decibels() -> Seq<u8> {
    seq![32u8, 100, 66]
}

pub open spec fn lit_at(s: Seq<u8>, i: int, w: Seq<u8>) -> bool {
    0 <= i && i + w.len() <= s.len() && s.subrange(i, i + w.len()) == w
}

/// A time stamp ends at `z`: four digits, then `Z`.
pub open spec fn stamp_at(s: Seq<u8>, z: int) -> bool {
    4 <= z < s.len() && s[z] == 90 && is_digit(s[z - 4]) && is_digit(s[z - 3])
        && is_digit(s[z - 2]) && is_digit(s[z - 1])
}

/// The last `z` below `e` and at least `p + 4` where a time stamp ends.
pub open spec fn last_stamp(s: Seq<u8>, p: int, e: int) -> Option<int>
    decreases e - p,
{
    if e <= p + 4 {
        None
    } else if stamp_at(s, e - 1) {
        Some(e - 1)
    } else {
        last_stamp(s, p, e - 1)
    }
}

/// `e` moved back over the spaces that end `s[p..e]`.
pub open spec fn trim_end(s: Seq<u8>, p: int, e: int) -> int
    decreases e - p,
{
    if e > p && 0 < e <= s.len() && s[e - 1] == 32 {
        trim_end(s, p, e - 1)
    } else {
        e
    }
}

/// The grammar, read at position `i` of a line:
///
/// `DX de <spotter>-#: <frequency> <spotted> <mode> <snr> dB <speed> <unit> <message> <time>Z`
///
/// Each field is the longest run of its class; the runs are separated by
/// whitespace (optional after `-#:`), the speed unit is made of the letters
/// `WPMBPS`, and the message is the run of letters, digits and spaces after
/// the unit, without its trailing spaces. The time stamp either follows that
/// run after other whitespace, or is the last one inside it.
pub open spec fn spot_at(s: Seq<u8>, i: int) -> Option<Cuts> {
    let a = i + 6;
    let b = run_end(s, a, Class::Call);
    let c = run_end(s, b + 2, Class::Space);
    let d = run_end(s, c, Class::Freq);
    let e = run_end(s, d, Class::Space);
    let f = run_end(s, e, Class::Call);
    let g = run_end(s, f, Class::Space);
    let h = run_end(s, g, Class::Mode);
    let j = run_end(s, h, Class::Space);
    let k = run_end(s, j, Class::Snr);
    let l = run_end(s, k + 3, Class::Space);
    let m = run_end(s, l, Class::Digit);
    let n = run_end(s, m, Class::Space);
    let o = run_end(s, n, Class::Unit);
    let p = run_end(s, o, Class::Space);
    let q = run_end(s, p, Class::Message);
    if !lit_at(s, i, marker()) {
        None
    } else if !(b - a >= 2 && s[b - 1] == 45 && lit_at(s, b, spotter_tag())) {
        None
    } else if !(c < d < e < f < g < h < j < k && lit_at(s, k, decibels())) {
        None
    } else if !(k + 3 < l < m < n < o < p) {
        None
    } else {
        match time_stamp(s, p, q) {
            None => None,
            Some((me, z)) => Some(
                Cuts {
                    spotter: (a, b - 1),
                    frequency: (c, d),
                    spotted: (e, f),
                    mode: (g, h),
                    snr: (j, k),
                    speed: (l, m),
                    message: (p, trim_end(s, p, me)),
                    time: (z - 4, z),
                },
            ),
        }
    }
}

/// Where the message ends and the time stamp's `Z` stands, for a message run
/// `s[p..q]`: a stamp right after the whitespace that follows the run, else
/// the last stamp inside the run.
pub open spec fn time_stamp(s: Seq<u8>, p: int, q: int) -> Option<(int, int)> {
    let w = run_end(s, q, Class::Space);
    if w > q && stamp_at(s, w + 4) {
        Some((q, w + 4))
    } else {
        match last_stamp(s, p, q) {
            Some(z) => Some((z - 4, z)),
            None => None,
        }
    }
}

proof fn lemma_time_stamp(s: Seq<u8>, p: int, q: int)
    requires
        0 <= p <= q <= s.len(),
    ensures
        time_stamp(s, p, q) matches Some((me, z)) ==> p <= me <= q && me <= z - 4 && p + 4 <= z
            && z < s.len() && stamp_at(s, z),
{
    lemma_run_end(s, q, Class::Space);
    lemma_stamp_bounds(s, p, q);
}

pub open spec fn text_at(s: Seq<u8>, r: (int, int)) -> Seq<char> {
    chars_of(s.subrange(r.0, r.1))
}

/// The spot whose fields stand at `c` in `s`.
pub open spec fn packet_of(s: Seq<u8>, c: Cuts) -> PacketView {
    PacketView {
        spotter: text_at(s, c.spotter),
        frequency: decimal_of(s.subrange(c.frequency.0, c.frequency.1)),
        spotted: text_at(s, c.spotted),
        mode: text_at(s, c.mode),
        snr: snr_of(s.subrange(c.snr.0, c.snr.1)),
        speed: speed_of(s.subrange(c.speed.0, c.speed.1)),
        message: text_at(s, c.message),
        time: text_at(s, c.time),
    }
}

/// The spot of the first position of `s`, from `i` on, where the grammar matches.
pub open spec fn first_spot(s: Seq<u8>, i: int) -> Option<PacketView>
    decreases s.len() - i,
{
    if i < 0 || i >= s.len() {
        None
    } else {
        match spot_at(s, i) {
            Some(c) => Some(packet_of(s, c)),
            None => first_spot(s, i + 1),
        }
    }
}

/// Whether the grammar matches somewhere in `s`.
pub open spec fn has_spot(s: Seq<u8>) -> bool {
    exists|i: int| 0 <= i < s.len() && (#[trigger] spot_at(s, i)) is Some
}


/// A new string holding the characters of `s[from..to]`.
fn text_of(s: &[u8], from: usize, to: usize) -> (r: String)
    requires
        from <= to <= s@.len(),
        forall|x: int| from <= x < to ==> #[trigger] s@[x] < 128,
    ensures
        r@ == chars_of(s@.subrange(from as int, to as int)),
{
    let v = copy_range(s, from, to);
    assert forall|i: int| 0 <= i < v@.len() implies #[trigger] v@[i] < 128 by {
        assert(v@[i] == s@[from + i]);
    }
    ascii_string(v)
}

/// Reads the frequency text `s[from..to]`.
fn decimal_from(s: &[u8], from: usize, to: usize) -> (r: Decimal)
    requires
        from <= to <= s@.len(),
        forall|x: int| from <= x < to ==> #[trigger] in_class(Class::Freq, s@[x]),
    ensures
        r == decimal_of(s@.subrange(from as int, to as int)),
{
    let ghost t = s@.subrange(from as int, to as int);
    let mut dots: usize = 0;
    let mut after: usize = 0;
    let mut i: usize = from;
    assert(t.subrange(0, 0) =~= Seq::<u8>::empty());
    while i < to
        invariant
            from <= i <= to <= s@.len(),
            t == s@.subrange(from as int, to as int),
            dots == dot_count(t.subrange(0, i - from)),
            after == after_dot(t.subrange(0, i - from)),
            dots <= i - from,
            after <= i - from,
        decreases to - i,
    {
        let ghost pre = t.subrange(0, i - from + 1);
        assert(pre.drop_last() =~= t.subrange(0, i - from));
        assert(pre.last() == s@[i as int]);
        if s[i] == 46 {
            dots = dots + 1;
            after = 0;
        } else {
            after = after + 1;
        }
        i = i + 1;
    }
    assert(t.subrange(0, to - from) =~= t);
    if dots <= 1 && dots < to - from {
        match read_digits(s, from, to, u64::MAX) {
            Some(v) => {
                let (m, sc) = normalize(v, if dots == 1 { after as u64 } else { 0 });
                Decimal { mantissa: m, scale: sc }
            },
            None => Decimal { mantissa: 0, scale: 0 },
        }
    } else {
        Decimal { mantissa: 0, scale: 0 }
    }
}

/// Reads the signal-to-noise text `s[from..to]`.
fn snr_from(s: &[u8], from: usize, to: usize) -> (r: i64)
    requires
        from <= to <= s@.len(),
    ensures
        r == snr_of(s@.subrange(from as int, to as int)),
{
    let ghost t = s@.subrange(from as int, to as int);
    let neg = from < to && s[from] == 45;
    let a = if neg { from + 1 } else { from };
    let ghost u = s@.subrange(a as int, to as int);
    assert(u =~= (if neg { t.subrange(1, t.len() as int) } else { t }));
    if a == to {
        return 0;
    }
    let e = scan(s, a, Class::Digit);
    proof {
        lemma_run_end(s@, a as int, Class::Digit);
    }
    if e < to {
        assert(u[e - a] == s@[e as int]);
        assert(!is_digit(u[e - a]));
        return 0;
    }
    assert forall|x: int| a <= x < to implies #[trigger] in_class(Class::Freq, s@[x]) by {
        assert(in_class(Class::Digit, s@[x]));
    }
    assert(all_digits(u)) by {
        assert forall|x: int| 0 <= x < u.len() implies is_digit(#[trigger] u[x]) by {
            assert(u[x] == s@[a + x]);
            assert(in_class(Class::Digit, s@[a + x]));
        }
    }
    match read_digits(s, a, to, i64::MAX as u64) {
        Some(v) => if neg { -(v as i64) } else { v as i64 },
        None => 0,
    }
}

/// Reads the speed text `s[from..to]`, made of digits.
fn speed_from(s: &[u8], from: usize, to: usize) -> (r: u8)
    requires
        from <= to <= s@.len(),
        forall|x: int| from <= x < to ==> #[trigger] in_class(Class::Digit, s@[x]),
    ensures
        r == speed_of(s@.subrange(from as int, to as int)),
{
    assert forall|x: int| from <= x < to implies #[trigger] in_class(Class::Freq, s@[x]) by {
        assert(in_class(Class::Digit, s@[x]));
    }
    match read_digits(s, from, to, 255) {
        Some(v) => v as u8,
        None => 0,
    }
}

fn is_stamp(s: &[u8], z: usize) -> (r: bool)
    requires
        z < s@.len(),
    ensures
        r == stamp_at(s@, z as int),
{
    z >= 4 && s[z] == 90 && class_has(Class::Digit, s[z - 4]) && class_has(Class::Digit, s[z - 3])
        && class_has(Class::Digit, s[z - 2]) && class_has(Class::Digit, s[z - 1])
}

/// Finds the last time stamp that ends below `e` and at least at `p + 4`.
fn find_stamp(s: &[u8], p: usize, e: usize) -> (r: Option<usize>)
    requires
        p <= e <= s@.len(),
    ensures
        r matches Some(z) ==> last_stamp(s@, p as int, e as int) == Some(z as int),
        r is None ==> last_stamp(s@, p as int, e as int) is None,
{
    let mut k: usize = e;
    while k - p > 4
        invariant
            p <= k <= e <= s@.len(),
            last_stamp(s@, p as int, k as int) == last_stamp(s@, p as int, e as int),
        decreases k,
    {
        if is_stamp(s, k - 1) {
            return Some(k - 1);
        }
        k = k - 1;
    }
    None
}

/// Moves `e` back over the spaces that end `s[p..e]`.
fn trim(s: &[u8], p: usize, e: usize) -> (r: usize)
    requires
        p <= e <= s@.len(),
    ensures
        r == trim_end(s@, p as int, e as int),
        p <= r <= e,
{
    let mut k: usize = e;
    while k > p && s[k - 1] == 32
        invariant
            p <= k <= e <= s@.len(),
            trim_end(s@, p as int, k as int) == trim_end(s@, p as int, e as int),
        decreases k,
    {
        k = k - 1;
    }
    k
}


fn marker_at(s: &[u8], i: usize) -> (r: bool)
    ensures
        r == lit_at(s@, i as int, marker()),
{
    if i <= s.len() && s.len() - i >= 6 && s[i] == 68 && s[i + 1] == 88 && s[i + 2] == 32
        && s[i + 3] == 100 && s[i + 4] == 101 && s[i + 5] == 32 {
        assert(s@.subrange(i as int, i + 6) =~= marker());
        true
    } else {
        proof {
            if lit_at(s@, i as int, marker()) {
                let w = s@.subrange(i as int, i + 6);
                assert(w[0] == s@[i as int] && w[1] == s@[i + 1] && w[2] == s@[i + 2]);
                assert(w[3] == s@[i + 3] && w[4] == s@[i + 4] && w[5] == s@[i + 5]);
            }
        }
        false
    }
}

fn spotter_tag_at(s: &[u8], i: usize) -> (r: bool)
    ensures
        r == lit_at(s@, i as int, spotter_tag()),
{
    if i <= s.len() && s.len() - i >= 2 && s[i] == 35 && s[i + 1] == 58 {
        assert(s@.subrange(i as int, i + 2) =~= spotter_tag());
        true
    } else {
        proof {
            if lit_at(s@, i as int, spotter_tag()) {
                let w = s@.subrange(i as int, i + 2);
                assert(w[0] == s@[i as int] && w[1] == s@[i + 1]);
            }
        }
        false
    }
}

fn decibels_at(s: &[u8], i: usize) -> (r: bool)
    ensures
        r == lit_at(s@, i as int, decibels()),
{
    if i <= s.len() && s.len() - i >= 3 && s[i] == 32 && s[i + 1] == 100 && s[i + 2] == 66 {
        assert(s@.subrange(i as int, i + 3) =~= decibels());
        true
    } else {
        proof {
            if lit_at(s@, i as int, decibels()) {
                let w = s@.subrange(i as int, i + 3);
                assert(w[0] == s@[i as int] && w[1] == s@[i + 1] && w[2] == s@[i + 2]);
            }
        }
        false
    }
}

/// A new string holding `s[from..to]`, a run of class `k`.
fn run_text(s: &[u8], from: usize, to: usize, k: Class) -> (r: String)
    requires
        from <= to <= s@.len(),
        forall|x: int| from <= x < to ==> #[trigger] in_class(k, s@[x]),
    ensures
        r@ == chars_of(s@.subrange(from as int, to as int)),
{
    assert forall|x: int| from <= x < to implies #[trigger] s@[x] < 128 by {
        lemma_class_ascii(k, s@[x]);
    }
    text_of(s, from, to)
}

/// Reads the spot that the grammar finds at position `i` of `s`, if any.
pub fn parse_at(s: &[u8], i: usize) -> (r: Option<RbnPacket>)
    ensures
        match spot_at(s@, i as int) {
            Some(c) => r matches Some(p) && p@ == packet_of(s@, c),
            None => r is None,
        },
{
    match read_at(s, i) {
        Some((p, _)) => Some(p),
        None => None,
    }
}

/// The spot at position `i`, with the position just after its `Z`.
fn read_at(s: &[u8], i: usize) -> (r: Option<(RbnPacket, usize)>)
    ensures
        match spot_at(s@, i as int) {
            Some(c) => r matches Some((p, end)) && p@ == packet_of(s@, c) && end == c.time.1 + 1,
            None => r is None,
        },
{
    let ghost g = s@;
    if !marker_at(s, i) {
        return None;
    }
    assert(marker().len() == 6);
    let len = s.len();
    assert(i + 6 <= len);
    let a = i + 6;
    let b = scan(s, a, Class::Call);
    proof { lemma_run_end(g, a as int, Class::Call); }
    if !(b - a >= 2 && s[b - 1] == 45 && spotter_tag_at(s, b)) {
        return None;
    }
    let c = scan(s, b + 2, Class::Space);
    proof { lemma_run_end(g, b + 2, Class::Space); }
    let d = scan(s, c, Class::Freq);
    proof { lemma_run_end(g, c as int, Class::Freq); }
    let e = scan(s, d, Class::Space);
    proof { lemma_run_end(g, d as int, Class::Space); }
    let f = scan(s, e, Class::Call);
    proof { lemma_run_end(g, e as int, Class::Call); }
    let gg = scan(s, f, Class::Space);
    proof { lemma_run_end(g, f as int, Class::Space); }
    let h = scan(s, gg, Class::Mode);
    proof { lemma_run_end(g, gg as int, Class::Mode); }
    let j = scan(s, h, Class::Space);
    proof { lemma_run_end(g, h as int, Class::Space); }
    let k = scan(s, j, Class::Snr);
    proof { lemma_run_end(g, j as int, Class::Snr); }
    if !(c < d && d < e && e < f && f < gg && gg < h && h < j && j < k && decibels_at(s, k)) {
        return None;
    }
    let l = scan(s, k + 3, Class::Space);
    proof { lemma_run_end(g, k + 3, Class::Space); }
    let m = scan(s, l, Class::Digit);
    proof { lemma_run_end(g, l as int, Class::Digit); }
    let n = scan(s, m, Class::Space);
    proof { lemma_run_end(g, m as int, Class::Space); }
    let o = scan(s, n, Class::Unit);
    proof { lemma_run_end(g, n as int, Class::Unit); }
    let p = scan(s, o, Class::Space);
    proof { lemma_run_end(g, o as int, Class::Space); }
    let q = scan(s, p, Class::Message);
    proof { lemma_run_end(g, p as int, Class::Message); }
    if !(k + 3 < l && l < m && m < n && n < o && o < p) {
        return None;
    }
    let w = scan(s, q, Class::Space);
    proof {
        lemma_run_end(g, q as int, Class::Space);
        lemma_time_stamp(g, p as int, q as int);
    }
    let (me, z) = if w > q && s.len() - w > 4 && is_stamp(s, w + 4) {
        (q, w + 4)
    } else {
        match find_stamp(s, p, q) {
            None => {
                return None;
            },
            Some(z) => (z - 4, z),
        }
    };
    let t = trim(s, p, me);
    assert forall|x: int| z - 4 <= x < z implies #[trigger] in_class(Class::Digit, g[x]) by {
        assert(stamp_at(g, z as int));
    }
    let packet = RbnPacket {
        spotter: run_text(s, a, b - 1, Class::Call),
        frequency: decimal_from(s, c, d),
        spotted: run_text(s, e, f, Class::Call),
        mode: run_text(s, gg, h, Class::Mode),
        snr: snr_from(s, j, k),
        speed: speed_from(s, l, m),
        message: run_text(s, p, t, Class::Message),
        time: run_text(s, z - 4, z, Class::Digit),
    };
    Some((packet, z + 1))
}

proof fn lemma_stamp_bounds(s: Seq<u8>, p: int, e: int)
    ensures
        last_stamp(s, p, e) matches Some(z) ==> p + 4 <= z < e && stamp_at(s, z),
    decreases e - p,
{
    if e > p + 4 && !stamp_at(s, e - 1) {
        lemma_stamp_bounds(s, p, e - 1);
    }
}


proof fn lemma_first_spot(s: Seq<u8>, i: int)
    requires
        0 <= i,
    ensures
        first_spot(s, i) is Some <==> exists|j: int| i <= j < s.len() && (#[trigger] spot_at(s, j)) is Some,
    decreases s.len() - i,
{
    if i < s.len() {
        lemma_first_spot(s, i + 1);
        if spot_at(s, i) is None {
            assert forall|j: int| i <= j < s.len() && (#[trigger] spot_at(s, j)) is Some implies i + 1 <= j by {}
        }
    }
}

/// Reads the spot at the first position of `s` where the grammar matches.
pub fn parse_bytes(s: &[u8]) -> (r: Option<RbnPacket>)
    ensures
        match first_spot(s@, 0) {
            Some(v) => r matches Some(p) && p@ == v,
            None => r is None,
        },
        r is Some <==> has_spot(s@),
{
    proof { lemma_first_spot(s@, 0); }
    let mut i: usize = 0;
    while i < s.len()
        invariant
            i <= s@.len(),
            first_spot(s@, i as int) == first_spot(s@, 0),
        decreases s@.len() - i,
    {
        let r = parse_at(s, i);
        if r.is_some() {
            return r;
        }
        i = i + 1;
    }
    None
}

/// Reads the spot that a feed line carries: the first place in it where the
/// grammar matches. A line without one gives `None`.
pub fn parse(line: &str) -> (r: Option<RbnPacket>)
    ensures
        match first_spot(line.spec_bytes(), 0) {
            Some(v) => r matches Some(p) && p@ == v,
            None => r is None,
        },
        r is Some <==> has_spot(line.spec_bytes()),
{
    parse_bytes(line.as_bytes())
}


/// The decimal digits of `n`, most significant first.
pub open spec fn digits_text(n: nat) -> Seq<u8>
    decreases n,
{
    if n < 10 {
        seq![(48 + n) as u8]
    } else {
        digits_text(n / 10).push((48 + n % 10) as u8)
    }
}

/// `mantissa / 10^scale` with the trailing zeros of the fraction removed.
pub open spec fn normal(m: nat, sc: nat) -> (nat, nat)
    decreases sc,
{
    if sc > 0 && m % 10 == 0 {
        normal(m / 10, (sc - 1) as nat)
    } else {
        (m, sc)
    }
}

pub open spec fn zeros(k: nat) -> Seq<u8> {
    Seq::new(k, |i: int| 48u8)
}

/// The shortest decimal text of a number: `14025`, `7040.1`, `0.05`.
pub open spec fn decimal_text(d: Decimal) -> Seq<u8> {
    let (m, sc) = normal(d.mantissa as nat, d.scale as nat);
    let t = digits_text(m);
    if sc == 0 {
        t
    } else if t.len() > sc {
        t.subrange(0, t.len() - sc) + seq![46u8] + t.subrange(t.len() - sc, t.len() as int)
    } else {
        seq![48u8, 46u8] + zeros((sc - t.len()) as nat) + t
    }
}

proof fn lemma_digits_ascii(n: nat)
    ensures
        is_ascii_bytes(digits_text(n)),
        digits_text(n).len() >= 1,
    decreases n,
{
    if n >= 10 {
        lemma_digits_ascii(n / 10);
        let t = digits_text(n / 10);
        assert forall|i: int| 0 <= i < t.len() + 1 implies #[trigger] digits_text(n)[i] < 128 by {
            if i < t.len() {
                assert(digits_text(n)[i] == t[i]);
            }
        }
    }
}

proof fn lemma_normal_zero(sc: nat)
    ensures
        normal(0, sc) == (0nat, 0nat),
    decreases sc,
{
    if sc > 0 {
        lemma_normal_zero((sc - 1) as nat);
    }
}

/// Removes the trailing zeros of the fraction of `m / 10^sc`.
fn normalize(m: u64, sc: u64) -> (r: (u64, u64))
    ensures
        (r.0 as nat, r.1 as nat) == normal(m as nat, sc as nat),
{
    if m == 0 {
        proof { lemma_normal_zero(sc as nat); }
        return (0, 0);
    }
    let mut m2: u64 = m;
    let mut sc2: u64 = sc;
    while sc2 > 0 && m2 % 10 == 0
        invariant
            normal(m2 as nat, sc2 as nat) == normal(m as nat, sc as nat),
        decreases sc2,
    {
        m2 = m2 / 10;
        sc2 = sc2 - 1;
    }
    (m2, sc2)
}

fn push_digits(n: u64, out: &mut Vec<u8>)
    ensures
        final(out)@ == old(out)@ + digits_text(n as nat),
    decreases n,
{
    if n >= 10 {
        push_digits(n / 10, out);
    }
    out.push(48 + (n % 10) as u8);
    assert(final(out)@ =~= old(out)@ + digits_text(n as nat));
}

impl Decimal {
    /// The shortest decimal text of the number.
    pub fn to_text(&self) -> (r: String)
        ensures
            r@ == chars_of(decimal_text(*self)),
    {
        let (m, sc) = normalize(self.mantissa, self.scale);
        let mut t: Vec<u8> = Vec::new();
        push_digits(m, &mut t);
        assert(t@ =~= digits_text(m as nat));
        proof { lemma_digits_ascii(m as nat); }
        let len = t.len();
        let mut out: Vec<u8> = Vec::new();
        if sc == 0 {
            out = t;
        } else if len as u64 > sc {
            let cut = len - sc as usize;
            let mut i: usize = 0;
            while i < cut
                invariant
                    cut <= len == t@.len(),
                    i <= cut,
                    out@ == t@.subrange(0, i as int),
                decreases cut - i,
            {
                out.push(t[i]);
                i = i + 1;
                assert(out@ =~= t@.subrange(0, i as int));
            }
            out.push(46);
            let ghost head = out@;
            while i < len
                invariant
                    cut <= i <= len == t@.len(),
                    out@ == head + t@.subrange(cut as int, i as int),
                decreases len - i,
            {
                out.push(t[i]);
                i = i + 1;
                assert(out@ =~= head + t@.subrange(cut as int, i as int));
            }
        } else {
            out.push(48);
            out.push(46);
            let pad = sc - len as u64;
            let mut k: u64 = 0;
            while k < pad
                invariant
                    k <= pad,
                    out@ == seq![48u8, 46u8] + zeros(k as nat),
                decreases pad - k,
            {
                out.push(48);
                k = k + 1;
                assert(out@ =~= seq![48u8, 46u8] + zeros(k as nat));
            }
            let ghost head = out@;
            let mut i: usize = 0;
            while i < len
                invariant
                    i <= len == t@.len(),
                    out@ == head + t@.subrange(0, i as int),
                decreases len - i,
            {
                out.push(t[i]);
                i = i + 1;
                assert(out@ =~= head + t@.subrange(0, i as int));
            }
            assert(t@.subrange(0, len as int) =~= t@);
        }
        assert(out@ =~= decimal_text(*self));
        assert(is_ascii_bytes(out@)) by {
            assert forall|x: int| 0 <= x < out@.len() implies #[trigger] out@[x] < 128 by {
                if sc != 0 && len as u64 > sc {
                    if x < len - sc { assert(out@[x] == t@[x]); }
                    else if x > len - sc { assert(out@[x] == t@[x - 1]); }
                } else if sc != 0 {
                    if x >= 2 + (sc - len) { assert(out@[x] == t@[x - 2 - (sc - len)]); }
                }
            }
        }
        ascii_string(out)
    }
}


/// The key that identifies one reported event: spotted station, frequency,
/// mode and time, joined by dashes.
pub open spec fn dedupe_text(p: PacketView) -> Seq<char> {
    p.spotted + seq!['-'] + chars_of(decimal_text(p.frequency)) + seq!['-'] + p.mode + seq!['-']
        + p.time
}

impl RbnPacket {
    /// A key that identifies the reported event, so that the reports of many
    /// spotters on one call can be told apart from distinct calls.
    pub fn dirty_hash(&self) -> (r: String)
        ensures
            r@ == dedupe_text(self@),
    {
        let mut k = self.spotted.clone();
        let freq = self.frequency.to_text();
        proof { reveal_strlit("-"); }
        k.append("-");
        k.append(freq.as_str());
        k.append("-");
        k.append(self.mode.as_str());
        k.append("-");
        k.append(self.time.as_str());
        k
    }
}

/// The key depends on the spotted station, frequency, mode and time alone: two
/// spots that agree on those, whoever spotted them, and in particular one spot
/// keyed twice, get the same key.
pub proof fn lemma_dedupe_key_ignores_spotter(a: PacketView, b: PacketView)
    requires
        a.spotted == b.spotted,
        a.frequency == b.frequency,
        a.mode == b.mode,
        a.time == b.time,
    ensures
        dedupe_text(a) == dedupe_text(b),
{
}


/// The spots of `s` from position `i` on: each where the grammar first
/// matches, the next search starting just after its `Z`.
pub open spec fn all_spots(s: Seq<u8>, i: int) -> Seq<PacketView>
    decreases s.len() - i,
{
    if i < 0 || i >= s.len() {
        Seq::empty()
    } else {
        match spot_at(s, i) {
            Some(c) => if i < c.time.1 + 1 <= s.len() {
                seq![packet_of(s, c)] + all_spots(s, c.time.1 + 1)
            } else {
                Seq::empty()
            },
            None => all_spots(s, i + 1),
        }
    }
}

pub open spec fn views_of(v: Seq<RbnPacket>) -> Seq<PacketView> {
    v.map_values(|p: RbnPacket| p@)
}

impl std::str::FromStr for RbnPacket {
    type Err = ();

    /// The spot of a line, as `parse` reads it; `Err` where the line has none.
    fn from_str(line: &str) -> (r: Result<RbnPacket, ()>)
        ensures
            match first_spot(line.spec_bytes(), 0) {
                Some(v) => r matches Ok(p) && p@ == v,
                None => r is Err,
            },
    {
        match parse(line) {
            Some(p) => Ok(p),
            None => Err(()),
        }
    }
}

/// Reads every spot of a chunk of feed text, in order, without overlaps.
pub fn parse_all(line: &str) -> (r: Vec<RbnPacket>)
    ensures
        views_of(r@) == all_spots(line.spec_bytes(), 0),
{
    let s = line.as_bytes();
    let mut out: Vec<RbnPacket> = Vec::new();
    let mut i: usize = 0;
    while i < s.len()
        invariant
            views_of(out@) + all_spots(s@, i as int) == all_spots(s@, 0),
        decreases s@.len() - i,
    {
        match read_at(s, i) {
            Some((p, end)) => {
                proof {
                    let c = spot_at(s@, i as int)->0;
                    lemma_spot_end(s@, i as int);
                    assert(i < c.time.1 + 1 <= s@.len());
                }
                let ghost before = views_of(out@);
                out.push(p);
                assert(views_of(out@) =~= before + seq![p@]);
                i = end;
            },
            None => {
                i = i + 1;
            },
        }
    }
    assert(views_of(out@) + all_spots(s@, i as int) =~= views_of(out@));
    out
}

proof fn lemma_spot_end(s: Seq<u8>, i: int)
    ensures
        spot_at(s, i) matches Some(c) ==> i < c.time.1 + 1 <= s.len(),
{
    if spot_at(s, i) is Some {
        let a = i + 6;
        let b = run_end(s, a, Class::Call);
        let c = run_end(s, b + 2, Class::Space);
        let d = run_end(s, c, Class::Freq);
        let e = run_end(s, d, Class::Space);
        let f = run_end(s, e, Class::Call);
        let g = run_end(s, f, Class::Space);
        let h = run_end(s, g, Class::Mode);
        let j = run_end(s, h, Class::Space);
        let k = run_end(s, j, Class::Snr);
        let l = run_end(s, k + 3, Class::Space);
        let m = run_end(s, l, Class::Digit);
        let n = run_end(s, m, Class::Space);
        let o = run_end(s, n, Class::Unit);
        let p = run_end(s, o, Class::Space);
        let q = run_end(s, p, Class::Message);
        lemma_run_end(s, a, Class::Call);
        lemma_run_end(s, b + 2, Class::Space);
        lemma_run_end(s, c, Class::Freq);
        lemma_run_end(s, d, Class::Space);
        lemma_run_end(s, e, Class::Call);
        lemma_run_end(s, f, Class::Space);
        lemma_run_end(s, g, Class::Mode);
        lemma_run_end(s, h, Class::Space);
        lemma_run_end(s, j, Class::Snr);
        lemma_run_end(s, k + 3, Class::Space);
        lemma_run_end(s, l, Class::Digit);
        lemma_run_end(s, m, Class::Space);
        lemma_run_end(s, n, Class::Unit);
        lemma_run_end(s, o, Class::Space);
        lemma_run_end(s, p, Class::Message);
        lemma_time_stamp(s, p, q);
    }
}


/// Every spot that the grammar reads has a non-empty spotter and spotted
/// station made of callsign characters, and a time of four digits.
pub proof fn lemma_spot_fields_well_formed(s: Seq<u8>, i: int)
    requires
        spot_at(s, i) is Some,
    ensures
        ({
            let c = spot_at(s, i)->0;
            &&& 0 <= c.spotter.0 < c.spotter.1 <= s.len()
            &&& forall|x: int| c.spotter.0 <= x < c.spotter.1 ==> in_class(Class::Call, #[trigger] s[x])
            &&& 0 <= c.spotted.0 < c.spotted.1 <= s.len()
            &&& forall|x: int| c.spotted.0 <= x < c.spotted.1 ==> in_class(Class::Call, #[trigger] s[x])
            &&& c.time.1 == c.time.0 + 4 <= s.len()
            &&& forall|x: int| c.time.0 <= x < c.time.1 ==> is_digit(#[trigger] s[x])
        }),
{
    let a = i + 6;
    let b = run_end(s, a, Class::Call);
    let c = run_end(s, b + 2, Class::Space);
    let d = run_end(s, c, Class::Freq);
    let e = run_end(s, d, Class::Space);
    let f = run_end(s, e, Class::Call);
    let p = run_end(s, run_end(s, run_end(s, run_end(s, run_end(s, k_of(s, i) + 3, Class::Space), Class::Digit), Class::Space), Class::Unit), Class::Space);
    lemma_run_end(s, a, Class::Call);
    lemma_run_end(s, b + 2, Class::Space);
    lemma_run_end(s, c, Class::Freq);
    lemma_run_end(s, d, Class::Space);
    lemma_run_end(s, e, Class::Call);
    lemma_run_end(s, p, Class::Message);
    lemma_time_stamp(s, p, run_end(s, p, Class::Message));
    lemma_spot_end(s, i);
    let z = spot_at(s, i)->0.time.1;
    assert(stamp_at(s, z));
    assert forall|x: int| z - 4 <= x < z implies is_digit(#[trigger] s[x]) by {
        assert(x == z - 4 || x == z - 3 || x == z - 2 || x == z - 1);
    }
}

/// Where the signal-to-noise run of a spot at `i` ends.
spec fn k_of(s: Seq<u8>, i: int) -> int {
    let a = i + 6;
    let b = run_end(s, a, Class::Call);
    let c = run_end(s, b + 2, Class::Space);
    let d = run_end(s, c, Class::Freq);
    let e = run_end(s, d, Class::Space);
    let f = run_end(s, e, Class::Call);
    let g = run_end(s, f, Class::Space);
    let h = run_end(s, g, Class::Mode);
    let j = run_end(s, h, Class::Space);
    run_end(s, j, Class::Snr)
}

} // verus!
