//! Which spots reach the consumer: a participant check and a band check.

use vstd::prelude::*;
use vstd::arithmetic::div_mod::{lemma_div_denominator, lemma_div_is_ordered_by_denominator};
use crate::packet::{Decimal, PacketView, RbnPacket};

verus! {

/// A closed range of frequencies in hertz.
#[derive(Clone, Copy, Debug, PartialEq, Eq, Structural)]
pub struct FrequencyRange {
    pub low: u64,
    pub high: u64,
}

/// What the consumer asked to see: spots that involve `participant`, if it
/// is set, on one of `bands`, if there are any.
pub struct FilterSpec {
    pub participant: Option<String>,
    pub bands: Vec<FrequencyRange>,
}

pub struct FilterView {
    pub participant: Option<Seq<char>>,
    pub bands: Seq<FrequencyRange>,
}

impl View for FilterSpec {
    type V = FilterView;

    open spec fn view(&self) -> FilterView {
        FilterView {
            participant: match self.participant {
                Some(p) => Some(p@),
                None => None,
            },
            bands: self.bands@,
        }
    }
}

pub open spec fn pow10(n: nat) -> nat
    decreases n,
{
    if n == 0 { 1 } else { 10 * pow10((n - 1) as nat) }
}

/// A frequency in kHz, converted to whole hertz (rounded down).
pub open spec fn hertz_of(d: Decimal) -> int {
    (d.mantissa * 1000) as int / pow10(d.scale as nat) as int
}

pub open spec fn involves(p: PacketView, who: Option<Seq<char>>) -> bool {
    match who {
        Some(w) => p.spotter == w || p.spotted == w,
        None => true,
    }
}

pub open spec fn in_some_band(hz: int, bands: Seq<FrequencyRange>) -> bool {
    exists|i: int| 0 <= i < bands.len() && bands[i].low <= hz <= #[trigger] bands[i].high
}

/// The filter's rule: the participant check, if one is set, and the band
/// check, if any band is given.
pub open spec fn admits(p: PacketView, f: FilterView) -> bool {
    involves(p, f.participant) && (f.bands.len() == 0 || in_some_band(hertz_of(p.frequency), f.bands))
}

proof fn lemma_pow10_positive(n: nat)
    ensures
        pow10(n) > 0,
    decreases n,
{
    if n > 0 {
        lemma_pow10_positive((n - 1) as nat);
    }
}

/// The frequency of a spot in whole hertz.
pub fn hertz(d: Decimal) -> (r: u128)
    ensures
        r == hertz_of(d),
{
    let mut v: u128 = d.mantissa as u128 * 1000;
    let mut k: u64 = 0;
    proof { lemma_pow10_positive(0); }
    while k < d.scale && v > 0
        invariant
            k <= d.scale,
            v == (d.mantissa * 1000) as int / pow10(k as nat) as int,
            v <= d.mantissa * 1000,
        decreases d.scale - k,
    {
        proof {
            lemma_pow10_positive(k as nat);
            lemma_div_denominator((d.mantissa * 1000) as int, pow10(k as nat) as int, 10);
            assert(pow10((k + 1) as nat) == pow10(k as nat) * 10);
        }
        v = v / 10;
        k = k + 1;
    }
    proof {
        if k < d.scale {
            lemma_pow10_positive(k as nat);
            lemma_pow10_grows(k as nat, d.scale as nat);
            lemma_div_is_ordered_by_denominator(
                (d.mantissa * 1000) as int,
                pow10(k as nat) as int,
                pow10(d.scale as nat) as int,
            );
        }
    }
    v
}

proof fn lemma_pow10_grows(a: nat, b: nat)
    requires
        a <= b,
    ensures
        pow10(a) <= pow10(b),
    decreases b - a,
{
    if a < b {
        lemma_pow10_grows(a, (b - 1) as nat);
        lemma_pow10_positive((b - 1) as nat);
    }
}

/// Whether `s` passes the filter `f`.
pub fn accepts(s: &RbnPacket, f: &FilterSpec) -> (r: bool)
    ensures
        r == admits(s@, f@),
{
    let who = match &f.participant {
        Some(w) => s.spotter == *w || s.spotted == *w,
        None => true,
    };
    assert(who == involves(s@, f@.participant));
    if !who {
        return false;
    }
    if f.bands.len() == 0 {
        return true;
    }
    let hz = hertz(s.frequency);
    let mut i: usize = 0;
    while i < f.bands.len()
        invariant
            i <= f.bands@.len(),
            hz == hertz_of(s.frequency),
            involves(s@, f@.participant),
            forall|j: int| 0 <= j < i ==> !(f.bands@[j].low <= hz <= #[trigger] f.bands@[j].high),
        decreases f.bands@.len() - i,
    {
        let b = f.bands[i];
        if b.low as u128 <= hz && hz <= b.high as u128 {
            assert(f.bands@[i as int].low <= hertz_of(s.frequency) <= f.bands@[i as int].high);
            return true;
        }
        i = i + 1;
    }
    false
}

/// The filter's verdict depends on the spot and the filter alone: the same
/// spot under the same filter gets the same verdict each time it is asked.
pub proof fn lemma_verdict_is_stable(a: PacketView, b: PacketView, f: FilterView, g: FilterView)
    requires
        a == b,
        f == g,
    ensures
        admits(a, f) == admits(b, g),
{
}

/// With a participant set and no band given, a spot is accepted exactly when
/// the participant is its spotter or the station it spotted.
pub proof fn lemma_participant_filter(p: PacketView, f: FilterView)
    requires
        f.participant is Some,
        f.bands.len() == 0,
    ensures
        p.spotter == f.participant->0 ==> admits(p, f),
        p.spotted == f.participant->0 ==> admits(p, f),
        p.spotter != f.participant->0 && p.spotted != f.participant->0 ==> !admits(p, f),
{
}

/// With a band given and no participant set, a spot is accepted exactly when
/// its frequency, in hertz, lies in one of the bands.
pub proof fn lemma_band_filter(p: PacketView, f: FilterView)
    requires
        f.participant is None,
        f.bands.len() > 0,
    ensures
        admits(p, f) <==> exists|i: int|
            0 <= i < f.bands.len() && f.bands[i].low <= hertz_of(p.frequency) <= #[trigger] f.bands[i].high,
{
}


/// The limits, in hertz, of the amateur band of a given name, where one has it.
pub uninterp spec fn band_limits(name: Seq<char>) -> Option<(u64, u64)>;

pub open spec fn range_of(b: Option<(u64, u64)>) -> Option<FrequencyRange> {
    match b {
        Some((lo, hi)) => Some(FrequencyRange { low: lo, high: hi }),
        None => None,
    }
}

/// Relies on `hambands::search::get_band_by_name`: the band of that name in its
/// fixed table, or an error where the table has none.
#[verifier::external_body]
fn lookup_band(name: &str) -> (r: Option<FrequencyRange>)
    ensures
        r == range_of(band_limits(name@)),
{
    match hambands::search::get_band_by_name(name) {
        Ok(b) => Some(FrequencyRange { low: b.low_frequency, high: b.high_frequency }),
        Err(_) => None,
    }
}

/// The ranges of the named bands, in order; names without a band are skipped.
pub open spec fn resolved(names: Seq<Seq<char>>) -> Seq<FrequencyRange>
    decreases names.len(),
{
    if names.len() == 0 {
        Seq::empty()
    } else {
        let rest = resolved(names.drop_last());
        match range_of(band_limits(names.last())) {
            Some(r) => rest.push(r),
            None => rest,
        }
    }
}

pub open spec fn names_of(v: Seq<String>) -> Seq<Seq<char>> {
    v.map_values(|s: String| s@)
}

/// Builds the filter for a participant, if any, and a list of band names.
pub fn build_filter(participant: Option<String>, band_names: &Vec<String>) -> (r: FilterSpec)
    ensures
        r@.participant == (match participant {
            Some(p) => Some(p@),
            None => None::<Seq<char>>,
        }),
        r@.bands == resolved(names_of(band_names@)),
{
    let mut bands: Vec<FrequencyRange> = Vec::new();
    let mut i: usize = 0;
    while i < band_names.len()
        invariant
            i <= band_names@.len(),
            bands@ == resolved(names_of(band_names@.subrange(0, i as int))),
        decreases band_names@.len() - i,
    {
        let ghost pre = band_names@.subrange(0, i + 1);
        assert(names_of(pre).drop_last() =~= names_of(band_names@.subrange(0, i as int)));
        assert(names_of(pre).last() == band_names@[i as int]@);
        match lookup_band(band_names[i].as_str()) {
            Some(b) => bands.push(b),
            None => {},
        }
        i = i + 1;
    }
    assert(band_names@.subrange(0, i as int) =~= band_names@);
    FilterSpec { participant, bands }
}

} // verus!
