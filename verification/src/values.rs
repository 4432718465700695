//! Style values: lengths, Yoga's `YGValue`, grid placements and grid tracks.
//!
//! A single-precision number is carried as its IEEE-754 bit pattern (`u32`);
//! a percentage is carried as a fraction (the Yoga value divided by 100).
use vstd::prelude::*;
use crate::codes::{
    YG_UNIT_AUTO, YG_UNIT_FIT_CONTENT, YG_UNIT_MAX_CONTENT, YG_UNIT_PERCENT, YG_UNIT_POINT,
    YG_UNIT_UNDEFINED,
};

verus! {

/// The bit pattern of the quiet NaN that Yoga uses for "undefined".
pub const NAN_BITS: u32 = 0x7fc0_0000;

/// The bit pattern of positive infinity.
pub const INFINITY_BITS: u32 = 0x7f80_0000;

/// The bit pattern of `0.0`.
pub const ZERO_BITS: u32 = 0;

/// The bit pattern of `1.0`.
pub const ONE_BITS: u32 = 0x3f80_0000;

/// The bit pattern encodes a NaN: all exponent bits set and a nonzero fraction.
pub open spec fn is_nan_bits(b: u32) -> bool {
    b % 0x8000_0000 > INFINITY_BITS
}

/// The encoded number compares greater than zero (positive, nonzero, not NaN).
pub open spec fn is_positive_bits(b: u32) -> bool {
    1 <= b <= INFINITY_BITS
}

/// The encoded number compares less than zero (negative, nonzero, not NaN).
pub open spec fn is_negative_bits(b: u32) -> bool {
    0x8000_0001 <= b <= 0xff80_0000u32
}

/// The encoding of the negated number: the sign bit flipped.
pub open spec fn negated_bits(b: u32) -> u32 {
    if b >= 0x8000_0000 {
        (b - 0x8000_0000) as u32
    } else {
        (b + 0x8000_0000) as u32
    }
}

/// Whether the encoded number is NaN.
pub fn f32_bits_is_nan(b: u32) -> (r: bool)
    ensures
        r == is_nan_bits(b),
{
    let magnitude: u32 = if b >= 0x8000_0000 { b - 0x8000_0000 } else { b };
    magnitude > INFINITY_BITS
}

/// Whether the encoded number is greater than zero.
pub fn f32_bits_is_positive(b: u32) -> (r: bool)
    ensures
        r == is_positive_bits(b),
{
    1 <= b && b <= INFINITY_BITS
}

/// Whether the encoded number is less than zero.
pub fn f32_bits_is_negative(b: u32) -> (r: bool)
    ensures
        r == is_negative_bits(b),
{
    0x8000_0001 <= b && b <= 0xff80_0000u32
}

/// The encoding of the negated number.
pub fn f32_bits_negate(b: u32) -> (r: u32)
    ensures
        r == negated_bits(b),
{
    if b >= 0x8000_0000 {
        b - 0x8000_0000
    } else {
        b + 0x8000_0000
    }
}

/// A length as the layout engine holds it: one variant per kind of value.
#[derive(Clone, Copy, Debug, PartialEq, Eq, Structural)]
pub enum Length {
    /// A length in points.
    Points(u32),
    /// A percentage, as a fraction of the reference length.
    Percent(u32),
    Auto,
    /// A flexible track fraction (`fr`).
    Fr(u32),
    MinContent,
    MaxContent,
    /// `fit-content` limited to a length in points.
    FitContentPx(u32),
    /// `fit-content` limited to a percentage.
    FitContentPercent(u32),
}

/// A `YGValue`: a number (bit pattern) and a unit code.
#[derive(Clone, Copy, Debug, PartialEq, Eq, Structural)]
pub struct YgValue {
    pub value: u32,
    pub unit: i32,
}

/// The `YGValue` that reports an unset value.
pub open spec fn undefined_value() -> YgValue {
    YgValue { value: NAN_BITS, unit: YG_UNIT_UNDEFINED }
}

/// `YGValueUndefined`.
pub fn yg_value_undefined() -> (r: YgValue)
    ensures
        r == undefined_value(),
{
    YgValue { value: NAN_BITS, unit: YG_UNIT_UNDEFINED }
}

/// `YGValueAuto`.
pub fn yg_value_auto() -> (r: YgValue)
    ensures
        r == (YgValue { value: NAN_BITS, unit: YG_UNIT_AUTO }),
{
    YgValue { value: NAN_BITS, unit: YG_UNIT_AUTO }
}

/// `YGValueZero`.
pub fn yg_value_zero() -> (r: YgValue)
    ensures
        r == (YgValue { value: ZERO_BITS, unit: YG_UNIT_POINT }),
{
    YgValue { value: ZERO_BITS, unit: YG_UNIT_POINT }
}

/// How a length reads back as a `YGValue`: points and percentages keep their
/// number (a percentage stays a fraction), `fr` keeps its number with no unit,
/// and the keyword values read as NaN with their unit.
pub open spec fn yg_value_of(l: Length) -> YgValue {
    match l {
        Length::Points(v) => YgValue { value: v, unit: YG_UNIT_POINT },
        Length::Percent(v) => YgValue { value: v, unit: YG_UNIT_PERCENT },
        Length::Auto => YgValue { value: NAN_BITS, unit: YG_UNIT_AUTO },
        Length::MaxContent => YgValue { value: NAN_BITS, unit: YG_UNIT_MAX_CONTENT },
        Length::FitContentPx(_) => YgValue { value: NAN_BITS, unit: YG_UNIT_FIT_CONTENT },
        Length::FitContentPercent(_) => YgValue { value: NAN_BITS, unit: YG_UNIT_FIT_CONTENT },
        Length::Fr(v) => YgValue { value: v, unit: YG_UNIT_UNDEFINED },
        Length::MinContent => YgValue { value: NAN_BITS, unit: YG_UNIT_UNDEFINED },
    }
}

/// Reads a length back as a `YGValue`.
pub fn compact_to_yg_value(raw: Length) -> (r: YgValue)
    ensures
        r == yg_value_of(raw),
{
    match raw {
        Length::Points(v) => YgValue { value: v, unit: YG_UNIT_POINT },
        Length::Percent(v) => YgValue { value: v, unit: YG_UNIT_PERCENT },
        Length::Auto => YgValue { value: NAN_BITS, unit: YG_UNIT_AUTO },
        Length::MaxContent => YgValue { value: NAN_BITS, unit: YG_UNIT_MAX_CONTENT },
        Length::FitContentPx(_) | Length::FitContentPercent(_) => YgValue {
            value: NAN_BITS,
            unit: YG_UNIT_FIT_CONTENT,
        },
        Length::Fr(v) => YgValue { value: v, unit: YG_UNIT_UNDEFINED },
        Length::MinContent => YgValue { value: NAN_BITS, unit: YG_UNIT_UNDEFINED },
    }
}

/// The dimension that sizes to the content's maximum size.
pub fn dim_max_content() -> (r: Length)
    ensures
        r == Length::MaxContent,
{
    Length::MaxContent
}

/// The dimension that sizes to fit the content, with no limit.
pub fn dim_fit_content() -> (r: Length)
    ensures
        r == Length::FitContentPx(INFINITY_BITS),
{
    Length::FitContentPx(INFINITY_BITS)
}

/// The dimension that stands for `stretch`; the layout engine has no stretch
/// dimension, so it is `auto`.
pub fn dim_stretch() -> (r: Length)
    ensures
        r == Length::Auto,
{
    Length::Auto
}

/// A grid line placement.
#[derive(Clone, Copy, Debug, PartialEq, Eq, Structural)]
pub enum Placement {
    Auto,
    /// A grid line index.
    Line(i16),
    /// A span of tracks.
    Span(u16),
}

/// The placement at a line given by a Yoga integer, truncated to 16 bits.
pub fn placement_from_line_index(value: i32) -> (r: Placement)
    ensures
        r == Placement::Line(value as i16),
{
    Placement::Line(value as i16)
}

/// The placement spanning a number of tracks given by a Yoga integer, truncated to 16 bits.
pub fn placement_from_span(value: i32) -> (r: Placement)
    ensures
        r == Placement::Span(value as u16),
{
    Placement::Span(value as u16)
}

/// How a placement reads back: its line index, or 0 when it is not a line.
pub open spec fn placement_line_of(p: Placement) -> i32 {
    match p {
        Placement::Line(v) => v as i32,
        _ => 0,
    }
}

/// Reads a placement back as a Yoga integer.
pub fn placement_line_value(p: Placement) -> (r: i32)
    ensures
        r == placement_line_of(p),
{
    match p {
        Placement::Line(v) => v as i32,
        _ => 0,
    }
}

/// A grid track sizing function: a minimum and a maximum sizing function.
#[derive(Clone, Copy, Debug, PartialEq, Eq, Structural)]
pub struct Track {
    pub min: Length,
    pub max: Length,
}

/// A Yoga grid track value: a complete track, or a `minmax` pair.
#[derive(Clone, Copy, Debug, PartialEq, Eq, Structural)]
pub enum TrackValue {
    Single(Track),
    MinMax(Length, Length),
}

/// A track of a fixed length in points.
pub fn track_points(points: u32) -> (r: TrackValue)
    ensures
        r == TrackValue::Single(Track { min: Length::Points(points), max: Length::Points(points) }),
{
    TrackValue::Single(Track { min: Length::Points(points), max: Length::Points(points) })
}

/// A track of a fixed percentage (given as a fraction).
pub fn track_percent(fraction: u32) -> (r: TrackValue)
    ensures
        r == TrackValue::Single(Track { min: Length::Percent(fraction), max: Length::Percent(fraction) }),
{
    TrackValue::Single(Track { min: Length::Percent(fraction), max: Length::Percent(fraction) })
}

/// A flexible track of `fr` fractions with an automatic minimum.
pub fn track_fr(fr: u32) -> (r: TrackValue)
    ensures
        r == TrackValue::Single(Track { min: Length::Auto, max: Length::Fr(fr) }),
{
    TrackValue::Single(Track { min: Length::Auto, max: Length::Fr(fr) })
}

/// An automatically sized track.
pub fn track_auto() -> (r: TrackValue)
    ensures
        r == TrackValue::Single(Track { min: Length::Auto, max: Length::Auto }),
{
    TrackValue::Single(Track { min: Length::Auto, max: Length::Auto })
}

/// The minimum sizing function that a track value contributes to a `minmax`.
pub open spec fn min_part(v: Option<TrackValue>) -> Length {
    match v {
        Some(TrackValue::Single(t)) => t.min,
        Some(TrackValue::MinMax(min, _)) => min,
        None => Length::Auto,
    }
}

/// The maximum sizing function that a track value contributes to a `minmax`.
pub open spec fn max_part(v: Option<TrackValue>) -> Length {
    match v {
        Some(TrackValue::Single(t)) => t.max,
        Some(TrackValue::MinMax(_, max)) => max,
        None => Length::Auto,
    }
}

/// `minmax(min, max)`: the minimum of the first value and the maximum of the
/// second; a missing value contributes `auto`.
pub fn track_minmax(min: Option<TrackValue>, max: Option<TrackValue>) -> (r: TrackValue)
    ensures
        r == TrackValue::MinMax(min_part(min), max_part(max)),
{
    let min_value = match min {
        Some(TrackValue::Single(t)) => t.min,
        Some(TrackValue::MinMax(m, _)) => m,
        None => Length::Auto,
    };
    let max_value = match max {
        Some(TrackValue::Single(t)) => t.max,
        Some(TrackValue::MinMax(_, m)) => m,
        None => Length::Auto,
    };
    TrackValue::MinMax(min_value, max_value)
}

/// The track that a track value stands for.
pub open spec fn track_of(v: TrackValue) -> Track {
    match v {
        TrackValue::Single(t) => t,
        TrackValue::MinMax(min, max) => Track { min, max },
    }
}

/// A list of grid tracks being assembled.
pub struct TrackList {
    pub tracks: Vec<Track>,
}

impl TrackList {
    /// An empty track list.
    pub fn new() -> (r: TrackList)
        ensures
            r.tracks@ == Seq::<Track>::empty(),
    {
        TrackList { tracks: Vec::new() }
    }

    /// Appends the track that a track value stands for.
    pub fn add_track(&mut self, value: TrackValue)
        ensures
            final(self).tracks@ == old(self).tracks@.push(track_of(value)),
    {
        let t = match value {
            TrackValue::Single(t) => t,
            TrackValue::MinMax(min, max) => Track { min, max },
        };
        self.tracks.push(t);
    }
}

/// A copy of a vector of plain values.
pub fn copy_vec<T: Copy>(tracks: &Vec<T>) -> (r: Vec<T>)
    ensures
        r@ == tracks@,
{
    let mut out: Vec<T> = Vec::new();
    let mut i: usize = 0;
    while i < tracks.len()
        invariant
            i <= tracks.len(),
            out@ == tracks@.subrange(0, i as int),
        decreases tracks.len() - i,
    {
        out.push(tracks[i]);
        i = i + 1;
    }
    assert(tracks@.subrange(0, tracks.len() as int) == tracks@);
    out
}

/// A line placement reads back as the line it was given, for any line index
/// that fits in 16 bits.
pub proof fn lemma_placement_line_round_trip(value: i32)
    requires
        i16::MIN <= value <= i16::MAX,
    ensures
        placement_line_of(Placement::Line(value as i16)) == value,
{
}

/// Negating a number twice gives it back, and negation turns a negative
/// number into a positive one.
pub proof fn lemma_negation(b: u32)
    ensures
        negated_bits(negated_bits(b)) == b,
        is_negative_bits(b) ==> is_positive_bits(negated_bits(b)),
        is_positive_bits(b) ==> is_negative_bits(negated_bits(b)),
{
}

} // verus!
