use vstd::prelude::*;
use vstd::arithmetic::div_mod::lemma_div_by_multiple;

verus! {

/// An 8-bit RGBA device color.
#[derive(Clone, Copy, Debug, PartialEq, Eq, Structural)]
pub struct Color {
    pub r: u8,
    pub g: u8,
    pub b: u8,
    pub a: u8,
}

/// The global mosaic blend factor `num / den`, a fraction in `[0, 1]`.
#[derive(Clone, Copy, Debug, PartialEq, Eq, Structural)]
pub struct BlendFactor {
    pub num: u32,
    pub den: u32,
}

impl BlendFactor {
    pub open spec fn wf(self) -> bool {
        self.den > 0 && self.num <= self.den
    }

    /// The blend factor `num / den`; `None` unless `den > 0` and `num <= den`.
    pub fn new(num: u32, den: u32) -> (r: Option<BlendFactor>)
        ensures
            r.is_some() <==> (den > 0 && num <= den),
            r.is_some() ==> r.unwrap().wf() && r.unwrap().num == num && r.unwrap().den == den,
    {
        if den > 0 && num <= den {
            Some(BlendFactor { num, den })
        } else {
            None
        }
    }
}

/// One channel scaled by `num / den`, rounded down and clamped to 255.
pub open spec fn scale_channel(c: u8, num: nat, den: nat) -> u8 {
    let v = (c as nat) * num / den;
    if v > 255 { 255u8 } else { v as u8 }
}

/// The sum of two channels, clamped to 255.
pub open spec fn add_channel(x: u8, y: u8) -> u8 {
    if (x as nat) + (y as nat) > 255 { 255u8 } else { (x + y) as u8 }
}

/// The color with each of red, green and blue scaled by `num / den`; alpha kept.
pub open spec fn scaled(c: Color, num: nat, den: nat) -> Color {
    Color {
        r: scale_channel(c.r, num, den),
        g: scale_channel(c.g, num, den),
        b: scale_channel(c.b, num, den),
        a: c.a,
    }
}

/// The channel-wise saturating sum of two colors, alpha included.
pub open spec fn summed(x: Color, y: Color) -> Color {
    Color {
        r: add_channel(x.r, y.r),
        g: add_channel(x.g, y.g),
        b: add_channel(x.b, y.b),
        a: add_channel(x.a, y.a),
    }
}

/// `candidate * (1 - alpha) + dominant * alpha` on red, green and blue,
/// with the candidate's own alpha channel.
pub open spec fn blended(candidate: Color, dominant: Color, alpha: BlendFactor) -> Color {
    let s = summed(
        scaled(candidate, (alpha.den - alpha.num) as nat, alpha.den as nat),
        scaled(dominant, alpha.num as nat, alpha.den as nat),
    );
    Color { r: s.r, g: s.g, b: s.b, a: candidate.a }
}

fn scale_u8(c: u8, num: u32, den: u32) -> (r: u8)
    requires
        den > 0,
    ensures
        r == scale_channel(c, num as nat, den as nat),
{
    proof {
        assert((c as nat) * (num as nat) <= 255 * 0xffff_ffff) by (nonlinear_arith)
            requires
                c <= 255,
                num <= 0xffff_ffff,
        ;
    }
    let v: u64 = (c as u64) * (num as u64) / (den as u64);
    if v > 255 {
        255
    } else {
        v as u8
    }
}

fn add_u8(x: u8, y: u8) -> (r: u8)
    ensures
        r == add_channel(x, y),
{
    let s: u16 = (x as u16) + (y as u16);
    if s > 255 {
        255
    } else {
        s as u8
    }
}

impl Color {
    /// Scales red, green and blue by `num / den`, clamped to `[0, 255]`;
    /// alpha is kept unchanged.
    pub fn scale(self, num: u32, den: u32) -> (r: Color)
        requires
            den > 0,
        ensures
            r == scaled(self, num as nat, den as nat),
    {
        Color {
            r: scale_u8(self.r, num, den),
            g: scale_u8(self.g, num, den),
            b: scale_u8(self.b, num, den),
            a: self.a,
        }
    }

    /// Adds two colors channel by channel, clamping each channel at 255.
    pub fn saturating_add(self, other: Color) -> (r: Color)
        ensures
            r == summed(self, other),
    {
        Color {
            r: add_u8(self.r, other.r),
            g: add_u8(self.g, other.g),
            b: add_u8(self.b, other.b),
            a: add_u8(self.a, other.a),
        }
    }
}

/// Blends a candidate pixel toward the dominant color by `alpha`.
pub fn blend(candidate: Color, dominant: Color, alpha: BlendFactor) -> (r: Color)
    requires
        alpha.wf(),
    ensures
        r == blended(candidate, dominant, alpha),
{
    let keep = candidate.scale(alpha.den - alpha.num, alpha.den);
    let tint = dominant.scale(alpha.num, alpha.den);
    let s = keep.saturating_add(tint);
    Color { r: s.r, g: s.g, b: s.b, a: candidate.a }
}

proof fn lemma_scale_whole(c: u8, d: nat)
    requires
        d > 0,
    ensures
        scale_channel(c, d, d) == c,
        scale_channel(c, 0, d) == 0,
{
    lemma_div_by_multiple(c as int, d as int);
    assert((c as nat) * 0 == 0) by (nonlinear_arith);
}

/// Blending by a factor of zero reproduces the candidate pixel exactly.
pub proof fn lemma_blend_zero(candidate: Color, dominant: Color, alpha: BlendFactor)
    requires
        alpha.wf(),
        alpha.num == 0,
    ensures
        blended(candidate, dominant, alpha) == candidate,
{
    let d = alpha.den as nat;
    lemma_scale_whole(candidate.r, d);
    lemma_scale_whole(candidate.g, d);
    lemma_scale_whole(candidate.b, d);
    lemma_scale_whole(dominant.r, d);
    lemma_scale_whole(dominant.g, d);
    lemma_scale_whole(dominant.b, d);
}

/// Blending by a factor of one reproduces the dominant color on red, green
/// and blue, and keeps the candidate's alpha; the whole pixel equals the
/// dominant color when the two alphas agree.
pub proof fn lemma_blend_one(candidate: Color, dominant: Color, alpha: BlendFactor)
    requires
        alpha.wf(),
        alpha.num == alpha.den,
    ensures
        blended(candidate, dominant, alpha).r == dominant.r,
        blended(candidate, dominant, alpha).g == dominant.g,
        blended(candidate, dominant, alpha).b == dominant.b,
        blended(candidate, dominant, alpha).a == candidate.a,
        candidate.a == dominant.a ==> blended(candidate, dominant, alpha) == dominant,
{
    let d = alpha.den as nat;
    lemma_scale_whole(candidate.r, d);
    lemma_scale_whole(candidate.g, d);
    lemma_scale_whole(candidate.b, d);
    lemma_scale_whole(dominant.r, d);
    lemma_scale_whole(dominant.g, d);
    lemma_scale_whole(dominant.b, d);
}

} // verus!
