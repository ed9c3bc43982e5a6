use crate::point::{DistanceMetric, DistanceMetrics, KmeansPoint};
use vstd::prelude::*;

verus! {

/// A colour with one byte per channel.
#[derive(Clone, Copy, Debug, PartialEq, Eq, Structural)]
pub struct Rgb {
    pub r: u8,
    pub g: u8,
    pub b: u8,
}

pub open spec fn sq_diff(a: u8, b: u8) -> nat {
    let d = if a >= b { (a - b) as nat } else { (b - a) as nat };
    d * d
}

pub open spec fn abs_diff(a: u8, b: u8) -> nat {
    if a >= b { (a - b) as nat } else { (b - a) as nat }
}

fn channel_abs_diff(a: u8, b: u8) -> (r: u64)
    ensures
        r as nat == abs_diff(a, b),
        r <= 255,
{
    if a >= b { (a - b) as u64 } else { (b - a) as u64 }
}

fn channel_sq_diff(a: u8, b: u8) -> (r: u64)
    ensures
        r as nat == sq_diff(a, b),
        r <= 65025,
{
    let d = channel_abs_diff(a, b);
    assert(d * d <= 255 * 255) by (nonlinear_arith)
        requires d <= 255;
    d * d
}

/// Sum of one channel over a sequence of colours.
pub open spec fn channel_sum(points: Seq<Rgb>, channel: int) -> nat
    decreases points.len(),
{
    if points.len() == 0 {
        0
    } else {
        let p = points.last();
        let v = if channel == 0 { p.r } else if channel == 1 { p.g } else { p.b };
        channel_sum(points.drop_last(), channel) + v as nat
    }
}

/// The mean of a channel, rounded to the nearest integer (halves round up).
pub open spec fn channel_mean(points: Seq<Rgb>, channel: int) -> u8 {
    ((channel_sum(points, channel) + points.len() / 2) / points.len()) as u8
}

proof fn lemma_channel_sum_bound(points: Seq<Rgb>, channel: int)
    ensures
        channel_sum(points, channel) <= 255 * points.len(),
    decreases points.len(),
{
    if points.len() > 0 {
        lemma_channel_sum_bound(points.drop_last(), channel);
    }
}

proof fn lemma_rounded_mean_bound(sum: nat, len: nat)
    requires
        len > 0,
        sum <= 255 * len,
    ensures
        (sum + len / 2) / len <= 255,
{
    assert(sum + len / 2 < 256 * len) by (nonlinear_arith)
        requires sum <= 255 * len, len > 0;
    assert((sum + len / 2) / len < 256) by (nonlinear_arith)
        requires sum + len / 2 < 256 * len, len > 0;
}

impl Rgb {
    /// The three channels, red first.
    pub fn get_rgb(&self) -> (r: [u8; 3])
        ensures
            r@ == seq![self.r, self.g, self.b],
    {
        let r = [self.r, self.g, self.b];
        assert(r@ =~= seq![self.r, self.g, self.b]);
        r
    }
}

impl DistanceMetrics for Rgb {
    open spec fn squared_distance(&self, other: &Self) -> nat {
        sq_diff(self.r, other.r) + sq_diff(self.g, other.g) + sq_diff(self.b, other.b)
    }

    open spec fn manhattan_distance(&self, other: &Self) -> nat {
        abs_diff(self.r, other.r) + abs_diff(self.g, other.g) + abs_diff(self.b, other.b)
    }

    fn get_squared_distance(&self, point: &Self) -> (r: u64) {
        channel_sq_diff(self.r, point.r) + channel_sq_diff(self.g, point.g) + channel_sq_diff(
            self.b,
            point.b,
        )
    }

    fn get_manhattan_distance(&self, point: &Self) -> (r: u64) {
        channel_abs_diff(self.r, point.r) + channel_abs_diff(self.g, point.g) + channel_abs_diff(
            self.b,
            point.b,
        )
    }
}

impl KmeansPoint for Rgb {
    open spec fn mean_of(points: Seq<Self>) -> Self {
        Rgb {
            r: channel_mean(points, 0),
            g: channel_mean(points, 1),
            b: channel_mean(points, 2),
        }
    }

    fn from_mean(points: &Vec<Self>) -> (r: Self) {
        let mut sr: u128 = 0;
        let mut sg: u128 = 0;
        let mut sb: u128 = 0;
        let mut i: usize = 0;
        while i < points.len()
            invariant
                i <= points.len(),
                sr == channel_sum(points@.take(i as int), 0),
                sg == channel_sum(points@.take(i as int), 1),
                sb == channel_sum(points@.take(i as int), 2),
            decreases points.len() - i,
        {
            proof {
                let t = points@.take(i as int + 1);
                assert(t.drop_last() =~= points@.take(i as int));
                lemma_channel_sum_bound(points@.take(i as int), 0);
                lemma_channel_sum_bound(points@.take(i as int), 1);
                lemma_channel_sum_bound(points@.take(i as int), 2);
            }
            sr = sr + points[i].r as u128;
            sg = sg + points[i].g as u128;
            sb = sb + points[i].b as u128;
            i = i + 1;
        }
        proof {
            assert(points@.take(i as int) =~= points@);
            lemma_channel_sum_bound(points@, 0);
            lemma_channel_sum_bound(points@, 1);
            lemma_channel_sum_bound(points@, 2);
            lemma_rounded_mean_bound(sr as nat, points.len() as nat);
            lemma_rounded_mean_bound(sg as nat, points.len() as nat);
            lemma_rounded_mean_bound(sb as nat, points.len() as nat);
        }
        let len = points.len() as u128;
        Rgb {
            r: ((sr + len / 2) / len) as u8,
            g: ((sg + len / 2) / len) as u8,
            b: ((sb + len / 2) / len) as u8,
        }
    }

    fn copy_point(&self) -> (r: Self) {
        *self
    }

    fn get_distance(&self, point: &Self, metric: &DistanceMetric) -> (r: u64) {
        match metric {
            DistanceMetric::Squared => self.get_squared_distance(point),
            DistanceMetric::Manhattan => self.get_manhattan_distance(point),
        }
    }
}

} // verus!
