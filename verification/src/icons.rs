//! Tray icons drawn as raw ARGB32, with no drawing library.
//!
//! StatusNotifierItem accepts an IconPixmap (`a(iiay)`) instead of a themed icon
//! name. Generating the pixmap here means the battery level is exact, updates the
//! instant it is read, and never touches the icon theme cache.
//!
//! The drawing is done in whole numbers. Each pixel is a square of cells with a
//! sample in the middle of each, and positions are counted in 48ths of a cell, so
//! that the samples and a 24-unit design grid both fall on whole counts. The span
//! of an icon is how many cells lie side by side across it. Colour channels are
//! counted in ten-thousandths, so that both tints of [`EDGE`] are exact. What a
//! sample covers is counted in [`UNIT`]ths of a 48th of a cell.

use vstd::arithmetic::div_mod::lemma_fundamental_div_mod_converse;
use vstd::prelude::*;

verus! {

/// The body where it is not filled.
pub const TRACK: [u8; 3] = [0x3A, 0x41, 0x4A];

/// What the rim and the scroll wheel are darkened with.
pub const EDGE: [u8; 3] = [0x10, 0x13, 0x17];

/// How finely a distance is resolved, per 48th of a cell.
pub const UNIT: u64 = 0x10_0000;

/// The largest icon whose bytes can be counted.
pub const SIZE_MAX: i32 = 23170;

/// The most samples on a side of a pixel whose number can be counted.
pub const SIDE_MAX: i32 = 46340;

/// The most cells across an icon.
pub const SPAN_MAX: i64 = 1_073_697_800;

/// How many samples lie on a side of a pixel, unless it is said otherwise.
pub const SIDE: i32 = 3;

// -- colour -------------------------------------------------------------------

/// The colour of a level: blue while charging, else red, amber or Ninjutso
/// green.
pub open spec fn band(percent: u8, charging: bool) -> Seq<u8> {
    if charging {
        seq![0x4Fu8, 0xC3, 0xF7]
    } else if percent <= 15 {
        seq![0xE1u8, 0x06, 0x00]
    } else if percent <= 30 {
        seq![0xE8u8, 0xA3, 0x3D]
    } else {
        seq![0x36u8, 0xAD, 0x6A]
    }
}

pub fn level_color(percent: u8, charging: bool) -> (colour: [u8; 3])
    ensures
        colour@ == band(percent, charging),
{
    let colour: [u8; 3] = if charging {
        [0x4F, 0xC3, 0xF7]
    } else if percent <= 15 {
        [0xE1, 0x06, 0x00]
    } else if percent <= 30 {
        [0xE8, 0xA3, 0x3D]
    } else {
        [0x36, 0xAD, 0x6A]
    };
    assert(colour@ =~= band(percent, charging));
    colour
}

// -- shape --------------------------------------------------------------------

/// Where the sample in a cell lies on an axis.
pub open spec fn sample_at(cell: int) -> int {
    48 * cell + 24
}

pub open spec fn distance(a: int, b: int) -> int {
    if a < b {
        b - a
    } else {
        a - b
    }
}

/// How far a point lies above or below the straight part of the spine that the
/// silhouette is drawn around.
pub open spec fn above_spine(span: int, y: int) -> int {
    if distance(y, 24 * span) > 7 * span {
        distance(y, 24 * span) - 7 * span
    } else {
        0
    }
}

/// The square of how far a point lies from the spine. The silhouette is what
/// lies within `14 * span` of it.
pub open spec fn spread(span: int, x: int, y: int) -> int {
    distance(x, 24 * span) * distance(x, 24 * span) + above_spine(span, y) * above_spine(span, y)
}

/// The whole part of a square root.
pub open spec fn is_root(n: int, root: int) -> bool {
    0 <= root && root * root <= n && n < (root + 1) * (root + 1)
}

pub open spec fn root(n: int) -> int {
    choose|r: int| is_root(n, r)
}

/// What a sample inside the silhouette covers, with `side` samples on a side of
/// a pixel.
pub open spec fn full(side: int) -> int {
    48 * side * UNIT
}

/// What a sample covers: all of itself inside the silhouette, nothing from one
/// pixel outside it, and in between what is left of that pixel.
pub open spec fn coverage(span: int, side: int, x: int, y: int) -> int {
    let q = spread(span, x, y);
    let (inner, outer) = (14 * span, 14 * span + 48 * side);
    if q > outer * outer {
        0
    } else if q <= inner * inner {
        full(side)
    } else {
        outer * UNIT - root(q * (UNIT * UNIT))
    }
}

/// A point lies within 1.2 pixels of the outline, or outside it: the rim is
/// darkened so that the silhouette reads at 22 pixels.
pub open spec fn on_rim(span: int, side: int, x: int, y: int) -> bool {
    let inner = 70 * span - 288 * side;
    inner < 0 || 25 * spread(span, x, y) > inner * inner
}

/// A point lies at or below the fill line, which stands at `percent` of the
/// body's height above its bottom.
pub open spec fn submerged(span: int, y: int, percent: u8) -> bool {
    let level = if percent > 100 {
        100
    } else {
        percent as int
    };
    100 * y >= 4500 * span - 42 * span * level
}

/// A point lies on the scroll wheel.
pub open spec fn on_wheel(span: int, x: int, y: int) -> bool {
    5 * distance(x, 24 * span) < 11 * span && 5 * y > 32 * span && y < 18 * span
}

/// The corners of the charging bolt, in tenths of a design unit.
pub const BOLT_X: [i64; 7] = [126, 76, 110, 94, 154, 118, 136];

pub const BOLT_Y: [i64; 7] = [40, 130, 130, 200, 106, 106, 40];

/// A line to the right of a point crosses the bolt's edge that ends at corner
/// `i`.
pub open spec fn crosses(span: int, x: int, y: int, i: int) -> bool {
    let j = if i == 0 {
        6
    } else {
        i - 1
    };
    let (xi, yi) = (BOLT_X@[i] as int, BOLT_Y@[i] as int);
    let (xj, yj) = (BOLT_X@[j] as int, BOLT_Y@[j] as int);
    let across = (5 * x - xi * span) * (yj - yi);
    let along = (xj - xi) * (5 * y - yi * span);
    (yi * span > 5 * y) != (yj * span > 5 * y) && if yj > yi {
        across < along
    } else {
        across > along
    }
}

/// A line to the right of a point crosses an odd number of the bolt's first
/// edges.
pub open spec fn odd_crossings(span: int, x: int, y: int, edges: nat) -> bool
    decreases edges,
{
    if edges == 0 {
        false
    } else {
        odd_crossings(span, x, y, (edges - 1) as nat) != crosses(span, x, y, edges - 1)
    }
}

/// A point lies in the bolt.
pub open spec fn in_bolt(span: int, x: int, y: int) -> bool {
    odd_crossings(span, x, y, 7)
}

// -- samples ------------------------------------------------------------------

/// An icon that is to be drawn: the level it is filled to, if there is one,
/// whether it is charging, its size in pixels, and how many samples lie on a side
/// of a pixel.
pub struct Sketch {
    pub level: Option<u8>,
    pub charging: bool,
    pub size: int,
    pub side: int,
}

impl Sketch {
    /// How many cells lie side by side across the icon.
    pub open spec fn span(self) -> int {
        self.side * self.size
    }

    /// One colour channel of a sample, in ten-thousandths. The body is filled up
    /// to the level, if there is one; a charging mouse carries a white bolt, any
    /// other a darker scroll wheel.
    pub open spec fn shade(self, x: int, y: int, channel: int) -> int {
        let body = match self.level {
            Some(percent) => if submerged(self.span(), y, percent) {
                band(percent, self.charging)[channel]
            } else {
                TRACK@[channel]
            },
            None => TRACK@[channel],
        };
        let edge = EDGE@[channel];
        let rimmed = if on_rim(self.span(), self.side, x, y) {
            55 * body + 45 * edge
        } else {
            100 * body
        };
        if self.charging && in_bolt(self.span(), x, y) {
            2550000
        } else if !self.charging && on_wheel(self.span(), x, y) {
            45 * rimmed + 5500 * edge
        } else {
            100 * rimmed
        }
    }

    /// Where a sample of a pixel lies, counted row by row from the top left.
    pub open spec fn sample(self, px: int, py: int, k: int) -> (int, int) {
        (sample_at(self.side * px + k % self.side), sample_at(self.side * py + k / self.side))
    }

    /// What the first samples of a pixel cover together.
    pub open spec fn covered(self, px: int, py: int, samples: nat) -> int
        decreases samples,
    {
        if samples == 0 {
            0
        } else {
            let k = samples - 1;
            let (x, y) = self.sample(px, py, k);
            self.covered(px, py, k as nat) + coverage(self.span(), self.side, x, y)
        }
    }

    /// One colour channel of the first samples of a pixel, each weighted by what
    /// it covers.
    pub open spec fn gathered(self, px: int, py: int, channel: int, samples: nat) -> int
        decreases samples,
    {
        if samples == 0 {
            0
        } else {
            let k = samples - 1;
            let (x, y) = self.sample(px, py, k);
            self.gathered(px, py, channel, k as nat) + self.shade(x, y, channel) * coverage(
                self.span(),
                self.side,
                x,
                y,
            )
        }
    }

    /// A pixel as alpha, red, green and blue. One that is covered to less than a
    /// 500th is left out.
    pub open spec fn pixel(self, px: int, py: int) -> Seq<u8> {
        let all = (self.side * self.side) as nat;
        let cover = self.covered(px, py, all);
        if 500 * cover <= all * full(self.side) {
            seq![0u8, 0, 0, 0]
        } else {
            seq![
                rounded(255 * cover, all * full(self.side)) as u8,
                rounded(self.gathered(px, py, 0, all), 10000 * cover) as u8,
                rounded(self.gathered(px, py, 1, all), 10000 * cover) as u8,
                rounded(self.gathered(px, py, 2, all), 10000 * cover) as u8,
            ]
        }
    }

    /// The first pixels of the icon, row by row from the top left.
    pub open spec fn pixels(self, count: nat) -> Seq<u8>
        decreases count,
    {
        if count == 0 {
            Seq::empty()
        } else {
            let i = count - 1;
            self.pixels(i as nat) + self.pixel(i % self.size, i / self.size)
        }
    }

    /// All of the icon; one without a size is empty.
    pub open spec fn image(self) -> Seq<u8> {
        if self.size <= 0 {
            Seq::empty()
        } else {
            self.pixels((self.size * self.size) as nat)
        }
    }
}

/// `n / d`, rounded to the nearest whole number.
pub open spec fn rounded(n: int, d: int) -> int {
    (2 * n + d) / (2 * d)
}

/// An icon drawn with so many samples on a side of a pixel. Without a sample
/// nothing is seen of it.
pub open spec fn sampled_image(level: Option<u8>, charging: bool, size: int, side: int) -> Seq<u8> {
    let side = if side < 0 {
        0
    } else {
        side
    };
    (Sketch { level, charging, size, side }).image()
}

/// An icon drawn with nine samples in a pixel.
pub open spec fn image(level: Option<u8>, charging: bool, size: int) -> Seq<u8> {
    sampled_image(level, charging, size, SIDE as int)
}

// -- drawing ------------------------------------------------------------------

proof fn lemma_square_order(a: int, b: int)
    requires
        0 <= a,
        0 <= b,
    ensures
        a <= b <==> a * a <= b * b,
        a < b <==> a * a < b * b,
{
    if a < b {
        assert(a * a < b * b) by (nonlinear_arith)
            requires
                0 <= a < b,
        ;
    }
    if b < a {
        assert(b * b < a * a) by (nonlinear_arith)
            requires
                0 <= b < a,
        ;
    }
}

/// A number has one whole square root.
pub proof fn lemma_root(n: int, r: int)
    requires
        is_root(n, r),
    ensures
        root(n) == r,
{
    let other = root(n);
    assert(is_root(n, other));
    if other < r {
        lemma_square_order(other + 1, r);
    }
    if r < other {
        lemma_square_order(r + 1, other);
    }
}

/// A position in an icon that can be drawn.
pub open spec fn in_icon(span: int, x: int, y: int) -> bool {
    &&& 1 <= span <= SPAN_MAX
    &&& 0 <= x < 48 * span
    &&& 0 <= y < 48 * span
}

fn apart(a: i64, b: i64) -> (d: i64)
    requires
        0 <= a <= 0x10_0000_0000,
        0 <= b <= 0x10_0000_0000,
    ensures
        d == distance(a as int, b as int),
{
    if a < b {
        b - a
    } else {
        a - b
    }
}

fn squared(n: i64) -> (square: i128)
    requires
        0 <= n <= 0x20_0000_0000,
    ensures
        square == n * n,
        0 <= square <= 0x400_0000_0000_0000_0000,
{
    assert(0 <= n * n <= 0x20_0000_0000 * 0x20_0000_0000) by (nonlinear_arith)
        requires
            0 <= n <= 0x20_0000_0000,
    ;
    (n as i128) * (n as i128)
}

fn spread_of(span: i64, x: i64, y: i64) -> (q: i128)
    requires
        in_icon(span as int, x as int, y as int),
    ensures
        q == spread(span as int, x as int, y as int),
        0 <= q <= 0x800_0000_0000_0000_0000,
{
    let dx: i64 = apart(x, 24 * span);
    let dy: i64 = apart(y, 24 * span);
    let up: i64 = if dy > 7 * span {
        dy - 7 * span
    } else {
        0
    };
    squared(dx) + squared(up)
}

/// The whole square root of `n`, known to lie in `low..high`.
fn root_between(n: u128, low: u64, high: u64) -> (r: u64)
    requires
        low < high <= 0x100_0000_0000_0000,
        low * low <= n < high * high,
    ensures
        is_root(n as int, r as int),
        low <= r < high,
{
    let mut lo: u64 = low;
    let mut hi: u64 = high;
    while hi - lo > 1
        invariant
            low <= lo < hi <= high <= 0x100_0000_0000_0000,
            lo * lo <= n < hi * hi,
        decreases hi - lo,
    {
        let mid: u64 = lo + (hi - lo) / 2;
        assert(0 <= mid * mid <= 0x100_0000_0000_0000 * 0x100_0000_0000_0000) by (nonlinear_arith)
            requires
                0 <= mid <= 0x100_0000_0000_0000,
        ;
        if (mid as u128) * (mid as u128) <= n {
            lo = mid;
        } else {
            hi = mid;
        }
    }
    assert(hi == lo + 1);
    lo
}

fn coverage_of(span: i64, side: i64, q: i128, x: Ghost<int>, y: Ghost<int>) -> (cover: u64)
    requires
        in_icon(span as int, x@, y@),
        1 <= side <= SIDE_MAX,
        q == spread(span as int, x@, y@),
        0 <= q,
    ensures
        cover == coverage(span as int, side as int, x@, y@),
        cover <= full(side as int),
{
    let inner: i64 = 14 * span;
    let outer: i64 = 14 * span + 48 * side;
    if q > squared(outer) {
        return 0;
    }
    if q <= squared(inner) {
        return (48 * side as u64) * UNIT;
    }
    let low: u64 = (inner as u64) * UNIT;
    let high: u64 = (outer as u64) * UNIT;
    let ghost unit = UNIT as int;
    let n: u128 = (q as u128) * 0x100_0000_0000;
    assert(n == q * (unit * unit));
    proof {
        assert(low * low == (inner * inner) * (unit * unit)) by (nonlinear_arith)
            requires
                low == inner * unit,
        ;
        assert(high * high == (outer * outer) * (unit * unit)) by (nonlinear_arith)
            requires
                high == outer * unit,
        ;
        lemma_square_order(high as int, high + 1);
    }
    let r: u64 = root_between(n, low, high + 1);
    proof {
        lemma_root(n as int, r as int);
    }
    high - r
}

fn is_on_rim(span: i64, side: i64, q: i128, x: Ghost<int>, y: Ghost<int>) -> (answer: bool)
    requires
        1 <= span <= SPAN_MAX,
        1 <= side <= SIDE_MAX,
        0 <= q <= 0x800_0000_0000_0000_0000,
        q == spread(span as int, x@, y@),
    ensures
        answer == on_rim(span as int, side as int, x@, y@),
{
    let inner: i64 = 70 * span - 288 * side;
    inner < 0 || 25 * q > squared(inner)
}

fn is_submerged(span: i64, y: i64, percent: u8) -> (answer: bool)
    requires
        1 <= span <= SPAN_MAX,
        0 <= y < 48 * span,
    ensures
        answer == submerged(span as int, y as int, percent),
{
    let level: i64 = if percent > 100 {
        100
    } else {
        percent as i64
    };
    assert(0 <= 42 * span * level <= 4200 * 1_073_697_800) by (nonlinear_arith)
        requires
            1 <= span <= 1_073_697_800,
            0 <= level <= 100,
    ;
    100 * y >= 4500 * span - 42 * span * level
}

fn edge_crosses(span: i64, x: i64, y: i64, i: usize) -> (answer: bool)
    requires
        in_icon(span as int, x as int, y as int),
        i < 7,
    ensures
        answer == crosses(span as int, x as int, y as int, i as int),
{
    let j: usize = if i == 0 {
        6
    } else {
        i - 1
    };
    let (xi, yi): (i64, i64) = (BOLT_X[i], BOLT_Y[i]);
    let (xj, yj): (i64, i64) = (BOLT_X[j], BOLT_Y[j]);
    assert(0 <= xi * span <= 200 * 1_073_697_800) by (nonlinear_arith)
        requires
            1 <= span <= 1_073_697_800,
            0 <= xi <= 200,
    ;
    assert(0 <= yi * span <= 200 * 1_073_697_800) by (nonlinear_arith)
        requires
            1 <= span <= 1_073_697_800,
            0 <= yi <= 200,
    ;
    assert(0 <= yj * span <= 200 * 1_073_697_800) by (nonlinear_arith)
        requires
            1 <= span <= 1_073_697_800,
            0 <= yj <= 200,
    ;
    if (yi * span > 5 * y) == (yj * span > 5 * y) {
        return false;
    }
    let a: i64 = 5 * x - xi * span;
    let b: i64 = yj - yi;
    let c: i64 = xj - xi;
    let d: i64 = 5 * y - yi * span;
    assert(-0x1000_0000_0000 * 200 <= a * b <= 0x1000_0000_0000 * 200) by (nonlinear_arith)
        requires
            -0x1000_0000_0000 <= a <= 0x1000_0000_0000,
            -200 <= b <= 200,
    ;
    assert(-0x1000_0000_0000 * 200 <= c * d <= 0x1000_0000_0000 * 200) by (nonlinear_arith)
        requires
            -0x1000_0000_0000 <= d <= 0x1000_0000_0000,
            -200 <= c <= 200,
    ;
    if yj > yi {
        a * b < c * d
    } else {
        a * b > c * d
    }
}

fn is_in_bolt(span: i64, x: i64, y: i64) -> (answer: bool)
    requires
        in_icon(span as int, x as int, y as int),
    ensures
        answer == in_bolt(span as int, x as int, y as int),
{
    let mut inside = false;
    let mut i: usize = 0;
    while i < 7
        invariant
            i <= 7,
            in_icon(span as int, x as int, y as int),
            inside == odd_crossings(span as int, x as int, y as int, i as nat),
        decreases 7 - i,
    {
        inside = inside != edge_crosses(span, x, y, i);
        i += 1;
    }
    inside
}

/// What a sample looks like, apart from its colours.
struct Look {
    filled: bool,
    rim: bool,
    bolt: bool,
    wheel: bool,
}

fn tinted(look: &Look, fill: u8, channel: usize) -> (value: u64)
    requires
        channel < 3,
    ensures
        value <= 2550000,
        value == {
            let body = if look.filled {
                fill
            } else {
                TRACK@[channel as int]
            };
            let edge = EDGE@[channel as int];
            let rimmed = if look.rim {
                55 * body + 45 * edge
            } else {
                100 * body
            };
            if look.bolt {
                2550000
            } else if look.wheel {
                45 * rimmed + 5500 * edge
            } else {
                100 * rimmed
            }
        },
{
    let body: u64 = if look.filled {
        fill as u64
    } else {
        TRACK[channel] as u64
    };
    let edge: u64 = EDGE[channel] as u64;
    let rimmed: u64 = if look.rim {
        55 * body + 45 * edge
    } else {
        100 * body
    };
    if look.bolt {
        2550000
    } else if look.wheel {
        45 * rimmed + 5500 * edge
    } else {
        100 * rimmed
    }
}

/// An icon that is drawn: [`Sketch`] in machine numbers.
struct Plan {
    level: Option<u8>,
    charging: bool,
    size: i64,
    side: i64,
    span: i64,
    fill: [u8; 3],
}

impl View for Plan {
    type V = Sketch;

    closed spec fn view(&self) -> Sketch {
        Sketch {
            level: self.level,
            charging: self.charging,
            size: self.size as int,
            side: self.side as int,
        }
    }
}

impl Plan {
    spec fn inv(self) -> bool {
        &&& 1 <= self.size <= SIZE_MAX
        &&& 0 <= self.side <= SIDE_MAX
        &&& self.span == self@.span()
        &&& self.fill@ == match self.level {
            Some(percent) => band(percent, self.charging),
            None => TRACK@,
        }
    }

    fn look_at(&self, x: i64, y: i64, q: i128) -> (look: Look)
        requires
            self.inv(),
            self.side > 0,
            in_icon(self.span as int, x as int, y as int),
            q == spread(self.span as int, x as int, y as int),
            0 <= q <= 0x800_0000_0000_0000_0000,
        ensures
            look.filled == (self.level matches Some(percent) && submerged(
                self.span as int,
                y as int,
                percent,
            )),
            look.rim == on_rim(self.span as int, self.side as int, x as int, y as int),
            look.bolt == (self.charging && in_bolt(self.span as int, x as int, y as int)),
            look.wheel == (!self.charging && on_wheel(self.span as int, x as int, y as int)),
    {
        let span: i64 = self.span;
        let filled = match self.level {
            Some(percent) => is_submerged(span, y, percent),
            None => false,
        };
        Look {
            filled,
            rim: is_on_rim(span, self.side, q, Ghost(x as int), Ghost(y as int)),
            bolt: self.charging && is_in_bolt(span, x, y),
            wheel: !self.charging && 5 * apart(x, 24 * span) < 11 * span && 5 * y > 32 * span && y
                < 18 * span,
        }
    }

    /// Where the sample of a pixel lies that is the `k`th on its axis.
    fn along(&self, pixel: i64, k: i64) -> (at: i64)
        requires
            self.inv(),
            0 <= pixel < self.size,
            0 <= k < self.side,
        ensures
            at == sample_at(self@.side * pixel + k),
            0 <= at < 48 * self.span,
            1 <= self.span <= SPAN_MAX,
    {
        proof {
            lemma_cell(self@.size, self@.side, pixel as int, k as int);
        }
        48 * (self.side * pixel + k) + 24
    }

    fn draw_pixel(&self, px: i64, py: i64) -> (bytes: [u8; 4])
        requires
            self.inv(),
            0 <= px < self.size,
            0 <= py < self.size,
        ensures
            bytes@ == self@.pixel(px as int, py as int),
    {
        let ghost sketch = self@;
        let ghost (i, j) = (px as int, py as int);
        let side: i64 = self.side;
        let mut cover: u128 = 0;
        let mut red: u128 = 0;
        let mut green: u128 = 0;
        let mut blue: u128 = 0;
        let mut k: i64 = 0;
        assert(0 <= side * side <= 46340 * 46340) by (nonlinear_arith)
            requires
                0 <= side <= 46340,
        ;
        let all: i64 = side * side;
        assert(0 <= all * full(side as int) <= 0x8000_0000 * 0x300_0000_0000) by (nonlinear_arith)
            requires
                0 <= all <= 0x8000_0000,
                0 <= full(side as int) <= 0x300_0000_0000,
        ;
        while k < all
            invariant
                0 <= k <= all <= 0x8000_0000,
                all == side * side,
                side == self.side,
                self.inv(),
                sketch == self@,
                0 <= px < self.size,
                0 <= py < self.size,
                i == px,
                j == py,
                cover <= k * full(side as int),
                red <= 2550000 * cover,
                green <= 2550000 * cover,
                blue <= 2550000 * cover,
                cover == sketch.covered(i, j, k as nat),
                red == sketch.gathered(i, j, 0, k as nat),
                green == sketch.gathered(i, j, 1, k as nat),
                blue == sketch.gathered(i, j, 2, k as nat),
            decreases all - k,
        {
            assert(side > 0) by (nonlinear_arith)
                requires
                    0 <= side,
                    0 <= k < side * side,
            ;
            assert(0 <= k / side < side && 0 <= k % side < side) by (nonlinear_arith)
                requires
                    0 < side,
                    0 <= k < side * side,
            ;
            let x: i64 = self.along(px, k % side);
            let y: i64 = self.along(py, k / side);
            let q: i128 = spread_of(self.span, x, y);
            let c: u64 = coverage_of(self.span, side, q, Ghost(x as int), Ghost(y as int));
            let look = self.look_at(x, y, q);
            let ghost one = full(side as int);
            assert((x as int, y as int) == sketch.sample(i, j, k as int));
            assert(0 <= k * one <= 0x8000_0000 * 0x300_0000_0000) by (nonlinear_arith)
                requires
                    0 <= k <= 0x8000_0000,
                    0 <= one <= 0x300_0000_0000,
            ;
            assert((k + 1) * one == k * one + one) by (nonlinear_arith);
            red = weigh(red, tinted(&look, self.fill[0], 0), c, cover);
            green = weigh(green, tinted(&look, self.fill[1], 1), c, cover);
            blue = weigh(blue, tinted(&look, self.fill[2], 2), c, cover);
            cover = cover + c as u128;
            k += 1;
        }
        let whole: u128 = (all as u128) * ((48 * side as u64) * UNIT) as u128;
        assert(whole == all * full(side as int));
        if 500 * cover <= whole {
            let bytes: [u8; 4] = [0, 0, 0, 0];
            assert(bytes@ =~= seq![0u8, 0, 0, 0]);
            return bytes;
        }
        let bytes: [u8; 4] = [
            round(255 * cover, whole),
            round(red, 10000 * cover),
            round(green, 10000 * cover),
            round(blue, 10000 * cover),
        ];
        assert(bytes@ =~= sketch.pixel(i, j));
        bytes
    }

    fn draw(&self) -> (out: Vec<u8>)
        requires
            self.inv(),
        ensures
            out@ == self@.image(),
    {
        let mut out: Vec<u8> = Vec::new();
        let size: i64 = self.size;
        let mut y: i64 = 0;
        let ghost mut count: nat = 0;
        while y < size
            invariant
                self.inv(),
                size == self.size,
                0 <= y <= size,
                count == y * size,
                out@ == self@.pixels(count),
            decreases size - y,
        {
            let mut x: i64 = 0;
            while x < size
                invariant
                    self.inv(),
                    size == self.size,
                    0 <= y < size,
                    0 <= x <= size,
                    count == y * size + x,
                    out@ == self@.pixels(count),
                decreases size - x,
            {
                let bytes = self.draw_pixel(x, y);
                let ghost before = out@;
                out.push(bytes[0]);
                out.push(bytes[1]);
                out.push(bytes[2]);
                out.push(bytes[3]);
                proof {
                    lemma_fundamental_div_mod_converse(
                        count as int,
                        size as int,
                        y as int,
                        x as int,
                    );
                    count = count + 1;
                    assert(out@ =~= before + bytes@);
                }
                x += 1;
            }
            assert((y + 1) * size == y * size + size) by (nonlinear_arith);
            y += 1;
        }
        out
    }
}

proof fn lemma_cell(size: int, side: int, pixel: int, k: int)
    requires
        1 <= size <= SIZE_MAX,
        0 <= k < side <= SIDE_MAX,
        0 <= pixel < size,
    ensures
        0 <= side * pixel <= side * pixel + k < side * size,
        1 <= side * size <= SPAN_MAX,
{
    assert(0 <= side * pixel && side * pixel + side <= side * size) by (nonlinear_arith)
        requires
            0 <= pixel < size,
            0 < side,
    ;
    assert(1 <= side * size <= 46340 * 23170) by (nonlinear_arith)
        requires
            1 <= size <= 23170,
            1 <= side <= 46340,
    ;
}

fn weigh(sum: u128, value: u64, cover: u64, so_far: u128) -> (total: u128)
    requires
        sum <= 2550000 * so_far,
        so_far <= 0x200_0000_0000_0000_0000_0000,
        value <= 2550000,
    ensures
        total == sum + value * cover,
        total <= 2550000 * (so_far + cover),
{
    assert(0 <= value * cover <= 2550000 * cover) by (nonlinear_arith)
        requires
            0 <= value <= 2550000,
            0 <= cover,
    ;
    sum + (value as u128) * (cover as u128)
}

fn round(n: u128, d: u128) -> (value: u8)
    requires
        0 < d <= 0x10_0000_0000_0000_0000_0000_0000,
        n <= 255 * d,
    ensures
        value == rounded(n as int, d as int),
{
    assert((2 * n + d) / (2 * d) <= 255) by (nonlinear_arith)
        requires
            0 < d,
            0 <= n <= 255 * d,
    ;
    assert((2 * n + d) / (2 * d) >= 0) by (nonlinear_arith)
        requires
            0 < d,
            0 <= n,
    ;
    ((2 * n + d) / (2 * d)) as u8
}

/// A mouse silhouette filled from the bottom to a level, or left bare where
/// there is no reading, with so many samples on a side of a pixel.
///
/// Returns `(width, height, argb32)` in network byte order, which is exactly
/// what the SNI IconPixmap property expects.
pub fn reading_pixmap_sampled(
    level: Option<u8>,
    charging: bool,
    size: i32,
    supersample: i32,
) -> (icon: (i32, i32, Vec<u8>))
    requires
        size <= SIZE_MAX,
        -SIDE_MAX <= supersample <= SIDE_MAX,
    ensures
        icon.0 == size,
        icon.1 == size,
        icon.2@ == sampled_image(level, charging, size as int, supersample as int),
{
    if size <= 0 {
        return (size, size, Vec::new());
    }
    let side: i64 = if supersample < 0 {
        0
    } else {
        supersample as i64
    };
    let fill: [u8; 3] = match level {
        Some(percent) => level_color(percent, charging),
        None => TRACK,
    };
    assert(0 <= side * size <= 46340 * 23170) by (nonlinear_arith)
        requires
            1 <= size <= 23170,
            0 <= side <= 46340,
    ;
    let plan = Plan {
        level,
        charging,
        size: size as i64,
        side,
        span: side * (size as i64),
        fill,
    };
    (size, size, plan.draw())
}

/// A mouse silhouette filled from the bottom to `percent`, with so many samples
/// on a side of a pixel.
pub fn battery_pixmap_sampled(
    percent: u8,
    charging: bool,
    size: i32,
    supersample: i32,
) -> (icon: (i32, i32, Vec<u8>))
    requires
        size <= SIZE_MAX,
        -SIDE_MAX <= supersample <= SIDE_MAX,
    ensures
        icon.0 == size,
        icon.1 == size,
        icon.2@ == sampled_image(Some(percent), charging, size as int, supersample as int),
{
    reading_pixmap_sampled(Some(percent), charging, size, supersample)
}

/// A mouse silhouette filled from the bottom to a level, or left bare where
/// there is no reading.
pub fn reading_pixmap(level: Option<u8>, charging: bool, size: i32) -> (icon: (i32, i32, Vec<u8>))
    requires
        size <= SIZE_MAX,
    ensures
        icon.0 == size,
        icon.1 == size,
        icon.2@ == image(level, charging, size as int),
{
    reading_pixmap_sampled(level, charging, size, SIDE)
}

/// A mouse silhouette filled from the bottom to `percent`.
pub fn battery_pixmap(percent: u8, charging: bool, size: i32) -> (icon: (i32, i32, Vec<u8>))
    requires
        size <= SIZE_MAX,
    ensures
        icon.0 == size,
        icon.1 == size,
        icon.2@ == image(Some(percent), charging, size as int),
{
    battery_pixmap_sampled(percent, charging, size, SIDE)
}

// -- laws ---------------------------------------------------------------------

/// No sample covers less than nothing or more than itself.
pub proof fn lemma_coverage(span: int, side: int, x: int, y: int)
    requires
        0 <= span,
        0 <= side,
    ensures
        0 <= coverage(span, side, x, y) <= full(side),
{
    let q = spread(span, x, y);
    let (inner, outer) = (14 * span, 14 * span + 48 * side);
    let unit = UNIT as int;
    if inner * inner < q <= outer * outer {
        let n = q * (unit * unit);
        let low = inner * unit;
        let high = outer * unit;
        assert(unit * unit == 0x100_0000_0000) by (nonlinear_arith)
            requires
                unit == 0x10_0000,
        ;
        assert(low * low == (inner * inner) * (unit * unit)) by (nonlinear_arith)
            requires
                low == inner * unit,
        ;
        assert(high * high == (outer * outer) * (unit * unit)) by (nonlinear_arith)
            requires
                high == outer * unit,
        ;
        lemma_root_between(n, low, high);
    }
}

proof fn lemma_root_between(n: int, low: int, high: int)
    requires
        0 <= low <= high,
        low * low <= n <= high * high,
    ensures
        is_root(n, root(n)),
        low <= root(n) <= high,
    decreases high - low,
{
    if n < (low + 1) * (low + 1) {
        assert(is_root(n, low));
        lemma_root(n, low);
    } else if low == high {
        lemma_square_order(low, low + 1);
    } else {
        lemma_root_between(n, low + 1, high);
    }
}

proof fn lemma_pixels(sketch: Sketch, count: nat, i: int)
    requires
        sketch.size > 0,
        0 <= i < count,
    ensures
        sketch.pixels(count).len() == 4 * count,
        sketch.pixels(count).subrange(4 * i, 4 * i + 4) == sketch.pixel(
            i % sketch.size,
            i / sketch.size,
        ),
    decreases count,
{
    let last = count - 1;
    let all = sketch.pixels(count);
    let front = sketch.pixels(last as nat);
    if last > 0 {
        lemma_pixels(
            sketch,
            last as nat,
            if i < last {
                i
            } else {
                0
            },
        );
    }
    if i < last {
        assert(all.subrange(4 * i, 4 * i + 4) =~= front.subrange(4 * i, 4 * i + 4));
    } else {
        assert(all.subrange(4 * i, 4 * i + 4) =~= sketch.pixel(i % sketch.size, i / sketch.size));
    }
}

/// An icon is four bytes per pixel, row by row from the top left.
pub proof fn lemma_image(sketch: Sketch, x: int, y: int)
    requires
        0 <= x < sketch.size,
        0 <= y < sketch.size,
    ensures
        sketch.image().len() == 4 * (sketch.size * sketch.size),
        sketch.image().subrange(
            4 * (y * sketch.size + x),
            4 * (y * sketch.size + x) + 4,
        ) == sketch.pixel(x, y),
{
    let size = sketch.size;
    let i = y * size + x;
    assert(0 <= i < size * size) by (nonlinear_arith)
        requires
            0 <= x < size,
            0 <= y < size,
            i == y * size + x,
    ;
    lemma_fundamental_div_mod_converse(i, size, y, x);
    lemma_pixels(sketch, (size * size) as nat, i);
}

/// A sample of a pixel lies between the pixel's edges, `48 * side` apart.
proof fn lemma_sample(sketch: Sketch, px: int, py: int, k: int)
    requires
        sketch.side > 0,
        0 <= k < sketch.side * sketch.side,
    ensures
        ({
            let (x, y) = sketch.sample(px, py, k);
            &&& sketch.side * (48 * px) <= x < sketch.side * (48 * px + 48)
            &&& sketch.side * (48 * py) <= y < sketch.side * (48 * py + 48)
        }),
{
    let side = sketch.side;
    assert(0 <= k / side < side && 0 <= k % side < side) by (nonlinear_arith)
        requires
            0 < side,
            0 <= k < side * side,
    ;
    assert(side * (48 * px) == 48 * (side * px)) by (nonlinear_arith);
    assert(side * (48 * px + 48) == 48 * (side * px) + 48 * side) by (nonlinear_arith);
    assert(side * (48 * py) == 48 * (side * py)) by (nonlinear_arith);
    assert(side * (48 * py + 48) == 48 * (side * py) + 48 * side) by (nonlinear_arith);
}

/// Every sample of a pixel lies inside the silhouette and has the same colour.
pub open spec fn is_uniform(sketch: Sketch, px: int, py: int, r: u8, g: u8, b: u8) -> bool {
    forall|k: int|
        0 <= k < sketch.side * sketch.side ==> {
            let (x, y) = #[trigger] sketch.sample(px, py, k);
            &&& coverage(sketch.span(), sketch.side, x, y) == full(sketch.side)
            &&& sketch.shade(x, y, 0) == 10000 * r
            &&& sketch.shade(x, y, 1) == 10000 * g
            &&& sketch.shade(x, y, 2) == 10000 * b
        }
}

proof fn lemma_uniform_sums(
    sketch: Sketch,
    px: int,
    py: int,
    r: u8,
    g: u8,
    b: u8,
    samples: nat,
)
    requires
        is_uniform(sketch, px, py, r, g, b),
        samples <= sketch.side * sketch.side,
    ensures
        sketch.covered(px, py, samples) == samples * full(sketch.side),
        sketch.gathered(px, py, 0, samples) == r * (10000 * (samples * full(sketch.side))),
        sketch.gathered(px, py, 1, samples) == g * (10000 * (samples * full(sketch.side))),
        sketch.gathered(px, py, 2, samples) == b * (10000 * (samples * full(sketch.side))),
    decreases samples,
{
    let one = full(sketch.side);
    if samples == 0 {
        assert(samples * one == 0) by (nonlinear_arith)
            requires
                samples == 0,
        ;
        assert(r * (10000 * 0int) == 0 && g * (10000 * 0int) == 0 && b * (10000 * 0int) == 0)
            by (nonlinear_arith);
    } else {
        let k = samples - 1;
        lemma_uniform_sums(sketch, px, py, r, g, b, k as nat);
        let (x, y) = sketch.sample(px, py, k);
        assert(coverage(sketch.span(), sketch.side, x, y) == one);
        assert(samples * one == k * one + one) by (nonlinear_arith)
            requires
                samples == k + 1,
        ;
        assert(r * (10000 * (k * one)) + 10000 * r * one == r * (10000 * (k * one + one)))
            by (nonlinear_arith);
        assert(g * (10000 * (k * one)) + 10000 * g * one == g * (10000 * (k * one + one)))
            by (nonlinear_arith);
        assert(b * (10000 * (k * one)) + 10000 * b * one == b * (10000 * (k * one + one)))
            by (nonlinear_arith);
    }
}

proof fn lemma_rounded_multiple(c: int, d: int)
    requires
        0 < d,
    ensures
        rounded(c * d, d) == c,
{
    assert(2 * (c * d) + d == c * (2 * d) + d) by (nonlinear_arith);
    lemma_fundamental_div_mod_converse(2 * (c * d) + d, 2 * d, c, d);
}

/// A pixel whose samples are all alike has their colour, and is opaque.
pub proof fn lemma_uniform(sketch: Sketch, px: int, py: int, r: u8, g: u8, b: u8)
    requires
        sketch.side > 0,
        is_uniform(sketch, px, py, r, g, b),
    ensures
        sketch.pixel(px, py) == seq![255u8, r, g, b],
{
    let one = full(sketch.side);
    let side = sketch.side;
    let all = side * side;
    assert(0 < all) by (nonlinear_arith)
        requires
            0 < side,
            all == side * side,
    ;
    lemma_uniform_sums(sketch, px, py, r, g, b, all as nat);
    let whole = all * one;
    assert(0 < whole) by (nonlinear_arith)
        requires
            0 < all,
            0 < one,
            whole == all * one,
    ;
    lemma_rounded_multiple(255, whole);
    lemma_rounded_multiple(r as int, 10000 * whole);
    lemma_rounded_multiple(g as int, 10000 * whole);
    lemma_rounded_multiple(b as int, 10000 * whole);
}

/// A point in the middle of the bolt.
pub open spec fn amid_bolt(span: int, x: int, y: int) -> bool {
    &&& 18 * span <= x
    &&& 5 * x <= 138 * span
    &&& 106 * span <= 5 * y
    &&& 5 * y < 130 * span
}

proof fn lemma_amid_bolt(span: int, x: int, y: int)
    requires
        0 < span,
        amid_bolt(span, x, y),
    ensures
        in_bolt(span, x, y),
{
    reveal_with_fuel(odd_crossings, 8);
    let ys = BOLT_Y@;
    let xs = BOLT_X@;
    assert(ys[0] == 40 && ys[1] == 130 && ys[2] == 130 && ys[3] == 200 && ys[4] == 106 && ys[5]
        == 106 && ys[6] == 40);
    assert(xs[0] == 126 && xs[1] == 76 && xs[3] == 94 && xs[4] == 154);
    assert forall|i: int| 0 <= i < 7 implies (#[trigger] (ys[i] as int) * span > 5 * y) == (1 <= i
        <= 3) by {
        let v = ys[i] as int;
        assert(v >= 130 ==> v * span > 5 * y) by (nonlinear_arith)
            requires
                0 < span,
                5 * y < 130 * span,
        ;
        assert(v <= 106 ==> v * span <= 5 * y) by (nonlinear_arith)
            requires
                0 < span,
                106 * span <= 5 * y,
        ;
    }
    assert(!crosses(span, x, y, 0));
    assert(!crosses(span, x, y, 1)) by {
        let (xi, yi, xj, yj) = (xs[1] as int, ys[1] as int, xs[0] as int, ys[0] as int);
        assert((5 * x - xi * span) * (yj - yi) <= (xj - xi) * (5 * y - yi * span))
            by (nonlinear_arith)
            requires
                xi == 76,
                yi == 130,
                xj == 126,
                yj == 40,
                18 * span <= x,
                106 * span <= 5 * y,
                0 < span,
        ;
    }
    assert(!crosses(span, x, y, 2));
    assert(!crosses(span, x, y, 3));
    assert(crosses(span, x, y, 4)) by {
        let (xi, yi, xj, yj) = (xs[4] as int, ys[4] as int, xs[3] as int, ys[3] as int);
        assert((5 * x - xi * span) * (yj - yi) < (xj - xi) * (5 * y - yi * span))
            by (nonlinear_arith)
            requires
                xi == 154,
                yi == 106,
                xj == 94,
                yj == 200,
                5 * x <= 138 * span,
                5 * y < 130 * span,
                0 < span,
        ;
    }
    assert(!crosses(span, x, y, 5));
    assert(!crosses(span, x, y, 6));
}

proof fn lemma_well_inside(span: int, side: int, x: int, y: int)
    requires
        0 < span,
        0 < side,
        distance(x, 24 * span) <= 6 * span,
        distance(y, 24 * span) <= 15 * span,
    ensures
        coverage(span, side, x, y) == full(side),
        72 * side <= 5 * span ==> !on_rim(span, side, x, y),
{
    let dx = distance(x, 24 * span);
    let up = above_spine(span, y);
    assert(dx * dx <= 36 * (span * span)) by (nonlinear_arith)
        requires
            0 <= dx <= 6 * span,
    ;
    assert(up * up <= 64 * (span * span)) by (nonlinear_arith)
        requires
            0 <= up <= 8 * span,
    ;
    assert((14 * span) * (14 * span) == 196 * (span * span)) by (nonlinear_arith);
    assert(0 <= span * span) by (nonlinear_arith);
    let outer = 14 * span + 48 * side;
    assert(outer * outer >= 196 * (span * span)) by (nonlinear_arith)
        requires
            outer >= 14 * span,
            0 < span,
    ;
    if 72 * side <= 5 * span {
        let inner = 70 * span - 288 * side;
        assert(inner * inner >= 2500 * (span * span)) by (nonlinear_arith)
            requires
                inner >= 50 * span,
                0 < span,
        ;
    }
}

/// A charging icon carries a white bolt: every pixel in the middle of it is white.
pub proof fn lemma_bolt_is_white(sketch: Sketch, px: int, py: int)
    requires
        sketch.charging,
        sketch.side > 0,
        sketch.size > 0,
        18 * sketch.size <= 48 * px,
        240 * (px + 1) <= 138 * sketch.size,
        106 * sketch.size <= 240 * py,
        240 * (py + 1) <= 130 * sketch.size,
    ensures
        sketch.pixel(px, py) == seq![255u8, 255, 255, 255],
{
    let (size, side, span) = (sketch.size, sketch.side, sketch.span());
    assert forall|k: int| 0 <= k < side * side implies {
        let (x, y) = #[trigger] sketch.sample(px, py, k);
        &&& coverage(span, side, x, y) == full(side)
        &&& sketch.shade(x, y, 0) == 2550000
        &&& sketch.shade(x, y, 1) == 2550000
        &&& sketch.shade(x, y, 2) == 2550000
    } by {
        let (x, y) = sketch.sample(px, py, k);
        lemma_sample(sketch, px, py, k);
        assert(0 < span && 18 * span <= side * (48 * px) && 5 * (side * (48 * px + 48)) <= 138
            * span && 106 * span <= 5 * (side * (48 * py)) && 5 * (side * (48 * py + 48)) <= 130
            * span) by (nonlinear_arith)
            requires
                span == side * size,
                0 < side,
                0 < size,
                18 * size <= 48 * px,
                240 * (px + 1) <= 138 * size,
                106 * size <= 240 * py,
                240 * (py + 1) <= 130 * size,
        ;
        lemma_amid_bolt(span, x, y);
        lemma_well_inside(span, side, x, y);
    }
    lemma_uniform(sketch, px, py, 255, 255, 255);
}

proof fn lemma_red_sum(sketch: Sketch, px: int, py: int, samples: nat)
    requires
        !sketch.charging,
        0 <= sketch.side,
        0 <= sketch.size,
    ensures
        0 <= sketch.covered(px, py, samples),
        0 <= sketch.gathered(px, py, 0, samples) <= 2320000 * sketch.covered(px, py, samples),
    decreases samples,
{
    if samples > 0 {
        let k = samples - 1;
        lemma_red_sum(sketch, px, py, k as nat);
        let (x, y) = sketch.sample(px, py, k);
        assert(0 <= sketch.span()) by (nonlinear_arith)
            requires
                sketch.span() == sketch.side * sketch.size,
                0 <= sketch.side,
                0 <= sketch.size,
        ;
        lemma_coverage(sketch.span(), sketch.side, x, y);
        let value = sketch.shade(x, y, 0);
        let cover = coverage(sketch.span(), sketch.side, x, y);
        assert(0 <= value <= 2320000);
        assert(0 <= value * cover <= 2320000 * cover) by (nonlinear_arith)
            requires
                0 <= value <= 2320000,
                0 <= cover,
        ;
    }
}

/// An icon that is not charging has no white in it.
pub proof fn lemma_no_white(sketch: Sketch, px: int, py: int)
    requires
        !sketch.charging,
        0 <= sketch.side,
        0 <= sketch.size,
    ensures
        sketch.pixel(px, py)[1] <= 232,
{
    let all = (sketch.side * sketch.side) as nat;
    lemma_red_sum(sketch, px, py, all);
    let cover = sketch.covered(px, py, all);
    let red = sketch.gathered(px, py, 0, all);
    let d = 10000 * cover;
    assert(0 <= all * full(sketch.side)) by (nonlinear_arith)
        requires
            0 <= full(sketch.side),
            0 <= all,
    ;
    if 500 * cover > all * full(sketch.side) {
        assert(0 <= (2 * red + d) / (2 * d) <= 232) by (nonlinear_arith)
            requires
                0 < d,
                0 <= red <= 232 * d,
        ;
    }
}

/// A charging mouse is told apart from one that is not, whatever their levels, in
/// each size that the tray shows.
pub proof fn lemma_charging_shows(one: Option<u8>, other: Option<u8>, size: int)
    requires
        size == 22 || size == 32 || size == 48,
    ensures
        image(one, true, size) != image(other, false, size),
{
    let on = Sketch { level: one, charging: true, size, side: 3 };
    let off = Sketch { level: other, charging: false, size, side: 3 };
    let (px, py): (int, int) = if size == 22 {
        (9, 10)
    } else if size == 32 {
        (15, 15)
    } else {
        (23, 23)
    };
    lemma_bolt_is_white(on, px, py);
    lemma_no_white(off, px, py);
    lemma_image(on, px, py);
    lemma_image(off, px, py);
}

/// An icon is filled from the bottom: a pixel of the body that lies wholly below
/// the level has the level's colour, one that lies wholly above it is bare, and
/// so is all of an icon without a level.
pub proof fn lemma_filled_from_the_bottom(sketch: Sketch, px: int, py: int)
    requires
        !sketch.charging,
        sketch.side > 0,
        sketch.size >= 15,
        27 * sketch.size <= 48 * px,
        48 * (px + 1) <= 30 * sketch.size,
        9 * sketch.size <= 48 * py,
        48 * (py + 1) <= 39 * sketch.size,
    ensures
        sketch.level is None ==> sketch.pixel(px, py) == seq![255u8, 0x3A, 0x41, 0x4A],
        sketch.level matches Some(percent) ==> percent <= 100 ==> {
            &&& 4800 * py >= (4500 - 42 * percent) * sketch.size ==> sketch.pixel(px, py)
                == seq![255u8] + if percent <= 15 {
                seq![0xE1u8, 0x06, 0x00]
            } else if percent <= 30 {
                seq![0xE8u8, 0xA3, 0x3D]
            } else {
                seq![0x36u8, 0xAD, 0x6A]
            }
            &&& 4800 * (py + 1) <= (4500 - 42 * percent) * sketch.size ==> sketch.pixel(px, py)
                == seq![255u8, 0x3A, 0x41, 0x4A]
        },
{
    let (size, side, span) = (sketch.size, sketch.side, sketch.span());
    let line = match sketch.level {
        Some(percent) => (4500 - 42 * percent) * size,
        None => 0,
    };
    let filled = sketch.level matches Some(percent) && percent <= 100 && 4800 * py >= line;
    let bare = sketch.level is None || (sketch.level matches Some(percent) && percent <= 100 && 4800
        * (py + 1) <= line);
    let colour = if filled {
        band(sketch.level->0, false)
    } else {
        TRACK@
    };
    if filled || bare {
        assert forall|k: int| 0 <= k < side * side implies {
            let (x, y) = #[trigger] sketch.sample(px, py, k);
            &&& coverage(span, side, x, y) == full(side)
            &&& sketch.shade(x, y, 0) == 10000 * colour[0]
            &&& sketch.shade(x, y, 1) == 10000 * colour[1]
            &&& sketch.shade(x, y, 2) == 10000 * colour[2]
        } by {
            let (x, y) = sketch.sample(px, py, k);
            lemma_sample(sketch, px, py, k);
            assert(0 < span && 15 * side <= span && 27 * span <= side * (48 * px) && side * (48 * px
                + 48) <= 30 * span && 9 * span <= side * (48 * py) && side * (48 * py + 48) <= 39
                * span) by (nonlinear_arith)
                requires
                    span == side * size,
                    0 < side,
                    15 <= size,
                    27 * size <= 48 * px,
                    48 * (px + 1) <= 30 * size,
                    9 * size <= 48 * py,
                    48 * (py + 1) <= 39 * size,
            ;
            lemma_well_inside(span, side, x, y);
            if let Some(percent) = sketch.level {
                let level = percent as int;
                let rest = 4500 - 42 * level;
                assert(4500 * span - 42 * span * level == rest * span) by (nonlinear_arith)
                    requires
                        rest == 4500 - 42 * level,
                ;
                if filled {
                    assert(100 * (side * (48 * py)) >= rest * span) by (nonlinear_arith)
                        requires
                            4800 * py >= rest * size,
                            span == side * size,
                            0 < side,
                    ;
                } else {
                    assert(100 * (side * (48 * py + 48)) <= rest * span) by (nonlinear_arith)
                        requires
                            4800 * (py + 1) <= rest * size,
                            span == side * size,
                            0 < side,
                    ;
                }
            }
        }
        lemma_uniform(sketch, px, py, colour[0], colour[1], colour[2]);
        assert(sketch.pixel(px, py) =~= seq![255u8] + colour);
    }
}

/// No edge of the bolt lies to the right of a point that is right of all of its
/// corners.
proof fn lemma_right_of_bolt(span: int, x: int, y: int, i: int)
    requires
        0 < span,
        155 * span <= 5 * x,
        0 <= i < 7,
    ensures
        !crosses(span, x, y, i),
{
    let j = if i == 0 {
        6
    } else {
        i - 1
    };
    let (xs, ys) = (BOLT_X@, BOLT_Y@);
    assert(ys[0] == 40 && ys[1] == 130 && ys[2] == 130 && ys[3] == 200 && ys[4] == 106 && ys[5]
        == 106 && ys[6] == 40);
    assert(xs[0] == 126 && xs[1] == 76 && xs[2] == 110 && xs[3] == 94 && xs[4] == 154 && xs[5] == 118
        && xs[6] == 136);
    let (xi, yi, xj, yj) = (xs[i] as int, ys[i] as int, xs[j] as int, ys[j] as int);
    let (p, q) = (5 * x - xi * span, 5 * y - yi * span);
    let (across, along) = (p * (yj - yi), (xj - xi) * q);
    assert(xi * span <= 154 * span && xj * span <= 154 * span) by (nonlinear_arith)
        requires
            xi <= 154,
            xj <= 154,
            0 < span,
    ;
    if (yi * span > 5 * y) != (yj * span > 5 * y) {
        let h = yj - yi;
        assert(h * span == yj * span - yi * span) by (nonlinear_arith)
            requires
                h == yj - yi,
        ;
        let w = xj - xi;
        assert(w * span == xj * span - xi * span) by (nonlinear_arith)
            requires
                w == xj - xi,
        ;
        assert(p > 0 && p > w * span);
        if h > 0 {
            assert(0 <= q < h * span);
            assert(w * q <= p * h) by (nonlinear_arith)
                requires
                    0 <= q < h * span,
                    p > 0,
                    p > w * span,
                    h > 0,
                    span > 0,
            ;
        } else {
            assert(h * span <= q < 0);
            assert(h < 0) by (nonlinear_arith)
                requires
                    h * span < 0,
                    span > 0,
            ;
            assert(w * q >= p * h) by (nonlinear_arith)
                requires
                    h * span <= q < 0,
                    p > 0,
                    p > w * span,
                    h < 0,
                    span > 0,
            ;
        }
    }
}

/// A charging icon is filled in blue, from the bottom: a pixel of the body beside
/// the bolt is blue where it lies wholly below the level, and bare where it lies
/// wholly above it or where there is no level.
pub proof fn lemma_charging_is_blue(sketch: Sketch, px: int, py: int)
    requires
        sketch.charging,
        sketch.side > 0,
        sketch.size >= 15,
        31 * sketch.size <= 48 * px,
        48 * (px + 1) <= 34 * sketch.size,
        17 * sketch.size <= 48 * py,
        48 * (py + 1) <= 31 * sketch.size,
    ensures
        sketch.level is None ==> sketch.pixel(px, py) == seq![255u8, 0x3A, 0x41, 0x4A],
        sketch.level matches Some(percent) ==> percent <= 100 ==> {
            &&& 4800 * py >= (4500 - 42 * percent) * sketch.size ==> sketch.pixel(px, py)
                == seq![255u8, 0x4F, 0xC3, 0xF7]
            &&& 4800 * (py + 1) <= (4500 - 42 * percent) * sketch.size ==> sketch.pixel(px, py)
                == seq![255u8, 0x3A, 0x41, 0x4A]
        },
{
    let (size, side, span) = (sketch.size, sketch.side, sketch.span());
    let line = match sketch.level {
        Some(percent) => (4500 - 42 * percent) * size,
        None => 0,
    };
    let filled = sketch.level matches Some(percent) && percent <= 100 && 4800 * py >= line;
    let bare = sketch.level is None || (sketch.level matches Some(percent) && percent <= 100 && 4800
        * (py + 1) <= line);
    let colour = if filled {
        seq![0x4Fu8, 0xC3, 0xF7]
    } else {
        TRACK@
    };
    if filled || bare {
        assert forall|k: int| 0 <= k < side * side implies {
            let (x, y) = #[trigger] sketch.sample(px, py, k);
            &&& coverage(span, side, x, y) == full(side)
            &&& sketch.shade(x, y, 0) == 10000 * colour[0]
            &&& sketch.shade(x, y, 1) == 10000 * colour[1]
            &&& sketch.shade(x, y, 2) == 10000 * colour[2]
        } by {
            let (x, y) = sketch.sample(px, py, k);
            lemma_sample(sketch, px, py, k);
            assert(0 < span && 15 * side <= span && 31 * span <= side * (48 * px) && side * (48 * px
                + 48) <= 34 * span && 17 * span <= side * (48 * py) && side * (48 * py + 48) <= 31
                * span) by (nonlinear_arith)
                requires
                    span == side * size,
                    0 < side,
                    15 <= size,
                    31 * size <= 48 * px,
                    48 * (px + 1) <= 34 * size,
                    17 * size <= 48 * py,
                    48 * (py + 1) <= 31 * size,
            ;
            lemma_beside_spine(span, side, x, y);
            reveal_with_fuel(odd_crossings, 8);
            lemma_right_of_bolt(span, x, y, 0);
            lemma_right_of_bolt(span, x, y, 1);
            lemma_right_of_bolt(span, x, y, 2);
            lemma_right_of_bolt(span, x, y, 3);
            lemma_right_of_bolt(span, x, y, 4);
            lemma_right_of_bolt(span, x, y, 5);
            lemma_right_of_bolt(span, x, y, 6);
            if let Some(percent) = sketch.level {
                let level = percent as int;
                let rest = 4500 - 42 * level;
                assert(4500 * span - 42 * span * level == rest * span) by (nonlinear_arith)
                    requires
                        rest == 4500 - 42 * level,
                ;
                if filled {
                    assert(100 * (side * (48 * py)) >= rest * span) by (nonlinear_arith)
                        requires
                            4800 * py >= rest * size,
                            span == side * size,
                            0 < side,
                    ;
                } else {
                    assert(100 * (side * (48 * py + 48)) <= rest * span) by (nonlinear_arith)
                        requires
                            4800 * (py + 1) <= rest * size,
                            span == side * size,
                            0 < side,
                    ;
                }
            }
        }
        lemma_uniform(sketch, px, py, colour[0], colour[1], colour[2]);
        assert(sketch.pixel(px, py) =~= seq![255u8] + colour);
    }
}

proof fn lemma_beside_spine(span: int, side: int, x: int, y: int)
    requires
        0 < span,
        0 < side,
        72 * side <= 5 * span,
        distance(x, 24 * span) <= 10 * span,
        distance(y, 24 * span) <= 7 * span,
    ensures
        coverage(span, side, x, y) == full(side),
        !on_rim(span, side, x, y),
{
    let dx = distance(x, 24 * span);
    assert(dx * dx <= 100 * (span * span)) by (nonlinear_arith)
        requires
            0 <= dx <= 10 * span,
    ;
    assert((14 * span) * (14 * span) == 196 * (span * span)) by (nonlinear_arith);
    assert(0 <= span * span) by (nonlinear_arith);
    let outer = 14 * span + 48 * side;
    assert(outer * outer >= 196 * (span * span)) by (nonlinear_arith)
        requires
            outer >= 14 * span,
            0 < span,
    ;
    let inner = 70 * span - 288 * side;
    assert(inner * inner >= 2500 * (span * span)) by (nonlinear_arith)
        requires
            inner >= 50 * span,
            0 < span,
    ;
}

/// A pixel that lies wholly to the side of, above or below the silhouette, more
/// than a pixel away from it, is left out.
pub proof fn lemma_outside(sketch: Sketch, px: int, py: int)
    requires
        sketch.side > 0,
        sketch.size > 0,
        48 * (px + 2) <= 10 * sketch.size || 38 * sketch.size <= 48 * (px - 1) || 48 * (py + 2) <= 3
            * sketch.size || 45 * sketch.size <= 48 * (py - 1),
    ensures
        sketch.pixel(px, py) == seq![0u8, 0, 0, 0],
{
    let all = (sketch.side * sketch.side) as nat;
    lemma_outside_sum(sketch, px, py, all);
    assert(0 <= all * full(sketch.side)) by (nonlinear_arith)
        requires
            0 <= full(sketch.side),
            0 <= all,
    ;
}

proof fn lemma_outside_sum(sketch: Sketch, px: int, py: int, samples: nat)
    requires
        sketch.side > 0,
        sketch.size > 0,
        samples <= sketch.side * sketch.side,
        48 * (px + 2) <= 10 * sketch.size || 38 * sketch.size <= 48 * (px - 1) || 48 * (py + 2) <= 3
            * sketch.size || 45 * sketch.size <= 48 * (py - 1),
    ensures
        sketch.covered(px, py, samples) == 0,
    decreases samples,
{
    if samples > 0 {
        let k = samples - 1;
        lemma_outside_sum(sketch, px, py, k as nat);
        let (size, side, span) = (sketch.size, sketch.side, sketch.span());
        let (x, y) = sketch.sample(px, py, k);
        lemma_sample(sketch, px, py, k);
        assert(0 < span && side * (48 * px + 48) == side * (48 * px) + 48 * side && side * (48 * py
            + 48) == side * (48 * py) + 48 * side && (48 * (px + 2) <= 10 * size ==> side * (48 * px
            + 48) + 48 * side <= 10 * span) && (38 * size <= 48 * (px - 1) ==> 38 * span + 48 * side
            <= side * (48 * px)) && (48 * (py + 2) <= 3 * size ==> side * (48 * py + 48) + 48 * side
            <= 3 * span) && (45 * size <= 48 * (py - 1) ==> 45 * span + 48 * side <= side * (48
            * py))) by (nonlinear_arith)
            requires
                span == side * size,
                0 < side,
                0 < size,
        ;
        let outer = 14 * span + 48 * side;
        let (dx, up) = (distance(x, 24 * span), above_spine(span, y));
        assert(dx >= outer || up >= outer);
        assert(dx > outer || up > outer || dx == outer || up == outer);
        lemma_apart(dx, up, outer);
        lemma_coverage(span, side, x, y);
        if dx * dx + up * up == outer * outer {
            let unit = UNIT as int;
            let n = (outer * outer) * (unit * unit);
            let r = outer * unit;
            assert(r * r == n && n < (r + 1) * (r + 1) && 0 <= r) by (nonlinear_arith)
                requires
                    r == outer * unit,
                    n == (outer * outer) * (unit * unit),
                    0 <= outer,
                    0 <= unit,
            ;
            lemma_root(n, r);
            lemma_square_order(14 * span, outer);
        }
    }
}

proof fn lemma_apart(dx: int, up: int, outer: int)
    requires
        0 <= dx,
        0 <= up,
        0 <= outer,
        dx >= outer || up >= outer,
    ensures
        dx * dx + up * up >= outer * outer,
{
    lemma_square_order(outer, dx);
    lemma_square_order(outer, up);
    assert(0 <= dx * dx && 0 <= up * up) by (nonlinear_arith);
}

/// A reading past full is drawn as full.
pub proof fn lemma_past_full(percent: u8, charging: bool, size: int, side: int)
    requires
        percent >= 100,
    ensures
        sampled_image(Some(percent), charging, size, side) == sampled_image(
            Some(100u8),
            charging,
            size,
            side,
        ),
{
    let side = if side < 0 {
        0
    } else {
        side
    };
    let over = Sketch { level: Some(percent), charging, size, side };
    let just = Sketch { level: Some(100u8), charging, size, side };
    if size > 0 {
        lemma_same_pixels(over, just, (size * size) as nat);
    }
}

spec fn both_full(over: Sketch, just: Sketch) -> bool {
    &&& over.level matches Some(percent)
    &&& percent >= 100
    &&& just == (Sketch { level: Some(100u8), ..over })
}

proof fn lemma_same_pixels(over: Sketch, just: Sketch, count: nat)
    requires
        both_full(over, just),
        over.size > 0,
    ensures
        over.pixels(count) == just.pixels(count),
    decreases count,
{
    if count > 0 {
        let i = count - 1;
        let (px, py) = (i % over.size, i / over.size);
        let all = (over.side * over.side) as nat;
        lemma_same_pixels(over, just, i as nat);
        lemma_same_gathered(over, just, px, py, 0, all);
        lemma_same_gathered(over, just, px, py, 1, all);
        lemma_same_gathered(over, just, px, py, 2, all);
    }
}

proof fn lemma_same_gathered(
    over: Sketch,
    just: Sketch,
    px: int,
    py: int,
    channel: int,
    samples: nat,
)
    requires
        both_full(over, just),
    ensures
        over.gathered(px, py, channel, samples) == just.gathered(px, py, channel, samples),
        over.covered(px, py, samples) == just.covered(px, py, samples),
    decreases samples,
{
    if samples > 0 {
        let k = samples - 1;
        lemma_same_gathered(over, just, px, py, channel, k as nat);
        let (x, y) = over.sample(px, py, k);
        assert(over.sample(px, py, k) == just.sample(px, py, k));
        assert(over.shade(x, y, channel) == just.shade(x, y, channel));
    }
}

/// The scroll wheel and the rim are darker than the body that they lie on, the
/// wheel by more; a charging mouse has a bolt instead of a wheel.
pub proof fn lemma_darkened(sketch: Sketch, x: int, y: int, channel: int)
    requires
        sketch.level is None,
        0 <= channel < 3,
        0 < sketch.side,
        15 <= sketch.size,
    ensures
        ({
            let (span, side) = (sketch.span(), sketch.side);
            let body = [0x3Au8, 0x41, 0x4A]@[channel];
            let edge = [0x10u8, 0x13, 0x17]@[channel];
            let inside = 25 * spread(span, x, y) <= (70 * span - 288 * side) * (70 * span - 288
                * side) && 70 * span >= 288 * side;
            let wheel = -11 * span < 5 * (x - 24 * span) < 11 * span && 32 * span < 5 * y < 90
                * span;
            &&& !sketch.charging && wheel && inside ==> sketch.shade(x, y, channel) == 4500 * body
                + 5500 * edge
            &&& !sketch.charging && !wheel && inside ==> sketch.shade(x, y, channel) == 10000 * body
            &&& !sketch.charging && !wheel && !inside ==> sketch.shade(x, y, channel) == 5500 * body
                + 4500 * edge
            &&& sketch.charging && !in_bolt(span, x, y) && inside ==> sketch.shade(x, y, channel)
                == 10000 * body
            &&& sketch.charging && !in_bolt(span, x, y) && !inside ==> sketch.shade(x, y, channel)
                == 5500 * body + 4500 * edge
        }),
{
    assert(TRACK@ =~= [0x3Au8, 0x41, 0x4A]@);
    assert(EDGE@ =~= [0x10u8, 0x13, 0x17]@);
}

/// A level is red up to 15%, orange up to 30% and green above that; charging is
/// blue at any level.
pub proof fn lemma_level_colours(percent: u8)
    ensures
        band(percent, true) == seq![0x4Fu8, 0xC3, 0xF7],
        percent <= 15 <==> band(percent, false) == seq![0xE1u8, 0x06, 0x00],
        15 < percent <= 30 <==> band(percent, false) == seq![0xE8u8, 0xA3, 0x3D],
        30 < percent <==> band(percent, false) == seq![0x36u8, 0xAD, 0x6A],
{
    assert(band(percent, false)[0] == if percent <= 15 {
        0xE1u8
    } else if percent <= 30 {
        0xE8u8
    } else {
        0x36u8
    });
}

} // verus!
