//! The canvas store: a fixed-size grid of colors, partitioned into
//! contiguous, equal-size shards of the flattened pixel index space.
//!
//! For a coordinate `(x, y)` the flattened index is `y * width + x`; the
//! owning shard is `global / shard_size` and the slot within that shard is
//! `global % shard_size`.  This mapping is a bijection from in-range
//! coordinates onto `(shard, offset)` pairs, which is what makes per-shard
//! serialization sound: two distinct coordinates never alias one slot.

use vstd::prelude::*;
use vstd::arithmetic::div_mod::{
    lemma_div_pos_is_pos, lemma_fundamental_div_mod, lemma_fundamental_div_mod_converse_div,
    lemma_fundamental_div_mod_converse_mod, lemma_mod_bound, lemma_multiply_divide_lt,
};

use crate::color::Color;

verus! {

/// Why constructing a canvas failed; one distinct reason per violated
/// construction invariant.
#[derive(Debug, Clone, Copy, PartialEq, Eq, Structural)]
pub enum PixmapError {
    /// The width was zero.
    ZeroWidth,
    /// The height was zero.
    ZeroHeight,
    /// The shard count was zero.
    ZeroShards,
    /// The shard count was at least the total pixel count.
    TooManyShards,
    /// The shard count does not evenly divide the total pixel count.
    UnevenShards,
}

/// The construction invariant on a canvas configuration.
pub open spec fn valid_dimensions(width: int, height: int, num_shards: int) -> bool {
    &&& width > 0
    &&& height > 0
    &&& num_shards > 0
    &&& num_shards < width * height
    &&& (width * height) % num_shards == 0
}

/// A pixel canvas of immutable dimensions, stored as `num_shards`
/// equal-size partitions of the flattened index space.
#[derive(Debug)]
pub struct Pixmap {
    shards: Vec<Vec<Color>>,
    width: usize,
    height: usize,
}

impl Pixmap {
    /// The canvas width, in pixels.
    pub closed spec fn spec_width(self) -> int {
        self.width as int
    }

    /// The canvas height, in pixels.
    pub closed spec fn spec_height(self) -> int {
        self.height as int
    }

    /// How many shards the flattened index space is split into.
    pub closed spec fn num_shards(self) -> int {
        self.shards.len() as int
    }

    /// The total number of pixels.
    pub open spec fn total(self) -> int {
        self.spec_width() * self.spec_height()
    }

    /// How many pixels each shard holds.
    pub open spec fn shard_size(self) -> int {
        self.total() / self.num_shards()
    }

    /// Structural well-formedness: valid dimensions, a total pixel count
    /// that fits the machine, and every shard of exactly `shard_size`.
    pub closed spec fn wf(self) -> bool {
        &&& valid_dimensions(self.spec_width(), self.spec_height(), self.num_shards())
        &&& self.total() <= usize::MAX
        &&& forall|s: int|
            0 <= s < self.shards.len() ==> (#[trigger] self.shards[s]).len() == self.shard_size()
    }

    /// Whether `(x, y)` addresses a pixel of this canvas.
    pub open spec fn in_range(self, x: int, y: int) -> bool {
        0 <= x < self.spec_width() && 0 <= y < self.spec_height()
    }

    /// The flattened index of a coordinate.
    pub open spec fn global_index(self, x: int, y: int) -> int {
        y * self.spec_width() + x
    }

    /// The shard owning a coordinate.
    pub open spec fn shard_of(self, x: int, y: int) -> int {
        self.global_index(x, y) / self.shard_size()
    }

    /// The slot of a coordinate within its owning shard.
    pub open spec fn offset_of(self, x: int, y: int) -> int {
        self.global_index(x, y) % self.shard_size()
    }

    /// The canvas contents as one flat sequence in flattened index order.
    pub closed spec fn pixels(self) -> Seq<Color> {
        Seq::new(
            self.total() as nat,
            |g: int| self.shards[g / self.shard_size()][g % self.shard_size()],
        )
    }

    /// A flattened index below `n * ss` splits into a quotient below `n`
    /// and a remainder below `ss`.
    proof fn lemma_split_bounds(g: int, n: int, ss: int)
        requires
            0 <= g < n * ss,
            n > 0,
            ss > 0,
        ensures
            0 <= g / ss < n,
            0 <= g % ss < ss,
    {
        assert(g < ss * n) by (nonlinear_arith)
            requires g < n * ss;
        lemma_multiply_divide_lt(g, ss, n);
        lemma_div_pos_is_pos(g, ss);
        lemma_mod_bound(g, ss);
    }

    /// An in-range flattened index stays within the shard grid.
    proof fn lemma_global_in_shards(self, x: int, y: int)
        requires
            self.wf(),
            self.in_range(x, y),
        ensures
            0 <= self.global_index(x, y) < self.total(),
            0 <= self.shard_of(x, y) < self.num_shards(),
            0 <= self.offset_of(x, y) < self.shard_size(),
    {
        let w = self.spec_width();
        let h = self.spec_height();
        let n = self.num_shards();
        let g = self.global_index(x, y);
        let ss = self.shard_size();
        assert(0 <= g < w * h) by (nonlinear_arith)
            requires 0 <= x < w, 0 <= y < h, g == y * w + x;
        lemma_fundamental_div_mod(w * h, n);
        assert(self.total() == n * ss);
        assert(ss > 0) by (nonlinear_arith)
            requires n > 0, n < w * h, w * h == n * ss;
        Self::lemma_split_bounds(g, n, ss);
    }

    /// The partition facts every method needs: the total splits into
    /// `num_shards` slices of `shard_size` pixels each.
    proof fn lemma_partition(self)
        requires
            self.wf(),
        ensures
            self.total() == self.num_shards() * self.shard_size(),
            0 < self.shard_size(),
    {
        let n = self.num_shards();
        let ss = self.shard_size();
        let t = self.total();
        lemma_fundamental_div_mod(t, n);
        assert(t == n * ss);
        assert(ss > 0) by (nonlinear_arith)
            requires n > 0, n < t, t == n * ss;
    }

    /// Distinct in-range coordinates map to distinct flattened indices, and
    /// distinct flattened indices map to distinct `(shard, offset)` pairs.
    pub proof fn lemma_mapping_injective(self, x1: int, y1: int, x2: int, y2: int)
        requires
            self.wf(),
            self.in_range(x1, y1),
            self.in_range(x2, y2),
            self.shard_of(x1, y1) == self.shard_of(x2, y2),
            self.offset_of(x1, y1) == self.offset_of(x2, y2),
        ensures
            x1 == x2 && y1 == y2,
    {
        let w = self.spec_width();
        let ss = self.shard_size();
        let g1 = self.global_index(x1, y1);
        let g2 = self.global_index(x2, y2);
        self.lemma_global_in_shards(x1, y1);
        self.lemma_global_in_shards(x2, y2);
        lemma_fundamental_div_mod(g1, ss);
        lemma_fundamental_div_mod(g2, ss);
        assert(g1 == g2);
        assert(x1 == x2 && y1 == y2) by (nonlinear_arith)
            requires
                g1 == y1 * w + x1,
                g2 == y2 * w + x2,
                g1 == g2,
                0 <= x1 < w,
                0 <= x2 < w;
    }

    /// Every `(shard, offset)` pair is reached by some in-range coordinate:
    /// together with injectivity, the address mapping is a bijection.
    pub proof fn lemma_mapping_covers(self, s: int, o: int)
        requires
            self.wf(),
            0 <= s < self.num_shards(),
            0 <= o < self.shard_size(),
        ensures
            exists|x: int, y: int|
                self.in_range(x, y) && #[trigger] self.shard_of(x, y) == s
                    && #[trigger] self.offset_of(x, y) == o,
    {
        let w = self.spec_width();
        let h = self.spec_height();
        let n = self.num_shards();
        let ss = self.shard_size();
        lemma_fundamental_div_mod(w * h, n);
        assert(w * h == n * ss);
        let g = s * ss + o;
        assert(0 <= g < w * h) by (nonlinear_arith)
            requires 0 <= s < n, 0 <= o < ss, w * h == n * ss, g == s * ss + o;
        let x = g % w;
        let y = g / w;
        lemma_fundamental_div_mod(g, w);
        lemma_mod_bound(g, w);
        lemma_multiply_divide_lt(g, w, h);
        lemma_div_pos_is_pos(g, w);
        assert(self.in_range(x, y));
        assert(self.global_index(x, y) == g);
        lemma_fundamental_div_mod_converse_div(g, ss, s, o);
        lemma_fundamental_div_mod_converse_mod(g, ss, s, o);
        assert(self.shard_of(x, y) == s && self.offset_of(x, y) == o);
    }

    /// Creates a canvas of the given dimensions with every pixel black, or
    /// reports which construction invariant the configuration violates.
    pub fn new(width: usize, height: usize, num_shards: usize) -> (r: Result<Pixmap, PixmapError>)
        requires
            width * height <= usize::MAX,
        ensures
            match r {
                Ok(p) => {
                    &&& valid_dimensions(width as int, height as int, num_shards as int)
                    &&& p.wf()
                    &&& p.spec_width() == width
                    &&& p.spec_height() == height
                    &&& p.num_shards() == num_shards
                    &&& p.pixels() == Seq::new((width * height) as nat, |g: int| Color(0, 0, 0))
                },
                Err(e) => {
                    &&& !valid_dimensions(width as int, height as int, num_shards as int)
                    &&& (e == PixmapError::ZeroWidth <==> width == 0)
                    &&& (e == PixmapError::ZeroHeight <==> width > 0 && height == 0)
                    &&& (e == PixmapError::ZeroShards <==> width > 0 && height > 0 && num_shards
                        == 0)
                    &&& (e == PixmapError::TooManyShards <==> width > 0 && height > 0 && num_shards
                        > 0 && num_shards >= width * height)
                    &&& (e == PixmapError::UnevenShards <==> width > 0 && height > 0 && num_shards
                        > 0 && num_shards < width * height && (width * height) % (
                    num_shards as int) != 0)
                },
            },
    {
        if width == 0 {
            Err(PixmapError::ZeroWidth)
        } else if height == 0 {
            Err(PixmapError::ZeroHeight)
        } else if num_shards == 0 {
            Err(PixmapError::ZeroShards)
        } else if num_shards >= width * height {
            Err(PixmapError::TooManyShards)
        } else if (width * height) % num_shards != 0 {
            Err(PixmapError::UnevenShards)
        } else {
            let total = width * height;
            let shard_size = total / num_shards;
            let mut shards: Vec<Vec<Color>> = Vec::new();
            while shards.len() < num_shards
                invariant
                    shards@.len() <= num_shards,
                    forall|s: int|
                        0 <= s < shards@.len() ==> (#[trigger] shards@[s])@.len() == shard_size,
                    forall|s: int, i: int|
                        0 <= s < shards@.len() && 0 <= i < shard_size ==> (#[trigger] shards@[s]@[i])
                            == Color(0, 0, 0),
                decreases num_shards - shards@.len(),
            {
                let mut shard: Vec<Color> = Vec::new();
                while shard.len() < shard_size
                    invariant
                        shard@.len() <= shard_size,
                        forall|i: int|
                            0 <= i < shard@.len() ==> (#[trigger] shard@[i]) == Color(0, 0, 0),
                    decreases shard_size - shard@.len(),
                {
                    shard.push(Color(0, 0, 0));
                }
                shards.push(shard);
            }
            let p = Pixmap { shards, width, height };
            proof {
                p.lemma_partition();
                assert forall|g: int| 0 <= g < p.total() implies p.pixels()[g] == (Color(
                    0,
                    0,
                    0,
                )) by {
                    Self::lemma_split_bounds(g, p.num_shards(), p.shard_size());
                }
                assert(p.pixels() =~= Seq::new((width * height) as nat, |g: int| Color(0, 0, 0)));
            }
            Ok(p)
        }
    }

    /// The shard and in-shard slot owning the pixel at `(x, y)`.
    pub fn get_pixel_index(&self, x: usize, y: usize) -> (r: (usize, usize))
        requires
            self.wf(),
            self.in_range(x as int, y as int),
        ensures
            r.0 == self.shard_of(x as int, y as int),
            r.1 == self.offset_of(x as int, y as int),
            r.0 < self.num_shards(),
            r.1 < self.shard_size(),
    {
        proof {
            self.lemma_global_in_shards(x as int, y as int);
        }
        let global_i = y * self.width + x;
        let shard_size = self.width * self.height / self.shards.len();
        let local_i = global_i % shard_size;
        proof {
            let g = global_i as int;
            let ss = shard_size as int;
            lemma_fundamental_div_mod(g, ss);
            assert(ss * (g / ss) >= 0) by (nonlinear_arith)
                requires ss > 0, g / ss >= 0;
            lemma_fundamental_div_mod_converse_div(g - g % ss, ss, g / ss, 0);
        }
        let shard_num = (global_i - local_i) / shard_size;
        (shard_num, local_i)
    }

    /// Whether `(x, y)` addresses a pixel of this canvas.
    pub fn are_coordinates_inside(&self, x: usize, y: usize) -> (r: bool)
        ensures
            r == self.in_range(x as int, y as int),
    {
        x < self.width && y < self.height
    }

    /// Reads the color stored at `(x, y)`, or nothing when the coordinate
    /// is out of range.  Never fails on out-of-range input.
    pub fn get_pixel(&self, x: usize, y: usize) -> (r: Option<Color>)
        requires
            self.wf(),
        ensures
            match r {
                Some(c) => self.in_range(x as int, y as int) && c == self.pixels()[self.global_index(
                    x as int,
                    y as int,
                )],
                None => !self.in_range(x as int, y as int),
            },
    {
        if !self.are_coordinates_inside(x, y) {
            None
        } else {
            let (shard_index, i) = self.get_pixel_index(x, y);
            proof {
                self.lemma_global_in_shards(x as int, y as int);
            }
            Some(self.shards[shard_index][i])
        }
    }

    /// Stores `color` at `(x, y)` and reports whether the coordinate was in
    /// range; an out-of-range write changes nothing.
    pub fn set_pixel(&mut self, x: usize, y: usize, color: Color) -> (r: bool)
        requires
            old(self).wf(),
        ensures
            final(self).wf(),
            final(self).spec_width() == old(self).spec_width(),
            final(self).spec_height() == old(self).spec_height(),
            final(self).num_shards() == old(self).num_shards(),
            r == old(self).in_range(x as int, y as int),
            r ==> final(self).pixels() == old(self).pixels().update(
                old(self).global_index(x as int, y as int),
                color,
            ),
            !r ==> final(self).pixels() == old(self).pixels(),
    {
        if !self.are_coordinates_inside(x, y) {
            false
        } else {
            let (shard_index, i) = self.get_pixel_index(x, y);
            proof {
                self.lemma_global_in_shards(x as int, y as int);
            }
            self.shards[shard_index][i] = color;
            proof {
                let oldp = *old(self);
                let g = oldp.global_index(x as int, y as int);
                let ss = oldp.shard_size();
                assert forall|g2: int|
                    0 <= g2 < self.total() && g2 != g implies self.pixels()[g2] == oldp.pixels()[g2] by {
                    oldp.lemma_partition();
                    Self::lemma_split_bounds(g2, oldp.num_shards(), ss);
                    if g2 / ss == g / ss && g2 % ss == g % ss {
                        lemma_fundamental_div_mod(g2, ss);
                        lemma_fundamental_div_mod(g, ss);
                        assert(g2 == g);
                    }
                }
                assert(self.pixels() =~= oldp.pixels().update(g, color));
            }
            true
        }
    }

    /// The immutable canvas dimensions, `(width, height)`.
    pub fn size(&self) -> (r: (usize, usize))
        ensures
            r.0 == self.spec_width(),
            r.1 == self.spec_height(),
    {
        (self.width, self.height)
    }
}

impl Default for Pixmap {
    /// An 800 by 600 canvas split into 10 shards, every pixel black.
    fn default() -> (r: Self)
        ensures
            r.wf(),
            r.spec_width() == 800,
            r.spec_height() == 600,
            r.num_shards() == 10,
            r.pixels() == Seq::new(480000nat, |g: int| Color(0, 0, 0)),
    {
        match Pixmap::new(800, 600, 10) {
            Ok(p) => p,
            Err(_) => vstd::pervasive::unreached(),
        }
    }
}

/// Law: writing an in-range pixel and then reading the same coordinate
/// yields exactly the written color.
pub proof fn lemma_set_then_get(p: Pixmap, q: Pixmap, x: int, y: int, c: Color)
    requires
        p.wf(),
        p.in_range(x, y),
        q.wf(),
        q.spec_width() == p.spec_width(),
        q.spec_height() == p.spec_height(),
        q.pixels() == p.pixels().update(p.global_index(x, y), c),
    ensures
        q.pixels()[q.global_index(x, y)] == c,
{
    p.lemma_global_in_shards(x, y);
}

/// Law: issuing the same write twice leaves the canvas exactly as issuing
/// it once does.
pub proof fn lemma_set_idempotent(p: Pixmap, q1: Pixmap, q2: Pixmap, x: int, y: int, c: Color)
    requires
        p.wf(),
        p.in_range(x, y),
        q1.spec_width() == p.spec_width(),
        q1.spec_height() == p.spec_height(),
        q1.pixels() == p.pixels().update(p.global_index(x, y), c),
        q2.pixels() == q1.pixels().update(q1.global_index(x, y), c),
    ensures
        q2.pixels() == q1.pixels(),
{
    p.lemma_global_in_shards(x, y);
    assert(q2.pixels() =~= q1.pixels());
}

} // verus!
