//! The concurrent canvas store: the same shard partition and address
//! mapping as [`crate::pixmap::Pixmap`], with one lock per shard so that
//! connection handlers mutate the canvas in parallel.
//!
//! No lock ever spans two shards, and a whole color triple is replaced
//! under one lock acquisition, so a read never observes a mix of two
//! writes.  Writers to different shards take different locks and do not
//! wait on each other; the address mapping bijection
//! ([`crate::pixmap::Pixmap::lemma_mapping_injective`]) is what makes
//! that partition sound.  The value-level contracts (what a read returns
//! after a write) live on the sequential model in [`crate::pixmap`]; a
//! shared canvas can only promise what holds whatever other writers do.

use vstd::prelude::*;
use vstd::arithmetic::div_mod::{
    lemma_div_pos_is_pos, lemma_fundamental_div_mod, lemma_mod_bound, lemma_multiply_divide_lt,
};
use vstd::rwlock::{RwLock, RwLockPredicate};

use crate::color::Color;
use crate::pixmap::{valid_dimensions, PixmapError};

verus! {

/// The invariant each shard's lock maintains: the guarded slice holds
/// exactly `shard_size` colors, so indexing by an in-shard offset never
/// fails.
pub struct ShardPred {
    /// How many pixels the guarded shard holds.
    pub shard_size: int,
}

impl RwLockPredicate<Vec<Color>> for ShardPred {
    open spec fn inv(self, v: Vec<Color>) -> bool {
        v.len() == self.shard_size
    }
}

/// A pixel canvas shared by concurrent connection handlers: immutable
/// dimensions, one independently lockable slice per shard.
pub struct SharedPixmap {
    shards: Vec<RwLock<Vec<Color>, ShardPred>>,
    width: usize,
    height: usize,
}

impl SharedPixmap {
    /// The canvas width, in pixels.
    pub closed spec fn spec_width(self) -> int {
        self.width as int
    }

    /// The canvas height, in pixels.
    pub closed spec fn spec_height(self) -> int {
        self.height as int
    }

    /// How many independently locked shards the canvas has.
    pub closed spec fn num_shards(self) -> int {
        self.shards.len() as int
    }

    /// The total number of pixels.
    pub open spec fn total(self) -> int {
        self.spec_width() * self.spec_height()
    }

    /// How many pixels each shard holds.
    pub open spec fn shard_size(self) -> int {
        self.total() / self.num_shards()
    }

    /// Whether `(x, y)` addresses a pixel of this canvas.
    pub open spec fn in_range(self, x: int, y: int) -> bool {
        0 <= x < self.spec_width() && 0 <= y < self.spec_height()
    }

    /// Well-formedness: valid dimensions and every shard lock configured
    /// to guard exactly `shard_size` pixels.
    pub closed spec fn wf(self) -> bool {
        &&& valid_dimensions(self.spec_width(), self.spec_height(), self.num_shards())
        &&& self.total() <= usize::MAX
        &&& forall|s: int|
            0 <= s < self.shards.len() ==> (#[trigger] self.shards[s]).pred() == (ShardPred {
                shard_size: self.shard_size(),
            })
    }

    /// The partition facts the methods need.
    proof fn lemma_bounds(self, x: int, y: int)
        requires
            self.wf(),
            self.in_range(x, y),
        ensures
            0 <= y * self.spec_width() + x < self.total(),
            0 <= (y * self.spec_width() + x) / self.shard_size() < self.num_shards(),
            0 <= (y * self.spec_width() + x) % self.shard_size() < self.shard_size(),
            0 < self.shard_size(),
    {
        let w = self.spec_width();
        let h = self.spec_height();
        let n = self.num_shards();
        let ss = self.shard_size();
        let g = y * w + x;
        assert(0 <= g < w * h) by (nonlinear_arith)
            requires 0 <= x < w, 0 <= y < h, g == y * w + x;
        lemma_fundamental_div_mod(w * h, n);
        assert(ss > 0) by (nonlinear_arith)
            requires n > 0, n < w * h, w * h == n * ss;
        assert(g < ss * n) by (nonlinear_arith)
            requires g < w * h, w * h == n * ss;
        lemma_multiply_divide_lt(g, ss, n);
        lemma_div_pos_is_pos(g, ss);
        lemma_mod_bound(g, ss);
    }

    /// Creates a shared canvas with every pixel black, failing for the
    /// same distinct reasons as the sequential store.
    pub fn new(width: usize, height: usize, num_shards: usize) -> (r: Result<
        SharedPixmap,
        PixmapError,
    >)
        requires
            width * height <= usize::MAX,
        ensures
            match r {
                Ok(p) => {
                    &&& valid_dimensions(width as int, height as int, num_shards as int)
                    &&& p.wf()
                    &&& p.spec_width() == width
                    &&& p.spec_height() == height
                    &&& p.num_shards() == num_shards
                },
                Err(_) => !valid_dimensions(width as int, height as int, num_shards as int),
            },
    {
        if width == 0 {
            Err(PixmapError::ZeroWidth)
        } else if height == 0 {
            Err(PixmapError::ZeroHeight)
        } else if num_shards == 0 {
            Err(PixmapError::ZeroShards)
        } else if num_shards >= width * height {
            Err(PixmapError::TooManyShards)
        } else if (width * height) % num_shards != 0 {
            Err(PixmapError::UnevenShards)
        } else {
            let total = width * height;
            let shard_size = total / num_shards;
            let mut shards: Vec<RwLock<Vec<Color>, ShardPred>> = Vec::new();
            while shards.len() < num_shards
                invariant
                    shards@.len() <= num_shards,
                    forall|s: int|
                        0 <= s < shards@.len() ==> (#[trigger] shards@[s]).pred() == (ShardPred {
                            shard_size: shard_size as int,
                        }),
                decreases num_shards - shards@.len(),
            {
                let mut shard: Vec<Color> = Vec::new();
                while shard.len() < shard_size
                    invariant
                        shard@.len() <= shard_size,
                    decreases shard_size - shard@.len(),
                {
                    shard.push(Color(0, 0, 0));
                }
                shards.push(
                    RwLock::new(shard, Ghost(ShardPred { shard_size: shard_size as int })),
                );
            }
            let p = SharedPixmap { shards, width, height };
            proof {
                lemma_fundamental_div_mod((width * height) as int, num_shards as int);
            }
            Ok(p)
        }
    }

    /// The shard and in-shard slot owning `(x, y)`.
    fn pixel_index(&self, x: usize, y: usize) -> (r: (usize, usize))
        requires
            self.wf(),
            self.in_range(x as int, y as int),
        ensures
            r.0 < self.num_shards(),
            r.1 < self.shard_size(),
    {
        proof {
            self.lemma_bounds(x as int, y as int);
        }
        let global_i = y * self.width + x;
        let shard_size = self.width * self.height / self.shards.len();
        (global_i / shard_size, global_i % shard_size)
    }

    /// Reads the color at `(x, y)` under the owning shard's read lock, or
    /// nothing when the coordinate is out of range.  The critical section
    /// is one vector read.
    pub fn get_pixel(&self, x: usize, y: usize) -> (r: Option<Color>)
        requires
            self.wf(),
        ensures
            r is Some <==> self.in_range(x as int, y as int),
    {
        if !(x < self.width && y < self.height) {
            None
        } else {
            let (shard_index, i) = self.pixel_index(x, y);
            let handle = self.shards[shard_index].acquire_read();
            let c = handle.borrow()[i];
            handle.release_read();
            Some(c)
        }
    }

    /// Replaces the whole color at `(x, y)` under the owning shard's
    /// write lock and reports whether the coordinate was in range; an
    /// out-of-range write changes nothing.  Writers to other shards take
    /// other locks.
    pub fn set_pixel(&self, x: usize, y: usize, color: Color) -> (r: bool)
        requires
            self.wf(),
        ensures
            r == self.in_range(x as int, y as int),
    {
        if !(x < self.width && y < self.height) {
            false
        } else {
            let (shard_index, i) = self.pixel_index(x, y);
            let (mut shard, handle) = self.shards[shard_index].acquire_write();
            shard[i] = color;
            handle.release_write(shard);
            true
        }
    }

    /// The immutable canvas dimensions, `(width, height)`; no lock is
    /// needed to read them.
    pub fn size(&self) -> (r: (usize, usize))
        ensures
            r.0 == self.spec_width(),
            r.1 == self.spec_height(),
    {
        (self.width, self.height)
    }
}

} // verus!
