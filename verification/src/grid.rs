//! Particles and particle grids.
//!
//! A grid resamples one image onto `sidelen x sidelen` cells; each cell
//! becomes one particle carrying the cell-center position (fixed-point,
//! normalized to `[0, UNIT]`) and an RGB color.  The grid index is the
//! canonical particle id for that image.

use vstd::prelude::*;
use crate::fixed::UNIT;

verus! {

/// One point-particle: a fixed-point position and an RGB color.
#[derive(Clone, Copy, PartialEq, Eq, Structural, Debug)]
pub struct Particle {
    pub x: i64,
    pub y: i64,
    pub red: u8,
    pub green: u8,
    pub blue: u8,
}

impl Particle {
    /// Positions stay inside the normalized image square.
    pub open spec fn wf(self) -> bool {
        &&& 0 <= self.x <= UNIT
        &&& 0 <= self.y <= UNIT
    }

    pub fn new(x: i64, y: i64, red: u8, green: u8, blue: u8) -> (p: Particle)
        requires
            0 <= x <= UNIT,
            0 <= y <= UNIT,
        ensures
            p.wf(),
            p == (Particle { x, y, red, green, blue }),
    {
        Particle { x, y, red, green, blue }
    }
}

/// Why a grid could not be built.
#[derive(Clone, Copy, PartialEq, Eq, Structural, Debug)]
pub enum GridError {
    /// `sidelen` is zero or beyond the largest supported side.
    BadSideLength,
    /// The pixel data or particle list does not hold `sidelen * sidelen`
    /// entries.
    WrongDataLength,
    /// A particle position lies outside the normalized square.
    PositionOutOfRange,
}

/// Largest supported grid side.
pub const MAX_SIDELEN: u32 = 256;

/// Largest supported particle count (`MAX_SIDELEN` squared).
pub const MAX_PARTICLES: usize = 65536;

/// The normalized center of cell `k` out of `s` along one axis.
pub open spec fn grid_coord(k: int, s: int) -> int {
    (2 * k + 1) * (UNIT as int) / (2 * s)
}

/// Cell centers lie strictly inside the normalized square.
pub proof fn lemma_grid_coord_in_range(k: int, s: int)
    requires
        0 <= k < s,
    ensures
        0 <= grid_coord(k, s) <= UNIT,
{
    let num = (2 * k + 1) * (UNIT as int);
    let den = 2 * s;
    assert(0 <= num) by {
        vstd::arithmetic::mul::lemma_mul_nonnegative(2 * k + 1, UNIT as int);
    }
    assert(num <= den * (UNIT as int)) by {
        vstd::arithmetic::mul::lemma_mul_inequality(2 * k + 1, den, UNIT as int);
    }
    assert(0 <= num / den) by {
        vstd::arithmetic::div_mod::lemma_div_is_ordered(0, num, den);
    }
    assert(num / den <= UNIT) by {
        vstd::arithmetic::div_mod::lemma_div_is_ordered(num, den * (UNIT as int), den);
        vstd::arithmetic::div_mod::lemma_div_multiples_vanish(UNIT as int, den);
    }
}

/// A `sidelen x sidelen` particle set derived from one image, in row-major
/// order.
#[derive(Debug)]
pub struct ParticleGrid {
    pub sidelen: u32,
    pub particles: Vec<Particle>,
}

impl ParticleGrid {
    pub open spec fn wf(self) -> bool {
        &&& 1 <= self.sidelen <= MAX_SIDELEN
        &&& self.particles@.len() == self.sidelen * self.sidelen
        &&& forall|i: int| 0 <= i < self.particles@.len() ==> (#[trigger] self.particles@[i]).wf()
    }

    /// Number of particles.
    pub fn len(&self) -> (n: usize)
        ensures
            n == self.particles@.len(),
    {
        self.particles.len()
    }

    /// Wraps an explicit particle list, checking the grid invariant.
    pub fn from_particles(sidelen: u32, particles: Vec<Particle>) -> (r: Result<
        ParticleGrid,
        GridError,
    >)
        ensures
            r is Ok <==> {
                &&& 1 <= sidelen <= MAX_SIDELEN
                &&& particles@.len() == sidelen * sidelen
                &&& forall|i: int| 0 <= i < particles@.len() ==> (#[trigger] particles@[i]).wf()
            },
            r matches Ok(g) ==> g.wf() && g.sidelen == sidelen && g.particles@ == particles@,
            r matches Err(e) ==> (e == GridError::BadSideLength <==> !(1 <= sidelen
                <= MAX_SIDELEN)),
    {
        if sidelen < 1 || sidelen > MAX_SIDELEN {
            return Err(GridError::BadSideLength);
        }
        proof {
            assert((sidelen as int) * (sidelen as int) <= 65536) by (nonlinear_arith)
                requires 1 <= sidelen <= 256;
        }
        let n: usize = (sidelen as usize) * (sidelen as usize);
        if particles.len() != n {
            return Err(GridError::WrongDataLength);
        }
        let mut i: usize = 0;
        while i < particles.len()
            invariant
                i <= particles@.len(),
                1 <= sidelen <= MAX_SIDELEN,
                particles@.len() == sidelen * sidelen,
                forall|k: int| 0 <= k < i ==> (#[trigger] particles@[k]).wf(),
            decreases particles@.len() - i,
        {
            let p = particles[i];
            if p.x < 0 || p.x > UNIT || p.y < 0 || p.y > UNIT {
                return Err(GridError::PositionOutOfRange);
            }
            i = i + 1;
        }
        Ok(ParticleGrid { sidelen, particles })
    }

    /// Resamples raw row-major RGB bytes (3 per pixel) onto the grid: the
    /// particle of cell `(row, col)` sits at the cell center and carries the
    /// pixel's color.
    pub fn from_pixels(sidelen: u32, rgb: &Vec<u8>) -> (r: Result<ParticleGrid, GridError>)
        ensures
            r is Ok <==> (1 <= sidelen <= MAX_SIDELEN && rgb@.len() == 3 * ((sidelen as int) * (
            sidelen as int))),
            r matches Ok(g) ==> {
                &&& g.wf()
                &&& g.sidelen == sidelen
                &&& forall|i: int|
                    0 <= i < g.particles@.len() ==> {
                        &&& (#[trigger] g.particles@[i]).x == grid_coord(
                            i % (sidelen as int),
                            sidelen as int,
                        )
                        &&& g.particles@[i].y == grid_coord(i / (sidelen as int), sidelen as int)
                        &&& g.particles@[i].red == rgb@[3 * i]
                        &&& g.particles@[i].green == rgb@[3 * i + 1]
                        &&& g.particles@[i].blue == rgb@[3 * i + 2]
                    }
            },
    {
        if sidelen < 1 || sidelen > MAX_SIDELEN {
            return Err(GridError::BadSideLength);
        }
        let s: usize = sidelen as usize;
        proof {
            assert((s as int) * (s as int) <= 65536) by (nonlinear_arith)
                requires 1 <= s <= 256;
        }
        let n: usize = s * s;
        if rgb.len() != 3 * n {
            return Err(GridError::WrongDataLength);
        }
        let mut particles: Vec<Particle> = Vec::new();
        let mut i: usize = 0;
        while i < n
            invariant
                i <= n,
                n == s * s,
                n <= 65536,
                s == sidelen,
                1 <= s <= MAX_SIDELEN,
                rgb@.len() == 3 * n,
                particles@.len() == i,
                forall|k: int|
                    0 <= k < i ==> {
                        &&& (#[trigger] particles@[k]).wf()
                        &&& particles@[k].x == grid_coord(k % (s as int), s as int)
                        &&& particles@[k].y == grid_coord(k / (s as int), s as int)
                        &&& particles@[k].red == rgb@[3 * k]
                        &&& particles@[k].green == rgb@[3 * k + 1]
                        &&& particles@[k].blue == rgb@[3 * k + 2]
                    },
            decreases n - i,
        {
            let col: usize = i % s;
            let row: usize = i / s;
            proof {
                assert((i as int) / (s as int) < s) by (nonlinear_arith)
                    requires i < s * s && s >= 1;
                lemma_grid_coord_in_range(col as int, s as int);
                lemma_grid_coord_in_range(row as int, s as int);
                assert(3 * i + 2 < 3 * n);
            }
            let x: i64 = ((2 * (col as i64) + 1) * UNIT) / (2 * (s as i64));
            let y: i64 = ((2 * (row as i64) + 1) * UNIT) / (2 * (s as i64));
            let p = Particle {
                x,
                y,
                red: rgb[3 * i],
                green: rgb[3 * i + 1],
                blue: rgb[3 * i + 2],
            };
            particles.push(p);
            i = i + 1;
        }
        Ok(ParticleGrid { sidelen, particles })
    }
}

} // verus!
