//! Per-cell influence of the factions, in fixed point.
//!
//! Control is counted in millionths: a channel value of `1_000_000` is one
//! unit of control. Every channel stays within `0..=MAX_CONTROL_VALUE`.
use vstd::prelude::*;

verus! {

/// Millionths in one unit of control.
pub const CONTROL_UNIT: u32 = 1000000;

/// Ceiling of every channel: five hundred units.
pub const MAX_CONTROL_VALUE: u32 = 500000000;

/// A decayed channel at or below this floor (a tenth of a unit) drops to zero.
pub const MIN_CONTROL: u32 = 100000;

/// Each decay tick removes this many parts of a channel ...
pub const DECAY_RATE_NUM: u32 = 1;

/// ... out of this many.
pub const DECAY_RATE_DEN: u32 = 4;

/// Share of a computed diffusion transfer that is actually moved: numerator ...
pub const DIFFUSION_EFFICIENCY_NUM: u32 = 1;

/// ... and denominator.
pub const DIFFUSION_EFFICIENCY_DEN: u32 = 100;

/// The parties that can hold a cell.
#[derive(Clone, Copy, Debug, PartialEq, Eq, Hash, Structural)]
pub enum Faction {
    A,
    B,
    Neutral,
}

/// Influence of each faction over one cell.
#[derive(Clone, Copy, Debug, PartialEq, Eq, Hash, Structural)]
pub struct ControlVector {
    pub a: u32,
    pub b: u32,
    pub neutral: u32,
}

/// `x` limited to `MAX_CONTROL_VALUE`.
pub open spec fn cap(x: int) -> int {
    if x > MAX_CONTROL_VALUE {
        MAX_CONTROL_VALUE as int
    } else {
        x
    }
}

/// `x` limited to `0..=MAX_CONTROL_VALUE`.
pub open spec fn clamp(x: int) -> int {
    if x < 0 {
        0
    } else {
        cap(x)
    }
}

/// One decay tick of a channel: it loses a quarter of its value, rounded
/// down, and drops to zero once at or below the floor.
pub open spec fn decay_channel(c: int) -> int {
    let next = c - c * (DECAY_RATE_NUM as int) / (DECAY_RATE_DEN as int);
    if next > MIN_CONTROL {
        next
    } else {
        0
    }
}

/// `k` decay ticks of a channel.
pub open spec fn decay_ticks(c: int, k: nat) -> int
    decreases k,
{
    if k == 0 {
        c
    } else {
        decay_channel(decay_ticks(c, (k - 1) as nat))
    }
}

/// Amount diffused from a cell holding `src` to a neighbour holding `dst`,
/// when the source has `n` neighbours: the source's value times its share
/// `1 / (2 n)` times the relative gap `(src - dst) / src`, times the
/// efficiency, which is `(src - dst) * efficiency / (2 n)`.
pub open spec fn transfer_spec(src: int, dst: int, n: int) -> int {
    if dst < src && n > 0 {
        (src - dst) * (DIFFUSION_EFFICIENCY_NUM as int) / (2 * n * (DIFFUSION_EFFICIENCY_DEN as int))
    } else {
        0
    }
}

impl ControlVector {
    /// Every channel is within `0..=MAX_CONTROL_VALUE`.
    pub open spec fn wf(self) -> bool {
        self.a <= MAX_CONTROL_VALUE && self.b <= MAX_CONTROL_VALUE && self.neutral
            <= MAX_CONTROL_VALUE
    }

    /// The channel of faction `f`.
    pub open spec fn channel(self, f: Faction) -> int {
        match f {
            Faction::A => self.a as int,
            Faction::B => self.b as int,
            Faction::Neutral => self.neutral as int,
        }
    }

    /// Channel-wise sum, capped at `MAX_CONTROL_VALUE`.
    pub open spec fn plus_spec(self, o: ControlVector) -> ControlVector {
        ControlVector {
            a: cap(self.a + o.a) as u32,
            b: cap(self.b + o.b) as u32,
            neutral: cap(self.neutral + o.neutral) as u32,
        }
    }

    /// Every channel after one decay tick.
    pub open spec fn decayed_spec(self) -> ControlVector {
        ControlVector {
            a: decay_channel(self.a as int) as u32,
            b: decay_channel(self.b as int) as u32,
            neutral: decay_channel(self.neutral as int) as u32,
        }
    }

    /// The faction with the largest channel; ties go to `A`, then `B`.
    pub open spec fn max_status_spec(self) -> Faction {
        if self.a >= self.b && self.a >= self.neutral {
            Faction::A
        } else if self.b >= self.neutral {
            Faction::B
        } else {
            Faction::Neutral
        }
    }

    /// No control at all.
    pub open spec fn zero_spec() -> ControlVector {
        ControlVector { a: 0, b: 0, neutral: 0 }
    }

    /// Channels taken from `a`, `b` and `neutral`, each capped.
    pub fn new(a: u32, b: u32, neutral: u32) -> (v: ControlVector)
        ensures
            v.a == cap(a as int),
            v.b == cap(b as int),
            v.neutral == cap(neutral as int),
            v.wf(),
    {
        ControlVector {
            a: if a > MAX_CONTROL_VALUE {
                MAX_CONTROL_VALUE
            } else {
                a
            },
            b: if b > MAX_CONTROL_VALUE {
                MAX_CONTROL_VALUE
            } else {
                b
            },
            neutral: if neutral > MAX_CONTROL_VALUE {
                MAX_CONTROL_VALUE
            } else {
                neutral
            },
        }
    }

    /// No control at all.
    pub fn zero() -> (v: ControlVector)
        ensures
            v == ControlVector::zero_spec(),
    {
        ControlVector { a: 0, b: 0, neutral: 0 }
    }

    /// Every channel is zero.
    pub fn is_empty(&self) -> (e: bool)
        ensures
            e == (self.a == 0 && self.b == 0 && self.neutral == 0),
    {
        self.a == 0 && self.b == 0 && self.neutral == 0
    }

    /// The channel of faction `f`.
    pub fn get(&self, f: Faction) -> (c: u32)
        ensures
            c == self.channel(f),
    {
        match f {
            Faction::A => self.a,
            Faction::B => self.b,
            Faction::Neutral => self.neutral,
        }
    }

    /// Replaces the channel of faction `f` by `value`, capped.
    pub fn set(&mut self, f: Faction, value: u32)
        ensures
            final(self).channel(f) == cap(value as int),
            forall|g: Faction| g != f ==> final(self).channel(g) == old(self).channel(g),
    {
        let v = if value > MAX_CONTROL_VALUE {
            MAX_CONTROL_VALUE
        } else {
            value
        };
        match f {
            Faction::A => self.a = v,
            Faction::B => self.b = v,
            Faction::Neutral => self.neutral = v,
        }
    }

    /// Total control over all channels.
    pub fn total(&self) -> (t: u64)
        ensures
            t == self.a + self.b + self.neutral,
    {
        self.a as u64 + self.b as u64 + self.neutral as u64
    }

    /// Channel-wise sum, capped at `MAX_CONTROL_VALUE`.
    pub fn plus(&self, other: ControlVector) -> (v: ControlVector)
        ensures
            v == self.plus_spec(other),
            v.wf(),
    {
        let a = self.a as u64 + other.a as u64;
        let b = self.b as u64 + other.b as u64;
        let n = self.neutral as u64 + other.neutral as u64;
        let cap_of = MAX_CONTROL_VALUE as u64;
        ControlVector {
            a: if a > cap_of {
                MAX_CONTROL_VALUE
            } else {
                a as u32
            },
            b: if b > cap_of {
                MAX_CONTROL_VALUE
            } else {
                b as u32
            },
            neutral: if n > cap_of {
                MAX_CONTROL_VALUE
            } else {
                n as u32
            },
        }
    }

    /// Adds `other` into this vector, capped.
    pub fn absorb(&mut self, other: ControlVector)
        ensures
            *final(self) == old(self).plus_spec(other),
    {
        *self = self.plus(other);
    }

    /// Takes `amount` from every channel, stopping at zero.
    pub fn drain(&self, amount: u32) -> (v: ControlVector)
        ensures
            v.a == if self.a > amount {
                self.a - amount
            } else {
                0
            },
            v.b == if self.b > amount {
                self.b - amount
            } else {
                0
            },
            v.neutral == if self.neutral > amount {
                self.neutral - amount
            } else {
                0
            },
    {
        ControlVector {
            a: if self.a > amount {
                self.a - amount
            } else {
                0
            },
            b: if self.b > amount {
                self.b - amount
            } else {
                0
            },
            neutral: if self.neutral > amount {
                self.neutral - amount
            } else {
                0
            },
        }
    }

    /// Takes `amount` from the channel of faction `f`, stopping at zero.
    pub fn spend(&mut self, f: Faction, amount: u32)
        ensures
            final(self).channel(f) == if old(self).channel(f) > amount {
                old(self).channel(f) - amount
            } else {
                0
            },
            forall|g: Faction| g != f ==> final(self).channel(g) == old(self).channel(g),
    {
        let c = self.get(f);
        let v = if c > amount {
            c - amount
        } else {
            0
        };
        match f {
            Faction::A => self.a = v,
            Faction::B => self.b = v,
            Faction::Neutral => self.neutral = v,
        }
    }

    /// The vector after one decay tick.
    pub fn decayed(&self) -> (v: ControlVector)
        ensures
            v == self.decayed_spec(),
    {
        ControlVector {
            a: decay_value(self.a),
            b: decay_value(self.b),
            neutral: decay_value(self.neutral),
        }
    }

    /// The dominant faction; ties go to `A`, then `B`, then `Neutral`.
    pub fn max_status(&self) -> (f: Faction)
        ensures
            f == self.max_status_spec(),
            self.channel(f) >= self.a && self.channel(f) >= self.b && self.channel(f)
                >= self.neutral,
    {
        if self.a >= self.b && self.a >= self.neutral {
            Faction::A
        } else if self.b >= self.neutral {
            Faction::B
        } else {
            Faction::Neutral
        }
    }
}

/// One decay tick of a single channel.
pub fn decay_value(c: u32) -> (next: u32)
    ensures
        next == decay_channel(c as int),
        c > 0 ==> next < c,
        c == 0 ==> next == 0,
{
    let wide = c as u64;
    assert((wide as int) * 1 / 4 <= wide as int) by (nonlinear_arith);
    let next = wide - wide * (DECAY_RATE_NUM as u64) / (DECAY_RATE_DEN as u64);
    if next > MIN_CONTROL as u64 {
        next as u32
    } else {
        0
    }
}

/// The diffusion transfer from `src` to `dst` for a source with `n` neighbours.
pub fn transfer(src: u32, dst: u32, n: u32) -> (t: u32)
    requires
        n <= 6,
    ensures
        t == transfer_spec(src as int, dst as int, n as int),
        2 * t <= src - dst || t == 0,
{
    if dst < src && n > 0 {
        let gap = (src - dst) as u64;
        let t = gap * (DIFFUSION_EFFICIENCY_NUM as u64) / (2 * (n as u64) * (
        DIFFUSION_EFFICIENCY_DEN as u64));
        proof {
            assert(t * 2 <= gap) by (nonlinear_arith)
                requires
                    t == gap * 1 / (2 * n * 100),
                    n >= 1,
                    gap >= 0,
            ;
        }
        t as u32
    } else {
        0
    }
}

} // verus!
