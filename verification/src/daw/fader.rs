//! Faders drawn on the grid: eight steps per fader, with a glide towards a
//! pressed step whose speed depends on the velocity of the press.

use vstd::prelude::*;

verus! {

/// The values of the eight steps of a unipolar fader.
pub const UNIPOLAR: [u8; 8] = [0, 17, 34, 52, 70, 89, 108, 127];

/// The values of the eight steps of a bipolar fader (centre between 63 and 64).
pub const BIPOLAR: [u8; 8] = [0, 21, 42, 63, 64, 85, 106, 127];

/// `a + (b - a) * num / den` with the quotient rounded towards zero, as the
/// firmware computes it in signed integers.
pub open spec fn lerp(a: int, b: int, num: int, den: int) -> int {
    if b >= a {
        a + (b - a) * num / den
    } else {
        a - (a - b) * num / den
    }
}

proof fn lemma_lerp_between(a: int, b: int, num: int, den: int)
    requires
        0 <= num <= den,
        den > 0,
    ensures
        a <= b ==> a <= lerp(a, b, num, den) <= b,
        b <= a ==> b <= lerp(a, b, num, den) <= a,
        num == den ==> lerp(a, b, num, den) == b,
{
    if b >= a {
        let d = b - a;
        assert(0 <= d * num / den <= d) by (nonlinear_arith)
            requires
                d >= 0,
                0 <= num <= den,
                den > 0,
        ;
        if num == den {
            assert(d * num / den == d) by (nonlinear_arith)
                requires
                    num == den,
                    den > 0,
            ;
        }
    } else {
        let d = a - b;
        assert(0 <= d * num / den <= d) by (nonlinear_arith)
            requires
                d >= 0,
                0 <= num <= den,
                den > 0,
        ;
        if num == den {
            assert(d * num / den == d) by (nonlinear_arith)
                requires
                    num == den,
                    den > 0,
            ;
        }
    }
}

fn lerp_exec(a: u32, b: u32, num: u32, den: u32) -> (r: u32)
    requires
        a <= 0xffff,
        b <= 0xffff,
        num <= den,
        den > 0,
        den <= 0xffff,
    ensures
        r as int == lerp(a as int, b as int, num as int, den as int),
        a <= b ==> a <= r <= b,
        b <= a ==> b <= r <= a,
{
    proof {
        lemma_lerp_between(a as int, b as int, num as int, den as int);
    }
    if b >= a {
        let d = b - a;
        assert(d * num <= 0xffff * 0xffff) by (nonlinear_arith)
            requires
                d <= 0xffff,
                num <= 0xffff,
        ;
        a + d * num / den
    } else {
        let d = a - b;
        assert(d * num <= 0xffff * 0xffff) by (nonlinear_arith)
            requires
                d <= 0xffff,
                num <= 0xffff,
        ;
        a - d * num / den
    }
}

/// The value of a step of a fader.
pub open spec fn step_value(bipolar: bool, step: int) -> u8 {
    if bipolar {
        BIPOLAR@[step]
    } else {
        UNIPOLAR@[step]
    }
}

/// How long a glide lasts, in ticks, for a press of the given velocity: from
/// 20 ticks at full velocity to 2000 at the softest.
pub open spec fn glide_duration(velocity: u8) -> u16 {
    let v: int = if velocity < 1 {
        1
    } else if velocity > 127 {
        127
    } else {
        velocity as int
    };
    (20 + (127 - v) * 1980 / 126) as u16
}

/// Whether a bipolar fader holding `value` lights step `step` fully.
pub open spec fn bipolar_lit(value: u8, step: int) -> bool {
    if 63 <= value <= 64 {
        step == 3 || step == 4
    } else if value < 63 {
        step <= 3 && value <= BIPOLAR@[step]
    } else {
        step >= 4 && value >= BIPOLAR@[step]
    }
}

pub open spec fn bipolar_level(value: u8, step: int) -> int {
    if bipolar_lit(value, step) {
        255
    } else {
        0
    }
}

/// The brightness of a step of a bipolar fader at `position`, searching the
/// segments between stops from segment `j` on: within the first segment
/// whose upper stop is not below the position, the brightness is interpolated
/// between the levels at the two stops.
pub open spec fn bipolar_brightness_from(position: int, step: int, j: int) -> int
    decreases 7 - j,
{
    if j >= 7 {
        bipolar_level(127, step)
    } else {
        let low = BIPOLAR@[j] as int * 256;
        let high = BIPOLAR@[j + 1] as int * 256;
        if position <= high {
            lerp(
                bipolar_level(BIPOLAR@[j], step),
                bipolar_level(BIPOLAR@[j + 1], step),
                position - low,
                high - low,
            )
        } else {
            bipolar_brightness_from(position, step, j + 1)
        }
    }
}

/// A fader of a bank.  `start`, `target`, `elapsed` and `duration`
/// describe the glide in progress; `duration == 0` means it rests at `value`.
#[derive(Clone, Copy, Debug)]
pub struct Fader {
    pub bipolar: bool,
    pub cc: u8,
    pub colour: u8,
    pub value: u8,
    pub start: u16,
    pub target: u8,
    pub elapsed: u16,
    pub duration: u16,
}

impl Fader {
    /// The same fader with its glide stopped.
    pub open spec fn stopped(self) -> Fader {
        Fader { duration: 0, ..self }
    }

    /// The fader's position in 1/256ths of a value: the resting value, or
    /// the point reached along the glide from `start` to `target`.
    pub open spec fn glide_position(self) -> int {
        if !self.moving() {
            self.value as int * 256
        } else {
            lerp(
                self.start as int,
                self.target as int * 256,
                if self.elapsed <= self.duration {
                    self.elapsed as int
                } else {
                    self.duration as int
                },
                self.duration as int,
            )
        }
    }

    /// The fader after a press of `step` at `velocity`, and whether it was
    /// already resting at that step's value.  A fader without colour ignores
    /// presses.
    pub open spec fn pressed(self, step: int, velocity: u8) -> (Fader, bool) {
        if self.colour == 0 {
            (self, false)
        } else {
            let target = step_value(self.bipolar, step);
            let start = self.glide_position() as u16;
            let glide = Fader {
                start,
                target,
                elapsed: 0,
                duration: glide_duration(velocity),
                ..self
            };
            if start as int == target as int * 256 {
                (glide.stopped(), true)
            } else {
                (glide, false)
            }
        }
    }

    /// The fader after one tick, and whether its value changed.  The value
    /// follows the glide on every second tick and on the last one.
    pub open spec fn ticked(self) -> (Fader, bool) {
        if !self.moving() {
            (self, false)
        } else {
            let elapsed = if self.elapsed == 0xffff {
                0xffffu16
            } else {
                (self.elapsed + 1) as u16
            };
            let advanced = Fader { elapsed, ..self };
            if elapsed < self.duration && elapsed % 2 != 0 {
                (advanced, false)
            } else {
                let next = (advanced.glide_position() / 256) as u8;
                let done = if elapsed >= self.duration {
                    advanced.stopped()
                } else {
                    advanced
                };
                (Fader { value: next, ..done }, next != self.value)
            }
        }
    }

    /// How brightly step `step` of the fader is lit, 0 to 255.
    pub open spec fn step_brightness(self, step: int) -> u8 {
        if self.colour == 0 {
            0
        } else if !self.bipolar {
            let low: int = if step == 0 {
                0
            } else {
                UNIPOLAR@[step - 1] as int
            };
            let high: int = if step == 0 {
                1
            } else {
                UNIPOLAR@[step] as int
            };
            let p = self.glide_position();
            if p <= low * 256 {
                0
            } else {
                let v = (p - low * 256) * 255 / ((high - low) * 256);
                if v > 255 {
                    255
                } else {
                    v as u8
                }
            }
        } else {
            bipolar_brightness_from(self.glide_position(), step, 0) as u8
        }
    }
}

/// The fader a new bank holds: unipolar, dark, at rest at 0 on controller 0.
pub open spec fn idle_fader() -> Fader {
    Fader {
        bipolar: false,
        cc: 0,
        colour: 0,
        value: 0,
        start: 0,
        target: 0,
        elapsed: 0,
        duration: 0,
    }
}

impl Fader {
    pub fn new() -> (f: Self)
        ensures
            f == idle_fader(),
    {
        Self {
            bipolar: false,
            cc: 0,
            colour: 0,
            value: 0,
            start: 0,
            target: 0,
            elapsed: 0,
            duration: 0,
        }
    }

    /// Whether a glide is in progress.
    #[verifier::allow_in_spec]
    pub fn moving(&self) -> bool
        returns
            self.duration != 0,
    {
        self.duration != 0
    }

    pub fn stop(&mut self)
        ensures
            *final(self) == old(self).stopped(),
    {
        self.duration = 0;
    }

    /// Starts a glide to step `step`.  Returns true when the fader already
    /// rests at that step's value, and the glide is then stopped at once.
    pub fn press(&mut self, step: usize, velocity: u8) -> (r: bool)
        requires
            old(self).colour == 0 || step < 8,
        ensures
            (*final(self), r) == old(self).pressed(step as int, velocity),
    {
        if self.colour == 0 {
            return false;
        }
        let target = if self.bipolar {
            BIPOLAR[step]
        } else {
            UNIPOLAR[step]
        };
        self.start = self.position();
        self.target = target;
        self.elapsed = 0;
        let v: u32 = if velocity < 1 {
            1
        } else if velocity > 127 {
            127
        } else {
            velocity as u32
        };
        self.duration = (20 + (127 - v) * 1980 / 126) as u16;
        if self.start as u32 == (self.target as u32) * 256 {
            self.stop();
            return true;
        }
        false
    }

    /// Advances the glide by one tick; returns whether the value changed.
    pub fn tick(&mut self) -> (r: bool)
        ensures
            (*final(self), r) == old(self).ticked(),
    {
        if !self.moving() {
            return false;
        }
        self.elapsed = self.elapsed.saturating_add(1);
        if self.elapsed < self.duration && self.elapsed % 2 != 0 {
            return false;
        }
        let next = (self.position() / 256) as u8;
        if self.elapsed >= self.duration {
            self.stop();
        }
        let changed = next != self.value;
        self.value = next;
        changed
    }

    /// The position in 1/256ths of a value (see `Fader::glide_position`).
    pub fn position(&self) -> (r: u16)
        ensures
            r as int == self.glide_position(),
    {
        if !self.moving() {
            return (self.value as u16) * 256;
        }
        let num: u32 = if self.elapsed <= self.duration {
            self.elapsed as u32
        } else {
            self.duration as u32
        };
        let r = lerp_exec(self.start as u32, (self.target as u32) * 256, num, self.duration as u32);
        r as u16
    }

    /// Whether the current tick redraws the fader.
    #[verifier::allow_in_spec]
    pub fn animation_frame(&self) -> bool
        returns
            self.elapsed % 2 == 0 || self.duration == 0,
    {
        self.elapsed % 2 == 0 || !self.moving()
    }

    /// How brightly step `step` is lit, 0 to 255.
    pub fn brightness(&self, step: usize) -> (r: u8)
        requires
            self.colour == 0 || step < 8,
        ensures
            r == self.step_brightness(step as int),
    {
        if self.colour == 0 {
            return 0;
        }
        let position = self.position() as u32;
        if !self.bipolar {
            let (low, high): (u32, u32) = if step == 0 {
                (0, 1)
            } else {
                (UNIPOLAR[step - 1] as u32, UNIPOLAR[step] as u32)
            };
            if position <= low * 256 {
                return 0;
            }
            let v = (position - low * 256) * 255 / ((high - low) * 256);
            return if v > 255 {
                255
            } else {
                v as u8
            };
        }
        let mut j: usize = 0;
        while j < 7
            invariant
                j <= 7,
                step < 8,
                self.bipolar,
                self.colour != 0,
                position as int == self.glide_position(),
                j > 0 ==> position > BIPOLAR@[j as int] as int * 256,
                bipolar_brightness_from(position as int, step as int, 0)
                    == bipolar_brightness_from(position as int, step as int, j as int),
            decreases 7 - j,
        {
            let low = (BIPOLAR[j] as u32) * 256;
            let high = (BIPOLAR[j + 1] as u32) * 256;
            if position <= high {
                let a = at_stop(BIPOLAR[j], step);
                let b = at_stop(BIPOLAR[j + 1], step);
                let r = lerp_exec(a, b, position - low, high - low);
                return r as u8;
            }
            j = j + 1;
        }
        at_stop(127, step) as u8
    }
}

fn at_stop(value: u8, step: usize) -> (r: u32)
    requires
        step < 8,
    ensures
        r as int == bipolar_level(value, step as int),
{
    let lit = if 63 <= value && value <= 64 {
        step == 3 || step == 4
    } else if value < 63 {
        step <= 3 && value <= BIPOLAR[step]
    } else {
        step >= 4 && value >= BIPOLAR[step]
    };
    if lit {
        255
    } else {
        0
    }
}

/// A bank of eight faders.
pub struct BankView {
    pub horizontal: bool,
    pub faders: Seq<Fader>,
}

impl BankView {
    pub open spec fn stopped(self) -> BankView {
        BankView {
            faders: Seq::new(self.faders.len(), |i: int| self.faders[i].stopped()),
            ..self
        }
    }
}

#[derive(Clone, Copy, Debug)]
pub struct Bank {
    pub horizontal: bool,
    pub faders: [Fader; 8],
}

impl View for Bank {
    type V = BankView;

    open spec fn view(&self) -> BankView {
        BankView {
            horizontal: self.horizontal,
            faders: self.faders@,
        }
    }
}

/// The bank a DAW starts from: vertical, with eight idle faders.
pub open spec fn idle_bank() -> BankView {
    BankView { horizontal: false, faders: Seq::new(8, |i: int| idle_fader()) }
}

impl Bank {
    pub fn new() -> (b: Self)
        ensures
            b@ == idle_bank(),
    {
        let f = Fader::new();
        let b = Self { horizontal: false, faders: [f; 8] };
        assert(b@.faders =~= idle_bank().faders);
        b
    }

    /// Stops the glide of every fader.
    pub fn stop(&mut self)
        ensures
            final(self)@ == old(self)@.stopped(),
    {
        let mut i: usize = 0;
        while i < 8
            invariant
                i <= 8,
                self.horizontal == old(self).horizontal,
                forall|k: int| 0 <= k < i ==> self.faders@[k] == old(self).faders@[k].stopped(),
                forall|k: int| i <= k < 8 ==> self.faders@[k] == old(self).faders@[k],
            decreases 8 - i,
        {
            self.faders[i].stop();
            i = i + 1;
        }
        assert(self@.faders =~= old(self)@.stopped().faders);
    }
}

/// The fader after `n` ticks.
pub open spec fn ticks(f: Fader, n: nat) -> Fader
    decreases n,
{
    if n == 0 {
        f
    } else {
        ticks(f.ticked().0, (n - 1) as nat)
    }
}

/// A glide in progress keeps going until its duration is over, and then
/// rests at its target value.
pub proof fn lemma_glide_settles(f: Fader)
    requires
        f.moving(),
        f.elapsed < f.duration,
    ensures
        forall|k: nat| k < f.duration - f.elapsed ==> #[trigger] ticks(f, k).moving(),
        !ticks(f, (f.duration - f.elapsed) as nat).moving(),
        ticks(f, (f.duration - f.elapsed) as nat).value == f.target,
    decreases f.duration - f.elapsed,
{
    let g = f.ticked().0;
    assert(g.elapsed == f.elapsed + 1);
    assert(g.target == f.target && g.start == f.start);
    if f.elapsed + 1 == f.duration {
        let advanced = Fader { elapsed: (f.elapsed + 1) as u16, ..f };
        lemma_lerp_between(
            f.start as int,
            f.target as int * 256,
            f.duration as int,
            f.duration as int,
        );
        assert(advanced.glide_position() == f.target as int * 256);
        assert(g.value == f.target);
        assert(ticks(g, 0) == g);
        assert forall|k: nat| k < f.duration - f.elapsed implies #[trigger] ticks(f, k).moving() by {
            assert(k == 0);
        }
    } else {
        lemma_glide_settles(g);
        assert forall|k: nat| k < f.duration - f.elapsed implies #[trigger] ticks(f, k).moving() by {
            if k > 0 {
                assert(ticks(f, k) == ticks(g, (k - 1) as nat));
            }
        }
        assert(ticks(f, (f.duration - f.elapsed) as nat) == ticks(
            g,
            (g.duration - g.elapsed) as nat,
        ));
    }
}

/// Pressing a step of a lit fader brings it to that step's value: at once
/// when it already rests there, else after a glide lasting the press's
/// `glide_duration`.
pub proof fn lemma_press_reaches_step(f: Fader, step: int, velocity: u8)
    requires
        f.colour != 0,
        0 <= step < 8,
    ensures
        ({
            let (g, at_rest) = f.pressed(step, velocity);
            if at_rest {
                !g.moving() && g.target == step_value(f.bipolar, step)
            } else {
                &&& g.moving()
                &&& !ticks(g, glide_duration(velocity) as nat).moving()
                &&& ticks(g, glide_duration(velocity) as nat).value == step_value(f.bipolar, step)
            }
        }),
{
    let (g, at_rest) = f.pressed(step, velocity);
    if !at_rest {
        assert(glide_duration(velocity) >= 20);
        lemma_glide_settles(g);
    }
}

proof fn lemma_lerp_monotone(a: int, b: int, n1: int, n2: int, den: int)
    requires
        0 <= n1 <= n2 <= den,
        den > 0,
    ensures
        a <= b ==> lerp(a, b, n1, den) <= lerp(a, b, n2, den),
        b <= a ==> lerp(a, b, n1, den) >= lerp(a, b, n2, den),
{
    let d = if b >= a {
        b - a
    } else {
        a - b
    };
    assert(d * n1 <= d * n2) by (nonlinear_arith)
        requires
            d >= 0,
            n1 <= n2,
    ;
    vstd::arithmetic::div_mod::lemma_div_is_ordered(d * n1, d * n2, den);
    if a == b {
        assert((b - a) * n1 == 0 && (b - a) * n2 == 0) by (nonlinear_arith)
            requires
                a == b,
        ;
    }
}

/// A glide towards a higher value whose value lags behind its position.
pub open spec fn rising(f: Fader) -> bool {
    &&& f.start as int <= f.target as int * 256
    &&& f.value as int * 256 <= f.glide_position()
    &&& f.value <= f.target
}

/// A glide towards a lower value whose value is that of its position or
/// above.
pub open spec fn falling(f: Fader) -> bool {
    &&& f.start as int >= f.target as int * 256
    &&& f.glide_position() < (f.value as int + 1) * 256
    &&& f.value >= f.target
}

proof fn lemma_tick_keeps_direction(f: Fader)
    requires
        f.moving(),
        f.elapsed < f.duration,
    ensures
        ({
            let g = f.ticked().0;
            &&& rising(f) ==> f.value <= g.value <= f.target && (g.moving() ==> rising(g))
            &&& falling(f) ==> f.target <= g.value <= f.value && (g.moving() ==> falling(g))
            &&& g.moving() ==> g.elapsed < g.duration && g.start == f.start && g.target == f.target
                && g.duration == f.duration && g.elapsed == f.elapsed + 1
        }),
{
    let e = f.elapsed as int;
    let d = f.duration as int;
    let t = f.target as int * 256;
    let a = f.start as int;
    lemma_lerp_monotone(a, t, e, e + 1, d);
    lemma_lerp_between(a, t, e + 1, d);
    lemma_lerp_between(a, t, e, d);
    let g = f.ticked().0;
    let advanced = Fader { elapsed: (f.elapsed + 1) as u16, ..f };
    assert(advanced.glide_position() == lerp(a, t, e + 1, d));
    assert(f.glide_position() == lerp(a, t, e, d));
}

/// The value of a glide moves steadily towards the target: never away from
/// it, and never past it, on every tick until the glide ends.
pub proof fn lemma_glide_monotone(f: Fader)
    requires
        f.moving(),
        f.elapsed < f.duration,
    ensures
        forall|k: nat|
            k < f.duration - f.elapsed ==> (rising(f) ==> ticks(f, k).value <= #[trigger] ticks(
                f,
                k + 1,
            ).value <= f.target) && (falling(f) ==> f.target <= ticks(f, k + 1).value <= ticks(
                f,
                k,
            ).value),
    decreases f.duration - f.elapsed,
{
    lemma_tick_keeps_direction(f);
    let g = f.ticked().0;
    if g.moving() {
        lemma_glide_monotone(g);
    }
    assert forall|k: nat| k < f.duration - f.elapsed implies (rising(f) ==> ticks(f, k).value
        <= #[trigger] ticks(f, k + 1).value <= f.target) && (falling(f) ==> f.target <= ticks(
        f,
        k + 1,
    ).value <= ticks(f, k).value) by {
        assert(ticks(f, k + 1) == ticks(g, k));
        if k > 0 {
            assert(ticks(f, k) == ticks(g, (k - 1) as nat));
            assert(g.moving());
            assert(ticks(g, k) == ticks(g, ((k - 1) + 1) as nat));
        } else {
            assert(ticks(f, 0) == f);
            assert(ticks(g, 0) == g);
        }
    }
}

/// A press on a lit fader at rest glides its value steadily from where it
/// rests to the step's value.
pub proof fn lemma_press_glides_steadily(f: Fader, step: int, velocity: u8)
    requires
        f.colour != 0,
        0 <= step < 8,
        !f.moving(),
    ensures
        ({
            let (g, at_rest) = f.pressed(step, velocity);
            let target = step_value(f.bipolar, step);
            !at_rest ==> forall|k: nat|
                k < glide_duration(velocity) ==> (f.value <= target ==> ticks(g, k).value
                    <= #[trigger] ticks(g, k + 1).value <= target) && (f.value >= target ==> target
                    <= ticks(g, k + 1).value <= ticks(g, k).value)
        }),
{
    let (g, at_rest) = f.pressed(step, velocity);
    if !at_rest {
        assert(g.start as int == f.value as int * 256);
        assert(g.glide_position() == g.start as int);
        lemma_glide_monotone(g);
    }
}

} // verus!
