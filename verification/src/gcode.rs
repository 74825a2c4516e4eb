//! Motion commands for a pen plotter: a fixed preamble, one group of commands per
//! point, a fixed postamble. Lengths are in tenths of a millimetre.
use vstd::prelude::*;
use crate::math::{quot, div_toward_zero};
use crate::weighted_voronoi::lemma_mul_bound;

verus! {

/// Feed rate of travel moves, in tenths of a millimetre per minute.
pub const FEED_RATE: i32 = 10_000;

/// Height at which the head travels.
pub const Z0: i32 = 100;

/// Height to which the head is raised when the job ends.
pub const Z_END: i32 = 800;

/// Height at which the pen touches the paper.
pub const Z_PLUNGE: i32 = 40;

/// What the plotter draws at each point.
#[derive(Clone, Copy, Debug, PartialEq, Eq, Structural)]
pub enum PrintMode {
    LINES,
    DOTS,
}

/// One line of the program.
#[derive(Clone, Copy, Debug, PartialEq, Eq, Structural)]
pub enum Command {
    /// Check the printer model.
    ModelCheck,
    /// Select millimetres.
    Millimeters,
    /// Select absolute coordinates.
    Absolute,
    /// Select relative coordinates.
    Relative,
    /// Home all axes without mesh bed levelling.
    Home,
    /// An empty line.
    Blank,
    /// Move to the corner of the drawing area, at travel height.
    Park { x: i64, y: i64 },
    /// Make the current position the origin.
    SetOrigin,
    /// A comment that names the source point of the commands that follow.
    Note { x: i64, y: i64 },
    /// Move over `(x, y)` at the feed rate.
    Travel { x: i64, y: i64 },
    /// Lower the pen onto the paper.
    Plunge,
    /// Raise the pen to travel height.
    Lift,
    /// A comment that announces the end of the job.
    Farewell,
    /// Raise the head by `Z_END`.
    Raise,
    /// Disable the motors.
    MotorsOff,
}

/// The affine map that takes the source range `rmin..rmax` onto the target range
/// `tmin..tmax`, applied to `m`; the quotient is rounded toward zero.
pub open spec fn rescaled(m: int, rmin: int, rmax: int, tmin: int, tmax: int) -> int {
    quot((m - rmin) * (tmax - tmin), rmax - rmin) + tmin
}

/// The commands that open every program, for a drawing area with the corner `min`.
pub open spec fn preamble(min: (i32, i32)) -> Seq<Command> {
    seq![
        Command::ModelCheck,
        Command::Millimeters,
        Command::Absolute,
        Command::Home,
        Command::Blank,
        Command::Park { x: min.0 as i64, y: min.1 as i64 },
        Command::SetOrigin,
        Command::Blank,
    ]
}

/// The commands that close every program.
pub open spec fn postamble() -> Seq<Command> {
    seq![
        Command::Farewell,
        Command::Relative,
        Command::Raise,
        Command::Absolute,
        Command::MotorsOff,
    ]
}

/// The commands that visit a point whose source position is `(xp, yp)` and whose
/// position on the device is `(x, y)`.
pub open spec fn visit(mode: PrintMode, xp: i32, yp: i32, x: i64, y: i64) -> Seq<Command> {
    match mode {
        PrintMode::DOTS => seq![
            Command::Note { x: xp as i64, y: yp as i64 },
            Command::Travel { x, y },
            Command::Plunge,
            Command::Lift,
            Command::Blank,
        ],
        PrintMode::LINES => seq![
            Command::Note { x: xp as i64, y: yp as i64 },
            Command::Travel { x, y },
            Command::Blank,
        ],
    }
}

/// A plotter program under construction.
#[derive(Debug)]
pub struct Printer {
    pub min: (i32, i32),
    pub max: (i32, i32),
    pub width: i32,
    pub height: i32,
    pub mode: PrintMode,
    pub scale: Option<(i32, i32)>,
    pub commands: Vec<Command>,
}

impl Printer {
    /// The extent is that of the drawing area, and a scale, where set, is not zero.
    pub open spec fn wf(&self) -> bool {
        &&& self.width == self.max.0 - self.min.0
        &&& self.height == self.max.1 - self.min.1
        &&& match self.scale {
            Some((ow, oh)) => ow != 0 && oh != 0,
            None => true,
        }
    }

    /// Where a point with the source position `(xp, yp)` lands on the device: scaled from
    /// the source extent to the drawing area's where a scale is set, unchanged otherwise.
    pub open spec fn target(&self, xp: i32, yp: i32) -> (int, int) {
        match self.scale {
            Some((ow, oh)) => (
                rescaled(xp as int, 0, ow as int, 0, self.width as int),
                rescaled(yp as int, 0, oh as int, 0, self.height as int),
            ),
            None => (xp as int, yp as int),
        }
    }

    /// Starts a program for the drawing area between the corners `min` and `max`: no
    /// scale, and the preamble as its commands.
    pub fn new(min: (i32, i32), max: (i32, i32), mode: PrintMode) -> (p: Printer)
        requires
            i32::MIN <= max.0 - min.0 <= i32::MAX,
            i32::MIN <= max.1 - min.1 <= i32::MAX,
        ensures
            p.wf(),
            p.min == min,
            p.max == max,
            p.mode == mode,
            p.scale is None,
            p.commands@ == preamble(min),
    {
        let p = Printer {
            min,
            max,
            width: max.0 - min.0,
            height: max.1 - min.1,
            mode,
            scale: None,
            commands: Vec::new(),
        };
        p.init()
    }

    /// Applies the affine map from `rmin..rmax` onto `tmin..tmax` to `m`.
    pub fn rescale(m: i32, rmin: i32, rmax: i32, tmin: i32, tmax: i32) -> (r: i128)
        requires
            rmin != rmax,
        ensures
            r == rescaled(m as int, rmin as int, rmax as int, tmin as int, tmax as int),
    {
        let a: i128 = m as i128 - rmin as i128;
        let b: i128 = tmax as i128 - tmin as i128;
        let d: i128 = rmax as i128 - rmin as i128;
        proof {
            lemma_mul_bound(a as int, b as int, 0x1_0000_0000, 0x1_0000_0000);
            crate::math::lemma_quot_bounds(a * b, d as int);
        }
        div_toward_zero(a * b, d) + tmin as i128
    }

    /// Sets the extent of the source that later points are scaled from.
    pub fn set_scale(&mut self, source_width: i32, source_height: i32)
        requires
            old(self).wf(),
            source_width != 0,
            source_height != 0,
        ensures
            final(self).wf(),
            final(self).scale == Some((source_width, source_height)),
            final(self).min == old(self).min,
            final(self).max == old(self).max,
            final(self).width == old(self).width,
            final(self).height == old(self).height,
            final(self).mode == old(self).mode,
            final(self).commands@ == old(self).commands@,
    {
        self.scale = Some((source_width, source_height));
    }

    /// Appends the commands that visit the point `(xp, yp)` of the source.
    pub fn goto(&mut self, xp: i32, yp: i32)
        requires
            old(self).wf(),
        ensures
            final(self).wf(),
            final(self).commands@ == old(self).commands@ + visit(
                old(self).mode,
                xp,
                yp,
                old(self).target(xp, yp).0 as i64,
                old(self).target(xp, yp).1 as i64,
            ),
            i64::MIN <= old(self).target(xp, yp).0 <= i64::MAX,
            i64::MIN <= old(self).target(xp, yp).1 <= i64::MAX,
            final(self).scale == old(self).scale,
            final(self).min == old(self).min,
            final(self).max == old(self).max,
            final(self).width == old(self).width,
            final(self).height == old(self).height,
            final(self).mode == old(self).mode,
    {
        let x: i64;
        let y: i64;
        if let Some((ow, oh)) = self.scale {
            proof {
                lemma_mul_bound(xp as int, self.width as int, 0x8000_0000, 0x8000_0000);
                lemma_mul_bound(yp as int, self.height as int, 0x8000_0000, 0x8000_0000);
                crate::math::lemma_quot_bounds(xp * self.width, ow as int);
                crate::math::lemma_quot_bounds(yp * self.height, oh as int);
            }
            x = Self::rescale(xp, 0, ow, 0, self.width) as i64;
            y = Self::rescale(yp, 0, oh, 0, self.height) as i64;
        } else {
            x = xp as i64;
            y = yp as i64;
        }
        let ghost before = self.commands@;
        self.commands.push(Command::Note { x: xp as i64, y: yp as i64 });
        self.commands.push(Command::Travel { x, y });
        match self.mode {
            PrintMode::DOTS => {
                self.commands.push(Command::Plunge);
                self.commands.push(Command::Lift);
            },
            PrintMode::LINES => {},
        }
        self.commands.push(Command::Blank);
        assert(self.commands@ =~= before + visit(self.mode, xp, yp, x, y));
    }

    /// The whole program: the commands so far, then the postamble.
    pub fn program(&self) -> (r: Vec<Command>)
        ensures
            r@ == self.commands@ + postamble(),
    {
        let mut r: Vec<Command> = Vec::new();
        let mut i: usize = 0;
        while i < self.commands.len()
            invariant
                i <= self.commands.len(),
                r@ == self.commands@.take(i as int),
            decreases self.commands.len() - i,
        {
            r.push(self.commands[i]);
            assert(r@ =~= self.commands@.take(i + 1));
            i += 1;
        }
        assert(self.commands@.take(i as int) =~= self.commands@);
        r.push(Command::Farewell);
        r.push(Command::Relative);
        r.push(Command::Raise);
        r.push(Command::Absolute);
        r.push(Command::MotorsOff);
        assert(r@ =~= self.commands@ + postamble());
        r
    }

    /// Replaces the commands by the preamble.
    fn init(self) -> (p: Printer)
        ensures
            p.min == self.min,
            p.max == self.max,
            p.width == self.width,
            p.height == self.height,
            p.mode == self.mode,
            p.scale == self.scale,
            p.commands@ == preamble(self.min),
    {
        let mut p = self;
        p.commands.clear();
        p.commands.push(Command::ModelCheck);
        p.commands.push(Command::Millimeters);
        p.commands.push(Command::Absolute);
        p.commands.push(Command::Home);
        p.commands.push(Command::Blank);
        p.commands.push(Command::Park { x: p.min.0 as i64, y: p.min.1 as i64 });
        p.commands.push(Command::SetOrigin);
        p.commands.push(Command::Blank);
        assert(p.commands@ =~= preamble(self.min));
        p
    }
}

} // verus!
