//! The animation driver: what to do next, frame by frame. The driver
//! decides; its caller sleeps and draws.

use vstd::prelude::*;

verus! {

/// How long the driver waits before a frame.
#[derive(Clone, Copy, Debug, PartialEq, Eq, Structural)]
pub enum Pacing {
    /// The same wait before every frame, for `fps` frames in a second.
    Constant { fps: u16 },
    /// A wait that grows with the frame's number: `unit_ms` milliseconds
    /// for each frame that came before.
    Scaled { unit_ms: u32 },
}

/// What becomes of a frame once it is painted.
#[derive(Clone, Copy, Debug, PartialEq, Eq, Structural)]
pub enum Trail {
    /// It stays: the brush leaves a trail.
    Kept,
    /// It is erased at once.
    Erased,
    /// It is erased after one more wait.
    ErasedLater,
}

/// The driver's settings.
#[derive(Clone, Copy, Debug, PartialEq, Eq, Structural)]
pub struct Mode {
    pub pacing: Pacing,
    pub trail: Trail,
    /// Whether the screen is cleared when the last frame is done.
    pub clear_at_end: bool,
}

/// What the caller is to do next.
#[derive(Clone, Copy, Debug, PartialEq, Eq, Structural)]
pub enum Action {
    /// Wait for `ms` milliseconds.
    Sleep { ms: u64 },
    /// Paint the frame `index`.
    Paint { index: usize },
    /// Erase the frame `index`.
    Erase { index: usize },
    /// Clear the screen.
    ClearAll,
    /// Nothing: the run is over.
    Done,
}

/// Where the driver stands within the frame that it works on.
#[derive(Clone, Copy, Debug, PartialEq, Eq, Structural)]
pub enum Phase {
    /// The frame has not begun.
    Waiting,
    /// The wait before the frame is over.
    Ready,
    /// The frame is painted.
    Painted,
    /// The frame is painted and the wait after it is over.
    Held,
    /// The run is over.
    Finished,
}

/// The state of a run over `frames` frames: the frame at hand and the
/// phase within it.
#[derive(Clone, Copy, Debug, PartialEq, Eq, Structural)]
pub struct Driver {
    pub mode: Mode,
    pub frames: usize,
    pub index: usize,
    pub phase: Phase,
}

impl Pacing {
    /// Whether a constant pace has at least one frame in a second.
    pub open spec fn wf(self) -> bool {
        self matches Pacing::Constant { fps } ==> fps >= 1
    }

    /// The wait before the frame `index` in milliseconds: a second divided
    /// by the frames in it, or the unit times the index, and no more than
    /// a `u64` holds.
    pub open spec fn interval(self, index: nat) -> nat {
        match self {
            Pacing::Constant { fps } => (1000int / (fps as int)) as nat,
            Pacing::Scaled { unit_ms } => if unit_ms * index <= u64::MAX {
                (unit_ms * index) as nat
            } else {
                u64::MAX as nat
            },
        }
    }

    /// Computes the wait before the frame `index` in milliseconds.
    pub fn interval_ms(&self, index: usize) -> (ms: u64)
        requires
            self.wf(),
        ensures
            ms == self.interval(index as nat),
    {
        match *self {
            Pacing::Constant { fps } => 1000 / (fps as u64),
            Pacing::Scaled { unit_ms } => {
                assert(unit_ms * index <= 0xffff_ffff * 0xffff_ffff_ffff_ffff) by (nonlinear_arith)
                    requires
                        unit_ms <= 0xffff_ffff,
                        index <= 0xffff_ffff_ffff_ffff,
                        unit_ms >= 0,
                        index >= 0,
                ;
                let product: u128 = (unit_ms as u128) * (index as u128);
                if product <= u64::MAX as u128 {
                    product as u64
                } else {
                    u64::MAX
                }
            },
        }
    }
}

impl Driver {
    /// Whether the state is one that a run passes through.
    pub open spec fn wf(self) -> bool {
        &&& self.mode.pacing.wf()
        &&& self.index <= self.frames
        &&& (self.phase is Ready || self.phase is Painted || self.phase is Held ==> self.index
            < self.frames)
        &&& (self.phase is Painted ==> !(self.mode.trail is Kept))
        &&& (self.phase is Held ==> self.mode.trail is ErasedLater)
    }

    /// The state before the first frame.
    pub open spec fn start(mode: Mode, frames: usize) -> Driver {
        Driver { mode, frames, index: 0, phase: Phase::Waiting }
    }

    /// The state with the frame at hand left for the next.
    pub open spec fn advanced(self) -> Driver {
        Driver { index: (self.index + 1) as usize, phase: Phase::Waiting, ..self }
    }

    /// The state in the phase `phase` of the frame at hand.
    pub open spec fn in_phase(self, phase: Phase) -> Driver {
        Driver { phase, ..self }
    }

    /// The wait that belongs to the frame at hand.
    pub open spec fn pause(self) -> Action {
        Action::Sleep { ms: self.mode.pacing.interval(self.index as nat) as u64 }
    }

    /// The state that follows, and what the caller is told on the way.
    ///
    /// Each frame begins with its wait and is then painted. A trail that
    /// is kept ends the frame there; else the frame is erased, at once or
    /// after one more wait. After the last frame the screen is cleared if
    /// the mode says so, and the run is over.
    pub open spec fn step(self) -> (Driver, Action) {
        match self.phase {
            Phase::Waiting => if self.index < self.frames {
                (self.in_phase(Phase::Ready), self.pause())
            } else if self.mode.clear_at_end {
                (self.in_phase(Phase::Finished), Action::ClearAll)
            } else {
                (self.in_phase(Phase::Finished), Action::Done)
            },
            Phase::Ready => if self.mode.trail is Kept {
                (self.advanced(), Action::Paint { index: self.index })
            } else {
                (self.in_phase(Phase::Painted), Action::Paint { index: self.index })
            },
            Phase::Painted => if self.mode.trail is ErasedLater {
                (self.in_phase(Phase::Held), self.pause())
            } else {
                (self.advanced(), Action::Erase { index: self.index })
            },
            Phase::Held => (self.advanced(), Action::Erase { index: self.index }),
            Phase::Finished => (self, Action::Done),
        }
    }

    /// The number of actions that one frame takes.
    pub open spec fn actions_per_frame(self) -> nat {
        match self.mode.trail {
            Trail::Kept => 2,
            Trail::Erased => 3,
            Trail::ErasedLater => 4,
        }
    }

    /// The number of actions of the frame at hand that are done.
    pub open spec fn done_in_frame(self) -> nat {
        match self.phase {
            Phase::Waiting => 0,
            Phase::Ready => 1,
            Phase::Painted => 2,
            Phase::Held => 3,
            Phase::Finished => 0,
        }
    }

    /// The number of steps until the run is over.
    pub open spec fn remaining(self) -> nat {
        if self.phase is Finished {
            0
        } else {
            ((self.frames - self.index) * self.actions_per_frame() - self.done_in_frame() + 1) as nat
        }
    }

    /// Begins a run over `frames` frames. A constant pace of no frames in
    /// a second is refused.
    pub fn new(mode: Mode, frames: usize) -> (driver: Option<Driver>)
        ensures
            driver == if mode.pacing.wf() {
                Some(Driver::start(mode, frames))
            } else {
                None
            },
            driver matches Some(d) ==> d.wf(),
    {
        let paced = match mode.pacing {
            Pacing::Constant { fps } => fps >= 1,
            Pacing::Scaled { unit_ms } => true,
        };
        if paced {
            Some(Driver { mode, frames, index: 0, phase: Phase::Waiting })
        } else {
            None
        }
    }

    /// Tells whether the state is one that a run passes through.
    pub fn is_valid(&self) -> (valid: bool)
        ensures
            valid == self.wf(),
    {
        let paced = match self.mode.pacing {
            Pacing::Constant { fps } => fps >= 1,
            Pacing::Scaled { unit_ms } => true,
        };
        let kept = match self.mode.trail {
            Trail::Kept => true,
            _ => false,
        };
        let later = match self.mode.trail {
            Trail::ErasedLater => true,
            _ => false,
        };
        let in_frame = match self.phase {
            Phase::Ready => self.index < self.frames,
            Phase::Painted => self.index < self.frames && !kept,
            Phase::Held => self.index < self.frames && later,
            _ => true,
        };
        paced && self.index <= self.frames && in_frame
    }

    /// Tells whether the run is over.
    pub fn is_finished(&self) -> (over: bool)
        ensures
            over == (self.phase is Finished),
    {
        match self.phase {
            Phase::Finished => true,
            _ => false,
        }
    }

    /// Moves to the next state and tells the caller what to do.
    pub fn next(&mut self) -> (action: Action)
        requires
            old(self).wf(),
        ensures
            *final(self) == old(self).step().0,
            action == old(self).step().1,
            final(self).wf(),
            !(old(self).phase is Finished) ==> final(self).remaining() + 1 == old(
                self,
            ).remaining(),
    {
        proof {
            self.lemma_step();
        }
        match self.phase {
            Phase::Waiting => {
                if self.index < self.frames {
                    let ms = self.mode.pacing.interval_ms(self.index);
                    self.phase = Phase::Ready;
                    Action::Sleep { ms }
                } else if self.mode.clear_at_end {
                    self.phase = Phase::Finished;
                    Action::ClearAll
                } else {
                    self.phase = Phase::Finished;
                    Action::Done
                }
            },
            Phase::Ready => {
                let index = self.index;
                match self.mode.trail {
                    Trail::Kept => {
                        self.index = index + 1;
                        self.phase = Phase::Waiting;
                    },
                    _ => {
                        self.phase = Phase::Painted;
                    },
                }
                Action::Paint { index }
            },
            Phase::Painted => {
                match self.mode.trail {
                    Trail::ErasedLater => {
                        let ms = self.mode.pacing.interval_ms(self.index);
                        self.phase = Phase::Held;
                        Action::Sleep { ms }
                    },
                    _ => {
                        let index = self.index;
                        self.index = index + 1;
                        self.phase = Phase::Waiting;
                        Action::Erase { index }
                    },
                }
            },
            Phase::Held => {
                let index = self.index;
                self.index = index + 1;
                self.phase = Phase::Waiting;
                Action::Erase { index }
            },
            Phase::Finished => Action::Done,
        }
    }

    /// A step leads from a state of a run to a state of a run, and until
    /// the run is over each step brings its end one step nearer.
    pub proof fn lemma_step(self)
        requires
            self.wf(),
        ensures
            self.step().0.wf(),
            self.step().0.mode == self.mode,
            self.step().0.frames == self.frames,
            !(self.phase is Finished) ==> self.step().0.remaining() + 1 == self.remaining(),
            self.phase is Finished ==> self.step() == (self, Action::Done),
    {
        let c = self.actions_per_frame() as int;
        let left = self.frames - self.index;
        assert(left * c >= 0 && (left - 1) * c == left * c - c) by (nonlinear_arith)
            requires
                left >= 0,
                c >= 2,
        ;
        if left >= 1 {
            assert(left * c >= c) by (nonlinear_arith)
                requires
                    left >= 1,
                    c >= 2,
            ;
        }
    }

    /// A run over `frames` frames takes as many steps as its frames take
    /// actions, and one more to end.
    pub proof fn lemma_run_length(mode: Mode, frames: usize)
        ensures
            Driver::start(mode, frames).remaining() == frames * Driver::start(
                mode,
                frames,
            ).actions_per_frame() + 1,
    {
        let c = Driver::start(mode, frames).actions_per_frame();
        assert(frames * c >= 0) by (nonlinear_arith)
            requires
                frames >= 0,
                c >= 0,
        ;
    }

    /// The actions of one frame, in order: the wait and the painting; for
    /// a trail that is not kept the erasing, with one more wait before it
    /// where the mode says so. After them the next frame is at hand.
    pub proof fn lemma_frame(self)
        requires
            self.wf(),
            self.phase is Waiting,
            self.index < self.frames,
        ensures
            self.step().1 == self.pause(),
            self.step().0.step().1 == (Action::Paint { index: self.index }),
            self.mode.trail is Kept ==> self.step().0.step().0 == self.advanced(),
            self.mode.trail is Erased ==> self.step().0.step().0.step() == (
                self.advanced(),
                Action::Erase { index: self.index },
            ),
            self.mode.trail is ErasedLater ==> self.step().0.step().0.step().1 == self.pause()
                && self.step().0.step().0.step().0.step() == (
                self.advanced(),
                Action::Erase { index: self.index },
            ),
    {
    }
}

} // verus!
