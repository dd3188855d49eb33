//! The turntable: the rotation that all meshes are shown under, advanced
//! once per frame, and the driver of an export that covers one revolution.
//!
//! Angles are fixed-point radians within one revolution from zero. An angle
//! that is no finite number is carried as `None`.

use crate::fixed::{
    bits_finite, bits_negative, bits_scaled, is_finite, is_negative, lemma_bits_scaled_nonnegative,
    scaled_mod,
};
use vstd::arithmetic::power2::{lemma2_to64, lemma_pow2_adds, pow2};
use vstd::arithmetic::div_mod::{
    lemma_div_is_ordered, lemma_div_multiples_vanish, lemma_fundamental_div_mod_converse,
    lemma_mod_breakdown,
};
use vstd::prelude::*;

verus! {

/// Half a revolution, rounded down.
pub const PI: i64 = 205887;

/// A full revolution: twice `PI`.
pub const FULL_TURN: i64 = 411774;

/// A full revolution with a hundred fractional bits, rounded to nearest.
/// Numbers of any size are reduced by it, so that the reduction of a large
/// angle loses nothing that sixteen fractional bits show.
pub const FULL_TURN_FINE: u128 = 7964883625991394727376702227904;

/// What divides a number of a hundred fractional bits down to sixteen: 2^84.
pub const FINE_STEP: u128 = 0x10_0000_0000_0000_0000_0000;

pub const NANOS_PER_SECOND: i64 = 1_000_000_000;

/// The step between the two precisions is 2^84, and a full revolution in
/// the fine precision, brought down by it, is the full revolution.
pub proof fn lemma_turn_constants()
    ensures
        FINE_STEP == pow2(84),
        FULL_TURN_FINE / FINE_STEP == FULL_TURN,
        FULL_TURN == 2 * PI,
{
    lemma2_to64();
    lemma_pow2_adds(64, 20);
}

/// The angle at the distance `advance` from `angle`, forward or backward,
/// within one revolution from zero.
pub open spec fn moved(angle: int, backward: bool, advance: int) -> int {
    if backward {
        (angle + FULL_TURN - advance) % (FULL_TURN as int)
    } else {
        (angle + advance) % (FULL_TURN as int)
    }
}

/// The angle that a finite single-precision number of radians stands for,
/// within one revolution from zero: its magnitude is reduced by a full
/// revolution, rounded down to sixteen fractional bits, and taken forward or,
/// for a negative number, backward from zero.
pub open spec fn angle_of_bits(bits: u32) -> int {
    moved(
        0,
        bits_negative(bits),
        ((bits_scaled(bits, 100) % (FULL_TURN_FINE as int)) / (FINE_STEP as int)) % (
        FULL_TURN as int),
    )
}

/// The angle that a single-precision number of radians stands for, if it is finite.
pub open spec fn angle_of(bits: u32) -> Option<i64> {
    if bits_finite(bits) {
        Some(angle_of_bits(bits) as i64)
    } else {
        None
    }
}

/// Whether an angle lies within one revolution from zero, if it is a number.
pub open spec fn angle_wf(angle: Option<i64>) -> bool {
    angle matches Some(a) ==> 0 <= a < FULL_TURN
}

/// Decodes an angle: see [`angle_of`]. Every finite number of radians has
/// an angle.
pub fn angle_from_bits(bits: u32) -> (angle: Option<i64>)
    ensures
        angle == angle_of(bits),
        angle_wf(angle),
{
    if !is_finite(bits) {
        return None;
    }
    let fine: u128 = scaled_mod(bits, 100, 1, FULL_TURN_FINE);
    let within: u128 = (fine / FINE_STEP) % 411774;
    let angle: u128 = if is_negative(bits) { (411774 - within) % 411774 } else { within };
    Some(angle as i64)
}

/// The angle half a revolution further.
pub fn half_turn_on(angle: Option<i64>) -> (r: Option<i64>)
    requires
        angle_wf(angle),
    ensures
        angle_wf(r),
        r == match angle {
            Some(a) => Some(moved(a as int, false, PI as int) as i64),
            None => None,
        },
{
    match angle {
        Some(a) => Some((a + PI) % FULL_TURN),
        None => None,
    }
}

/// Yaw, pitch and roll of the view, and the angular speed of the pitch in
/// radians per second as a single-precision bit pattern.
#[derive(Clone, Copy, PartialEq, Eq, Debug)]
pub struct Turntable {
    pub yaw: Option<i64>,
    pub pitch: Option<i64>,
    pub roll: Option<i64>,
    pub speed: u32,
}

/// How far a turntable of the given speed turns in `elapsed_nanos`
/// nanoseconds, whichever way: the magnitude of the speed times the time,
/// rounded down to sixteen fractional bits, within one revolution.
pub open spec fn advance(speed: u32, elapsed_nanos: int) -> int {
    (bits_scaled(speed, 16) * elapsed_nanos / (NANOS_PER_SECOND as int)) % (FULL_TURN as int)
}

impl Turntable {
    /// The three angles lie within one revolution from zero.
    pub open spec fn wf(self) -> bool {
        angle_wf(self.yaw) && angle_wf(self.pitch) && angle_wf(self.roll)
    }

    /// The pitch after `elapsed_nanos` nanoseconds: moved by the advance,
    /// backward for a negative speed. It is no number once the pitch or the
    /// speed is none.
    pub open spec fn turned(self, elapsed_nanos: int) -> Option<i64> {
        match self.pitch {
            Some(pitch) => if bits_finite(self.speed) {
                Some(
                    moved(
                        pitch as int,
                        bits_negative(self.speed),
                        advance(self.speed, elapsed_nanos),
                    ) as i64,
                )
            } else {
                None
            },
            None => None,
        }
    }

    /// Whether the three angles lie within one revolution from zero.
    pub fn is_valid(&self) -> (ok: bool)
        ensures
            ok == self.wf(),
    {
        let yaw: bool = match self.yaw {
            Some(a) => 0 <= a && a < FULL_TURN,
            None => true,
        };
        let pitch: bool = match self.pitch {
            Some(a) => 0 <= a && a < FULL_TURN,
            None => true,
        };
        let roll: bool = match self.roll {
            Some(a) => 0 <= a && a < FULL_TURN,
            None => true,
        };
        yaw && pitch && roll
    }

    /// Advances the pitch by the speed times the elapsed time.
    pub fn tick(&mut self, elapsed_nanos: u64)
        requires
            old(self).wf(),
        ensures
            final(self).wf(),
            final(self).pitch == old(self).turned(elapsed_nanos as int),
            final(self).yaw == old(self).yaw,
            final(self).roll == old(self).roll,
            final(self).speed == old(self).speed,
    {
        let pitch: i64 = match self.pitch {
            Some(pitch) => pitch,
            None => {
                return;
            },
        };
        if !is_finite(self.speed) {
            self.pitch = None;
            return;
        }
        let rest: u128 = scaled_mod(self.speed, 16, elapsed_nanos, 411_774_000_000_000);
        let step: u128 = rest / 1_000_000_000;
        proof {
            let x: int = bits_scaled(self.speed, 16) * elapsed_nanos;
            lemma_bits_scaled_nonnegative(self.speed, 16);
            assert(x >= 0) by (nonlinear_arith)
                requires
                    x == bits_scaled(self.speed, 16) * elapsed_nanos,
                    bits_scaled(self.speed, 16) >= 0,
                    elapsed_nanos >= 0,
            ;
            lemma_mod_breakdown(x, 1_000_000_000, 411774);
            assert(1_000_000_000int * 411774 == 411_774_000_000_000);
            lemma_fundamental_div_mod_converse(
                rest as int,
                1_000_000_000,
                (x / 1_000_000_000) % 411774,
                x % 1_000_000_000,
            );
        }
        let moved: u128 = if is_negative(self.speed) {
            (pitch as u128 + 411774 - step) % 411774
        } else {
            (pitch as u128 + step) % 411774
        };
        self.pitch = Some(moved as i64);
    }
}

/// What the driver of an export says after a frame.
#[derive(Clone, Copy, PartialEq, Eq, Debug, Structural)]
pub enum ExportStep {
    /// Another frame follows.
    Continue,
    /// That was the last frame.
    Finished,
}

/// The state of an export of `total_frames` frames: the turntable, the pitch
/// that it started from, the index of the frame that is shown next, how far
/// the pitch has advanced since the start, and whether the last frame has
/// been shown. The pitch of each frame is set from its index, so that the
/// frames divide the revolution evenly and the last tick completes it; the
/// speed of the turntable plays no part.
#[derive(Clone, Copy, PartialEq, Eq, Debug)]
pub struct ExportDriver {
    pub turntable: Turntable,
    pub start_pitch: Option<i64>,
    pub frame_index: u16,
    pub total_frames: u16,
    pub accumulated: i64,
    pub finished: bool,
}

/// How far the pitch of an export of `total` frames has advanced after
/// `ticks` of them: that share of a full revolution, rounded down. After all
/// of them it is the full revolution.
pub open spec fn share_of_turn(ticks: int, total: int) -> int {
    ticks * FULL_TURN / total
}

/// The pitch at the distance `accumulated` from the start.
pub open spec fn advanced(start: Option<i64>, accumulated: int) -> Option<i64> {
    match start {
        Some(pitch) => Some(moved(pitch as int, false, accumulated) as i64),
        None => None,
    }
}

impl ExportDriver {
    /// The number of ticks that the driver has made.
    pub open spec fn ticks(self) -> int {
        if self.finished {
            self.frame_index + 1
        } else {
            self.frame_index as int
        }
    }

    /// The frame index is below the number of frames, and the pitch is the
    /// start pitch advanced by the share of the ticks made.
    pub open spec fn wf(self) -> bool {
        &&& self.frame_index < self.total_frames
        &&& self.turntable.wf()
        &&& angle_wf(self.start_pitch)
        &&& self.accumulated == share_of_turn(self.ticks(), self.total_frames as int)
        &&& self.turntable.pitch == advanced(self.start_pitch, self.accumulated as int)
    }

    /// The driver before the first frame of an export of `total_frames` frames.
    pub open spec fn started(turntable: Turntable, total_frames: u16) -> ExportDriver {
        ExportDriver {
            turntable,
            start_pitch: turntable.pitch,
            frame_index: 0,
            total_frames,
            accumulated: 0,
            finished: false,
        }
    }

    /// The driver after one more frame was shown: the pitch stands at the
    /// share of a revolution that the frames shown make; the export is
    /// finished if that was the last frame or the pitch has advanced by more
    /// than a full revolution since the start; otherwise the next frame is
    /// due. A finished driver stays as it is.
    pub open spec fn stepped(self) -> ExportDriver {
        if self.finished {
            self
        } else {
            let accumulated = share_of_turn(self.frame_index + 1, self.total_frames as int);
            let done = self.frame_index == self.total_frames - 1 || accumulated > FULL_TURN;
            ExportDriver {
                turntable: Turntable {
                    yaw: self.turntable.yaw,
                    pitch: advanced(self.start_pitch, accumulated),
                    roll: self.turntable.roll,
                    speed: self.turntable.speed,
                },
                start_pitch: self.start_pitch,
                frame_index: if done {
                    self.frame_index
                } else {
                    (self.frame_index + 1) as u16
                },
                total_frames: self.total_frames,
                accumulated: accumulated as i64,
                finished: done,
            }
        }
    }

    /// The driver after `ticks` more frames.
    pub open spec fn after(self, ticks: nat) -> ExportDriver
        decreases ticks,
    {
        if ticks == 0 {
            self
        } else {
            self.after((ticks - 1) as nat).stepped()
        }
    }

    /// Whether the driver is in a state that its ticks lead to.
    pub fn is_valid(&self) -> (ok: bool)
        ensures
            ok == self.wf(),
    {
        if self.frame_index >= self.total_frames || !self.turntable.is_valid() {
            return false;
        }
        let start: bool = match self.start_pitch {
            Some(a) => 0 <= a && a < FULL_TURN,
            None => true,
        };
        if !start {
            return false;
        }
        let ticks: i64 = if self.finished {
            self.frame_index as i64 + 1
        } else {
            self.frame_index as i64
        };
        let share: i64 = ticks * FULL_TURN / (self.total_frames as i64);
        proof {
            lemma_share_within_turn(ticks as int, self.total_frames as int);
        }
        if self.accumulated != share {
            return false;
        }
        match (self.start_pitch, self.turntable.pitch) {
            (Some(start), Some(pitch)) => pitch == (start + share) % FULL_TURN,
            (None, None) => true,
            _ => false,
        }
    }

    /// Starts an export of `total_frames` frames from the given turntable.
    /// There is none of zero frames, nor from a turntable that is not valid.
    pub fn new(turntable: Turntable, total_frames: u16) -> (driver: Option<ExportDriver>)
        ensures
            driver.is_some() == (total_frames > 0 && turntable.wf()),
            driver matches Some(d) ==> d == ExportDriver::started(turntable, total_frames) && d.wf(),
    {
        if total_frames == 0 || !turntable.is_valid() {
            return None;
        }
        Some(
            ExportDriver {
                turntable,
                start_pitch: turntable.pitch,
                frame_index: 0,
                total_frames,
                accumulated: 0,
                finished: false,
            },
        )
    }

    /// Advances the export by one frame: see [`ExportDriver::stepped`].
    pub fn tick(&mut self) -> (step: ExportStep)
        requires
            old(self).wf(),
        ensures
            final(self).wf(),
            *final(self) == old(self).stepped(),
            step == if final(self).finished {
                ExportStep::Finished
            } else {
                ExportStep::Continue
            },
    {
        if self.finished {
            return ExportStep::Finished;
        }
        let ticks: i64 = self.frame_index as i64 + 1;
        let accumulated: i64 = ticks * FULL_TURN / (self.total_frames as i64);
        proof {
            lemma_share_within_turn(ticks as int, self.total_frames as int);
        }
        let done: bool = self.frame_index == self.total_frames - 1 || accumulated > FULL_TURN;
        self.accumulated = accumulated;
        self.turntable.pitch = match self.start_pitch {
            Some(start) => Some((start + accumulated) % FULL_TURN),
            None => None,
        };
        if done {
            self.finished = true;
            ExportStep::Finished
        } else {
            self.frame_index = self.frame_index + 1;
            ExportStep::Continue
        }
    }
}

/// The share of a revolution that some of the frames make lies within the
/// revolution, and the share of all frames is the whole of it.
pub proof fn lemma_share_within_turn(ticks: int, total: int)
    requires
        0 < total,
        0 <= ticks <= total,
    ensures
        0 <= share_of_turn(ticks, total) <= FULL_TURN,
        share_of_turn(total, total) == FULL_TURN,
        share_of_turn(0, total) == 0,
{
    let turn: int = FULL_TURN as int;
    assert(0 <= ticks * turn <= total * turn) by (nonlinear_arith)
        requires
            0 <= ticks <= total,
            turn == 411774,
    ;
    assert(total * turn == turn * total) by (nonlinear_arith);
    lemma_div_is_ordered(0, ticks * turn, total);
    lemma_div_is_ordered(ticks * turn, turn * total, total);
    lemma_div_multiples_vanish(turn, total);
    assert(0int / total == 0) by (nonlinear_arith)
        requires
            total > 0,
    ;
    assert(0 * turn == 0);
}

/// While an export has shown fewer frames than it has, it is not
/// finished, and its pitch stands at the share of a revolution that the
/// frames shown make.
pub proof fn lemma_export_in_progress(turntable: Turntable, total_frames: u16, ticks: nat)
    requires
        total_frames > 0,
        ticks < total_frames,
        turntable.wf(),
    ensures
        ({
            let d = ExportDriver::started(turntable, total_frames).after(ticks);
            &&& !d.finished
            &&& d.frame_index == ticks
            &&& d.total_frames == total_frames
            &&& d.start_pitch == turntable.pitch
            &&& d.accumulated == share_of_turn(ticks as int, total_frames as int)
            &&& ticks > 0 ==> d.turntable.pitch == advanced(turntable.pitch, d.accumulated as int)
            &&& d.turntable.yaw == turntable.yaw
            &&& d.turntable.roll == turntable.roll
            &&& d.turntable.speed == turntable.speed
        }),
    decreases ticks,
{
    lemma_share_within_turn(ticks as int, total_frames as int);
    if ticks > 0 {
        lemma_export_in_progress(turntable, total_frames, (ticks - 1) as nat);
    }
}

/// An export of `total_frames` frames ends with the tick of its last frame
/// and not before: after that many ticks it is finished, at the last frame
/// index, and its pitch has advanced by exactly a full revolution, which
/// brings it back to where it started.
pub proof fn lemma_export_completes(turntable: Turntable, total_frames: u16)
    requires
        total_frames > 0,
        turntable.wf(),
    ensures
        forall|ticks: nat|
            ticks < total_frames ==> !(#[trigger] ExportDriver::started(
                turntable,
                total_frames,
            ).after(ticks)).finished,
        ({
            let d = ExportDriver::started(turntable, total_frames).after(total_frames as nat);
            &&& d.finished
            &&& d.frame_index == total_frames - 1
            &&& d.accumulated == FULL_TURN
            &&& d.turntable.pitch == turntable.pitch
            &&& d.turntable.yaw == turntable.yaw
            &&& d.turntable.roll == turntable.roll
        }),
{
    let start = ExportDriver::started(turntable, total_frames);
    assert forall|ticks: nat| ticks < total_frames implies !(#[trigger] start.after(
        ticks,
    )).finished by {
        lemma_export_in_progress(turntable, total_frames, ticks);
    }
    lemma_export_in_progress(turntable, total_frames, (total_frames - 1) as nat);
    lemma_share_within_turn(total_frames as int, total_frames as int);
    let before = start.after((total_frames - 1) as nat);
    assert(start.after(total_frames as nat) == before.stepped());
    assert(before.stepped().accumulated == FULL_TURN);
}

/// What an export starts with: the line `let frames = [`.
pub open spec fn export_opening() -> Seq<u8> {
    seq![
        0x6cu8, 0x65u8, 0x74u8, 0x20u8, 0x66u8, 0x72u8, 0x61u8, 0x6du8, 0x65u8, 0x73u8, 0x20u8,
        0x3du8, 0x20u8, 0x5bu8, 0x0au8,
    ]
}

/// What ends a frame of an export: a backquote, then `,` where another frame
/// follows and `];` after the last, and a line feed.
pub open spec fn export_closing(last: bool) -> Seq<u8> {
    if last {
        seq![0x60u8, 0x5du8, 0x3bu8, 0x0au8]
    } else {
        seq![0x60u8, 0x2cu8, 0x0au8]
    }
}

/// One frame of an export: a backquote on a line of its own, the text of the
/// frame, and its closing.
pub open spec fn export_frame(text: Seq<u8>, last: bool) -> Seq<u8> {
    seq![0x60u8, 0x0au8] + text + export_closing(last)
}

/// The opening line of an export.
pub fn export_opening_text() -> (out: Vec<u8>)
    ensures
        out@ == export_opening(),
{
    let mut out: Vec<u8> = Vec::new();
    out.push(0x6c);
    out.push(0x65);
    out.push(0x74);
    out.push(0x20);
    out.push(0x66);
    out.push(0x72);
    out.push(0x61);
    out.push(0x6d);
    out.push(0x65);
    out.push(0x73);
    out.push(0x20);
    out.push(0x3d);
    out.push(0x20);
    out.push(0x5b);
    out.push(0x0a);
    out
}

/// Wraps the text of a frame for an export. Frames are wrapped in the
/// order in which they were rendered.
pub fn export_frame_text(text: &Vec<u8>, last: bool) -> (out: Vec<u8>)
    ensures
        out@ == export_frame(text@, last),
{
    let mut out: Vec<u8> = Vec::new();
    out.push(0x60);
    out.push(0x0a);
    let mut i: usize = 0;
    while i < text.len()
        invariant
            i <= text@.len(),
            out@ == seq![0x60u8, 0x0au8] + text@.take(i as int),
        decreases text@.len() - i,
    {
        out.push(text[i]);
        i += 1;
    }
    out.push(0x60);
    if last {
        out.push(0x5d);
        out.push(0x3b);
    } else {
        out.push(0x2c);
    }
    out.push(0x0a);
    out
}

} // verus!
