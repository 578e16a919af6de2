//! The timing of an animation: the delay, the iterations and the direction
//! decide where in its run an animation stands; what value it shows there
//! is interpolated by the caller.
use vstd::prelude::*;

verus! {

/// The direction an animation plays in: start to end, end to start, or
/// back and forth.
#[derive(Debug, Clone, Copy, PartialEq, Eq, Structural)]
pub enum AnimationDirection {
    Normal,
    Reverse,
    Alternate,
}

/// Where an animation stands at some moment.
#[derive(Debug, Clone, Copy, PartialEq, Eq, Structural)]
pub enum AnimationPhase {
    /// Still in its delay: it shows its start value.
    Waiting,
    /// Done: it shows its end value, or its start value when `at_end` is false.
    Finished { at_end: bool },
    /// In the given iteration, this far into it.
    Playing { iteration: u64, elapsed_in_iteration: u64 },
}

/// Where an animation that starts after `delay_ms` and runs `iteration_count`
/// iterations of `duration_ms` (0 iterations: forever) stands `elapsed_ms`
/// after it was started.
pub open spec fn phase_at(delay_ms: u32, duration_ms: u32, iteration_count: u32, direction: AnimationDirection, elapsed_ms: u32) -> AnimationPhase {
    if elapsed_ms < delay_ms {
        AnimationPhase::Waiting
    } else if duration_ms == 0 {
        AnimationPhase::Finished { at_end: true }
    } else {
        let active = elapsed_ms - delay_ms;
        let iteration = active / (duration_ms as int);
        if iteration_count > 0 && iteration >= iteration_count {
            AnimationPhase::Finished {
                at_end: match direction {
                    AnimationDirection::Normal => true,
                    AnimationDirection::Reverse => false,
                    AnimationDirection::Alternate => iteration_count % 2 != 0,
                },
            }
        } else {
            AnimationPhase::Playing {
                iteration: iteration as u64,
                elapsed_in_iteration: (active % (duration_ms as int)) as u64,
            }
        }
    }
}

/// Where the animation stands.
pub fn animation_phase(
    delay_ms: u32,
    duration_ms: u32,
    iteration_count: u32,
    direction: AnimationDirection,
    elapsed_ms: u32,
) -> (r: AnimationPhase)
    ensures
        r == phase_at(delay_ms, duration_ms, iteration_count, direction, elapsed_ms),
{
    if elapsed_ms < delay_ms {
        return AnimationPhase::Waiting;
    }
    let active_time = elapsed_ms - delay_ms;
    let total_duration = duration_ms as u64;
    if total_duration == 0 {
        return AnimationPhase::Finished { at_end: true };
    }
    let current_iteration = (active_time as u64) / total_duration;
    let iteration_time = (active_time as u64) % total_duration;
    if iteration_count > 0 && current_iteration >= iteration_count as u64 {
        let at_end = match direction {
            AnimationDirection::Normal => true,
            AnimationDirection::Reverse => false,
            AnimationDirection::Alternate => iteration_count % 2 != 0,
        };
        return AnimationPhase::Finished { at_end };
    }
    AnimationPhase::Playing { iteration: current_iteration, elapsed_in_iteration: iteration_time }
}

/// Whether a finite animation has run all its iterations; one that runs
/// forever never completes.
pub fn animation_complete(delay_ms: u32, duration_ms: u32, iteration_count: u32, elapsed_ms: u32) -> (r: bool)
    ensures
        r == (iteration_count > 0 && elapsed_ms >= delay_ms && (duration_ms == 0 || (elapsed_ms - delay_ms)
            / (duration_ms as int) >= iteration_count)),
{
    if iteration_count == 0 {
        return false;
    }
    if elapsed_ms < delay_ms {
        return false;
    }
    let active_time = elapsed_ms - delay_ms;
    let total_duration = duration_ms as u64;
    if total_duration == 0 {
        return true;
    }
    let current_iteration = (active_time as u64) / total_duration;
    current_iteration >= iteration_count as u64
}

/// The time an animation started at `start` has run at `now`, counted in
/// `u32` milliseconds (the difference wraps into `u32`); none before it
/// starts.
pub fn elapsed_since(start: u64, now: u64) -> (r: Option<u32>)
    ensures
        now < start ==> r is None,
        now >= start ==> r == Some(((now - start) as u64) as u32),
{
    if now < start {
        None
    } else {
        Some((now - start) as u32)
    }
}

/// A finite animation is complete exactly when its phase is finished.
pub proof fn law_complete_iff_finished(
    delay_ms: u32,
    duration_ms: u32,
    iteration_count: u32,
    direction: AnimationDirection,
    elapsed_ms: u32,
)
    requires
        iteration_count > 0,
    ensures
        (phase_at(delay_ms, duration_ms, iteration_count, direction, elapsed_ms) is Finished) == (elapsed_ms >= delay_ms
            && (duration_ms == 0 || (elapsed_ms - delay_ms) / (duration_ms as int) >= iteration_count)),
{
}

/// Where an animation stands, in terms of its clock. Before its delay it
/// waits. While playing, iteration `i` at `t` into it means exactly
/// `delay + i * duration + t` milliseconds have passed, with `t` under one
/// duration and `i` under the iteration count of a finite animation. Once
/// done, it rests at its end value when played forwards, at its start value
/// when played in reverse, and, played back and forth, at its end value
/// exactly when it ran an odd number of iterations; without a duration it
/// is done at once, at its end value.
pub proof fn law_phase_by_clock(
    delay_ms: u32,
    duration_ms: u32,
    iteration_count: u32,
    direction: AnimationDirection,
    elapsed_ms: u32,
)
    ensures
        ({
            let p = phase_at(delay_ms, duration_ms, iteration_count, direction, elapsed_ms);
            &&& (p is Waiting) == (elapsed_ms < delay_ms)
            &&& (p is Playing) ==> {
                &&& duration_ms > 0
                &&& delay_ms + p->iteration * duration_ms + p->elapsed_in_iteration == elapsed_ms
                &&& p->elapsed_in_iteration < duration_ms
                &&& iteration_count > 0 ==> p->iteration < iteration_count
            }
            &&& (elapsed_ms >= delay_ms && duration_ms == 0) ==> p == AnimationPhase::Finished { at_end: true }
            &&& (duration_ms > 0 && p is Finished && direction == AnimationDirection::Normal) ==> p->at_end
            &&& (duration_ms > 0 && p is Finished && direction == AnimationDirection::Reverse) ==> !p->at_end
            &&& (duration_ms > 0 && p is Finished && direction == AnimationDirection::Alternate) ==> p->at_end
                == (iteration_count % 2 == 1)
        }),
{
    if elapsed_ms >= delay_ms && duration_ms > 0 {
        let active = elapsed_ms - delay_ms;
        let d = duration_ms as int;
        assert(active == d * (active / d) + active % d) by (nonlinear_arith)
            requires
                d > 0,
        ;
        assert(0 <= active % d < d) by (nonlinear_arith)
            requires
                d > 0,
        ;
        assert((active / d) * d == d * (active / d)) by (nonlinear_arith);
    }
}

} // verus!
