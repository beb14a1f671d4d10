//! Running a render plan: which FFmpeg run comes next, and what a failed
//! run makes of the render.

use vstd::prelude::*;
use crate::numfmt::{decimal, push_decimal, abs_u64, sign_text};
use crate::text::push_char;
use crate::render::RenderPlan;

verus! {

/// Where a render's run stands.
pub enum RenderStage {
    /// Normalising the clip of job `i`.
    Preprocess(usize),
    /// Generating filler `i` of the main track.
    Gap(usize),
    /// Generating the filler that closes the timeline.
    TrailingGap,
    /// Writing the concat list.
    WriteList,
    /// Running the final encode.
    Encode,
    /// The render is finished.
    Done,
}

/// How a step of the run went.
pub enum StepOutcome {
    /// The run exited successfully, or the file was written.
    Succeeded,
    /// The run exited unsuccessfully, with this exit code when it has one.
    Exited(Option<i32>),
    /// The program could not be started: the error's text.
    SpawnFailed(String),
    /// The run could not be waited for: the error's text.
    WaitFailed(String),
    /// A file could not be written or read: the error's text.
    IoFailed(String),
}

/// How an exit code is shown in a message: `Some(<code>)` or `None`.
pub open spec fn exit_text(code: Option<i32>) -> Seq<char> {
    match code {
        Some(c) => "Some("@ + sign_text(c as int) + decimal(if c < 0 { (-c) as nat } else { c as nat }) + ")"@,
        None => "None"@,
    }
}

/// The stage after the fillers of the main track: the closing filler when
/// there is one, else writing the list.
pub open spec fn after_gaps(plan: RenderPlan) -> RenderStage {
    if plan.trailing_gap is Some { RenderStage::TrailingGap } else { RenderStage::WriteList }
}

/// The stage after normalising job `i`.
pub open spec fn after_preprocess(plan: RenderPlan, i: int) -> RenderStage {
    if i + 1 < plan.preprocess@.len() {
        RenderStage::Preprocess((i + 1) as usize)
    } else if plan.gaps@.len() > 0 {
        RenderStage::Gap(0)
    } else {
        after_gaps(plan)
    }
}

/// The stage after filler `i`.
pub open spec fn after_gap(plan: RenderPlan, i: int) -> RenderStage {
    if i + 1 < plan.gaps@.len() {
        RenderStage::Gap((i + 1) as usize)
    } else {
        after_gaps(plan)
    }
}

/// Where the run of `plan` starts.
pub open spec fn start_stage(plan: RenderPlan) -> RenderStage {
    if plan.preprocess@.len() > 0 {
        RenderStage::Preprocess(0)
    } else if plan.gaps@.len() > 0 {
        RenderStage::Gap(0)
    } else {
        after_gaps(plan)
    }
}

/// What follows stage `stage` of `plan` when its step went as `outcome`:
/// the next stage, or the error that ends the render. A failed step ends
/// the render, except for the closing filler, whose failure is ignored.
pub open spec fn next_stage(plan: RenderPlan, stage: RenderStage, outcome: StepOutcome) -> Result<RenderStage, Seq<char>> {
    match stage {
        RenderStage::Preprocess(i) => match outcome {
            StepOutcome::Succeeded => Ok(after_preprocess(plan, i as int)),
            StepOutcome::Exited(c) => Err(
                "Pre-process failed for clip "@ + plan.preprocess@[i as int].clip_id@ + " (exit "@
                    + exit_text(c) + ")"@,
            ),
            StepOutcome::SpawnFailed(e) => Err("Pre-process failed: "@ + e@),
            StepOutcome::WaitFailed(e) => Err("Pre-process failed: "@ + e@),
            StepOutcome::IoFailed(e) => Err("Pre-process failed: "@ + e@),
        },
        RenderStage::Gap(i) => match outcome {
            StepOutcome::Succeeded => Ok(after_gap(plan, i as int)),
            StepOutcome::Exited(c) => Err("Gap gen failed (exit "@ + exit_text(c) + ")"@),
            StepOutcome::SpawnFailed(e) => Err("Gap gen: "@ + e@),
            StepOutcome::WaitFailed(e) => Err("Gap gen: "@ + e@),
            StepOutcome::IoFailed(e) => Err("Gap gen: "@ + e@),
        },
        RenderStage::TrailingGap => Ok(RenderStage::WriteList),
        RenderStage::WriteList => match outcome {
            StepOutcome::Succeeded => Ok(RenderStage::Encode),
            StepOutcome::Exited(c) => Err(exit_text(c)),
            StepOutcome::SpawnFailed(e) => Err(e@),
            StepOutcome::WaitFailed(e) => Err(e@),
            StepOutcome::IoFailed(e) => Err(e@),
        },
        RenderStage::Encode => match outcome {
            StepOutcome::Succeeded => Ok(RenderStage::Done),
            StepOutcome::Exited(c) => Err("ffmpeg exited with code "@ + exit_text(c)),
            StepOutcome::SpawnFailed(e) => Err("ffmpeg spawn: "@ + e@),
            StepOutcome::WaitFailed(e) => Err("ffmpeg wait: "@ + e@),
            StepOutcome::IoFailed(e) => Err(e@),
        },
        RenderStage::Done => Ok(RenderStage::Done),
    }
}

/// Whether `stage` belongs to the run of `plan`: its job numbers exist.
pub open spec fn stage_wf(plan: RenderPlan, stage: RenderStage) -> bool {
    match stage {
        RenderStage::Preprocess(i) => i < plan.preprocess@.len(),
        RenderStage::Gap(i) => i < plan.gaps@.len(),
        RenderStage::TrailingGap => plan.trailing_gap is Some,
        _ => true,
    }
}

/// How an exit code is shown in a message.
pub fn exit_code_text(code: Option<i32>) -> (r: String)
    ensures
        r@ == exit_text(code),
{
    match code {
        Some(c) => {
            let mut s = String::from_str("Some(");
            if c < 0 {
                push_char(&mut s, '-');
            }
            let a = abs_u64(c as i64);
            push_decimal(&mut s, a);
            s.append(")");
            assert(s@ =~= exit_text(code));
            s
        },
        None => String::from_str("None"),
    }
}

/// Where the run of `plan` starts.
pub fn first_stage(plan: &RenderPlan) -> (r: RenderStage)
    ensures
        r == start_stage(*plan),
        stage_wf(*plan, r),
{
    if plan.preprocess.len() > 0 {
        RenderStage::Preprocess(0)
    } else if plan.gaps.len() > 0 {
        RenderStage::Gap(0)
    } else if plan.trailing_gap.is_some() {
        RenderStage::TrailingGap
    } else {
        RenderStage::WriteList
    }
}

/// What follows a step of the run of `plan`.
pub fn render_step(plan: &RenderPlan, stage: &RenderStage, outcome: &StepOutcome) -> (r: Result<RenderStage, String>)
    requires
        stage_wf(*plan, *stage),
    ensures
        match (r, next_stage(*plan, *stage, *outcome)) {
            (Ok(a), Ok(b)) => a == b && stage_wf(*plan, a),
            (Err(a), Err(b)) => a@ == b,
            _ => false,
        },
{
    let after_gaps = if plan.trailing_gap.is_some() { RenderStage::TrailingGap } else { RenderStage::WriteList };
    match stage {
        RenderStage::Preprocess(i) => match outcome {
            StepOutcome::Succeeded => {
                if *i < plan.preprocess.len() - 1 {
                    Ok(RenderStage::Preprocess(*i + 1))
                } else if plan.gaps.len() > 0 {
                    Ok(RenderStage::Gap(0))
                } else {
                    Ok(after_gaps)
                }
            },
            StepOutcome::Exited(c) => {
                let mut s = String::from_str("Pre-process failed for clip ");
                s.append(plan.preprocess[*i].clip_id.as_str());
                s.append(" (exit ");
                let t = exit_code_text(*c);
                s.append(t.as_str());
                s.append(")");
                Err(s)
            },
            StepOutcome::SpawnFailed(e) | StepOutcome::WaitFailed(e) | StepOutcome::IoFailed(e) => {
                let mut s = String::from_str("Pre-process failed: ");
                s.append(e.as_str());
                Err(s)
            },
        },
        RenderStage::Gap(i) => match outcome {
            StepOutcome::Succeeded => {
                if *i < plan.gaps.len() - 1 {
                    Ok(RenderStage::Gap(*i + 1))
                } else {
                    Ok(after_gaps)
                }
            },
            StepOutcome::Exited(c) => {
                let mut s = String::from_str("Gap gen failed (exit ");
                let t = exit_code_text(*c);
                s.append(t.as_str());
                s.append(")");
                Err(s)
            },
            StepOutcome::SpawnFailed(e) | StepOutcome::WaitFailed(e) | StepOutcome::IoFailed(e) => {
                let mut s = String::from_str("Gap gen: ");
                s.append(e.as_str());
                Err(s)
            },
        },
        RenderStage::TrailingGap => Ok(RenderStage::WriteList),
        RenderStage::WriteList => match outcome {
            StepOutcome::Succeeded => Ok(RenderStage::Encode),
            StepOutcome::Exited(c) => Err(exit_code_text(*c)),
            StepOutcome::SpawnFailed(e) | StepOutcome::WaitFailed(e) | StepOutcome::IoFailed(e) => Err(e.clone()),
        },
        RenderStage::Encode => match outcome {
            StepOutcome::Succeeded => Ok(RenderStage::Done),
            StepOutcome::Exited(c) => {
                let mut s = String::from_str("ffmpeg exited with code ");
                let t = exit_code_text(*c);
                s.append(t.as_str());
                Err(s)
            },
            StepOutcome::SpawnFailed(e) => {
                let mut s = String::from_str("ffmpeg spawn: ");
                s.append(e.as_str());
                Err(s)
            },
            StepOutcome::WaitFailed(e) => {
                let mut s = String::from_str("ffmpeg wait: ");
                s.append(e.as_str());
                Err(s)
            },
            StepOutcome::IoFailed(e) => Err(e.clone()),
        },
        RenderStage::Done => Ok(RenderStage::Done),
    }
}

/// How many steps are left from `stage` when every one succeeds.
pub open spec fn steps_left(plan: RenderPlan, stage: RenderStage) -> int {
    let closing: int = if plan.trailing_gap is Some { 1 } else { 0 };
    match stage {
        RenderStage::Preprocess(i) => (plan.preprocess@.len() - i) + plan.gaps@.len() + closing + 2,
        RenderStage::Gap(i) => (plan.gaps@.len() - i) + closing + 2,
        RenderStage::TrailingGap => 3,
        RenderStage::WriteList => 2,
        RenderStage::Encode => 1,
        RenderStage::Done => 0,
    }
}

/// Every successful step brings the run one step nearer its end: a run in
/// which every step succeeds makes each FFmpeg run of the plan once, in
/// order, writes the list, encodes, and finishes.
pub proof fn lemma_success_advances(plan: RenderPlan, stage: RenderStage)
    requires
        stage_wf(plan, stage),
        plan.preprocess@.len() <= usize::MAX,
        plan.gaps@.len() <= usize::MAX,
        stage != RenderStage::Done,
    ensures
        next_stage(plan, stage, StepOutcome::Succeeded) matches Ok(n) && steps_left(plan, n) == steps_left(plan, stage) - 1
            && stage_wf(plan, n),
{
}

/// A run of a plan with `n` normalising jobs, `g` fillers and a closing
/// filler or not starts `n + g + (1 or 0) + 2` steps from its end.
pub proof fn lemma_start_steps(plan: RenderPlan)
    ensures
        steps_left(plan, start_stage(plan)) == plan.preprocess@.len() + plan.gaps@.len() + (if plan.trailing_gap is Some { 1int } else { 0 }) + 2,
{
}

} // verus!
