//! What is done when the window is drawn, and what keys and the wheel mean.

use vstd::prelude::*;

use crate::ai_edit::AiStage;
use crate::settings::WindowBox;

verus! {

/// What the keyboard is led to.
#[derive(Clone, Copy, PartialEq, Eq, Debug, Structural)]
pub enum Focus {
    Keep,
    Ai,
    ClosePrompt,
}

/// What the keyboard is led to: the question about unsaved changes before anything
/// else, then an answer that waits to be looked at.
pub fn focus_target(stage: AiStage, ai_focused: bool, close_prompt: bool, close_focused: bool) -> (r:
    Focus)
    ensures
        r == if close_prompt {
            if close_focused && !(stage == AiStage::Review && !ai_focused) {
                Focus::Keep
            } else {
                Focus::ClosePrompt
            }
        } else if stage == AiStage::Review && !ai_focused {
            Focus::Ai
        } else {
            Focus::Keep
        },
{
    let ai = stage == AiStage::Review && !ai_focused;
    if close_prompt {
        if close_focused && !ai {
            Focus::Keep
        } else {
            Focus::ClosePrompt
        }
    } else if ai {
        Focus::Ai
    } else {
        Focus::Keep
    }
}

/// What is done while the window is drawn, in this order.
#[derive(Clone, Copy, PartialEq, Eq, Debug, Structural)]
pub enum Step {
    /// Sets the document for the first time, once the window is there.
    FirstCompile,
    /// Writes the place of the window down, later.
    KeepWindow,
    /// Lets the pages fill the width.
    FitZoom,
    /// Draws the pages that are seen.
    SyncPages,
    /// Jumps to where the cursor was put.
    JumpForward,
    /// Shows what was read from disk.
    Reload,
    /// Begins to watch the file.
    Watch,
}

/// What is pending when the window is drawn.
#[derive(Clone, Copy, PartialEq, Eq, Debug, Structural)]
pub struct Pending {
    pub first_compile: bool,
    pub window_moved: bool,
    pub forward: bool,
    pub reload: bool,
    pub watching: bool,
}

/// A step, where it is due.
#[verifier::opaque]
pub open spec fn step_if(due: bool, step: Step) -> Seq<Step> {
    if due {
        seq![step]
    } else {
        Seq::empty()
    }
}

/// What is done while the window is drawn.
pub open spec fn steps_of(p: Pending) -> Seq<Step> {
    step_if(p.first_compile, Step::FirstCompile) + step_if(p.window_moved, Step::KeepWindow)
        + step_if(true, Step::FitZoom) + step_if(true, Step::SyncPages) + step_if(
        p.forward,
        Step::JumpForward,
    ) + step_if(p.reload, Step::Reload) + step_if(!p.watching, Step::Watch)
}

fn add_step(to: &mut Vec<Step>, due: bool, step: Step)
    ensures
        final(to)@ == old(to)@ + step_if(due, step),
{
    reveal(step_if);
    let ghost before = to@;
    if due {
        to.push(step);
    }
    assert(to@ =~= before + step_if(due, step));
}

/// What is done while the window is drawn.
pub fn steps(p: Pending) -> (r: Vec<Step>)
    ensures
        r@ == steps_of(p),
{
    let mut out: Vec<Step> = Vec::new();
    add_step(&mut out, p.first_compile, Step::FirstCompile);
    assert(out@ =~= step_if(p.first_compile, Step::FirstCompile));
    add_step(&mut out, p.window_moved, Step::KeepWindow);
    add_step(&mut out, true, Step::FitZoom);
    add_step(&mut out, true, Step::SyncPages);
    add_step(&mut out, p.forward, Step::JumpForward);
    add_step(&mut out, p.reload, Step::Reload);
    add_step(&mut out, !p.watching, Step::Watch);
    out
}

/// Whether the window has moved or changed its size.
pub fn window_moved(known: Option<WindowBox>, now: WindowBox) -> (r: bool)
    ensures
        r == (known != Some(now)),
{
    match known {
        Some(b) => !(b.0 == now.0 && b.1 == now.1 && b.2 == now.2 && b.3 == now.3),
        None => true,
    }
}

/// What the wheel does.
#[derive(Clone, Copy, PartialEq, Eq, Debug, Structural)]
pub enum Wheel {
    /// The preview scrolls; whether the user is to be left alone for a while.
    Scroll { pause_follow: bool },
    Nothing,
    ZoomIn,
    ZoomOut,
}

/// What the wheel does. `up` is by how much it was turned, in any unit: above 0 away
/// from the user.
pub fn wheel(control: bool, following: bool, up: i32) -> (r: Wheel)
    ensures
        r == if !control {
            Wheel::Scroll { pause_follow: following }
        } else if up == 0 {
            Wheel::Nothing
        } else if up > 0 {
            Wheel::ZoomIn
        } else {
            Wheel::ZoomOut
        },
{
    if !control {
        Wheel::Scroll { pause_follow: following }
    } else if up == 0 {
        Wheel::Nothing
    } else if up > 0 {
        Wheel::ZoomIn
    } else {
        Wheel::ZoomOut
    }
}

/// What the key does that confirms in a round.
#[derive(Clone, Copy, PartialEq, Eq, Debug, Structural)]
pub enum Submit {
    Apply,
    Start,
}

/// What the key does that confirms in a round: an answer is taken over, anything else is
/// sent.
pub fn submit(stage: AiStage) -> (r: Submit)
    ensures
        r == if stage == AiStage::Review {
            Submit::Apply
        } else {
            Submit::Start
        },
{
    if stage == AiStage::Review {
        Submit::Apply
    } else {
        Submit::Start
    }
}

/// Whether the terminal is shown after its key was pressed; the keyboard goes to it
/// where it is.
pub fn toggle_shell(visible: bool) -> (r: bool)
    ensures
        r == !visible,
{
    !visible
}

proof fn lemma_steps_add(a: Seq<Step>, due: bool, step: Step, x: Step)
    ensures
        (a + step_if(due, step)).contains(x) <==> a.contains(x) || (due && step == x),
{
    reveal(step_if);
    let b = step_if(due, step);
    let all = a + b;
    if a.contains(x) {
        let k = choose|k: int| 0 <= k < a.len() && a[k] == x;
        assert(all[k] == x);
    }
    if due && step == x {
        assert(all[a.len() as int] == x);
    }
    if all.contains(x) {
        let k = choose|k: int| 0 <= k < all.len() && all[k] == x;
        if k < a.len() {
            assert(a[k] == x);
        }
    }
}

/// Whatever is pending is done, and nothing else: no step is put off because of another.
pub proof fn whatever_is_pending_is_done(p: Pending, x: Step)
    ensures
        steps_of(p).contains(x) <==> match x {
            Step::FirstCompile => p.first_compile,
            Step::KeepWindow => p.window_moved,
            Step::FitZoom => true,
            Step::SyncPages => true,
            Step::JumpForward => p.forward,
            Step::Reload => p.reload,
            Step::Watch => !p.watching,
        },
{
    let none = Seq::<Step>::empty();
    lemma_steps_add(none, p.first_compile, Step::FirstCompile, x);
    let a = step_if(p.first_compile, Step::FirstCompile);
    assert(none + a =~= a);
    lemma_steps_add(a, p.window_moved, Step::KeepWindow, x);
    let b = a + step_if(p.window_moved, Step::KeepWindow);
    lemma_steps_add(b, true, Step::FitZoom, x);
    let c = b + step_if(true, Step::FitZoom);
    lemma_steps_add(c, true, Step::SyncPages, x);
    let d = c + step_if(true, Step::SyncPages);
    lemma_steps_add(d, p.forward, Step::JumpForward, x);
    let e = d + step_if(p.forward, Step::JumpForward);
    lemma_steps_add(e, p.reload, Step::Reload, x);
    let f = e + step_if(p.reload, Step::Reload);
    lemma_steps_add(f, !p.watching, Step::Watch, x);
}

} // verus!
