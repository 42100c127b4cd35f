//! The event loop's decisions.
//!
//! Two event sources are merged into one ordered stream: windowing events
//! and snapshot lines. Each event either repaints the current tree,
//! replaces it and repaints, or is discarded. The functions here decide;
//! the caller performs the repaint and reports back, and a freshly parsed
//! tree is committed only once its first repaint has succeeded, so a
//! failed build never leaves a partial tree behind.

use vstd::prelude::*;

use crate::codec::deserialize;
use crate::codec::spec_deserialize;
use crate::error::InputParseError;
use crate::object::Object;
use crate::object::forest_view;

verus! {

/// The code of an exposure event in the windowing protocol.
pub const EXPOSE: u8 = 12;

/// A windowing event, reduced to what the loop cares about.
#[derive(Clone, Copy, Debug, PartialEq, Eq, Structural)]
pub enum WindowEvent {
    /// The window asks to be repainted.
    Draw,
    /// Anything else: logged and ignored.
    Unknown,
}

/// The classification of a raw windowing event code.
///
/// The top bit of the code only flags an event sent by another client and
/// is masked off; an exposure asks for a repaint, everything else is
/// ignored.
pub open spec fn spec_classify(code: u8) -> WindowEvent {
    if code & 0x7f == EXPOSE {
        WindowEvent::Draw
    } else {
        WindowEvent::Unknown
    }
}

/// Classify a raw windowing event code.
pub fn classify_event(code: u8) -> (e: WindowEvent)
    ensures
        e == spec_classify(code),
{
    if code & 0x7f == EXPOSE {
        WindowEvent::Draw
    } else {
        WindowEvent::Unknown
    }
}

/// One event of the merged stream.
#[derive(Debug)]
pub enum Event {
    /// A windowing event arrived.
    Window(WindowEvent),
    /// One snapshot line arrived.
    Input(String),
}

/// What the loop does for one event.
#[derive(Debug)]
pub enum Action {
    /// Repaint using the current tree, unchanged.
    RepaintCurrent,
    /// Repaint using this freshly parsed tree; commit it only if that
    /// repaint succeeds.
    RepaintNew { tree: Vec<Object> },
    /// The line was malformed: report this, discard the line, do not
    /// repaint.
    Report(InputParseError),
    /// An unrecognized windowing event: nothing to do.
    Ignore,
}

/// Decide what one event means.
///
/// A draw event repaints the current tree; an unknown windowing event is
/// ignored; a snapshot line that parses carries the new tree to paint; a
/// line that does not parse is reported and changes nothing.
pub fn on_event(ev: Event) -> (a: Action)
    ensures
        match ev {
            Event::Window(w) => match w {
                WindowEvent::Draw => a is RepaintCurrent,
                WindowEvent::Unknown => a is Ignore,
            },
            Event::Input(line) => match spec_deserialize(line@) {
                Some(f) => a matches Action::RepaintNew { tree } && forest_view(tree@) == f,
                None => a is Report,
            },
        },
{
    match ev {
        Event::Window(w) => match w {
            WindowEvent::Draw => Action::RepaintCurrent,
            WindowEvent::Unknown => Action::Ignore,
        },
        Event::Input(line) => match deserialize(line.as_str()) {
            Ok(tree) => Action::RepaintNew { tree },
            Err(e) => Action::Report(e),
        },
    }
}

/// Settle the current tree once the repaint of a freshly parsed tree has
/// been attempted: the new tree is committed only on success, so a repaint
/// that failed mid-build leaves the current tree exactly as it was.
pub fn commit(current: &mut Vec<Object>, new_tree: Vec<Object>, repaint_ok: bool)
    ensures
        repaint_ok ==> final(current)@ == new_tree@,
        !repaint_ok ==> final(current)@ == old(current)@,
{
    if repaint_ok {
        *current = new_tree;
    }
}

} // verus!
