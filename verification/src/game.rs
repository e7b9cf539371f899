//! Game flow decisions: how one batch of polled input events drives the
//! main loop. The host polls its own event queue, reduces each event to a
//! plain [`GameEvent`], and acts on the returned [`Flow`]; the decision
//! itself lives here.

use vstd::prelude::*;

use crate::geometry::GenericKey;

verus! {

/// What the main loop should do after one batch of events.
#[derive(Debug, PartialEq, Eq, Clone, Copy, Structural)]
pub enum Flow {
    /// Keep running; nothing to draw.
    Continue,
    /// Keep running and redraw the frame.
    Redraw,
    /// Leave the main loop.
    Exit,
}

/// One polled event, with host-specific payloads reduced to plain values.
#[derive(Debug, PartialEq, Eq, Clone)]
pub enum GameEvent {
    /// User requested the window to close.
    Quit,
    /// System requested the window to close.
    Terminate,
    /// Window focus changed.
    Focused(bool),
    /// Generic keypress input.
    Input(GenericKey),
    /// The window needs to be redrawn.
    Redraw,
    /// Anything the game does not react to.
    Other,
}

/// The flow decision after the given events, starting from `acc`: a quit
/// request or an escape key ends the run at once and discards the rest; a
/// redraw request marks the frame dirty; every other event is ignored.
pub open spec fn flow_after(events: Seq<GameEvent>, acc: Flow) -> Flow
    decreases events.len(),
{
    if events.len() == 0 {
        acc
    } else {
        match events.first() {
            GameEvent::Quit => Flow::Exit,
            GameEvent::Input(GenericKey::Esc) => Flow::Exit,
            GameEvent::Redraw => flow_after(events.drop_first(), Flow::Redraw),
            _ => flow_after(events.drop_first(), acc),
        }
    }
}

/// The game's state machine. The drawing itself is host work; only the
/// decisions live here.
pub struct Game {}

impl Default for Game {
    fn default() -> (r: Game)
        ensures
            r == (Game {  }),
    {
        Game {  }
    }
}

impl Game {
    /// Folds one batch of polled events into a flow decision, in order:
    /// quit or escape exits immediately, a redraw request marks the frame
    /// dirty, everything else is ignored.
    pub fn process_events(&mut self, events: &Vec<GameEvent>) -> (flow: Flow)
        ensures
            flow == flow_after(events@, Flow::Continue),
            *final(self) == *old(self),
    {
        let mut acc = Flow::Continue;
        let n = events.len();
        let mut i: usize = 0;
        proof {
            assert(events@.subrange(0, n as int) =~= events@);
        }
        while i < n
            invariant
                i <= n,
                n == events@.len(),
                flow_after(events@, Flow::Continue) == flow_after(
                    events@.subrange(i as int, n as int),
                    acc,
                ),
            decreases n - i,
        {
            let ghost rest = events@.subrange(i as int, n as int);
            proof {
                assert(rest.first() == events@[i as int]);
                assert(rest.drop_first() =~= events@.subrange(i + 1 as int, n as int));
            }
            match &events[i] {
                GameEvent::Quit => {
                    return Flow::Exit;
                },
                GameEvent::Input(GenericKey::Esc) => {
                    return Flow::Exit;
                },
                GameEvent::Redraw => {
                    acc = Flow::Redraw;
                },
                _ => {},
            }
            i += 1;
        }
        proof {
            assert(events@.subrange(n as int, n as int).len() == 0);
        }
        acc
    }
}

} // verus!
