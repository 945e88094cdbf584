//! The state of the input debugger: a busy indicator and the most recent
//! input events, up to a number that the window leaves room for.
use std::collections::VecDeque;

use vstd::prelude::*;

use crate::keys::{BfEvent, InputEvent, KeyCode, KeyEvent};
use crate::widgets::Spinner;

verus! {

/// The input debugger's state; `T` is what is kept of each event.
pub struct State<T> {
    spinner: Spinner,
    input_history_size: usize,
    input_history: VecDeque<T>,
}

/// The history after `entry` is added: the oldest entry goes when the
/// history is already at its size.
pub open spec fn history_after_add<T>(history: Seq<T>, size: nat, entry: T) -> Seq<T> {
    if history.len() >= size && history.len() > 0 {
        history.drop_first().push(entry)
    } else {
        history.push(entry)
    }
}

/// The history cut to its newest `size` entries.
pub open spec fn history_after_resize<T>(history: Seq<T>, size: nat) -> Seq<T> {
    if history.len() > size {
        history.subrange(history.len() - size, history.len() as int)
    } else {
        history
    }
}

impl<T> State<T> {
    #[verifier::type_invariant]
    spec fn inv(&self) -> bool {
        self.input_history.len() <= if self.input_history_size == 0 { 1 } else { self.input_history_size as int }
    }

    /// The entries kept, oldest first.
    pub closed spec fn history(&self) -> Seq<T> {
        self.input_history@
    }

    /// How many entries are kept at most.
    pub closed spec fn size(&self) -> nat {
        self.input_history_size as nat
    }

    /// The spinner's position.
    pub closed spec fn spinner_index(&self) -> usize {
        self.spinner.0
    }

    /// An empty history that keeps up to `input_history_size` entries.
    pub fn new(input_history_size: usize) -> (s: Self)
        ensures
            s.history() == Seq::<T>::empty(),
            s.size() == input_history_size,
            s.spinner_index() == 0,
    {
        State { spinner: Spinner(0), input_history_size, input_history: VecDeque::new() }
    }

    /// The entries kept, oldest first.
    pub fn get_input_history(&self) -> (h: &VecDeque<T>)
        ensures
            h@ == self.history(),
    {
        &self.input_history
    }

    /// The spinner.
    pub fn get_spinner(&self) -> (s: Spinner)
        ensures
            s.0 == self.spinner_index(),
    {
        self.spinner
    }

    /// Turns the spinner one frame.
    pub fn spinner_tick(&mut self)
        ensures
            final(self).spinner_index() == (old(self).spinner_index() + 1) % 4,
            final(self).history() == old(self).history(),
            final(self).size() == old(self).size(),
    {
        proof {
            use_type_invariant(&*self);
        }
        let mut spinner = self.spinner;
        spinner.tick();
        self.spinner = spinner;
    }

    /// Keeps up to `size` entries from now on, dropping the oldest ones
    /// that no longer fit.
    pub fn input_history_resize(&mut self, size: usize)
        ensures
            final(self).history() == history_after_resize(old(self).history(), size as nat),
            final(self).history().len() <= size,
            final(self).size() == size,
            final(self).spinner_index() == old(self).spinner_index(),
    {
        let ghost h0 = self.input_history@;
        let mut h: VecDeque<T> = VecDeque::new();
        std::mem::swap(&mut h, &mut self.input_history);
        while h.len() > size
            invariant
                h0.len() >= h@.len(),
                h@ == h0.subrange(h0.len() - h@.len(), h0.len() as int),
                h0.len() <= size ==> h@.len() == h0.len(),
                h0.len() > size ==> h@.len() >= size,
            decreases h.len(),
        {
            let _ = h.pop_front();
        }
        proof {
            if h0.len() <= size {
                assert(h@ =~= h0);
            } else {
                assert(h@.len() == size);
            }
        }
        self.input_history_size = size;
        self.input_history = h;
    }

    /// Adds the newest entry, dropping the oldest one when the history is
    /// full.
    pub fn input_history_add(&mut self, entry: T)
        ensures
            final(self).history() == history_after_add(old(self).history(), old(self).size(), entry),
            final(self).history().len() <= if final(self).size() == 0 { 1 } else { final(self).size() },
            final(self).size() == old(self).size(),
            final(self).spinner_index() == old(self).spinner_index(),
    {
        proof {
            use_type_invariant(&*self);
        }
        let size = self.input_history_size;
        let mut h: VecDeque<T> = VecDeque::new();
        std::mem::swap(&mut h, &mut self.input_history);
        if h.len() >= size && h.len() > 0 {
            let _ = h.pop_front();
        }
        h.push_back(entry);
        self.input_history = h;
    }
}

/// What the input debugger does with an event.
#[derive(Clone, Copy, Debug, PartialEq, Eq, Structural)]
pub enum InputDebugAction {
    /// Close the debugger.
    Quit,
    /// Add the event to the history.
    Record,
    /// Keep this many entries from now on.
    Resize(usize),
    /// Turn the spinner.
    Tick,
    /// Nothing.
    Ignore,
}

/// The debugger's rules: Escape (without modifiers) quits, other key
/// presses are recorded, mouse events only when asked for, a new terminal
/// height leaves room for three lines besides the history, and a tick turns
/// the spinner.
pub open spec fn input_debug_rule(enable_mouse: bool, e: BfEvent) -> InputDebugAction {
    match e {
        BfEvent::Tick => InputDebugAction::Tick,
        BfEvent::Input(InputEvent::Key(k)) => if k == KeyEvent::plain_spec(KeyCode::Esc) {
            InputDebugAction::Quit
        } else {
            InputDebugAction::Record
        },
        BfEvent::Input(InputEvent::Mouse) => if enable_mouse { InputDebugAction::Record } else { InputDebugAction::Ignore },
        BfEvent::Input(InputEvent::Resize(_w, h)) => InputDebugAction::Resize(if h >= 3 { (h - 3) as usize } else { 0 }),
        BfEvent::Input(InputEvent::Other) => InputDebugAction::Ignore,
    }
}

/// What the input debugger does with `event` (see `input_debug_rule`).
pub fn input_debug_action(enable_mouse: bool, event: BfEvent) -> (a: InputDebugAction)
    ensures
        a == input_debug_rule(enable_mouse, event),
{
    match event {
        BfEvent::Tick => InputDebugAction::Tick,
        BfEvent::Input(InputEvent::Key(k)) => {
            if k.code == KeyCode::Esc && !k.modifiers.shift && !k.modifiers.control && !k.modifiers.alt {
                InputDebugAction::Quit
            } else {
                InputDebugAction::Record
            }
        },
        BfEvent::Input(InputEvent::Mouse) => if enable_mouse { InputDebugAction::Record } else { InputDebugAction::Ignore },
        BfEvent::Input(InputEvent::Resize(_w, h)) => InputDebugAction::Resize(h.saturating_sub(3) as usize),
        BfEvent::Input(InputEvent::Other) => InputDebugAction::Ignore,
    }
}

/// Adding an entry to a history that holds at most `size` entries: the
/// entry becomes the newest, the history still holds at most `size`
/// entries (at least one), and the entries kept are the newest of the old
/// ones, in order.
pub proof fn law_history_keeps_the_newest<T>(history: Seq<T>, size: nat, entry: T)
    requires
        history.len() <= size,
    ensures
        ({
            let h = history_after_add(history, size, entry);
            &&& h.len() > 0 && h.last() == entry
            &&& h.len() <= if size == 0 { 1 } else { size }
            &&& h.len() == if history.len() < size { history.len() + 1 } else if history.len() == 0 { 1nat } else {
                history.len()
            }
            &&& forall|i: int|
                0 <= i < h.len() - 1 ==> h[i] == history[history.len() - (h.len() - 1) + i]
        }),
{
}

} // verus!

