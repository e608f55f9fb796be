//! The input snapshot: which controls are held, where the pointer is, and the
//! drag rectangle that becomes a selection when the select control is let go.
//!
//! Raw platform events reach the snapshot as values of [`Event`], through a
//! queue that the host fills from its window and the snapshot reads from.

use std::collections::VecDeque;
use vstd::prelude::*;
use crate::vec::Vec2;

verus! {

/// A key of the keyboard, as far as the controls tell keys apart.
#[derive(Clone, Copy, Debug, PartialEq, Eq, Structural, Hash)]
pub enum VirtualKeyCode {
    Escape,
    Space,
    /// Any other key, by a number that the host chooses for it.
    Other(u32),
}

/// A button of the pointing device.
#[derive(Clone, Copy, Debug, PartialEq, Eq, Structural, Hash)]
pub enum MouseButton {
    Left,
    Right,
    Middle,
    Back,
    Forward,
    Other(u16),
}

/// Whether a key or button went down or came up.
#[derive(Clone, Copy, Debug, PartialEq, Eq, Structural, Hash)]
pub enum ElementState {
    Pressed,
    Released,
}

/// One raw event of the platform, reduced to what the snapshot reads.
#[derive(Clone, Copy, Debug, PartialEq, Eq, Structural)]
pub enum Event {
    /// The window was asked to close.
    Closed,
    /// A key changed state; the key is `None` where the platform could not name it.
    KeyboardInput(ElementState, Option<VirtualKeyCode>),
    /// A pointer button changed state.
    MouseInput(ElementState, MouseButton),
    /// The pointer moved to these screen coordinates.
    MouseMoved(i32, i32),
    /// Anything else.
    Other,
}

/// What a control is bound to.
#[derive(Clone, Copy, Debug, PartialEq, Eq, Structural, Hash)]
pub enum InputType {
    Key(VirtualKeyCode),
    Mouse(MouseButton),
}

/// The state of one control.
#[derive(Clone, Copy, Debug, Hash)]
pub struct Input {
    pub input: InputType,
    /// The control is held.
    pub down: bool,
    /// The control went down during the latest poll.
    pub just_down: bool,
}

impl Input {
    /// A released control bound to the key `k`.
    pub fn new_key_input(k: VirtualKeyCode) -> (r: Input)
        ensures
            r == (Input { input: InputType::Key(k), down: false, just_down: false }),
    {
        Input { input: InputType::Key(k), down: false, just_down: false }
    }

    /// A released control bound to the button `m`.
    pub fn new_mouse_input(m: MouseButton) -> (r: Input)
        ensures
            r == (Input { input: InputType::Mouse(m), down: false, just_down: false }),
    {
        Input { input: InputType::Mouse(m), down: false, just_down: false }
    }

    pub fn pressed(&mut self)
        ensures
            *final(self) == (Input { down: true, just_down: true, ..*old(self) }),
    {
        self.down = true;
        self.just_down = true;
    }

    pub fn released(&mut self)
        ensures
            *final(self) == (Input { down: false, just_down: false, ..*old(self) }),
    {
        self.down = false;
        self.just_down = false;
    }

    /// The control after `source` changed to `state`: touched only if it is
    /// bound to `source`.
    pub open spec fn recorded(self, source: InputType, state: ElementState) -> Input {
        if self.input != source {
            self
        } else {
            match state {
                ElementState::Pressed => Input { down: true, just_down: true, ..self },
                ElementState::Released => Input { down: false, just_down: false, ..self },
            }
        }
    }

    fn record(&mut self, source: InputType, state: ElementState)
        ensures
            *final(self) == old(self).recorded(source, state),
    {
        if self.input != source {
            return ;
        }
        match state {
            ElementState::Pressed => self.pressed(),
            ElementState::Released => self.released(),
        }
    }
}

/// The logical controls of the game.
#[derive(Clone, Copy, Debug, PartialEq, Eq, Structural, Hash, PartialOrd, Ord)]
pub enum Control {
    Split,
    Select,
    Move,
}

/// The state of every control: a total map from [`Control`] to [`Input`].
///
/// It is a struct with a field for each control and not an ordered map
/// keyed by [`Control`]: the order of that key is a derived one, and of a
/// map that rests on it nothing can be proved, not even that it holds what
/// was put into it.
#[derive(Clone, Copy, Debug)]
pub struct ControlMap {
    pub split: Input,
    pub select: Input,
    pub steer: Input,
}

impl ControlMap {
    /// The state of control `c`.
    pub open spec fn at(self, c: Control) -> Input {
        match c {
            Control::Split => self.split,
            Control::Select => self.select,
            Control::Move => self.steer,
        }
    }

    /// The state of control `c`.
    pub fn get(&self, c: &Control) -> (r: &Input)
        ensures
            *r == self.at(*c),
    {
        match c {
            Control::Split => &self.split,
            Control::Select => &self.select,
            Control::Move => &self.steer,
        }
    }

    /// Every control after `source` changed to `state`.
    pub open spec fn recorded(self, source: InputType, state: ElementState) -> ControlMap {
        ControlMap {
            split: self.split.recorded(source, state),
            select: self.select.recorded(source, state),
            steer: self.steer.recorded(source, state),
        }
    }

    /// Every control with its went-down mark cleared.
    pub open spec fn settled(self) -> ControlMap {
        ControlMap {
            split: Input { just_down: false, ..self.split },
            select: Input { just_down: false, ..self.select },
            steer: Input { just_down: false, ..self.steer },
        }
    }
}

/// A rectangle in screen coordinates by two opposite corners, in no
/// particular order.
#[derive(Clone, Copy, Debug)]
pub struct DragBox(pub Vec2<i32>, pub Vec2<i32>);

impl DragBox {
    /// The same rectangle with the first corner at the top left and the
    /// second at the bottom right: each axis is swapped on its own where it
    /// is inverted.
    pub open spec fn ordered(self) -> DragBox {
        DragBox(
            Vec2(
                if self.0.0 > self.1.0 { self.1.0 } else { self.0.0 },
                if self.0.1 > self.1.1 { self.1.1 } else { self.0.1 },
            ),
            Vec2(
                if self.0.0 > self.1.0 { self.0.0 } else { self.1.0 },
                if self.0.1 > self.1.1 { self.0.1 } else { self.1.1 },
            ),
        )
    }

    /// Orders the corners, see [`DragBox::ordered`].
    pub fn normalized(&self) -> (r: DragBox)
        ensures
            r == self.ordered(),
            r.0.0 <= r.1.0,
            r.0.1 <= r.1.1,
    {
        let mut sel = *self;
        if sel.0.0 > sel.1.0 {
            let tmp: i32 = sel.1.0;
            sel.1.0 = sel.0.0;
            sel.0.0 = tmp;
        }
        if sel.0.1 > sel.1.1 {
            let tmp: i32 = sel.1.1;
            sel.1.1 = sel.0.1;
            sel.0.1 = tmp;
        }
        sel
    }
}

/// The input snapshot.
#[derive(Clone, Copy, Debug)]
pub struct InputHandler {
    /// Box currently being dragged.
    pub curr_box: Option<DragBox>,
    /// The box that was let go during the latest poll; set for that one poll.
    pub selection: Option<DragBox>,
    pub mouse_pos: (i32, i32),
    pub inputs: ControlMap,
}

impl InputHandler {
    /// The snapshot before any event: select on the left button, move on the
    /// right button, split on the space bar, nothing held, pointer at the
    /// origin.
    pub open spec fn initial() -> InputHandler {
        InputHandler {
            curr_box: None,
            selection: None,
            mouse_pos: (0, 0),
            inputs: ControlMap {
                split: Input {
                    input: InputType::Key(VirtualKeyCode::Space),
                    down: false,
                    just_down: false,
                },
                select: Input {
                    input: InputType::Mouse(MouseButton::Left),
                    down: false,
                    just_down: false,
                },
                steer: Input {
                    input: InputType::Mouse(MouseButton::Right),
                    down: false,
                    just_down: false,
                },
            },
        }
    }

    pub fn new() -> (r: InputHandler)
        ensures
            r == InputHandler::initial(),
    {
        InputHandler {
            curr_box: None,
            selection: None,
            mouse_pos: (0, 0),
            inputs: ControlMap {
                split: Input::new_key_input(VirtualKeyCode::Space),
                select: Input::new_mouse_input(MouseButton::Left),
                steer: Input::new_mouse_input(MouseButton::Right),
            },
        }
    }

    /// The snapshot at the start of a poll: no control has just gone down and
    /// the selection of the poll before is gone.
    pub open spec fn opened(self) -> InputHandler {
        InputHandler { selection: None, inputs: self.inputs.settled(), ..self }
    }

    /// The snapshot after the drag rectangle has followed the select control:
    /// a rectangle starts at the pointer when the control has just gone down;
    /// a rectangle in progress becomes the selection when the control is up,
    /// and else its second corner follows the pointer.
    pub open spec fn processed(self) -> InputHandler {
        let here = Vec2(self.mouse_pos.0, self.mouse_pos.1);
        if self.inputs.select.just_down {
            InputHandler { curr_box: Some(DragBox(here, here)), ..self }
        } else {
            match self.curr_box {
                Some(b) => {
                    if !self.inputs.select.down {
                        InputHandler { selection: self.curr_box, curr_box: None, ..self }
                    } else {
                        InputHandler { curr_box: Some(DragBox(b.0, here)), ..self }
                    }
                },
                None => self,
            }
        }
    }

    /// The snapshot after one event, and whether polling ends with it:
    /// `Some(quit)` ends the poll with that verdict, `None` lets it go on.
    /// A close request ends it with `true`. The first keyboard event ends it
    /// too: with `false` where the key has no name, else after the key has
    /// been recorded, with `true` exactly for the escape key.
    pub open spec fn handled(self, e: Event) -> (InputHandler, Option<bool>) {
        match e {
            Event::Closed => (self, Some(true)),
            Event::KeyboardInput(state, None) => (self, Some(false)),
            Event::KeyboardInput(state, Some(k)) => (
                InputHandler { inputs: self.inputs.recorded(InputType::Key(k), state), ..self },
                Some(k == VirtualKeyCode::Escape),
            ),
            Event::MouseInput(state, b) => (
                InputHandler { inputs: self.inputs.recorded(InputType::Mouse(b), state), ..self },
                None,
            ),
            Event::MouseMoved(x, y) => (InputHandler { mouse_pos: (x, y), ..self }, None),
            Event::Other => (self, None),
        }
    }

    /// The snapshot after the events of one poll, taken in order from an
    /// opened snapshot, and whether the host is to quit. Events behind the
    /// one that ends the poll are not read, and the drag rectangle is
    /// processed only where no event ended the poll.
    pub open spec fn fed(self, events: Seq<Event>) -> (InputHandler, bool)
        decreases events.len(),
    {
        if events.len() == 0 {
            (self.processed(), false)
        } else {
            let (next, verdict) = self.handled(events[0]);
            match verdict {
                Some(quit) => (next, quit),
                None => next.fed(events.skip(1)),
            }
        }
    }

    /// The number of events that such a poll reads: all of them, or those up
    /// to and with the one that ends the poll.
    pub open spec fn read(self, events: Seq<Event>) -> nat
        decreases events.len(),
    {
        if events.len() == 0 {
            0
        } else {
            let (next, verdict) = self.handled(events[0]);
            match verdict {
                Some(_) => 1,
                None => 1 + next.read(events.skip(1)),
            }
        }
    }

    /// Records a key event. Returns true if the user requests close.
    fn record_key_input(&mut self, state: ElementState, keycode: VirtualKeyCode) -> (quit: bool)
        ensures
            *final(self) == (InputHandler {
                inputs: old(self).inputs.recorded(InputType::Key(keycode), state),
                ..*old(self)
            }),
            quit == (keycode == VirtualKeyCode::Escape),
    {
        self.inputs.split.record(InputType::Key(keycode), state);
        self.inputs.select.record(InputType::Key(keycode), state);
        self.inputs.steer.record(InputType::Key(keycode), state);
        keycode == VirtualKeyCode::Escape
    }

    fn record_mouse_input(&mut self, state: ElementState, button: MouseButton)
        ensures
            *final(self) == (InputHandler {
                inputs: old(self).inputs.recorded(InputType::Mouse(button), state),
                ..*old(self)
            }),
    {
        self.inputs.split.record(InputType::Mouse(button), state);
        self.inputs.select.record(InputType::Mouse(button), state);
        self.inputs.steer.record(InputType::Mouse(button), state);
    }

    fn reset_just_pressed(&mut self)
        ensures
            *final(self) == (InputHandler { inputs: old(self).inputs.settled(), ..*old(self) }),
    {
        self.inputs.split.just_down = false;
        self.inputs.select.just_down = false;
        self.inputs.steer.just_down = false;
    }

    /// Opens a poll, see [`InputHandler::opened`].
    fn begin_poll(&mut self)
        ensures
            *final(self) == old(self).opened(),
    {
        self.reset_just_pressed();
        self.selection = None;
    }

    /// Takes one event of the poll, see [`InputHandler::handled`].
    fn handle_event(&mut self, e: Event) -> (verdict: Option<bool>)
        ensures
            (*final(self), verdict) == old(self).handled(e),
    {
        match e {
            Event::Closed => Some(true),
            Event::KeyboardInput(state, keycode) => {
                match keycode {
                    None => Some(false),
                    Some(k) => Some(self.record_key_input(state, k)),
                }
            },
            Event::MouseInput(state, button) => {
                self.record_mouse_input(state, button);
                None
            },
            Event::MouseMoved(x, y) => {
                self.mouse_pos = (x, y);
                None
            },
            Event::Other => None,
        }
    }

    /// Does the processing of the controls that follows the recording of
    /// values, see [`InputHandler::processed`].
    fn process_input(&mut self)
        ensures
            *final(self) == old(self).processed(),
    {
        let here = Vec2(self.mouse_pos.0, self.mouse_pos.1);
        if self.inputs.select.just_down {
            self.curr_box = Some(DragBox(here, here));
        } else if let Some(b) = self.curr_box {
            if !self.inputs.select.down {
                self.selection = self.curr_box;
                self.curr_box = None;
            } else {
                self.curr_box = Some(DragBox(b.0, here));
            }
        }
    }

    /// Polls the input of one tick: opens the snapshot, then reads events
    /// from the front of `pending` until one ends the poll or none is left.
    /// What it has read is gone from `pending`; what is behind the event
    /// that ended the poll stays there for the next one. Returns true if
    /// the user requested to quit.
    pub fn check_input(&mut self, pending: &mut VecDeque<Event>) -> (quit: bool)
        ensures
            (*final(self), quit) == old(self).opened().fed(old(pending)@),
            final(pending)@ == old(pending)@.skip(
                old(self).opened().read(old(pending)@) as int,
            ),
    {
        self.begin_poll();
        let ghost start = *self;
        let ghost all = pending@;
        let ghost mut k: int = 0;
        proof {
            assert(all.skip(0) =~= all);
        }
        loop
            invariant
                start == old(self).opened(),
                all == old(pending)@,
                0 <= k <= all.len(),
                pending@ == all.skip(k),
                self.fed(pending@) == start.fed(all),
                k + self.read(pending@) == start.read(all),
            ensures
                pending@.len() == 0,
                pending@ == all.skip(k),
                self.fed(pending@) == start.fed(all),
                k + self.read(pending@) == start.read(all),
            decreases pending@.len(),
        {
            let ghost before = pending@;
            match pending.pop_front() {
                None => {
                    break ;
                },
                Some(e) => {
                    proof {
                        assert(pending@ =~= before.skip(1));
                        assert(all.skip(k).skip(1) =~= all.skip(k + 1));
                    }
                    match self.handle_event(e) {
                        Some(quit) => {
                            return quit;
                        },
                        None => {},
                    }
                    proof {
                        k = k + 1;
                    }
                },
            }
        }
        self.process_input();
        false
    }

    /// The event `e` presses what the control input `c` is bound to.
    pub open spec fn presses(e: Event, c: Input) -> bool {
        match e {
            Event::KeyboardInput(ElementState::Pressed, Some(k)) => c.input == InputType::Key(k),
            Event::MouseInput(ElementState::Pressed, b) => c.input == InputType::Mouse(b),
            _ => false,
        }
    }

    /// A control goes down only by a press: after a poll in which no event
    /// presses what the split control is bound to, the split control is not
    /// marked as just gone down, whether it is held or not.
    pub proof fn lemma_no_press_no_mark(self, events: Seq<Event>)
        requires
            forall|i: int|
                0 <= i < events.len() ==> !InputHandler::presses(
                    #[trigger] events[i],
                    self.inputs.split,
                ),
        ensures
            !self.opened().fed(events).0.inputs.split.just_down,
            self.opened().fed(events).0.inputs.split.down ==> self.inputs.split.down,
    {
        self.opened().lemma_unmarked_stays(events);
    }

    /// The induction behind [`InputHandler::lemma_no_press_no_mark`], from
    /// any snapshot whose split control is unmarked.
    proof fn lemma_unmarked_stays(self, events: Seq<Event>)
        requires
            !self.inputs.split.just_down,
            forall|i: int|
                0 <= i < events.len() ==> !InputHandler::presses(
                    #[trigger] events[i],
                    self.inputs.split,
                ),
        ensures
            !self.fed(events).0.inputs.split.just_down,
            self.fed(events).0.inputs.split.down ==> self.inputs.split.down,
            self.fed(events).0.inputs.split.input == self.inputs.split.input,
        decreases events.len(),
    {
        if events.len() > 0 {
            let (next, verdict) = self.handled(events[0]);
            assert(!InputHandler::presses(events[0], self.inputs.split));
            if verdict is None {
                let rest = events.skip(1);
                assert forall|i: int| 0 <= i < rest.len() implies !InputHandler::presses(
                    #[trigger] rest[i],
                    next.inputs.split,
                ) by {
                    assert(rest[i] == events[i + 1]);
                }
                next.lemma_unmarked_stays(rest);
            }
        }
    }

    /// A selection is there for one poll: the poll after the one that has
    /// let a rectangle go leaves none, whatever its events are.
    pub proof fn lemma_selection_lasts_one_poll(self, first: Seq<Event>, second: Seq<Event>)
        ensures
            self.opened().fed(first).0.selection is Some ==> self.opened().fed(first).0.opened().fed(
                second,
            ).0.selection is None,
    {
        self.opened().lemma_selection_takes_the_box(first);
        if self.opened().fed(first).0.selection is Some {
            self.opened().fed(first).0.opened().lemma_no_box_no_selection(second);
        }
    }

    /// A poll that starts without a selection and ends with one has no
    /// rectangle in progress any more.
    proof fn lemma_selection_takes_the_box(self, events: Seq<Event>)
        requires
            self.selection is None,
        ensures
            self.fed(events).0.selection is Some ==> self.fed(events).0.curr_box is None,
        decreases events.len(),
    {
        if events.len() > 0 {
            let (next, verdict) = self.handled(events[0]);
            if verdict is None {
                next.lemma_selection_takes_the_box(events.skip(1));
            }
        }
    }

    /// A poll that starts with neither a selection nor a rectangle in
    /// progress ends without a selection.
    proof fn lemma_no_box_no_selection(self, events: Seq<Event>)
        requires
            self.selection is None,
            self.curr_box is None,
        ensures
            self.fed(events).0.selection is None,
        decreases events.len(),
    {
        if events.len() > 0 {
            let (next, verdict) = self.handled(events[0]);
            if verdict is None {
                next.lemma_no_box_no_selection(events.skip(1));
            }
        }
    }
}

} // verus!
