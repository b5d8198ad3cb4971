use vstd::prelude::*;

verus! {

/// A keyboard or window event, given in terms of the machine's
/// sixteen-key hex pad. A key value of 16 or more stands for a key
/// outside the pad and leaves the state unchanged.
#[derive(Clone, Copy, PartialEq, Eq, Structural, Debug)]
pub enum InputEvent {
    /// The host asked to stop the run loop.
    Quit,
    /// A hex-pad key went down.
    KeyDown(u8),
    /// A hex-pad key was released.
    KeyUp(u8),
}

/// The mathematical state of the input tracker: which pad keys are held,
/// the one pending released-key event, whether the interpreter is waiting
/// for a release, and whether a quit was seen.
#[verifier::ext_equal]
pub struct InputState {
    pub keys: Seq<bool>,
    pub released: Option<u8>,
    pub waiting: bool,
    pub quit: bool,
}

impl InputState {
    /// One flag per pad key, and a pending release names a pad key.
    pub open spec fn wf(self) -> bool {
        &&& self.keys.len() == 16
        &&& self.released matches Some(k) ==> k < 16
    }

    /// The state after one event. A release is queued only while the
    /// interpreter waits for one; keys outside the pad are ignored.
    pub open spec fn apply_event(self, e: InputEvent) -> InputState {
        match e {
            InputEvent::Quit => InputState { quit: true, ..self },
            InputEvent::KeyDown(k) => if k < 16 {
                InputState { keys: self.keys.update(k as int, true), ..self }
            } else {
                self
            },
            InputEvent::KeyUp(k) => if k < 16 {
                if self.waiting {
                    InputState {
                        keys: self.keys.update(k as int, false),
                        released: Some(k),
                        waiting: false,
                        ..self
                    }
                } else {
                    InputState { keys: self.keys.update(k as int, false), ..self }
                }
            } else {
                self
            },
        }
    }

    /// The state after a batch of events, applied left to right.
    pub open spec fn apply_events(self, es: Seq<InputEvent>) -> InputState
        decreases es.len(),
    {
        if es.len() == 0 {
            self
        } else {
            self.apply_event(es[0]).apply_events(es.drop_first())
        }
    }
}

/// Applying a batch and then one more event is applying the batch extended
/// by that event.
pub proof fn lemma_apply_events_snoc(st: InputState, es: Seq<InputEvent>, e: InputEvent)
    ensures
        st.apply_events(es.push(e)) == st.apply_events(es).apply_event(e),
    decreases es.len(),
{
    if es.len() == 0 {
        assert(es.push(e)[0] == e);
        assert(es.push(e).drop_first() =~= Seq::<InputEvent>::empty());
        assert(st.apply_events(es.push(e)) == st.apply_event(e).apply_events(
            es.push(e).drop_first(),
        ));
        assert(st.apply_event(e).apply_events(Seq::<InputEvent>::empty()) == st.apply_event(e));
        assert(st.apply_events(es) == st);
    } else {
        assert(es.push(e)[0] == es[0]);
        assert(es.push(e).drop_first() =~= es.drop_first().push(e));
        lemma_apply_events_snoc(st.apply_event(es[0]), es.drop_first(), e);
        assert(st.apply_events(es.push(e)) == st.apply_event(es[0]).apply_events(
            es.drop_first().push(e),
        ));
        assert(st.apply_events(es) == st.apply_event(es[0]).apply_events(es.drop_first()));
    }
}

/// Tracks the hex pad from the event stream the host hands over. Polling
/// the real event queue is a collaborator's job: the host maps each of its
/// events to an `InputEvent` and feeds the batch to `update`.
pub struct InputManager {
    key_state: Vec<bool>,
    released_key_queue: Option<u8>,
    waiting_for_key: bool,
    quit: bool,
}

impl View for InputManager {
    type V = InputState;

    closed spec fn view(&self) -> InputState {
        InputState {
            keys: self.key_state@,
            released: self.released_key_queue,
            waiting: self.waiting_for_key,
            quit: self.quit,
        }
    }
}

impl InputManager {
    /// A fresh tracker: no key held, no pending release, not waiting, no
    /// quit seen.
    pub fn new() -> (m: InputManager)
        ensures
            m@.wf(),
            forall|k: int| 0 <= k < 16 ==> !m@.keys[k],
            m@.released is None,
            !m@.waiting,
            !m@.quit,
    {
        let mut key_state: Vec<bool> = Vec::new();
        for k in 0..16usize
            invariant
                key_state@.len() == k,
                forall|i: int| 0 <= i < k ==> !key_state@[i],
        {
            key_state.push(false);
        }
        InputManager { key_state, released_key_queue: None, waiting_for_key: false, quit: false }
    }

    /// Checks if a specific hex key is currently pressed.
    pub fn is_key_pressed(&self, hex_key: u8) -> (pressed: bool)
        requires
            self@.wf(),
            hex_key < 16,
        ensures
            pressed == self@.keys[hex_key as int],
    {
        self.key_state[hex_key as usize]
    }

    /// Hands out the pending released key, if any, and records that the
    /// interpreter now waits for a release.
    pub fn get_next_released_key(&mut self) -> (released: Option<u8>)
        requires
            old(self)@.wf(),
        ensures
            final(self)@.wf(),
            released == old(self)@.released,
            released matches Some(k) ==> k < 16,
            final(self)@.released is None,
            final(self)@.waiting,
            final(self)@.keys == old(self)@.keys,
            final(self)@.quit == old(self)@.quit,
    {
        self.waiting_for_key = true;
        let released = self.released_key_queue;
        self.released_key_queue = None;
        released
    }

    /// Folds a batch of host events into the tracker state.
    pub fn update(&mut self, events: &Vec<InputEvent>)
        requires
            old(self)@.wf(),
        ensures
            final(self)@.wf(),
            final(self)@ == old(self)@.apply_events(events@),
    {
        let ghost pre = self@;
        let n = events.len();
        for idx in 0..n
            invariant
                pre.wf(),
                n == events@.len(),
                self@.wf(),
                self@ == pre.apply_events(events@.subrange(0, idx as int)),
        {
            let ghost mid = self@;
            let e = events[idx];
            match e {
                InputEvent::Quit => {
                    self.quit = true;
                },
                InputEvent::KeyDown(k) => {
                    if k < 16 {
                        self.key_state.set(k as usize, true);
                    }
                },
                InputEvent::KeyUp(k) => {
                    if k < 16 {
                        self.key_state.set(k as usize, false);
                        if self.waiting_for_key {
                            self.released_key_queue = Some(k);
                            self.waiting_for_key = false;
                        }
                    }
                },
            }
            proof {
                assert(self@ =~= mid.apply_event(e));
                assert(events@.subrange(0, idx + 1) =~= events@.subrange(0, idx as int).push(e));
                lemma_apply_events_snoc(pre, events@.subrange(0, idx as int), e);
            }
        }
        proof {
            assert(events@.subrange(0, n as int) =~= events@);
        }
    }

    /// Checks if a quit event has been received.
    pub fn should_quit(&self) -> (q: bool)
        ensures
            q == self@.quit,
    {
        self.quit
    }
}

} // verus!
