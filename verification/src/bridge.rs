use vstd::prelude::*;
use crate::config::{Config, Processing};
use crate::depth::stack_view;
use crate::gravity::{buffer_gravity, decay_divisor, effective_gravity, smoothed};
use crate::reduction::reduced;
pub use crate::reduction::bar_reduction;

verus! {

/// What reaches the actor.
pub enum Event<M> {
    /// A mesh that a build has finished.
    PushMesh(M),
    /// A new frame from the capture stage.
    Push(Vec<u32>),
    /// The display asks for the current mesh.
    Consume,
}

/// What the actor holds, as plain values.
pub struct State<M> {
    /// The stored frames, newest first.
    pub history: Seq<Seq<u32>>,
    /// The frame against which the next one is smoothed.
    pub reference: Seq<u32>,
    /// The mesh that the display is given.
    pub mesh: M,
}

/// The state in which the actor starts.
pub open spec fn initial<M>(mesh: M) -> State<M> {
    State { history: Seq::empty(), reference: Seq::empty(), mesh }
}

/// What holds of every state that the actor reaches: the history keeps to
/// its bound, and the reference is the newest stored frame.
pub open spec fn well_formed<M>(processing: Processing, state: State<M>) -> bool {
    &&& processing.gravity >= 0
    &&& state.history.len() <= processing.buffering
    &&& state.history.len() > 0 ==> state.reference == state.history[0]
}

/// A frame as the actor stores it: reduced, and smoothed against the
/// reference unless the history is empty.
pub open spec fn stored<M>(processing: Processing, state: State<M>, frame: Seq<u32>) -> Seq<u32> {
    let bars = reduced(frame, processing.bar_reduction as nat);
    if state.history.len() > 0 {
        smoothed(state.reference, bars, decay_divisor(processing.gravity))
    } else {
        bars
    }
}

/// A history cut back to its bound by the loss of its oldest frame.
pub open spec fn evicted(history: Seq<Seq<u32>>, buffering: nat) -> Seq<Seq<u32>> {
    if history.len() > buffering {
        history.drop_last()
    } else {
        history
    }
}

/// The state after a frame has been pushed: the stored frame stands in front
/// of the history and is the new reference; the mesh stays.
pub open spec fn pushed<M>(processing: Processing, state: State<M>, frame: Seq<u32>) -> State<M> {
    let newest = stored(processing, state, frame);
    State {
        history: evicted(seq![newest] + state.history, processing.buffering as nat),
        reference: newest,
        mesh: state.mesh,
    }
}

/// The state after one event.
pub open spec fn stepped<M>(processing: Processing, state: State<M>, event: Event<M>) -> State<M> {
    match event {
        Event::Push(frame) => pushed(processing, state, frame@),
        Event::PushMesh(mesh) => State { history: state.history, reference: state.reference, mesh },
        Event::Consume => state,
    }
}

/// The state after a run of events, taken in their order.
pub open spec fn ran<M>(processing: Processing, state: State<M>, events: Seq<Event<M>>) -> State<M>
    decreases events.len(),
{
    if events.len() == 0 {
        state
    } else {
        stepped(processing, ran(processing, state, events.drop_last()), events.last())
    }
}

/// The mesh with which a `Consume` event is answered.
pub open spec fn answer<M>(state: State<M>) -> M {
    state.mesh
}

/// The starting state is well formed.
pub proof fn lemma_initial_well_formed<M>(processing: Processing, mesh: M)
    requires
        processing.gravity >= 0,
    ensures
        well_formed(processing, initial(mesh)),
{
}

/// No event leads out of the well-formed states: the history never grows
/// beyond its bound, and the reference is always the frame stored last.
pub proof fn lemma_step_well_formed<M>(processing: Processing, state: State<M>, event: Event<M>)
    requires
        well_formed(processing, state),
    ensures
        well_formed(processing, stepped(processing, state, event)),
{
}

/// No run of events leads out of the well-formed states.
pub proof fn lemma_run_well_formed<M>(
    processing: Processing,
    state: State<M>,
    events: Seq<Event<M>>,
)
    requires
        well_formed(processing, state),
    ensures
        well_formed(processing, ran(processing, state, events)),
    decreases events.len(),
{
    if events.len() > 0 {
        lemma_run_well_formed(processing, state, events.drop_last());
        lemma_step_well_formed(
            processing,
            ran(processing, state, events.drop_last()),
            events.last(),
        );
    }
}

/// Only `PushMesh` changes the mesh: after a run without one, the mesh is
/// the one from before.
pub proof fn lemma_mesh_stays<M>(processing: Processing, state: State<M>, events: Seq<Event<M>>)
    requires
        forall|i: int| 0 <= i < events.len() ==> !(events[i] is PushMesh),
    ensures
        ran(processing, state, events).mesh == state.mesh,
    decreases events.len(),
{
    if events.len() > 0 {
        lemma_mesh_stays(processing, state, events.drop_last());
    }
}

/// Two `Consume` events with no `PushMesh` between them are answered with
/// the same mesh, whatever else comes between them.
pub proof fn lemma_consume_twice<M>(processing: Processing, state: State<M>, between: Seq<Event<M>>)
    requires
        forall|i: int| 0 <= i < between.len() ==> !(between[i] is PushMesh),
    ensures
        stepped(processing, state, Event::Consume) == state,
        answer(ran(processing, stepped(processing, state, Event::Consume), between)) == answer(
            state,
        ),
{
    lemma_mesh_stays(processing, state, between);
}

/// The frame that the event at place `at` of a run of `Push` events leaves
/// in the history: its frame as it is stored in the state that the events
/// before it have led to.
pub open spec fn stored_at<M>(
    processing: Processing,
    state: State<M>,
    events: Seq<Event<M>>,
    at: int,
) -> Seq<u32> {
    stored(processing, ran(processing, state, events.take(at)), events[at]->Push_0@)
}

/// The history after a run of `Push` events. It has grown by one frame for
/// each event, as far as its bound allows. In front stand the frames that
/// the events have stored, the newest first, and behind them what is left of
/// the history from before.
pub proof fn lemma_history_after_pushes<M>(
    processing: Processing,
    state: State<M>,
    events: Seq<Event<M>>,
)
    requires
        well_formed(processing, state),
        forall|i: int| 0 <= i < events.len() ==> events[i] is Push,
    ensures
        ({
            let end = ran(processing, state, events);
            let count = events.len() as int;
            &&& end.history.len() == vstd::math::min(
                state.history.len() + count,
                processing.buffering as int,
            )
            &&& forall|i: int|
                0 <= i < end.history.len() && i < count ==> end.history[i] == stored_at(
                    processing,
                    state,
                    events,
                    count - 1 - i,
                )
            &&& forall|i: int|
                count <= i < end.history.len() ==> end.history[i] == state.history[i - count]
        }),
    decreases events.len(),
{
    if events.len() > 0 {
        let count = events.len() as int;
        let earlier = events.drop_last();
        let middle = ran(processing, state, earlier);
        let end = ran(processing, state, events);
        lemma_history_after_pushes(processing, state, earlier);
        assert(events.take(count - 1) =~= earlier);
        assert forall|i: int| 0 <= i < end.history.len() && i < count implies end.history[i]
            == stored_at(processing, state, events, count - 1 - i) by {
            if i > 0 {
                assert(end.history[i] == middle.history[i - 1]);
                assert(earlier.take(count - 1 - i) =~= events.take(count - 1 - i));
                assert(middle.history[i - 1] == stored_at(
                    processing,
                    state,
                    earlier,
                    count - 1 - i,
                ));
            }
        }
        assert forall|i: int| count <= i < end.history.len() implies end.history[i]
            == state.history[i - count] by {
            assert(end.history[i] == middle.history[i - 1]);
        }
    }
}

/// Once as many `Push` events have come as the history may hold frames, the
/// history is full, and it holds the frames that the last of these events
/// have stored, the newest first.
pub proof fn lemma_history_full<M>(processing: Processing, state: State<M>, events: Seq<Event<M>>)
    requires
        well_formed(processing, state),
        forall|i: int| 0 <= i < events.len() ==> events[i] is Push,
        events.len() >= processing.buffering,
    ensures
        ran(processing, state, events).history.len() == processing.buffering,
        forall|i: int|
            0 <= i < processing.buffering ==> ran(processing, state, events).history[i]
                == stored_at(processing, state, events, events.len() - 1 - i),
{
    lemma_history_after_pushes(processing, state, events);
}

/// What the caller of the actor has to do after an event.
pub enum Action {
    /// Build a mesh from this copy of the history, away from the actor, and
    /// hand it back in a `PushMesh` event.
    Build(Vec<Vec<u32>>),
    /// Send a copy of the current mesh to the one who asked.
    Reply,
    /// Nothing.
    Idle,
}

/// The actor: the one owner of the history, the smoothing reference and the
/// current mesh.
pub struct Bridge<M> {
    config: Config,
    buffer: Vec<Vec<u32>>,
    smoothing_buffer: Vec<u32>,
    mesh: M,
}

impl<M> View for Bridge<M> {
    type V = State<M>;

    closed spec fn view(&self) -> State<M> {
        State {
            history: stack_view(self.buffer),
            reference: self.smoothing_buffer@,
            mesh: self.mesh,
        }
    }
}

/// Copies a stack of frames.
fn copy_stack(stack: &Vec<Vec<u32>>) -> (copy: Vec<Vec<u32>>)
    ensures
        stack_view(copy) == stack_view(*stack),
{
    let copy = stack.clone();
    assert(stack_view(copy) =~~= stack_view(*stack));
    copy
}

/// Sets the actor up with its configuration and a first mesh: the history
/// and the smoothing reference are empty.
pub fn init<M>(config: Config, mesh: M) -> (bridge: Bridge<M>)
    requires
        config.processing.gravity >= 0,
    ensures
        bridge.wf(),
        bridge.settings() == config,
        bridge@ == initial(mesh),
{
    let bridge = Bridge { config, buffer: Vec::new(), smoothing_buffer: Vec::new(), mesh };
    assert(bridge@.history =~= Seq::empty());
    bridge
}

impl<M> Bridge<M> {
    /// The configuration that the actor was set up with.
    pub closed spec fn settings(&self) -> Config {
        self.config
    }

    /// The actor's state is well formed under its configuration.
    pub open spec fn wf(&self) -> bool {
        well_formed(self.settings().processing, self@)
    }

    /// The configuration that the actor was set up with.
    pub fn config(&self) -> (config: &Config)
        ensures
            *config == self.settings(),
    {
        &self.config
    }

    /// The stored frames, newest first.
    pub fn history(&self) -> (history: &Vec<Vec<u32>>)
        ensures
            stack_view(*history) == self@.history,
    {
        &self.buffer
    }

    /// The frame against which the next one is smoothed.
    pub fn reference(&self) -> (reference: &Vec<u32>)
        ensures
            reference@ == self@.reference,
    {
        &self.smoothing_buffer
    }

    /// Takes in a new frame. The frame is reduced; unless the history is
    /// empty it is smoothed against the reference; it becomes the new
    /// reference and goes in front of the history, which loses its oldest
    /// frame where it has grown beyond its bound. The result is a copy of
    /// the history, for a mesh to be built from.
    pub fn push(&mut self, frame: Vec<u32>) -> (snapshot: Vec<Vec<u32>>)
        requires
            old(self).wf(),
        ensures
            final(self).wf(),
            final(self).settings() == old(self).settings(),
            final(self)@ == pushed(old(self).settings().processing, old(self)@, frame@),
            stack_view(snapshot) == final(self)@.history,
    {
        let ghost before = self@;
        let mut bars = frame;
        bar_reduction(&mut bars, self.config.processing.bar_reduction);
        if !self.buffer.is_empty() {
            let reference = self.smoothing_buffer.clone();
            bars = buffer_gravity(reference, bars, effective_gravity(self.config.processing.gravity));
        }
        self.smoothing_buffer = bars.clone();
        self.buffer.insert(0, bars);
        assert(stack_view(self.buffer) =~= seq![self.smoothing_buffer@] + before.history);
        if self.buffer.len() > self.config.processing.buffering as usize {
            self.buffer.pop();
            assert(stack_view(self.buffer) =~= (seq![self.smoothing_buffer@]
                + before.history).drop_last());
        }
        copy_stack(&self.buffer)
    }

    /// Takes in a finished mesh, which replaces the current one.
    pub fn push_mesh(&mut self, mesh: M)
        ensures
            final(self).settings() == old(self).settings(),
            final(self)@ == (State {
                history: old(self)@.history,
                reference: old(self)@.reference,
                mesh,
            }),
    {
        self.mesh = mesh;
    }

    /// The current mesh, of which a `Consume` event is sent a copy.
    pub fn consume(&self) -> (mesh: &M)
        ensures
            *mesh == answer(self@),
    {
        &self.mesh
    }

    /// Takes one event and says what is to be done about it.
    ///
    /// A `Push` stores the frame and asks for a mesh to be built from a copy
    /// of the history. A `PushMesh` replaces the current mesh. A `Consume`
    /// changes nothing and asks for the current mesh to be sent.
    pub fn handle(&mut self, event: Event<M>) -> (action: Action)
        requires
            old(self).wf(),
        ensures
            final(self).wf(),
            final(self).settings() == old(self).settings(),
            final(self)@ == stepped(old(self).settings().processing, old(self)@, event),
            match event {
                Event::Push(_) => action matches Action::Build(snapshot) && stack_view(snapshot)
                    == final(self)@.history,
                Event::PushMesh(_) => action is Idle,
                Event::Consume => action is Reply,
            },
    {
        match event {
            Event::Push(frame) => Action::Build(self.push(frame)),
            Event::PushMesh(mesh) => {
                self.push_mesh(mesh);
                Action::Idle
            },
            Event::Consume => Action::Reply,
        }
    }
}

} // verus!
