//! One update cycle: load the canvas, composite one pixel, write the new
//! image to a scratch file, and rename it onto the canvas file.
//!
//! The cycle is a state machine. Its driver performs each action that the
//! machine asks for and hands back what happened as an event.

use vstd::prelude::*;
use crate::canvas::{Canvas, Grid};
use crate::command::{parse, parse_spec, ParseError, PixelCommand};

verus! {

/// Why a cycle failed.
#[derive(Clone, Copy, Debug, PartialEq, Eq, Structural)]
pub enum UpdateError {
    /// The canvas file could not be read or decoded.
    LoadFailed,
    /// The new image could not be encoded to the scratch file.
    EncodeFailed,
    /// The scratch file could not be renamed onto the canvas file.
    PublishFailed,
}

/// Where a cycle stands.
#[derive(Clone, Copy, Debug, PartialEq, Eq, Structural)]
pub enum Cycle {
    /// The canvas file is being decoded for this command.
    Loading(PixelCommand),
    /// The new image is being encoded to the scratch file.
    Encoding,
    /// The scratch file is being renamed onto the canvas file.
    Publishing,
    /// The cycle is over.
    Finished,
}

/// What the driver reports back.
#[derive(Debug)]
pub enum Event {
    /// The canvas file was decoded to this image.
    Loaded(Canvas),
    LoadFailed,
    /// The scratch file holds the new image.
    Encoded,
    EncodeFailed,
    /// The canvas file is now the new image.
    Published,
    PublishFailed,
}

/// What the driver has to do next.
#[derive(Debug)]
pub enum Action {
    /// Decode the canvas file.
    Load,
    /// Encode this image to a scratch file.
    Encode(Canvas),
    /// Rename the scratch file onto the canvas file. This is the only
    /// action that changes the canvas file.
    Publish,
    /// Nothing more in this cycle: this is its result.
    Finish(Result<(), UpdateError>),
    /// The event answered no pending action and was ignored.
    Wait,
}

/// The mathematical value of an event.
pub enum EventView {
    Loaded(Grid),
    LoadFailed,
    Encoded,
    EncodeFailed,
    Published,
    PublishFailed,
}

/// The mathematical value of an action.
pub enum ActionView {
    Load,
    Encode(Grid),
    Publish,
    Finish(Result<(), UpdateError>),
    Wait,
}

impl View for Event {
    type V = EventView;

    open spec fn view(&self) -> EventView {
        match *self {
            Event::Loaded(canvas) => EventView::Loaded(canvas@),
            Event::LoadFailed => EventView::LoadFailed,
            Event::Encoded => EventView::Encoded,
            Event::EncodeFailed => EventView::EncodeFailed,
            Event::Published => EventView::Published,
            Event::PublishFailed => EventView::PublishFailed,
        }
    }
}

impl View for Action {
    type V = ActionView;

    open spec fn view(&self) -> ActionView {
        match *self {
            Action::Load => ActionView::Load,
            Action::Encode(canvas) => ActionView::Encode(canvas@),
            Action::Publish => ActionView::Publish,
            Action::Finish(result) => ActionView::Finish(result),
            Action::Wait => ActionView::Wait,
        }
    }
}

/// How a cycle begins: a command outside the declared size is dropped
/// without touching anything, any other has the canvas file loaded.
pub open spec fn begin_spec(command: PixelCommand, width: u32, height: u32) -> (Cycle, ActionView) {
    if command.x >= width || command.y >= height {
        (Cycle::Finished, ActionView::Finish(Ok(())))
    } else {
        (Cycle::Loading(command), ActionView::Load)
    }
}

/// How a cycle goes on after an event.
///
/// The loaded image decides where its pixels are: where it has none at the
/// command's position, because the file is smaller than declared, the
/// command is dropped like one outside the declared size. An event that
/// answers no pending action changes nothing.
pub open spec fn step_spec(state: Cycle, event: EventView) -> (Cycle, ActionView) {
    match (state, event) {
        (Cycle::Loading(command), EventView::Loaded(grid)) => {
            if grid.contains(command.x as int, command.y as int) {
                (Cycle::Encoding, ActionView::Encode(grid.painted(command)))
            } else {
                (Cycle::Finished, ActionView::Finish(Ok(())))
            }
        },
        (Cycle::Loading(_), EventView::LoadFailed) => (
            Cycle::Finished,
            ActionView::Finish(Err(UpdateError::LoadFailed)),
        ),
        (Cycle::Encoding, EventView::Encoded) => (Cycle::Publishing, ActionView::Publish),
        (Cycle::Encoding, EventView::EncodeFailed) => (
            Cycle::Finished,
            ActionView::Finish(Err(UpdateError::EncodeFailed)),
        ),
        (Cycle::Publishing, EventView::Published) => (
            Cycle::Finished,
            ActionView::Finish(Ok(())),
        ),
        (Cycle::Publishing, EventView::PublishFailed) => (
            Cycle::Finished,
            ActionView::Finish(Err(UpdateError::PublishFailed)),
        ),
        _ => (state, ActionView::Wait),
    }
}

/// Begins the cycle of a command on a canvas of the declared size.
pub fn begin(command: PixelCommand, width: u32, height: u32) -> (next: (Cycle, Action))
    ensures
        (next.0, next.1@) == begin_spec(command, width, height),
{
    if command.x >= width || command.y >= height {
        (Cycle::Finished, Action::Finish(Ok(())))
    } else {
        (Cycle::Loading(command), Action::Load)
    }
}

/// Takes a cycle one step further: from where it stands and what happened
/// to where it stands next and what to do.
pub fn step(state: Cycle, event: Event) -> (next: (Cycle, Action))
    ensures
        (next.0, next.1@) == step_spec(state, event@),
{
    match state {
        Cycle::Loading(command) => match event {
            Event::Loaded(canvas) => {
                let mut canvas = canvas;
                if canvas.paint(&command) {
                    (Cycle::Encoding, Action::Encode(canvas))
                } else {
                    (Cycle::Finished, Action::Finish(Ok(())))
                }
            },
            Event::LoadFailed => (Cycle::Finished, Action::Finish(Err(UpdateError::LoadFailed))),
            _ => (state, Action::Wait),
        },
        Cycle::Encoding => match event {
            Event::Encoded => (Cycle::Publishing, Action::Publish),
            Event::EncodeFailed => (
                Cycle::Finished,
                Action::Finish(Err(UpdateError::EncodeFailed)),
            ),
            _ => (state, Action::Wait),
        },
        Cycle::Publishing => match event {
            Event::Published => (Cycle::Finished, Action::Finish(Ok(()))),
            Event::PublishFailed => (
                Cycle::Finished,
                Action::Finish(Err(UpdateError::PublishFailed)),
            ),
            _ => (state, Action::Wait),
        },
        Cycle::Finished => (state, Action::Wait),
    }
}

/// Handles one chat line: a line that is no command is discarded with the
/// reason, any other begins a cycle.
pub fn receive(text: &str, width: u32, height: u32) -> (res: Result<(Cycle, Action), ParseError>)
    ensures
        parse_spec(text@) is Err ==> res is Err && res->Err_0 == parse_spec(text@)->Err_0,
        parse_spec(text@) is Ok ==> res is Ok && (res->Ok_0.0, res->Ok_0.1@) == begin_spec(
            parse_spec(text@)->Ok_0,
            width,
            height,
        ),
{
    match parse(text) {
        Ok(command) => Ok(begin(command, width, height)),
        Err(e) => Err(e),
    }
}

/// The machine asks for the rename only in answer to a successful encode.
/// After a failed encode, as after any other event, the canvas file is
/// left as it was.
pub proof fn lemma_publish_only_after_encode(state: Cycle, event: EventView)
    ensures
        step_spec(state, event).1 is Publish <==> (state is Encoding && event is Encoded),
        (state is Encoding && event is EncodeFailed) ==> step_spec(state, event) == (
            Cycle::Finished,
            ActionView::Finish(Err(UpdateError::EncodeFailed)),
        ),
{
}

/// A cycle never begins with the rename, and a command outside the
/// declared size begins and ends its cycle without any action on the
/// canvas file.
pub proof fn lemma_out_of_bounds_dropped(command: PixelCommand, width: u32, height: u32)
    ensures
        !(begin_spec(command, width, height).1 is Publish),
        (command.x >= width || command.y >= height) ==> begin_spec(command, width, height) == (
            Cycle::Finished,
            ActionView::Finish(Ok(())),
        ),
{
}

/// The actions that the machine asks for, one for each event of a run that
/// starts in `state`.
pub open spec fn actions_of(state: Cycle, events: Seq<EventView>) -> Seq<ActionView>
    decreases events.len(),
{
    if events.len() == 0 {
        Seq::<ActionView>::empty()
    } else {
        let (next, action) = step_spec(state, events[0]);
        seq![action] + actions_of(next, events.drop_first())
    }
}

/// A run has one action for each event.
pub proof fn lemma_actions_len(state: Cycle, events: Seq<EventView>)
    ensures
        actions_of(state, events).len() == events.len(),
    decreases events.len(),
{
    if events.len() > 0 {
        lemma_actions_len(step_spec(state, events[0]).0, events.drop_first());
    }
}

/// In every run, from every state, each request for the rename answers a
/// successful encode.
pub proof fn lemma_run_publishes_only_encoded(state: Cycle, events: Seq<EventView>, i: int)
    requires
        0 <= i < events.len(),
        actions_of(state, events)[i] is Publish,
    ensures
        events[i] is Encoded,
    decreases events.len(),
{
    let (next, action) = step_spec(state, events[0]);
    let rest = events.drop_first();
    lemma_actions_len(next, rest);
    if i == 0 {
        lemma_publish_only_after_encode(state, events[0]);
    } else {
        assert(actions_of(state, events)[i] == actions_of(next, rest)[i - 1]);
        lemma_run_publishes_only_encoded(next, rest, i - 1);
        assert(rest[i - 1] == events[i]);
    }
}

/// A finished cycle stays finished and asks for nothing, whatever is
/// reported to it.
pub proof fn lemma_finished_is_final(events: Seq<EventView>, i: int)
    requires
        0 <= i < events.len(),
    ensures
        actions_of(Cycle::Finished, events)[i] is Wait,
    decreases events.len(),
{
    let rest = events.drop_first();
    lemma_actions_len(Cycle::Finished, rest);
    if i > 0 {
        assert(actions_of(Cycle::Finished, events)[i] == actions_of(Cycle::Finished, rest)[i - 1]);
        lemma_finished_is_final(rest, i - 1);
    }
}

/// Once the encode has failed, the machine never asks for the rename in
/// that cycle: the canvas file stays as it was.
pub proof fn lemma_failed_encode_never_publishes(events: Seq<EventView>, i: int)
    requires
        0 <= i < events.len(),
    ensures
        step_spec(Cycle::Encoding, EventView::EncodeFailed).0 == Cycle::Finished,
        !(actions_of(Cycle::Finished, events)[i] is Publish),
{
    lemma_finished_is_final(events, i);
}

/// A cycle in which every step succeeds asks in turn for the load, for the
/// encode of the loaded image with the command applied, and for the rename,
/// and ends with success.
pub proof fn lemma_successful_cycle(command: PixelCommand, width: u32, height: u32, grid: Grid)
    requires
        command.x < width,
        command.y < height,
        grid.contains(command.x as int, command.y as int),
    ensures
        begin_spec(command, width, height) == (Cycle::Loading(command), ActionView::Load),
        actions_of(
            Cycle::Loading(command),
            seq![EventView::Loaded(grid), EventView::Encoded, EventView::Published],
        ) == seq![
            ActionView::Encode(grid.painted(command)),
            ActionView::Publish,
            ActionView::Finish(Ok(())),
        ],
{
    let e3 = seq![EventView::Loaded(grid), EventView::Encoded, EventView::Published];
    let e2 = seq![EventView::Encoded, EventView::Published];
    let e1 = seq![EventView::Published];
    assert(e3.drop_first() =~= e2);
    assert(e2.drop_first() =~= e1);
    assert(e1.drop_first() =~= Seq::<EventView>::empty());
    assert(actions_of(Cycle::Finished, Seq::<EventView>::empty()) =~= Seq::<ActionView>::empty());
    assert(actions_of(Cycle::Publishing, e1) =~= seq![ActionView::Finish(Ok(()))]);
    assert(actions_of(Cycle::Encoding, e2) =~= seq![
        ActionView::Publish,
        ActionView::Finish(Ok(())),
    ]);
    assert(actions_of(Cycle::Loading(command), e3) =~= seq![
        ActionView::Encode(grid.painted(command)),
        ActionView::Publish,
        ActionView::Finish(Ok(())),
    ]);
}

} // verus!
