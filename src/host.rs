//! The decisions of the host loop, as a state machine from the events of one
//! iteration to the commands that the graphics context has to carry out.
use vstd::prelude::*;

use crate::viewport::Viewport;

verus! {

/// The number of vertices of the one triangle drawn each frame.
pub const TRIANGLE_VERTICES: u32 = 3;

/// The number of instances of that triangle.
pub const TRIANGLE_INSTANCES: u32 = 1;

/// What the window reports between two frames.
#[derive(Clone, Copy, Debug, PartialEq, Eq, Structural)]
pub enum HostEvent {
    CloseRequested,
    Resized(Viewport),
    Other,
}

/// The graphics objects that the loop owns.
#[derive(Clone, Copy, Debug, PartialEq, Eq, Structural)]
pub enum Handle {
    VertexShader,
    FragmentShader,
    Pipeline,
}

/// One call into the window or the graphics context.
#[derive(Clone, Copy, Debug, PartialEq, Eq, Structural)]
pub enum Command {
    /// Give the presentation surface a new size.
    ResizeSurface(Viewport),
    BindPipeline,
    SetViewport(Viewport),
    SetScissor(Viewport),
    /// Clear the color attachment to the fixed mid-gray.
    ClearMidGray,
    /// A non-indexed draw of triangles.
    Draw { vertices: u32, instances: u32 },
    /// Swap the frame buffer onto the window.
    Present,
    Delete(Handle),
    Exit,
}

#[derive(Clone, Copy, Debug, PartialEq, Eq, Structural)]
pub enum LoopState {
    Running,
    Terminated,
}

/// The state of the host loop: whether it runs, and the viewport that the
/// next frame is drawn with.
#[derive(Clone, Copy, Debug, PartialEq, Eq, Structural)]
pub struct HostLoop {
    pub state: LoopState,
    pub viewport: Viewport,
}

/// The loop after it has handled `e`.
pub open spec fn after_event(s: HostLoop, e: HostEvent) -> HostLoop {
    match e {
        HostEvent::CloseRequested => HostLoop { state: LoopState::Terminated, viewport: s.viewport },
        HostEvent::Resized(v) => HostLoop { state: s.state, viewport: v },
        HostEvent::Other => s,
    }
}

/// The command that handling `e` issues, if any.
pub open spec fn event_command(e: HostEvent) -> Option<Command> {
    match e {
        HostEvent::Resized(v) => Some(Command::ResizeSurface(v)),
        _ => None,
    }
}

/// The loop after it has handled `es` in order.
pub open spec fn after_events(s: HostLoop, es: Seq<HostEvent>) -> HostLoop
    decreases es.len(),
{
    if es.len() == 0 {
        s
    } else {
        after_event(after_events(s, es.drop_last()), es.last())
    }
}

/// The commands that handling `es` in order issues.
pub open spec fn events_commands(es: Seq<HostEvent>) -> Seq<Command>
    decreases es.len(),
{
    if es.len() == 0 {
        Seq::empty()
    } else {
        let before = events_commands(es.drop_last());
        match event_command(es.last()) {
            Some(c) => before.push(c),
            None => before,
        }
    }
}

/// The calls that draw one frame at viewport `v`.
pub open spec fn frame_commands(v: Viewport) -> Seq<Command> {
    seq![
        Command::BindPipeline,
        Command::SetViewport(v),
        Command::SetScissor(v),
        Command::ClearMidGray,
        Command::Draw { vertices: 3, instances: 1 },
        Command::Present,
    ]
}

/// The calls that end the program: each graphics object is deleted, then
/// the loop exits.
pub open spec fn shutdown_commands() -> Seq<Command> {
    seq![
        Command::Delete(Handle::VertexShader),
        Command::Delete(Handle::FragmentShader),
        Command::Delete(Handle::Pipeline),
        Command::Exit,
    ]
}

/// What ends an iteration: a frame while the loop runs, the shutdown once it
/// has stopped.
pub open spec fn closing_commands(s: HostLoop) -> Seq<Command> {
    match s.state {
        LoopState::Running => frame_commands(s.viewport),
        LoopState::Terminated => shutdown_commands(),
    }
}

/// One iteration of the loop on the events polled for it: the next state and
/// the commands issued. A loop that has stopped does nothing.
pub open spec fn step(s: HostLoop, es: Seq<HostEvent>) -> (HostLoop, Seq<Command>) {
    match s.state {
        LoopState::Terminated => (s, Seq::empty()),
        LoopState::Running => {
            let t = after_events(s, es);
            (t, events_commands(es) + closing_commands(t))
        },
    }
}

/// Iterations on each batch of `batches` in turn: the last state and all
/// commands issued.
pub open spec fn run(s: HostLoop, batches: Seq<Seq<HostEvent>>) -> (HostLoop, Seq<Command>)
    decreases batches.len(),
{
    if batches.len() == 0 {
        (s, Seq::empty())
    } else {
        let (t, before) = run(s, batches.drop_last());
        let (u, now) = step(t, batches.last());
        (u, before + now)
    }
}

/// How many times `c` stands in `cs`.
pub open spec fn occurrences(cs: Seq<Command>, c: Command) -> nat
    decreases cs.len(),
{
    if cs.len() == 0 {
        0
    } else {
        occurrences(cs.drop_last(), c) + if cs.last() == c { 1nat } else { 0nat }
    }
}

/// No call in `cs` uses the pipeline after a graphics object was deleted.
pub open spec fn no_use_after_delete(cs: Seq<Command>) -> bool {
    forall|i: int, j: int|
        #![trigger cs[i], cs[j]]
        0 <= i < j < cs.len() && cs[i] is Delete ==> !(cs[j] is Draw) && !(cs[j] is BindPipeline)
}

proof fn lemma_occurrences_push(cs: Seq<Command>, x: Command, c: Command)
    ensures
        occurrences(cs.push(x), c) == occurrences(cs, c) + if x == c { 1nat } else { 0nat },
{
    assert(cs.push(x).drop_last() =~= cs);
}

proof fn lemma_occurrences_add(a: Seq<Command>, b: Seq<Command>, c: Command)
    ensures
        occurrences(a + b, c) == occurrences(a, c) + occurrences(b, c),
    decreases b.len(),
{
    if b.len() == 0 {
        assert(a + b =~= a);
    } else {
        lemma_occurrences_add(a, b.drop_last(), c);
        assert((a + b).drop_last() =~= a + b.drop_last());
    }
}

proof fn lemma_occurrences_absent(cs: Seq<Command>, c: Command)
    requires
        forall|k: int| 0 <= k < cs.len() ==> cs[k] != c,
    ensures
        occurrences(cs, c) == 0,
    decreases cs.len(),
{
    if cs.len() > 0 {
        lemma_occurrences_absent(cs.drop_last(), c);
    }
}

proof fn lemma_shutdown_deletes_once(h: Handle)
    ensures
        occurrences(shutdown_commands(), Command::Delete(h)) == 1,
{
    let c = Command::Delete(h);
    let s0 = Seq::<Command>::empty();
    let s1 = s0.push(Command::Delete(Handle::VertexShader));
    let s2 = s1.push(Command::Delete(Handle::FragmentShader));
    let s3 = s2.push(Command::Delete(Handle::Pipeline));
    lemma_occurrences_push(s0, Command::Delete(Handle::VertexShader), c);
    lemma_occurrences_push(s1, Command::Delete(Handle::FragmentShader), c);
    lemma_occurrences_push(s2, Command::Delete(Handle::Pipeline), c);
    lemma_occurrences_push(s3, Command::Exit, c);
    assert(shutdown_commands() == s3.push(Command::Exit));
}

/// Handling events issues surface resizes and nothing else.
proof fn lemma_events_commands_resize_only(es: Seq<HostEvent>)
    ensures
        forall|k: int|
            0 <= k < events_commands(es).len() ==> #[trigger] events_commands(es)[k] is ResizeSurface,
    decreases es.len(),
{
    if es.len() > 0 {
        lemma_events_commands_resize_only(es.drop_last());
    }
}

/// A close request stops the loop for good; without one the loop keeps its
/// state.
proof fn lemma_after_events_state(s: HostLoop, es: Seq<HostEvent>)
    ensures
        (exists|i: int| 0 <= i < es.len() && es[i] == HostEvent::CloseRequested) ==> after_events(
            s,
            es,
        ).state == LoopState::Terminated,
        (forall|i: int| 0 <= i < es.len() ==> es[i] != HostEvent::CloseRequested) ==> after_events(
            s,
            es,
        ).state == s.state,
    decreases es.len(),
{
    if es.len() > 0 {
        let init = es.drop_last();
        lemma_after_events_state(s, init);
        if exists|i: int| 0 <= i < es.len() && es[i] == HostEvent::CloseRequested {
            let i = choose|i: int| 0 <= i < es.len() && es[i] == HostEvent::CloseRequested;
            if i < es.len() - 1 {
                assert(init[i] == HostEvent::CloseRequested);
            }
        }
        if forall|i: int| 0 <= i < es.len() ==> es[i] != HostEvent::CloseRequested {
            assert forall|i: int| 0 <= i < init.len() implies init[i] != HostEvent::CloseRequested by {
                assert(init[i] == es[i]);
            }
        }
    }
}

/// The viewport after `es` is the one of the last resize in `es`.
proof fn lemma_after_events_viewport(s: HostLoop, es: Seq<HostEvent>, i: int, v: Viewport)
    requires
        0 <= i < es.len(),
        es[i] == HostEvent::Resized(v),
        forall|j: int| i < j < es.len() ==> !(es[j] is Resized),
    ensures
        after_events(s, es).viewport == v,
    decreases es.len(),
{
    if i < es.len() - 1 {
        let init = es.drop_last();
        assert forall|j: int| i < j < init.len() implies !(init[j] is Resized) by {
            assert(init[j] == es[j]);
        }
        lemma_after_events_viewport(s, init, i, v);
    }
}

/// Without a resize the viewport stays as it was.
proof fn lemma_after_events_viewport_kept(s: HostLoop, es: Seq<HostEvent>)
    requires
        forall|j: int| 0 <= j < es.len() ==> !(es[j] is Resized),
    ensures
        after_events(s, es).viewport == s.viewport,
    decreases es.len(),
{
    if es.len() > 0 {
        let init = es.drop_last();
        assert forall|j: int| 0 <= j < init.len() implies !(init[j] is Resized) by {
            assert(init[j] == es[j]);
        }
        lemma_after_events_viewport_kept(s, init);
    }
}

/// A resize reaches the very next frame: when the last resize of an
/// iteration's events is to `v` and no close request comes, that iteration
/// resizes the surface and then sets viewport and scissor to `v`; the loop
/// keeps `v`, and a later iteration without a resize draws at `v` too, never
/// at an older size.
pub proof fn lemma_resize_reaches_next_frame(
    s: HostLoop,
    es: Seq<HostEvent>,
    i: int,
    v: Viewport,
    next: Seq<HostEvent>,
)
    requires
        s.state == LoopState::Running,
        0 <= i < es.len(),
        es[i] == HostEvent::Resized(v),
        forall|j: int| i < j < es.len() ==> !(es[j] is Resized),
        forall|j: int| 0 <= j < es.len() ==> es[j] != HostEvent::CloseRequested,
        forall|j: int| 0 <= j < next.len() ==> next[j] == HostEvent::Other,
    ensures
        step(s, es).0 == (HostLoop { state: LoopState::Running, viewport: v }),
        step(s, es).1 == events_commands(es) + frame_commands(v),
        events_commands(es).contains(Command::ResizeSurface(v)),
        step(step(s, es).0, next).1 == frame_commands(v),
{
    lemma_after_events_state(s, es);
    lemma_after_events_viewport(s, es, i, v);
    lemma_events_take_resize(es, i, v);
    let t = step(s, es).0;
    lemma_after_events_state(t, next);
    lemma_after_events_viewport_kept(t, next);
    lemma_events_commands_none(next);
    assert(events_commands(next) + frame_commands(v) =~= frame_commands(v));
}

proof fn lemma_events_commands_none(es: Seq<HostEvent>)
    requires
        forall|j: int| 0 <= j < es.len() ==> es[j] == HostEvent::Other,
    ensures
        events_commands(es) == Seq::<Command>::empty(),
    decreases es.len(),
{
    if es.len() > 0 {
        let init = es.drop_last();
        assert forall|j: int| 0 <= j < init.len() implies init[j] == HostEvent::Other by {
            assert(init[j] == es[j]);
        }
        lemma_events_commands_none(init);
    }
}

/// A resize event leaves its command among the commands of its iteration.
proof fn lemma_events_take_resize(es: Seq<HostEvent>, i: int, v: Viewport)
    requires
        0 <= i < es.len(),
        es[i] == HostEvent::Resized(v),
    ensures
        events_commands(es).contains(Command::ResizeSurface(v)),
    decreases es.len(),
{
    let before = events_commands(es.drop_last());
    if i == es.len() - 1 {
        assert(events_commands(es) == before.push(Command::ResizeSurface(v)));
        assert(events_commands(es)[before.len() as int] == Command::ResizeSurface(v));
    } else {
        assert(es.drop_last()[i] == es[i]);
        lemma_events_take_resize(es.drop_last(), i, v);
        let k = choose|k: int| 0 <= k < before.len() && before[k] == Command::ResizeSurface(v);
        match event_command(es.last()) {
            Some(c) => assert(events_commands(es)[k] == before.push(c)[k]),
            None => {},
        }
    }
}

/// A close request ends the loop in the iteration that handles it: that
/// iteration draws nothing, deletes each graphics object exactly once and
/// exits, and no later iteration issues any call.
pub proof fn lemma_close_ends_loop(
    s: HostLoop,
    es: Seq<HostEvent>,
    i: int,
    later: Seq<Seq<HostEvent>>,
)
    requires
        s.state == LoopState::Running,
        0 <= i < es.len(),
        es[i] == HostEvent::CloseRequested,
    ensures
        step(s, es).0.state == LoopState::Terminated,
        step(s, es).1 == events_commands(es) + shutdown_commands(),
        forall|k: int| 0 <= k < step(s, es).1.len() ==> !(#[trigger] step(s, es).1[k] is Draw),
        forall|h: Handle| occurrences(#[trigger] step(s, es).1, Command::Delete(h)) == 1,
        step(s, es).1.last() == Command::Exit,
        run(step(s, es).0, later) == (step(s, es).0, Seq::<Command>::empty()),
    decreases later.len(),
{
    lemma_after_events_state(s, es);
    lemma_events_commands_resize_only(es);
    let t = step(s, es).0;
    let cs = step(s, es).1;
    let e = events_commands(es);
    assert forall|k: int| 0 <= k < cs.len() implies !(#[trigger] cs[k] is Draw) by {
        if k < e.len() {
            assert(cs[k] == e[k]);
        } else {
            assert(cs[k] == shutdown_commands()[k - e.len()]);
        }
    }
    assert forall|h: Handle| occurrences(#[trigger] step(s, es).1, Command::Delete(h)) == 1 by {
        lemma_occurrences_add(e, shutdown_commands(), Command::Delete(h));
        assert forall|k: int| 0 <= k < e.len() implies e[k] != Command::Delete(h) by {
            assert(e[k] is ResizeSurface);
        }
        lemma_occurrences_absent(e, Command::Delete(h));
        lemma_shutdown_deletes_once(h);
    }
    if later.len() > 0 {
        lemma_close_ends_loop(s, es, i, later.drop_last());
    }
}

/// The graphics objects are released once and never early: while the loop
/// runs no call deletes any of them; once it has stopped, each was deleted
/// exactly once; and no call uses the pipeline after a deletion.
pub proof fn lemma_handles_released_once(s: HostLoop, batches: Seq<Seq<HostEvent>>)
    requires
        s.state == LoopState::Running,
    ensures
        run(s, batches).0.state == LoopState::Running ==> forall|k: int|
            0 <= k < run(s, batches).1.len() ==> !(#[trigger] run(s, batches).1[k] is Delete),
        forall|h: Handle|
            #[trigger] occurrences(run(s, batches).1, Command::Delete(h)) == match run(
                s,
                batches,
            ).0.state {
                LoopState::Running => 0nat,
                LoopState::Terminated => 1nat,
            },
        no_use_after_delete(run(s, batches).1),
    decreases batches.len(),
{
    if batches.len() > 0 {
        let init = batches.drop_last();
        lemma_handles_released_once(s, init);
        let (t, before) = run(s, init);
        let (u, now) = step(t, batches.last());
        let all = run(s, batches).1;
        assert(all == before + now);
        match t.state {
            LoopState::Terminated => {
                assert(before + now =~= before);
            },
            LoopState::Running => {
                let es = batches.last();
                let e = events_commands(es);
                let tail = closing_commands(u);
                lemma_events_commands_resize_only(es);
                assert(now == e + tail);
                assert forall|k: int| 0 <= k < now.len() && (#[trigger] now[k] is Delete) implies k
                    >= e.len() && u.state == LoopState::Terminated by {
                    if k < e.len() {
                        assert(now[k] == e[k]);
                    } else {
                        assert(now[k] == tail[k - e.len()]);
                    }
                }
                assert forall|h: Handle|
                    #[trigger] occurrences(all, Command::Delete(h)) == match u.state {
                        LoopState::Running => 0nat,
                        LoopState::Terminated => 1nat,
                    } by {
                    let c = Command::Delete(h);
                    lemma_occurrences_add(before, now, c);
                    lemma_occurrences_add(e, tail, c);
                    assert forall|k: int| 0 <= k < e.len() implies e[k] != c by {
                        assert(e[k] is ResizeSurface);
                    }
                    lemma_occurrences_absent(e, c);
                    match u.state {
                        LoopState::Running => {
                            lemma_occurrences_absent(tail, c);
                        },
                        LoopState::Terminated => {
                            lemma_shutdown_deletes_once(h);
                        },
                    }
                }
                assert forall|i: int, j: int|
                    #![trigger all[i], all[j]]
                    0 <= i < j < all.len() && all[i] is Delete implies !(all[j] is Draw) && !(
                    all[j] is BindPipeline) by {
                    assert(i >= before.len());
                    assert(all[i] == now[i - before.len()]);
                    assert(all[j] == now[j - before.len()]);
                    assert(now[i - before.len()] is Delete);
                    assert(j - before.len() >= e.len());
                    assert(all[j] == tail[j - before.len() - e.len()]);
                }
                assert forall|k: int| 0 <= k < all.len() && u.state == LoopState::Running implies !(
                #[trigger] all[k] is Delete) by {
                    if k >= before.len() {
                        assert(all[k] == now[k - before.len()]);
                    }
                }
            },
        }
    }
}

impl HostLoop {
    /// A running loop that draws at `viewport`.
    pub fn new(viewport: Viewport) -> (r: HostLoop)
        ensures
            r.state == LoopState::Running,
            r.viewport == viewport,
    {
        HostLoop { state: LoopState::Running, viewport }
    }

    pub fn is_running(&self) -> (r: bool)
        ensures
            r == (self.state == LoopState::Running),
    {
        match self.state {
            LoopState::Running => true,
            LoopState::Terminated => false,
        }
    }

    /// Handles one event: a close request stops the loop, a resize stores the
    /// new viewport and asks for the surface to follow it.
    pub fn handle_event(&mut self, event: HostEvent) -> (r: Option<Command>)
        ensures
            *final(self) == after_event(*old(self), event),
            r == event_command(event),
    {
        match event {
            HostEvent::CloseRequested => {
                self.state = LoopState::Terminated;
                None
            },
            HostEvent::Resized(v) => {
                self.viewport = v;
                Some(Command::ResizeSurface(v))
            },
            HostEvent::Other => None,
        }
    }

    /// The calls that end an iteration in the current state.
    pub fn closing(&self) -> (r: Vec<Command>)
        ensures
            r@ == closing_commands(*self),
    {
        match self.state {
            LoopState::Running => {
                let v = self.viewport;
                vec![
                    Command::BindPipeline,
                    Command::SetViewport(v),
                    Command::SetScissor(v),
                    Command::ClearMidGray,
                    Command::Draw { vertices: TRIANGLE_VERTICES, instances: TRIANGLE_INSTANCES },
                    Command::Present,
                ]
            },
            LoopState::Terminated => vec![
                Command::Delete(Handle::VertexShader),
                Command::Delete(Handle::FragmentShader),
                Command::Delete(Handle::Pipeline),
                Command::Exit,
            ],
        }
    }

    /// One iteration: handles the polled `events` in order, then draws a frame
    /// if the loop still runs, or releases the graphics objects and exits if
    /// it stopped. A loop that had stopped before does nothing.
    pub fn iterate(&mut self, events: &Vec<HostEvent>) -> (r: Vec<Command>)
        ensures
            (*final(self), r@) == step(*old(self), events@),
    {
        let mut cmds: Vec<Command> = Vec::new();
        if !self.is_running() {
            return cmds;
        }
        let ghost s0 = *self;
        let mut i: usize = 0;
        while i < events.len()
            invariant
                s0.state == LoopState::Running,
                i <= events.len(),
                *self == after_events(s0, events@.take(i as int)),
                cmds@ == events_commands(events@.take(i as int)),
            decreases events.len() - i,
        {
            let event = events[i];
            let c = self.handle_event(event);
            match c {
                Some(c) => cmds.push(c),
                None => {},
            }
            proof {
                let es = events@.take(i as int + 1);
                assert(es.drop_last() =~= events@.take(i as int));
                assert(es.last() == event);
            }
            i = i + 1;
        }
        assert(events@.take(events.len() as int) =~= events@);
        let mut tail = self.closing();
        cmds.append(&mut tail);
        cmds
    }
}

} // verus!
