use sdf_triangle::host::{Command, Handle, HostEvent, HostLoop, LoopState};
use sdf_triangle::viewport::Viewport;

fn frame(v: Viewport) -> Vec<Command> {
    vec![
        Command::BindPipeline,
        Command::SetViewport(v),
        Command::SetScissor(v),
        Command::ClearMidGray,
        Command::Draw { vertices: 3, instances: 1 },
        Command::Present,
    ]
}

fn shutdown() -> Vec<Command> {
    vec![
        Command::Delete(Handle::VertexShader),
        Command::Delete(Handle::FragmentShader),
        Command::Delete(Handle::Pipeline),
        Command::Exit,
    ]
}

#[test]
fn new_loop_runs_at_its_size() {
    let v = Viewport::new(1024, 768);
    let l = HostLoop::new(v);
    assert!(l.is_running());
    assert_eq!(l.state, LoopState::Running);
    assert_eq!(l.viewport, v);
}

#[test]
fn quiet_iteration_draws_one_frame() {
    let v = Viewport::new(1024, 768);
    let mut l = HostLoop::new(v);
    assert_eq!(l.iterate(&vec![]), frame(v));
    assert_eq!(l.iterate(&vec![HostEvent::Other]), frame(v));
}

#[test]
fn resize_reaches_the_next_frame() {
    let old = Viewport::new(1024, 768);
    let new = Viewport::new(640, 480);
    let mut l = HostLoop::new(old);
    let cmds = l.iterate(&vec![HostEvent::Resized(new)]);
    let mut expected = vec![Command::ResizeSurface(new)];
    expected.extend(frame(new));
    assert_eq!(cmds, expected);
    assert_eq!(l.viewport, new);
    // no stale size afterwards
    assert_eq!(l.iterate(&vec![]), frame(new));
}

#[test]
fn last_resize_of_an_iteration_wins() {
    let a = Viewport::new(800, 600);
    let b = Viewport::new(300, 200);
    let mut l = HostLoop::new(Viewport::new(1024, 768));
    let cmds = l.iterate(&vec![HostEvent::Resized(a), HostEvent::Other, HostEvent::Resized(b)]);
    let mut expected = vec![Command::ResizeSurface(a), Command::ResizeSurface(b)];
    expected.extend(frame(b));
    assert_eq!(cmds, expected);
}

#[test]
fn close_request_ends_the_loop() {
    let v = Viewport::new(1024, 768);
    let mut l = HostLoop::new(v);
    assert_eq!(l.iterate(&vec![]), frame(v));
    let cmds = l.iterate(&vec![HostEvent::CloseRequested]);
    assert_eq!(cmds, shutdown());
    assert!(!l.is_running());
    assert!(!cmds.iter().any(|c| matches!(c, Command::Draw { .. })));
    for h in [Handle::VertexShader, Handle::FragmentShader, Handle::Pipeline] {
        assert_eq!(cmds.iter().filter(|c| **c == Command::Delete(h)).count(), 1);
    }
}

#[test]
fn nothing_after_termination() {
    let mut l = HostLoop::new(Viewport::new(1024, 768));
    let first = l.iterate(&vec![HostEvent::Other, HostEvent::CloseRequested]);
    assert_eq!(first, shutdown());
    assert_eq!(l.iterate(&vec![]), vec![]);
    assert_eq!(l.iterate(&vec![HostEvent::CloseRequested]), vec![]);
    assert_eq!(l.iterate(&vec![HostEvent::Resized(Viewport::new(5, 5))]), vec![]);
}

#[test]
fn handles_deleted_once_over_a_run() {
    let mut l = HostLoop::new(Viewport::new(1024, 768));
    let batches = vec![
        vec![],
        vec![HostEvent::Resized(Viewport::new(10, 20))],
        vec![HostEvent::Other],
        vec![HostEvent::CloseRequested, HostEvent::Resized(Viewport::new(30, 40))],
        vec![HostEvent::CloseRequested],
        vec![],
    ];
    let mut all = Vec::new();
    for (k, b) in batches.iter().enumerate() {
        let cmds = l.iterate(b);
        if k < 3 {
            assert!(l.is_running());
            assert!(!cmds.iter().any(|c| matches!(c, Command::Delete(_))));
        }
        all.extend(cmds);
    }
    for h in [Handle::VertexShader, Handle::FragmentShader, Handle::Pipeline] {
        assert_eq!(all.iter().filter(|c| **c == Command::Delete(h)).count(), 1);
    }
    let first_delete = all.iter().position(|c| matches!(c, Command::Delete(_))).unwrap();
    assert!(!all[first_delete..].iter().any(|c| matches!(c, Command::Draw { .. } | Command::BindPipeline)));
    assert_eq!(all.last(), Some(&Command::Exit));
}

#[test]
fn handle_event_updates_state() {
    let mut l = HostLoop::new(Viewport::new(1, 1));
    let v = Viewport::new(7, 9);
    assert_eq!(l.handle_event(HostEvent::Resized(v)), Some(Command::ResizeSurface(v)));
    assert_eq!(l.viewport, v);
    assert_eq!(l.handle_event(HostEvent::Other), None);
    assert!(l.is_running());
    assert_eq!(l.handle_event(HostEvent::CloseRequested), None);
    assert_eq!(l.state, LoopState::Terminated);
    assert_eq!(l.closing(), shutdown());
}
