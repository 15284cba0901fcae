use z_play::media_type::info_to_media_type;
use z_play::media_type::next_media_type;
use z_play::media_type::MediaType;
use z_play::pipeline::event::after_delivery;
use z_play::pipeline::event::observe;
use z_play::pipeline::event::BusMessage;
use z_play::pipeline::event::Event;
use z_play::pipeline::event::Watch;
use z_play::pipeline::state::display_clocktime;
use z_play::pipeline::state::ClockFields;
use z_play::pipeline::state::EngineState;
use z_play::pipeline::state::Frame;
use z_play::pipeline::state::State;
use z_play::pipeline::state::StateCell;
use z_play::pipeline::state::IMAGE_DURATION_NS;
use z_play::pipeline::worker::flush_position;
use z_play::pipeline::worker::is_last_handle;
use z_play::pipeline::worker::Command;
use z_play::pipeline::worker::IdSource;
use z_play::pipeline::worker::PipelineId;
use z_play::pipeline::worker::Worker;
use z_play::pipeline::worker::WorkerPool;
use z_play::playback_speed::PlaybackSpeed;

fn frame(tag: u8) -> Frame {
    Frame { width: 1, height: 1, data: vec![tag, tag, tag, 255] }
}

fn streams(nicks: &[&str]) -> Vec<String> {
    nicks.iter().map(|s| s.to_string()).collect()
}

#[test]
fn ids_count_up_from_zero() {
    let mut source = IdSource::new();
    assert_eq!(PipelineId::new(&mut source), PipelineId(0));
    assert_eq!(PipelineId::new(&mut source), PipelineId(1));
    assert_eq!(PipelineId::new(&mut source), PipelineId(2));
}

#[test]
fn engines_are_assigned_round_robin() {
    let mut pool = WorkerPool::new(3);
    assert_eq!(pool.worker_count(), 3);
    let mut assigned = Vec::new();
    for id in 0..7 {
        assigned.push(pool.send(&Command::AddPipeline(PipelineId(id))));
    }
    assert_eq!(assigned, vec![0, 1, 2, 0, 1, 2, 0]);
    assert_eq!(pool.next_index(), 1);
    assert_eq!(pool.next_index(), 2);
    assert_eq!(pool.next_index(), 0);
}

#[test]
fn commands_follow_the_route_of_their_engine() {
    let mut pool = WorkerPool::new(3);
    for id in 10..14 {
        pool.send(&Command::AddPipeline(PipelineId(id)));
    }
    let id = PipelineId(11);
    assert_eq!(pool.worker_of(id), Some(1));
    assert_eq!(pool.send(&Command::SetState(id, EngineState::Playing)), 1);
    assert_eq!(pool.send(&Command::Seek(id, 5_000_000_000, Some(PlaybackSpeed::X2))), 1);
    assert_eq!(pool.send(&Command::Seek(id, 0, None)), 1);
    assert_eq!(pool.send(&Command::SetVideoSize(id, 640, 480)), 1);
    assert_eq!(pool.send(&Command::SetState(PipelineId(13), EngineState::Paused)), 0);
    // Routing does not move the cursor.
    assert_eq!(pool.send(&Command::AddPipeline(PipelineId(20))), 1);
}

#[test]
fn removal_gives_up_the_route() {
    let mut pool = WorkerPool::new(2);
    pool.send(&Command::AddPipeline(PipelineId(1)));
    pool.send(&Command::AddPipeline(PipelineId(2)));
    assert_eq!(pool.send(&Command::RemovePipeline(PipelineId(2))), 1);
    assert_eq!(pool.worker_of(PipelineId(2)), None);
    assert_eq!(pool.worker_of(PipelineId(1)), Some(0));
    assert_eq!(pool.worker_of(PipelineId(99)), None);
}

#[test]
fn command_names_its_engine() {
    assert_eq!(Command::AddPipeline(PipelineId(4)).id(), PipelineId(4));
    assert_eq!(Command::RemovePipeline(PipelineId(5)).id(), PipelineId(5));
    assert_eq!(Command::SetState(PipelineId(6), EngineState::Null).id(), PipelineId(6));
    assert_eq!(Command::Seek(PipelineId(7), 1, None).id(), PipelineId(7));
    assert_eq!(Command::SetVideoSize(PipelineId(8), 1, 1).id(), PipelineId(8));
}

#[test]
fn worker_owns_what_it_was_given() {
    let mut worker: Worker<String> = Worker::new();
    assert!(!worker.owns(PipelineId(1)));
    worker.add(PipelineId(1), "one".to_string());
    worker.add(PipelineId(2), "two".to_string());
    assert!(worker.owns(PipelineId(1)));
    assert_eq!(worker.get(PipelineId(2)), "two");
    assert_eq!(worker.remove(PipelineId(1)), "one");
    assert!(!worker.owns(PipelineId(1)));
    assert_eq!(worker.forget(PipelineId(1)), None);
    assert_eq!(worker.forget(PipelineId(2)), Some("two".to_string()));
    assert!(!worker.owns(PipelineId(2)));
}

#[test]
fn last_handle_removes_the_engine() {
    assert!(is_last_handle(1));
    assert!(!is_last_handle(2));
    assert!(!is_last_handle(0));
}

#[test]
fn resize_flushes_unless_playing() {
    assert_eq!(flush_position(EngineState::Paused, Some(7)), Some(7));
    assert_eq!(flush_position(EngineState::Ready, Some(7)), Some(7));
    assert_eq!(flush_position(EngineState::Playing, Some(7)), None);
    assert_eq!(flush_position(EngineState::Paused, None), None);
}

#[test]
fn state_read_follows_the_engine() {
    // Right after creation the cell shows the state the engine was built
    // in, whatever was sent in between.
    let mut pool = WorkerPool::new(3);
    let mut cell = StateCell::new(EngineState::Null);
    let id = PipelineId(0);
    pool.send(&Command::AddPipeline(id));
    pool.send(&Command::SetState(id, EngineState::Playing));
    assert_eq!(cell.state(), EngineState::Null);
    // A part inside the engine changes state: nothing to show.
    let inner = BusMessage::StateChanged {
        from_engine: false,
        from: EngineState::Null,
        to: EngineState::Playing,
    };
    assert!(observe(&mut cell, inner).is_none());
    assert_eq!(cell.state(), EngineState::Null);
    // The engine itself arrives at Playing.
    for (from, to) in [
        (EngineState::Null, EngineState::Ready),
        (EngineState::Ready, EngineState::Paused),
        (EngineState::Paused, EngineState::Playing),
    ] {
        let event = observe(&mut cell, BusMessage::StateChanged { from_engine: true, from, to });
        assert!(matches!(event, Some(Event::StateChanged { from: f, to: t }) if f == from && t == to));
        assert_eq!(cell.state(), to);
    }
    assert_eq!(cell.state(), EngineState::Playing);
    assert!(!cell.is_paused());
}

#[test]
fn state_read_after_a_state_command() {
    // Before the command comes back the cell shows the state as before;
    // once it has succeeded, the target.
    let mut cell = StateCell::new(EngineState::Paused);
    assert_eq!(cell.state(), EngineState::Paused);
    cell.on_set_state(EngineState::Playing, true);
    assert_eq!(cell.state(), EngineState::Playing);
    // A command that failed changes nothing.
    cell.on_set_state(EngineState::Null, false);
    assert_eq!(cell.state(), EngineState::Playing);
}

#[test]
fn only_engine_level_messages_are_passed_on() {
    let mut cell = StateCell::new(EngineState::Paused);
    assert!(cell.is_paused());
    assert!(matches!(observe(&mut cell, BusMessage::Eos), Some(Event::EndOfStream)));
    let event = observe(&mut cell, BusMessage::Error { message: "no decoder".to_string() });
    assert!(matches!(event, Some(Event::Error(text)) if text == "no decoder"));
    assert!(observe(&mut cell, BusMessage::Other).is_none());
    assert_eq!(cell.state(), EngineState::Paused);
}

#[test]
fn watcher_leaves_when_nobody_listens() {
    assert_eq!(after_delivery(true, true), Watch::Continue);
    assert_eq!(after_delivery(true, false), Watch::Break);
    assert_eq!(after_delivery(false, true), Watch::Continue);
    assert_eq!(after_delivery(false, false), Watch::Continue);
}

#[test]
fn media_type_from_streams() {
    assert_eq!(MediaType::detect(&streams(&[])), MediaType::Unknown);
    assert_eq!(MediaType::detect(&streams(&["video"])), MediaType::VideoNoAudio);
    assert_eq!(MediaType::detect(&streams(&["audio"])), MediaType::Audio);
    assert_eq!(MediaType::detect(&streams(&["video(image)"])), MediaType::Image);
    assert_eq!(MediaType::detect(&streams(&["video", "audio"])), MediaType::VideoWithAudio);
    assert_eq!(MediaType::detect(&streams(&["audio", "video"])), MediaType::VideoWithAudio);
    assert_eq!(MediaType::detect(&streams(&["subtitle"])), MediaType::Unknown);
    assert_eq!(MediaType::detect(&streams(&["video", "subtitle"])), MediaType::VideoNoAudio);
    assert_eq!(MediaType::detect(&streams(&["Video"])), MediaType::Unknown);
    // The reading ends once both were found.
    assert_eq!(
        info_to_media_type(&streams(&["audio", "video", "video", "video(image)"])),
        MediaType::VideoWithAudio
    );
    // An image followed by audio is audio; audio followed by an image is an image.
    assert_eq!(info_to_media_type(&streams(&["video(image)", "audio"])), MediaType::Audio);
    assert_eq!(info_to_media_type(&streams(&["audio", "video(image)"])), MediaType::Image);
    assert_eq!(next_media_type(MediaType::VideoNoAudio, "video"), MediaType::VideoNoAudio);
    assert_eq!(next_media_type(MediaType::VideoWithAudio, "video"), MediaType::VideoNoAudio);
    assert!(MediaType::Image.is_playable());
    assert!(!MediaType::Unknown.is_playable());
}

#[test]
fn frames_swap() {
    let mut state = State::new(frame(1), frame(2));
    assert_eq!(state.active_frame().data[0], 1);
    assert_eq!(state.inactive_frame().data[0], 2);
    *state.inactive_frame_mut() = frame(3);
    assert_eq!(state.active_frame().data[0], 1);
    assert_eq!(state.inactive_frame().data[0], 3);
    state.active_frame_mut().data[0] = 9;
    assert_eq!(state.active_frame().data[0], 9);
    state.active_frame_mut().data[0] = 1;
    state.swap_frames();
    assert_eq!(state.active_frame().data[0], 3);
    assert_eq!(state.inactive_frame().data[0], 1);
    state.swap_frames();
    assert_eq!(state.active_frame().data[0], 1);
}

#[test]
fn clock_follows_the_samples() {
    let mut state = State::new(frame(0), frame(0));
    assert!(state.needs_duration());
    assert!(!state.on_sample(true, Some(9_000), Some(100)));
    assert_eq!(state.duration, 9_000);
    assert_eq!(state.position, 100);
    assert!(!state.needs_duration());
    // A known duration stays, an older stamp does not move the clock back.
    assert!(!state.on_sample(true, Some(5), Some(50)));
    assert_eq!(state.duration, 9_000);
    assert_eq!(state.position, 100);
    // A stamp past the end stops at the end.
    assert!(!state.on_sample(true, None, Some(10_000)));
    assert_eq!(state.position, 9_000);
    assert!(!state.on_sample(true, None, None));
    assert_eq!(state.position, 9_000);
}

#[test]
fn image_lasts_ten_seconds() {
    let mut state = State::new(frame(0), frame(0));
    state.is_image = true;
    assert!(!state.on_sample(true, None, Some(1_000_000_000)));
    assert_eq!(state.duration, IMAGE_DURATION_NS);
    assert_eq!(IMAGE_DURATION_NS, 10_000_000_000);
    assert!(state.on_sample(true, None, Some(10_000_000_000)));
    assert_eq!(state.position, 10_000_000_000);
}

#[test]
fn clock_without_the_engine() {
    let mut state = State::new(frame(0), frame(0));
    state.is_image = true;
    // Nobody to ask: the duration stays unknown, the position stops at it,
    // and no stream is ended.
    assert!(!state.on_sample(false, Some(7_000), Some(100)));
    assert_eq!(state.duration, 0);
    assert_eq!(state.position, 0);
}

#[test]
fn seek_stops_at_the_duration() {
    let mut state = State::new(frame(0), frame(0));
    state.duration = 1_000;
    assert_eq!(state.seek(400), 400);
    assert_eq!(state.position, 400);
    assert_eq!(state.seek(4_000), 1_000);
    assert_eq!(state.position, 1_000);
}

#[test]
fn clock_fields() {
    let second = 1_000_000_000u64;
    let time = (2 * 3600 + 5 * 60 + 7) * second + 999;
    assert_eq!(
        display_clocktime(time, true),
        ClockFields { hours: 2, minutes: 5, seconds: 7 }
    );
    assert_eq!(
        display_clocktime(time, false),
        ClockFields { hours: 2, minutes: 125, seconds: 7 }
    );
    assert_eq!(
        display_clocktime(59 * second, false),
        ClockFields { hours: 0, minutes: 0, seconds: 59 }
    );
}

#[test]
fn playback_speeds() {
    let all = PlaybackSpeed::all();
    assert_eq!(
        all,
        [
            PlaybackSpeed::X0_5,
            PlaybackSpeed::X1,
            PlaybackSpeed::X2,
            PlaybackSpeed::X4,
            PlaybackSpeed::X8,
            PlaybackSpeed::X16,
            PlaybackSpeed::X32,
        ]
    );
    let labels: Vec<&str> = all.iter().map(|s| s.as_str()).collect();
    assert_eq!(labels, vec!["x0.5", "x1", "x2", "x4", "x8", "x16", "x32"]);
    let halves: Vec<u32> = all.iter().map(|s| s.halves()).collect();
    assert_eq!(halves, vec![1, 2, 4, 8, 16, 32, 64]);
    assert_eq!(PlaybackSpeed::default(), PlaybackSpeed::X1);
    assert!(PlaybackSpeed::X0_5 < PlaybackSpeed::X1);
    assert!(PlaybackSpeed::X16 < PlaybackSpeed::X32);
    assert_eq!(all.iter().max(), Some(&PlaybackSpeed::X32));
    let rate = f64::from(PlaybackSpeed::X0_5.halves()) / 2.0;
    assert_eq!(rate, 0.5);
}
