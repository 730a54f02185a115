use soundboard::{start_for, Action, ClipTable, Command, Dispatcher, PlayRequest, Start, TICKS_PER_SECOND};

/// A stand-in for the audio device: decodes clips into their name's length,
/// counts decodes, and hands out increasing handle numbers.
struct FakeDevice {
    decodes: Vec<String>,
    next_handle: u32,
    played: Vec<(u32, bool, Start)>,
    stopped: Vec<u32>,
}

impl FakeDevice {
    fn new() -> Self {
        FakeDevice { decodes: Vec::new(), next_handle: 1, played: Vec::new(), stopped: Vec::new() }
    }

    fn decode_count(&self, clip: &str) -> usize {
        self.decodes.iter().filter(|c| c.as_str() == clip).count()
    }

    fn run(&mut self, d: &mut Dispatcher<usize, u32>, cmd: Command) {
        match d.accept(cmd) {
            Action::Play(req) => self.play(d, req),
            Action::Stop(handles) => self.stopped.extend(handles),
        }
    }

    fn play(&mut self, d: &mut Dispatcher<usize, u32>, req: PlayRequest) {
        if req.decode {
            self.decodes.push(req.clip.clone());
            d.store_decoded(req.clip.clone(), req.clip.len());
        }
        assert!(d.decoded(&req.clip).is_some());
        let h = self.next_handle;
        self.next_handle += 1;
        self.played.push((h, req.reversed, req.start));
        d.record_play(req.clip, h);
    }
}

fn play(clip: &str, reversed: bool, delay_ms: u32) -> Command {
    Command::Play { clip: clip.to_string(), reversed, delay_ms }
}

fn stop(clip: &str) -> Command {
    Command::Stop { clip: clip.to_string() }
}

#[test]
fn end_to_end_two_plays_stop_and_stop_all() {
    let clips = vec!["a.wav".to_string(), "b.wav".to_string()];
    assert_eq!(clips, vec!["a.wav", "b.wav"]);
    let mut d: Dispatcher<usize, u32> = Dispatcher::new();
    let mut dev = FakeDevice::new();
    let a = "a.wav".to_string();

    dev.run(&mut d, play("a.wav", false, 0));
    assert_eq!(d.handles(&a).len(), 1);
    assert_eq!(dev.decode_count("a.wav"), 1);

    dev.run(&mut d, play("a.wav", false, 0));
    assert_eq!(d.handles(&a).len(), 2);
    assert_eq!(dev.decode_count("a.wav"), 1);

    dev.run(&mut d, stop("a.wav"));
    assert_eq!(d.handles(&a).len(), 0);
    assert_eq!(dev.stopped, vec![1, 2]);

    dev.run(&mut d, Command::StopAll);
    assert_eq!(d.entry_count(), 0);
}

#[test]
fn first_play_decodes_and_caches() {
    let mut d: Dispatcher<usize, u32> = Dispatcher::new();
    let a = "a.wav".to_string();
    assert!(d.decoded(&a).is_none());
    let req = d.plan_play(a.clone(), false, 0);
    assert!(req.decode);
    d.store_decoded(a.clone(), 42);
    assert_eq!(d.decoded(&a), Some(&42));
    let again = d.plan_play(a.clone(), true, 300);
    assert!(!again.decode);
}

#[test]
fn decode_count_stays_one_per_clip() {
    let mut d: Dispatcher<usize, u32> = Dispatcher::new();
    let mut dev = FakeDevice::new();
    for _ in 0..5 {
        dev.run(&mut d, play("a.wav", false, 0));
        dev.run(&mut d, play("b.wav", true, 100));
    }
    dev.run(&mut d, Command::StopAll);
    dev.run(&mut d, play("a.wav", false, 0));
    assert_eq!(dev.decode_count("a.wav"), 1);
    assert_eq!(dev.decode_count("b.wav"), 1);
    assert_eq!(d.decoded(&"b.wav".to_string()), Some(&5));
}

#[test]
fn handle_count_equals_play_count() {
    let mut d: Dispatcher<usize, u32> = Dispatcher::new();
    let mut dev = FakeDevice::new();
    let a = "a.wav".to_string();
    let b = "b.wav".to_string();
    for i in 0..7 {
        dev.run(&mut d, play("a.wav", i % 2 == 0, 0));
    }
    dev.run(&mut d, play("b.wav", false, 0));
    assert_eq!(d.handles(&a), &[1, 2, 3, 4, 5, 6, 7]);
    assert_eq!(d.handles(&b), &[8]);
}

#[test]
fn stop_clip_stops_only_that_clip() {
    let mut d: Dispatcher<usize, u32> = Dispatcher::new();
    let mut dev = FakeDevice::new();
    dev.run(&mut d, play("a.wav", false, 0));
    dev.run(&mut d, play("b.wav", false, 0));
    dev.run(&mut d, play("a.wav", false, 0));
    dev.run(&mut d, stop("a.wav"));
    assert_eq!(dev.stopped, vec![1, 3]);
    assert_eq!(d.handles(&"a.wav".to_string()).len(), 0);
    assert_eq!(d.handles(&"b.wav".to_string()), &[2]);
    assert_eq!(d.entry_count(), 2);
}

#[test]
fn stop_unplayed_or_stopped_clip_is_a_no_op() {
    let mut d: Dispatcher<usize, u32> = Dispatcher::new();
    let mut dev = FakeDevice::new();
    dev.run(&mut d, stop("never.wav"));
    assert!(dev.stopped.is_empty());
    assert_eq!(d.entry_count(), 0);

    dev.run(&mut d, play("a.wav", false, 0));
    dev.run(&mut d, stop("a.wav"));
    dev.run(&mut d, stop("a.wav"));
    assert_eq!(dev.stopped, vec![1]);
    assert_eq!(d.entry_count(), 1);
    assert_eq!(d.handles(&"a.wav".to_string()).len(), 0);
}

#[test]
fn stop_all_stops_everything_in_order() {
    let mut d: Dispatcher<usize, u32> = Dispatcher::new();
    let mut dev = FakeDevice::new();
    dev.run(&mut d, play("b.wav", false, 0));
    dev.run(&mut d, play("a.wav", false, 0));
    dev.run(&mut d, play("b.wav", false, 0));
    dev.run(&mut d, Command::StopAll);
    assert_eq!(dev.stopped, vec![1, 3, 2]);
    assert_eq!(d.entry_count(), 0);
    assert_eq!(d.handles(&"a.wav".to_string()).len(), 0);
    assert_eq!(d.handles(&"b.wav".to_string()).len(), 0);
}

#[test]
fn stop_all_twice_is_harmless() {
    let mut d: Dispatcher<usize, u32> = Dispatcher::new();
    let mut dev = FakeDevice::new();
    dev.run(&mut d, play("a.wav", false, 0));
    dev.run(&mut d, Command::StopAll);
    dev.run(&mut d, Command::StopAll);
    assert_eq!(dev.stopped, vec![1]);
    assert_eq!(d.entry_count(), 0);
    assert_eq!(d.stop_all(), Vec::<u32>::new());
}

#[test]
fn reverse_then_forward_uses_same_cached_data() {
    let mut d: Dispatcher<usize, u32> = Dispatcher::new();
    let mut dev = FakeDevice::new();
    dev.run(&mut d, play("clip.wav", true, 0));
    dev.run(&mut d, play("clip.wav", false, 0));
    assert_eq!(dev.played, vec![(1, true, Start::Immediate), (2, false, Start::Immediate)]);
    assert_eq!(dev.decode_count("clip.wav"), 1);
    assert_eq!(d.decoded(&"clip.wav".to_string()), Some(&8));
}

#[test]
fn zero_delay_starts_immediately() {
    assert_eq!(start_for(0), Start::Immediate);
}

#[test]
fn delay_gives_tick_offset() {
    assert_eq!(TICKS_PER_SECOND, 10);
    assert_eq!(start_for(2500), Start::Scheduled { offset_milliticks: 25_000 });
    assert_eq!(start_for(1), Start::Scheduled { offset_milliticks: 10 });
    assert_eq!(start_for(10_000), Start::Scheduled { offset_milliticks: 100_000 });
    assert_eq!(
        start_for(u32::MAX),
        Start::Scheduled { offset_milliticks: u32::MAX as u64 * 10 }
    );
}

#[test]
fn play_command_plans_without_changing_state() {
    let mut d: Dispatcher<usize, u32> = Dispatcher::new();
    match d.accept(play("a.wav", true, 1500)) {
        Action::Play(req) => {
            assert_eq!(req.clip, "a.wav");
            assert!(req.reversed);
            assert!(req.decode);
            assert_eq!(req.start, Start::Scheduled { offset_milliticks: 15_000 });
        }
        Action::Stop(_) => panic!("a play command gave a stop"),
    }
    assert!(d.decoded(&"a.wav".to_string()).is_none());
    assert_eq!(d.entry_count(), 0);
}

#[test]
fn clip_table_keeps_one_entry_per_clip() {
    let mut t: ClipTable<u32> = ClipTable::new();
    t.insert_new("x".to_string(), 1);
    t.insert_new("y".to_string(), 2);
    assert_eq!(t.len(), 2);
    assert_eq!(t.find(&"y".to_string()), Some(1));
    assert_eq!(t.find(&"z".to_string()), None);
    assert_eq!(t.replace_at(0, 5), 1);
    assert_eq!(t.get(&"x".to_string()), Some(&5));
    assert_eq!(t.drain(), vec![5, 2]);
    assert_eq!(t.len(), 0);
    assert_eq!(t.get(&"x".to_string()), None);
}
