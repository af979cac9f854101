use resonance_parrot::timeline::{
    handle_request, tick, FrequencySlice, PlayStatus, TimelineBase, TimelineReport,
    TimelineReportType, TimelineRequest, TimelineRequestType, TimelineStatus,
};

fn playing(len: usize, frequency: usize, event_divisor: usize) -> TimelineStatus {
    TimelineStatus {
        play_status: PlayStatus::Play,
        time_counter: 0,
        base: TimelineBase { len, frequency, event_divisor },
    }
}

fn run_to_stop(status: &mut TimelineStatus, max_ticks: usize) -> Vec<TimelineReport> {
    let mut all = Vec::new();
    for _ in 0..max_ticks {
        let mut reports = tick(status);
        all.append(&mut reports);
        if status.play_status == PlayStatus::Stop {
            break;
        }
    }
    all
}

#[test]
fn request_constructors_carry_their_payload() {
    let open = TimelineRequest::open(10, 44100, 441);
    assert!(open.request_type == TimelineRequestType::Open);
    assert_eq!(open.op_base.unwrap().len, 10);
    assert_eq!(open.op_base.unwrap().frequency, 44100);
    assert_eq!(open.op_base.unwrap().event_divisor, 441);
    assert!(open.op_time_counter.is_none());
    let point = TimelineRequest::point(7);
    assert!(point.request_type == TimelineRequestType::Point);
    assert_eq!(point.op_time_counter, Some(7));
    assert!(TimelineRequest::close().request_type == TimelineRequestType::Close);
    assert!(TimelineRequest::play_or_pause().request_type == TimelineRequestType::PlayOrPause);
    assert!(TimelineRequest::stop().request_type == TimelineRequestType::Stop);
    assert!(TimelineRequest::status().request_type == TimelineRequestType::Status);
}

#[test]
fn status_new_needs_a_base() {
    assert!(TimelineStatus::new(TimelineRequest::play_or_pause()).is_err());
    let s = TimelineStatus::new(TimelineRequest::open(5, 8000, 80)).unwrap();
    assert!(s.play_status == PlayStatus::Stop);
    assert_eq!(s.time_counter, 0);
    assert_eq!(s.base.len, 5);
}

#[test]
fn play_or_pause_toggles() {
    let mut s = TimelineStatus::new(TimelineRequest::open(5, 8000, 80)).unwrap();
    s.update(TimelineRequest::play_or_pause()).unwrap();
    assert!(s.play_status == PlayStatus::Play);
    s.update(TimelineRequest::play_or_pause()).unwrap();
    assert!(s.play_status == PlayStatus::Pause);
    s.update(TimelineRequest::play_or_pause()).unwrap();
    assert!(s.play_status == PlayStatus::Play);
}

#[test]
fn stop_rewinds_the_counter() {
    let mut s = playing(100, 8000, 10);
    s.time_counter = 42;
    s.update(TimelineRequest::stop()).unwrap();
    assert!(s.play_status == PlayStatus::Stop);
    assert_eq!(s.time_counter, 0);
}

#[test]
fn point_moves_the_counter_only() {
    let mut s = playing(100, 8000, 10);
    s.update(TimelineRequest::point(55)).unwrap();
    assert!(s.play_status == PlayStatus::Play);
    assert_eq!(s.time_counter, 55);
}

#[test]
fn update_refuses_open_close_status() {
    let mut s = playing(100, 8000, 10);
    assert!(s.update(TimelineRequest::open(1, 8000, 1)).is_err());
    assert!(s.update(TimelineRequest::close()).is_err());
    assert!(s.update(TimelineRequest::status()).is_err());
    assert_eq!(s.time_counter, 0);
    assert!(s.play_status == PlayStatus::Play);
}

#[test]
fn periodic_counters_are_multiples_of_the_divisor() {
    // Timeline monotonicity, concretely: length 10, divisor 2, so the
    // periodic counters are 2, 4, 6, 8, 10 and the tenth wake-up stops.
    let mut s = playing(10, 8000, 2);
    let reports = run_to_stop(&mut s, 1000);
    let periodic: Vec<usize> = reports
        .iter()
        .filter(|r| r.report_type == TimelineReportType::Periodical)
        .map(|r| r.timeline.time_counter)
        .collect();
    assert_eq!(periodic, vec![2, 4, 6, 8, 10]);
    assert!(s.play_status == PlayStatus::Stop);
    assert_eq!(s.time_counter, 0);
    let last = reports.last().unwrap();
    assert!(last.report_type == TimelineReportType::ChangedBySelf);
    assert!(last.timeline.play_status == PlayStatus::Stop);
    assert_eq!(last.timeline.time_counter, 0);
}

#[test]
fn tick_does_nothing_when_paused() {
    let mut s = playing(10, 8000, 2);
    s.play_status = PlayStatus::Pause;
    let reports = tick(&mut s);
    assert!(reports.is_empty());
    assert_eq!(s.time_counter, 0);
    assert!(s.play_status == PlayStatus::Pause);
}

#[test]
fn two_second_silent_track_scenario() {
    // A mono 44100 Hz track of 2 seconds (88200 samples) played with
    // divisor 441 emits one periodic report per 441 samples — 200 in
    // all — and then stops by itself with the counter rewound.
    let mut s = playing(88200, 44100, 441);
    let reports = run_to_stop(&mut s, 100_000);
    let periodic: Vec<usize> = reports
        .iter()
        .filter(|r| r.report_type == TimelineReportType::Periodical)
        .map(|r| r.timeline.time_counter)
        .collect();
    assert_eq!(periodic.len(), 200);
    for (k, c) in periodic.iter().enumerate() {
        assert_eq!(*c, (k + 1) * 441);
    }
    assert!(s.play_status == PlayStatus::Stop);
    assert_eq!(s.time_counter, 0);
    let last = reports.last().unwrap();
    assert!(last.report_type == TimelineReportType::ChangedBySelf);
    assert!(last.timeline.play_status == PlayStatus::Stop);
}

#[test]
fn handle_request_open_resets_and_reports() {
    let mut s = playing(10, 8000, 2);
    s.time_counter = 5;
    let (closed, reports) = handle_request(&mut s, TimelineRequest::open(20, 16000, 4)).unwrap();
    assert!(!closed);
    assert_eq!(reports.len(), 1);
    assert!(reports[0].report_type == TimelineReportType::ChangedBySelf);
    assert!(s.play_status == PlayStatus::Stop);
    assert_eq!(s.time_counter, 0);
    assert_eq!(s.base.len, 20);
}

#[test]
fn handle_request_status_answers_then_notes_state() {
    let mut s = playing(10, 8000, 2);
    s.time_counter = 3;
    let (closed, reports) = handle_request(&mut s, TimelineRequest::status()).unwrap();
    assert!(!closed);
    assert_eq!(reports.len(), 2);
    assert!(reports[0].report_type == TimelineReportType::Response);
    assert_eq!(reports[0].timeline.time_counter, 3);
    assert!(reports[1].report_type == TimelineReportType::ChangedBySelf);
    assert_eq!(s.time_counter, 3);
}

#[test]
fn handle_request_close_signals_shutdown() {
    let mut s = playing(10, 8000, 2);
    let (closed, reports) = handle_request(&mut s, TimelineRequest::close()).unwrap();
    assert!(closed);
    assert!(reports.is_empty());
}

#[test]
fn next_dur_subtracts_elapsed_time() {
    let slice = FrequencySlice::new(0);
    let mut s = playing(usize::MAX - 1, 44100, 441);
    s.time_counter = 44100;
    // One second of samples: the target is 1e9 ns; 0.4 s already spent.
    assert_eq!(slice.next_dur(&s, 400_000_000).unwrap(), Some(600_000_000));
    // Overdue wake-ups wait nothing.
    assert_eq!(slice.next_dur(&s, 2_000_000_000).unwrap(), None);
}

#[test]
fn next_dur_mixes_seconds_and_fraction() {
    let slice = FrequencySlice::new(0);
    let mut s = playing(usize::MAX - 1, 8000, 80);
    s.time_counter = 12000;
    // 12000 samples at 8000 Hz: 1.5 s.
    assert_eq!(slice.next_dur(&s, 0).unwrap(), Some(1_500_000_000));
}

#[test]
fn next_dur_idles_when_not_playing() {
    let slice = FrequencySlice::new(0);
    let mut s = playing(10, 44100, 441);
    s.play_status = PlayStatus::Pause;
    s.time_counter = 5;
    assert_eq!(slice.next_dur(&s, 123).unwrap(), Some(1_000_000_000 / 44100));
}

#[test]
fn next_dur_rejects_a_counter_behind_the_anchor() {
    let slice = FrequencySlice::new(10);
    let s = playing(100, 8000, 10);
    assert!(slice.next_dur(&s, 0).is_err());
}
