use ksa64_host::console::{
    checksum_spark, event_names, phase_name, update_operations_page, ConsoleCommand,
    ConsoleConfig, ConsoleKey, ConsoleState, LocalConsoleConfig, PlotStyle, SoundProfile,
    TrajectoryView, UnitSystem, ConsolePace,
};

fn state() -> ConsoleState {
    ConsoleState {
        page: 0,
        units: UnitSystem::Si,
        sound: SoundProfile::Cues,
        trajectory_view: TrajectoryView::Ascent,
        show_plan: true,
        show_onboard: true,
        help_modal: false,
        quit_modal: false,
        replay: false,
        playing: false,
        freeze: false,
        detached: false,
        exit_after_finish: false,
        finished: false,
        live: true,
        has_control: true,
        has_latest: true,
        cursor: 0,
        history_len: 3,
    }
}

#[test]
fn settings_cycle_through_their_values() {
    assert_eq!(UnitSystem::Si.next(), UnitSystem::Dual);
    assert_eq!(UnitSystem::Us.next(), UnitSystem::Si);
    assert_eq!(UnitSystem::Dual.label(), "DUAL");
    assert_eq!(SoundProfile::Cinematic.next(), SoundProfile::Off);
    assert_eq!(SoundProfile::Cues.label(), "CUES");
    assert_eq!(PlotStyle::Braille.label(), "BRAILLE");
    for v in [TrajectoryView::Ascent, TrajectoryView::Orbit, TrajectoryView::GroundTrack] {
        assert_eq!(v.next().next().next(), v);
        assert_eq!(v.next().previous(), v);
    }
    assert_eq!(TrajectoryView::GroundTrack.label(), "GROUND TRACK");
}

#[test]
fn default_configurations_hold_the_documented_settings() {
    let c = ConsoleConfig::with_recording(Some("session.kmr6".to_string()));
    assert_eq!(c.units, UnitSystem::Si);
    assert_eq!(c.sound, SoundProfile::Cues);
    assert_eq!(c.title, "KSA64 // MISSION CONTROL");
    let l = LocalConsoleConfig::default();
    assert!(!l.gimbal);
    assert_eq!(l.pace, ConsolePace::Realtime);
    assert_eq!(l.title, "KSA64 // LOCAL-ENU MISSION CONTROL");
}

#[test]
fn event_names_are_joined_in_bit_order() {
    assert_eq!(event_names(0), "NONE");
    assert_eq!(event_names(1), "IGNITION");
    assert_eq!(event_names(1 | 4 | 256), "IGNITION+SEPARATION+RCS DEPLETED");
    assert_eq!(event_names(512), "");
    assert_eq!(phase_name(1), "BURNING");
    assert_eq!(phase_name(9), "UNKNOWN");
}

#[test]
fn the_checksum_sparkline_is_an_arch_with_noise() {
    let bars = checksum_spark(0);
    assert_eq!(bars.len(), 96);
    assert_eq!(bars, checksum_spark(1));
    let mut value: u32 = 1;
    for (index, bar) in bars.iter().enumerate() {
        value ^= value << 13;
        value ^= value >> 17;
        value ^= value << 5;
        let arc = 64u64.saturating_sub((index as i64 - 48).unsigned_abs());
        assert_eq!(*bar, 8 + arc + u64::from(value & 7));
    }
    assert!(bars[48] >= 72);
}

#[test]
fn function_keys_pick_pages_and_arrows_move_between_them() {
    let mut s = state();
    assert_eq!(s.key(ConsoleKey::Function(2)), ConsoleCommand::Nothing);
    assert_eq!(s.page, 1);
    s.key(ConsoleKey::Tab);
    assert_eq!(s.trajectory_view, TrajectoryView::Orbit);
    s.key(ConsoleKey::Char('3'));
    assert_eq!(s.trajectory_view, TrajectoryView::GroundTrack);
    s.key(ConsoleKey::Char('p'));
    assert!(!s.show_plan);
    for _ in 0..10 {
        s.key(ConsoleKey::Right);
    }
    assert_eq!(s.page, 6);
    s.key(ConsoleKey::Char('3'));
    assert_eq!(s.trajectory_view, TrajectoryView::GroundTrack);
    s.key(ConsoleKey::Function(9));
    assert_eq!(s.page, 6);
}

#[test]
fn pacing_keys_ask_the_run_to_change_pace() {
    let mut s = state();
    assert_eq!(s.key(ConsoleKey::Char(' ')), ConsoleCommand::TogglePause);
    assert_eq!(s.key(ConsoleKey::Char('.')), ConsoleCommand::StepRun);
    assert_eq!(s.key(ConsoleKey::Char(']')), ConsoleCommand::FasterRun);
    assert_eq!(s.key(ConsoleKey::Char('[')), ConsoleCommand::SlowerRun);
    assert_eq!(s.key(ConsoleKey::Char('s')), ConsoleCommand::ApplySound);
    assert_eq!(s.sound, SoundProfile::Cinematic);
    s.has_control = false;
    assert_eq!(s.key(ConsoleKey::Char(' ')), ConsoleCommand::Nothing);
}

#[test]
fn quitting_a_live_run_asks_first() {
    let mut s = state();
    assert_eq!(s.key(ConsoleKey::Char('q')), ConsoleCommand::Nothing);
    assert!(s.quit_modal);
    assert_eq!(s.key(ConsoleKey::Char('x')), ConsoleCommand::Nothing);
    assert!(s.quit_modal);
    assert_eq!(s.key(ConsoleKey::Char('s')), ConsoleCommand::CancelRun);
    assert!(s.exit_after_finish && !s.quit_modal);
    s.finished = true;
    assert_eq!(s.key(ConsoleKey::Char('q')), ConsoleCommand::Quit);
    let mut d = state();
    d.key(ConsoleKey::Char('q'));
    assert_eq!(d.key(ConsoleKey::Char('d')), ConsoleCommand::ResumeRun);
    assert!(d.detached);
}

#[test]
fn the_help_dialog_swallows_keys() {
    let mut s = state();
    s.key(ConsoleKey::Char('?'));
    assert!(s.help_modal);
    let before = s;
    assert_eq!(s.key(ConsoleKey::Char(']')), ConsoleCommand::Nothing);
    assert_eq!(s, before);
    s.key(ConsoleKey::Esc);
    assert!(!s.help_modal);
}

#[test]
fn replay_keys_move_the_cursor_within_the_history() {
    let mut s = state();
    s.replay = true;
    assert_eq!(s.key(ConsoleKey::Right), ConsoleCommand::ShowHistoryAt(1));
    assert_eq!(s.key(ConsoleKey::Right), ConsoleCommand::ShowHistoryAt(2));
    assert_eq!(s.key(ConsoleKey::Right), ConsoleCommand::ShowHistoryAt(2));
    assert_eq!(s.key(ConsoleKey::Home), ConsoleCommand::ShowHistoryAt(0));
    assert_eq!(s.key(ConsoleKey::Left), ConsoleCommand::ShowHistoryAt(0));
    assert_eq!(s.key(ConsoleKey::End), ConsoleCommand::ShowLatest);
    assert_eq!(s.cursor, 2);
    assert_eq!(s.key(ConsoleKey::Char(' ')), ConsoleCommand::Nothing);
    assert!(s.playing);
}

#[test]
fn freezing_and_bookmarks() {
    let mut s = state();
    assert_eq!(s.key(ConsoleKey::Char('f')), ConsoleCommand::Nothing);
    assert!(s.freeze);
    assert_eq!(s.key(ConsoleKey::Char('F')), ConsoleCommand::ShowLatest);
    assert_eq!(s.key(ConsoleKey::Char('b')), ConsoleCommand::Bookmark);
    s.has_latest = false;
    assert_eq!(s.key(ConsoleKey::Char('B')), ConsoleCommand::Nothing);
    assert_eq!(s.key(ConsoleKey::Char('e')), ConsoleCommand::Export);
}

#[test]
fn operations_pages_wrap_around() {
    assert_eq!(update_operations_page(0, ConsoleKey::Left), 6);
    assert_eq!(update_operations_page(6, ConsoleKey::Right), 0);
    assert_eq!(update_operations_page(3, ConsoleKey::Function(1)), 0);
    assert_eq!(update_operations_page(3, ConsoleKey::Function(8)), 3);
    assert_eq!(update_operations_page(3, ConsoleKey::Esc), 3);
}

use ksa64_host::console::{cue_duration_millis, cue_tone, CueTone};

#[test]
fn cue_tones_follow_event_precedence() {
    assert_eq!(cue_tone(SoundProfile::Off, 0b110), None);
    assert_eq!(cue_tone(SoundProfile::Cues, 0), None);
    assert_eq!(cue_tone(SoundProfile::Cues, 0b110), Some(CueTone::Separation));
    assert_eq!(cue_tone(SoundProfile::Cinematic, 0b010), Some(CueTone::Cutoff));
    assert_eq!(cue_tone(SoundProfile::Cues, 0b1000), Some(CueTone::Event));
    assert_eq!(cue_duration_millis(CueTone::Separation), 180);
    assert_eq!(cue_duration_millis(CueTone::Cutoff), 260);
    assert_eq!(cue_duration_millis(CueTone::Event), 120);
}

use ksa64_host::console::{
    density_tier, log_event, observed_events, shown_prefix_len, stage_local_step, stage_number,
    DensityTier, UpdateMark, EVENT_LOG_LINES,
};

#[test]
fn accepting_updates_follows_the_latest_unless_frozen() {
    let mut s = state();
    assert!(!s.accept(0));
    assert_eq!(s.history_len, 4);
    assert_eq!(s.cursor, 3);
    assert!(s.has_latest);
    let mut frozen = ConsoleState { freeze: true, cursor: 1, ..state() };
    assert!(frozen.accept(4));
    assert_eq!(frozen.history_len, 4);
    assert_eq!(frozen.cursor, 1);
    frozen.finish();
    assert!(frozen.finished);
}

#[test]
fn event_log_keeps_the_newest_lines_first() {
    let mut log = Vec::new();
    for i in 0..40 {
        log_event(&mut log, format!("line {i}"));
    }
    assert_eq!(log.len(), EVENT_LOG_LINES);
    assert_eq!(log[0], "line 39");
    assert_eq!(log[31], "line 8");
}

fn mark(epoch: u32, aid_events: Option<u16>) -> UpdateMark {
    UpdateMark { epoch, aid_events }
}

#[test]
fn stage_progress_is_read_from_the_shown_updates() {
    let history = [
        mark(0, None),
        mark(4, Some(1)),
        mark(8, Some(0)),
        mark(40, Some(4 | 2)),
        mark(44, None),
    ];
    assert_eq!(shown_prefix_len(&history, 10), 3);
    assert_eq!(shown_prefix_len(&history, 100), 5);
    let shown = &history[..shown_prefix_len(&history, 10)];
    assert_eq!(observed_events(shown), 1);
    assert_eq!(stage_number(shown), 1);
    assert_eq!(stage_local_step(shown, 10), 2);
    assert_eq!(observed_events(&history), 7);
    assert_eq!(stage_number(&history), 2);
    assert_eq!(stage_local_step(&history, 52), 3);
    assert_eq!(stage_local_step(&history, 30), 0);
}

#[test]
fn density_follows_the_terminal_area() {
    assert_eq!(density_tier(200, 60), DensityTier::Ultra);
    assert_eq!(density_tier(200, 45), DensityTier::Wide);
    assert_eq!(density_tier(120, 60), DensityTier::Standard);
    assert_eq!(density_tier(99, 60), DensityTier::Compact);
}
