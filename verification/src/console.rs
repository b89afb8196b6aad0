//! Mission-control console settings, labels, and the key handling of the
//! live console as a transition from state and key to state and command.
use vstd::prelude::*;
use vstd::string::StringExecFns;

verus! {

/// An I/O failure reported by the terminal or a file.
#[verifier::external_type_specification]
#[verifier::external_body]
pub struct ExIoError(std::io::Error);

/// The unit system of displayed quantities.
#[derive(Clone, Copy, Debug, PartialEq, Eq, Structural)]
pub enum UnitSystem {
    Si,
    Dual,
    Us,
}

impl UnitSystem {
    pub fn label(self) -> (r: &'static str)
        ensures
            r@ == (match self {
                UnitSystem::Si => "SI"@,
                UnitSystem::Dual => "DUAL"@,
                UnitSystem::Us => "US"@,
            }),
    {
        match self {
            UnitSystem::Si => "SI",
            UnitSystem::Dual => "DUAL",
            UnitSystem::Us => "US",
        }
    }

    pub open spec fn successor(self) -> UnitSystem {
        match self {
            UnitSystem::Si => UnitSystem::Dual,
            UnitSystem::Dual => UnitSystem::Us,
            UnitSystem::Us => UnitSystem::Si,
        }
    }

    /// The next unit system in the cycle SI, dual, US.
    pub fn next(self) -> (r: UnitSystem)
        ensures
            r == self.successor(),
    {
        match self {
            UnitSystem::Si => UnitSystem::Dual,
            UnitSystem::Dual => UnitSystem::Us,
            UnitSystem::Us => UnitSystem::Si,
        }
    }
}

/// How much sound the console makes.
#[derive(Clone, Copy, Debug, PartialEq, Eq, Structural)]
pub enum SoundProfile {
    Off,
    Cues,
    Cinematic,
}

impl SoundProfile {
    pub fn label(self) -> (r: &'static str)
        ensures
            r@ == (match self {
                SoundProfile::Off => "OFF"@,
                SoundProfile::Cues => "CUES"@,
                SoundProfile::Cinematic => "CINEMATIC"@,
            }),
    {
        match self {
            SoundProfile::Off => "OFF",
            SoundProfile::Cues => "CUES",
            SoundProfile::Cinematic => "CINEMATIC",
        }
    }

    pub open spec fn successor(self) -> SoundProfile {
        match self {
            SoundProfile::Off => SoundProfile::Cues,
            SoundProfile::Cues => SoundProfile::Cinematic,
            SoundProfile::Cinematic => SoundProfile::Off,
        }
    }

    /// The next profile in the cycle off, cues, cinematic.
    pub fn next(self) -> (r: SoundProfile)
        ensures
            r == self.successor(),
    {
        match self {
            SoundProfile::Off => SoundProfile::Cues,
            SoundProfile::Cues => SoundProfile::Cinematic,
            SoundProfile::Cinematic => SoundProfile::Off,
        }
    }
}

/// Where a run's progress is shown.
#[derive(Clone, Copy, Debug, PartialEq, Eq, Structural)]
pub enum DisplayMode {
    Adaptive,
    Tui,
    Summary,
    Hidden,
}

/// How plots are drawn.
#[derive(Clone, Copy, Debug, PartialEq, Eq, Structural)]
pub enum PlotStyle {
    Auto,
    Braille,
    Ascii,
}

impl PlotStyle {
    pub fn label(self) -> (r: &'static str)
        ensures
            r@ == (match self {
                PlotStyle::Auto => "AUTO"@,
                PlotStyle::Braille => "BRAILLE"@,
                PlotStyle::Ascii => "ASCII"@,
            }),
    {
        match self {
            PlotStyle::Auto => "AUTO",
            PlotStyle::Braille => "BRAILLE",
            PlotStyle::Ascii => "ASCII",
        }
    }
}

/// Which trajectory plot the trajectory page shows.
#[derive(Clone, Copy, Debug, PartialEq, Eq, Structural)]
pub enum TrajectoryView {
    Ascent,
    Orbit,
    GroundTrack,
}

impl TrajectoryView {
    pub fn label(self) -> (r: &'static str)
        ensures
            r@ == (match self {
                TrajectoryView::Ascent => "ASCENT PROFILE"@,
                TrajectoryView::Orbit => "ORBIT VIEW"@,
                TrajectoryView::GroundTrack => "GROUND TRACK"@,
            }),
    {
        match self {
            TrajectoryView::Ascent => "ASCENT PROFILE",
            TrajectoryView::Orbit => "ORBIT VIEW",
            TrajectoryView::GroundTrack => "GROUND TRACK",
        }
    }

    pub open spec fn successor(self) -> TrajectoryView {
        match self {
            TrajectoryView::Ascent => TrajectoryView::Orbit,
            TrajectoryView::Orbit => TrajectoryView::GroundTrack,
            TrajectoryView::GroundTrack => TrajectoryView::Ascent,
        }
    }

    pub open spec fn predecessor(self) -> TrajectoryView {
        match self {
            TrajectoryView::Ascent => TrajectoryView::GroundTrack,
            TrajectoryView::Orbit => TrajectoryView::Ascent,
            TrajectoryView::GroundTrack => TrajectoryView::Orbit,
        }
    }

    /// The next view in the cycle ascent, orbit, ground track.
    pub fn next(self) -> (r: TrajectoryView)
        ensures
            r == self.successor(),
    {
        match self {
            TrajectoryView::Ascent => TrajectoryView::Orbit,
            TrajectoryView::Orbit => TrajectoryView::GroundTrack,
            TrajectoryView::GroundTrack => TrajectoryView::Ascent,
        }
    }

    /// The view before this one in the same cycle.
    pub fn previous(self) -> (r: TrajectoryView)
        ensures
            r == self.predecessor(),
    {
        match self {
            TrajectoryView::Ascent => TrajectoryView::GroundTrack,
            TrajectoryView::Orbit => TrajectoryView::Ascent,
            TrajectoryView::GroundTrack => TrajectoryView::Orbit,
        }
    }
}

/// Each setting cycles with period three: three steps forward come back to
/// the start, and a step back undoes a step forward.
pub proof fn law_setting_cycles(u: UnitSystem, s: SoundProfile, v: TrajectoryView)
    ensures
        u.successor().successor().successor() == u,
        u.successor() != u,
        s.successor().successor().successor() == s,
        s.successor() != s,
        v.successor().successor().successor() == v,
        v.successor() != v,
        v.successor().predecessor() == v,
        v.predecessor().successor() == v,
{
}

/// The settings of the mission-control console. `recording` names the file
/// a session is recorded to, if any.
#[derive(Clone, Debug)]
pub struct ConsoleConfig {
    pub units: UnitSystem,
    pub sound: SoundProfile,
    pub plot_style: PlotStyle,
    pub trajectory_view: TrajectoryView,
    pub recording: Option<String>,
    pub title: String,
}

impl ConsoleConfig {
    /// The default settings (SI units, sound cues, automatic plots, the
    /// ascent view) recording to `recording`.
    pub fn with_recording(recording: Option<String>) -> (r: ConsoleConfig)
        ensures
            r.units == UnitSystem::Si,
            r.sound == SoundProfile::Cues,
            r.plot_style == PlotStyle::Auto,
            r.trajectory_view == TrajectoryView::Ascent,
            r.recording == recording,
            r.title@ == "KSA64 // MISSION CONTROL"@,
    {
        ConsoleConfig {
            units: UnitSystem::Si,
            sound: SoundProfile::Cues,
            plot_style: PlotStyle::Auto,
            trajectory_view: TrajectoryView::Ascent,
            recording,
            title: String::from_str("KSA64 // MISSION CONTROL"),
        }
    }
}

/// The name of a vehicle flight phase code.
pub fn phase_name(p: u8) -> (r: &'static str)
    ensures
        r@ == (if p == 0 {
            "COAST / PRE-IGNITION"@
        } else if p == 1 {
            "BURNING"@
        } else if p == 2 {
            "COAST / PRE-SEPARATION"@
        } else if p == 3 {
            "COMPLETE"@
        } else {
            "UNKNOWN"@
        }),
{
    match p {
        0 => "COAST / PRE-IGNITION",
        1 => "BURNING",
        2 => "COAST / PRE-SEPARATION",
        3 => "COMPLETE",
        _ => "UNKNOWN",
    }
}

/// The event bits a mission reports, in the order they are named.
pub open spec fn event_bit(i: int) -> u16 {
    if i == 0 {
        1
    } else if i == 1 {
        2
    } else if i == 2 {
        4
    } else if i == 3 {
        8
    } else if i == 4 {
        16
    } else if i == 5 {
        32
    } else if i == 6 {
        64
    } else if i == 7 {
        128
    } else {
        256
    }
}

pub open spec fn event_label(i: int) -> Seq<char> {
    if i == 0 {
        "IGNITION"@
    } else if i == 1 {
        "CUTOFF"@
    } else if i == 2 {
        "SEPARATION"@
    } else if i == 3 {
        "ABORT"@
    } else if i == 4 {
        "GPS OUTAGE"@
    } else if i == 5 {
        "STAR OUTAGE"@
    } else if i == 6 {
        "GIMBAL JAM"@
    } else if i == 7 {
        "DAMPING LOSS"@
    } else {
        "RCS DEPLETED"@
    }
}

/// The names of the events among the first `k` whose bit is set in `e`.
pub open spec fn event_labels_upto(e: u16, k: int) -> Seq<Seq<char>>
    decreases k,
{
    if k <= 0 {
        Seq::empty()
    } else if e & event_bit(k - 1) != 0 {
        event_labels_upto(e, k - 1).push(event_label(k - 1))
    } else {
        event_labels_upto(e, k - 1)
    }
}

/// Names joined with `+`.
pub open spec fn join_plus(names: Seq<Seq<char>>) -> Seq<char>
    decreases names.len(),
{
    if names.len() == 0 {
        Seq::empty()
    } else if names.len() == 1 {
        names[0]
    } else {
        join_plus(names.drop_last()) + "+"@ + names.last()
    }
}

pub open spec fn event_names_of(e: u16) -> Seq<char> {
    if e == 0 {
        "NONE"@
    } else {
        join_plus(event_labels_upto(e, 9))
    }
}

fn event_bit_at(i: usize) -> (r: u16)
    requires
        i < 9,
    ensures
        r == event_bit(i as int),
{
    match i {
        0 => 1,
        1 => 2,
        2 => 4,
        3 => 8,
        4 => 16,
        5 => 32,
        6 => 64,
        7 => 128,
        _ => 256,
    }
}

fn event_label_at(i: usize) -> (r: &'static str)
    requires
        i < 9,
    ensures
        r@ == event_label(i as int),
{
    match i {
        0 => "IGNITION",
        1 => "CUTOFF",
        2 => "SEPARATION",
        3 => "ABORT",
        4 => "GPS OUTAGE",
        5 => "STAR OUTAGE",
        6 => "GIMBAL JAM",
        7 => "DAMPING LOSS",
        _ => "RCS DEPLETED",
    }
}

/// The names of the events set in `e`, joined with `+`; `NONE` for no
/// events.
pub fn event_names(e: u16) -> (r: String)
    ensures
        r@ == event_names_of(e),
{
    if e == 0 {
        return String::from_str("NONE");
    }
    let mut out = String::new();
    let mut first = true;
    let mut i: usize = 0;
    while i < 9
        invariant
            i <= 9,
            out@ == join_plus(event_labels_upto(e, i as int)),
            first == (event_labels_upto(e, i as int).len() == 0),
        decreases 9 - i,
    {
        let bit = event_bit_at(i);
        if e & bit != 0 {
            let ghost prev = event_labels_upto(e, i as int);
            let label = event_label_at(i);
            if !first {
                out.append("+");
            }
            out.append(label);
            proof {
                let next = prev.push(event_label(i as int));
                assert(next.drop_last() =~= prev);
                assert(event_labels_upto(e, i + 1) == next);
                if prev.len() == 0 {
                    assert(out@ =~= join_plus(next));
                } else {
                    assert(out@ =~= join_plus(next));
                }
            }
            first = false;
        }
        i += 1;
    }
    out
}

/// One step of the 32-bit xorshift generator (shifts 13, 17, 5).
pub open spec fn xorshift32(v: u32) -> u32 {
    let a = v ^ (v << 13u32);
    let b = a ^ (a >> 17u32);
    b ^ (b << 5u32)
}

/// The generator state after `k` steps from `seed` (a zero seed counts as 1).
pub open spec fn spark_state(seed: u32, k: nat) -> u32
    decreases k,
{
    if k == 0 {
        if seed == 0 {
            1
        } else {
            seed
        }
    } else {
        xorshift32(spark_state(seed, (k - 1) as nat))
    }
}

/// The arch under the sparkline: 64 at the middle column 48, falling by one
/// per column and never below zero.
pub open spec fn spark_arc(index: int) -> int {
    let d = if index >= 48 {
        index - 48
    } else {
        48 - index
    };
    if d >= 64 {
        0
    } else {
        64 - d
    }
}

/// The 96 bar heights of the checksum sparkline seeded by `seed`.
pub fn checksum_spark(seed: u32) -> (r: Vec<u64>)
    ensures
        r@.len() == 96,
        forall|i: int|
            0 <= i < 96 ==> #[trigger] r@[i] == 8 + spark_arc(i) + (spark_state(
                seed,
                (i + 1) as nat,
            ) & 7) as int,
{
    let mut value: u32 = if seed == 0 {
        1
    } else {
        seed
    };
    let mut out: Vec<u64> = Vec::new();
    let mut index: u64 = 0;
    while index < 96
        invariant
            index <= 96,
            out@.len() == index,
            value == spark_state(seed, index as nat),
            forall|i: int|
                0 <= i < index ==> #[trigger] out@[i] == 8 + spark_arc(i) + (spark_state(
                    seed,
                    (i + 1) as nat,
                ) & 7) as int,
        decreases 96 - index,
    {
        value = value ^ (value << 13);
        value = value ^ (value >> 17);
        value = value ^ (value << 5);
        assert(value == spark_state(seed, (index + 1) as nat));
        let distance: u64 = if index >= 48 {
            index - 48
        } else {
            48 - index
        };
        let arc: u64 = if distance >= 64 {
            0
        } else {
            64 - distance
        };
        assert((value & 7) <= 7) by (bit_vector);
        out.push(8 + arc + (value & 7) as u64);
        index += 1;
    }
    out
}

// ---------------------------------------------------------------------------
// Key handling of the live console

/// A key the console reacts to; `Function(n)` is the function key Fn.
#[derive(Clone, Copy, Debug, PartialEq, Eq, Structural)]
pub enum ConsoleKey {
    Function(u8),
    Tab,
    BackTab,
    Left,
    Right,
    Home,
    End,
    Esc,
    Char(char),
    Other,
}

/// What the console shows and how it is driven, as far as keys change it.
/// `cursor` is the replay position in a history of `history_len` updates;
/// `has_latest` says an update is on display; `has_control` says the run
/// can be paced from the console.
#[derive(Clone, Copy, Debug, PartialEq, Eq, Structural)]
pub struct ConsoleState {
    pub page: usize,
    pub units: UnitSystem,
    pub sound: SoundProfile,
    pub trajectory_view: TrajectoryView,
    pub show_plan: bool,
    pub show_onboard: bool,
    pub help_modal: bool,
    pub quit_modal: bool,
    pub replay: bool,
    pub playing: bool,
    pub freeze: bool,
    pub detached: bool,
    pub exit_after_finish: bool,
    pub finished: bool,
    pub live: bool,
    pub has_control: bool,
    pub has_latest: bool,
    pub cursor: usize,
    pub history_len: usize,
}

/// What the console must do after a key besides changing its state.
#[derive(Clone, Copy, Debug, PartialEq, Eq, Structural)]
pub enum ConsoleCommand {
    Nothing,
    Quit,
    CancelRun,
    ResumeRun,
    TogglePause,
    StepRun,
    FasterRun,
    SlowerRun,
    ApplySound,
    ShowHistoryAt(usize),
    ShowLatest,
    Bookmark,
    Export,
}

/// The console's state is sound: one of the seven pages, and a replay
/// cursor inside the history (or at 0 when it is empty).
pub open spec fn console_wf(s: ConsoleState) -> bool {
    &&& s.page <= 6
    &&& s.cursor == 0 || s.cursor < s.history_len
}

pub open spec fn pacing(s: ConsoleState, c: ConsoleCommand) -> ConsoleCommand {
    if s.has_control {
        c
    } else {
        ConsoleCommand::Nothing
    }
}

/// Keys while the help dialog is open: only Esc, `?` and `q` close it.
pub open spec fn help_step(s: ConsoleState, key: ConsoleKey) -> (ConsoleState, ConsoleCommand) {
    if key == ConsoleKey::Esc || key == ConsoleKey::Char('?') || key == ConsoleKey::Char('q') {
        (ConsoleState { help_modal: false, ..s }, ConsoleCommand::Nothing)
    } else {
        (s, ConsoleCommand::Nothing)
    }
}

/// Keys while the quit dialog is open: `s` stops the run and exits when it
/// is done, `d` detaches and lets the run go on, Esc and `q` close it.
pub open spec fn quit_step(s: ConsoleState, key: ConsoleKey) -> (ConsoleState, ConsoleCommand) {
    if key == ConsoleKey::Char('s') {
        (
            ConsoleState { exit_after_finish: true, quit_modal: false, ..s },
            pacing(s, ConsoleCommand::CancelRun),
        )
    } else if key == ConsoleKey::Char('d') {
        (
            ConsoleState { detached: true, quit_modal: false, ..s },
            pacing(s, ConsoleCommand::ResumeRun),
        )
    } else if key == ConsoleKey::Esc || key == ConsoleKey::Char('q') {
        (ConsoleState { quit_modal: false, ..s }, ConsoleCommand::Nothing)
    } else {
        (s, ConsoleCommand::Nothing)
    }
}

/// Left and right: step through the history in replay, else through the
/// pages.
pub open spec fn arrow_step(s: ConsoleState, right: bool) -> (ConsoleState, ConsoleCommand) {
    if s.replay {
        let last = if s.history_len == 0 {
            0
        } else {
            s.history_len - 1
        };
        let cursor = if right {
            if s.cursor < last {
                (s.cursor + 1) as usize
            } else {
                last as usize
            }
        } else if s.cursor == 0 {
            0
        } else {
            (s.cursor - 1) as usize
        };
        (ConsoleState { cursor, ..s }, ConsoleCommand::ShowHistoryAt(cursor))
    } else {
        let page = if right {
            if s.page < 6 {
                (s.page + 1) as usize
            } else {
                6
            }
        } else if s.page == 0 {
            0
        } else {
            (s.page - 1) as usize
        };
        (ConsoleState { page, ..s }, ConsoleCommand::Nothing)
    }
}

/// Keys other than characters with no dialog open.
pub open spec fn nav_step(s: ConsoleState, key: ConsoleKey) -> (ConsoleState, ConsoleCommand) {
    match key {
        ConsoleKey::Function(n) => if 1 <= n <= 7 {
            (ConsoleState { page: (n - 1) as usize, ..s }, ConsoleCommand::Nothing)
        } else {
            (s, ConsoleCommand::Nothing)
        },
        ConsoleKey::Tab => if s.page == 1 {
            (
                ConsoleState { trajectory_view: s.trajectory_view.successor(), ..s },
                ConsoleCommand::Nothing,
            )
        } else {
            (s, ConsoleCommand::Nothing)
        },
        ConsoleKey::BackTab => if s.page == 1 {
            (
                ConsoleState { trajectory_view: s.trajectory_view.predecessor(), ..s },
                ConsoleCommand::Nothing,
            )
        } else {
            (s, ConsoleCommand::Nothing)
        },
        ConsoleKey::Left => arrow_step(s, false),
        ConsoleKey::Right => arrow_step(s, true),
        ConsoleKey::Home => (
            ConsoleState { cursor: 0, ..s },
            if s.replay {
                ConsoleCommand::ShowHistoryAt(0)
            } else {
                ConsoleCommand::Nothing
            },
        ),
        ConsoleKey::End => if s.replay {
            (
                ConsoleState {
                    cursor: if s.history_len == 0 {
                        0
                    } else {
                        (s.history_len - 1) as usize
                    },
                    ..s
                },
                ConsoleCommand::ShowLatest,
            )
        } else {
            (s, ConsoleCommand::Nothing)
        },
        _ => (s, ConsoleCommand::Nothing),
    }
}

/// The console's answer to a key: its next state and what it must do.
pub open spec fn console_step(s: ConsoleState, key: ConsoleKey) -> (ConsoleState, ConsoleCommand) {
    if s.help_modal {
        help_step(s, key)
    } else if s.quit_modal {
        quit_step(s, key)
    } else {
        match key {
            ConsoleKey::Char(c) => char_step(s, c),
            _ => nav_step(s, key),
        }
    }
}

/// Character keys on the trajectory page: pick a view, show or hide the
/// plan and the onboard track.
pub open spec fn is_trajectory_char(c: char) -> bool {
    c == '1' || c == '2' || c == '3' || c == 'p' || c == 'P' || c == 'o' || c == 'O'
}

pub open spec fn trajectory_char_step(s: ConsoleState, c: char) -> (ConsoleState, ConsoleCommand) {
    if c == '1' {
        (ConsoleState { trajectory_view: TrajectoryView::Ascent, ..s }, ConsoleCommand::Nothing)
    } else if c == '2' {
        (ConsoleState { trajectory_view: TrajectoryView::Orbit, ..s }, ConsoleCommand::Nothing)
    } else if c == '3' {
        (
            ConsoleState { trajectory_view: TrajectoryView::GroundTrack, ..s },
            ConsoleCommand::Nothing,
        )
    } else if c == 'p' || c == 'P' {
        (ConsoleState { show_plan: !s.show_plan, ..s }, ConsoleCommand::Nothing)
    } else {
        (ConsoleState { show_onboard: !s.show_onboard, ..s }, ConsoleCommand::Nothing)
    }
}

/// Character keys that pace the run or change a setting.
pub open spec fn control_char_step(s: ConsoleState, c: char) -> (ConsoleState, ConsoleCommand) {
    if c == '?' {
        (ConsoleState { help_modal: true, ..s }, ConsoleCommand::Nothing)
    } else if c == ' ' {
        if s.replay {
            (ConsoleState { playing: !s.playing, ..s }, ConsoleCommand::Nothing)
        } else {
            (s, pacing(s, ConsoleCommand::TogglePause))
        }
    } else if c == '.' {
        (s, pacing(s, ConsoleCommand::StepRun))
    } else if c == ']' {
        (s, pacing(s, ConsoleCommand::FasterRun))
    } else if c == '[' {
        (s, pacing(s, ConsoleCommand::SlowerRun))
    } else if c == 'u' || c == 'U' {
        (ConsoleState { units: s.units.successor(), ..s }, ConsoleCommand::Nothing)
    } else if c == 's' {
        (ConsoleState { sound: s.sound.successor(), ..s }, ConsoleCommand::ApplySound)
    } else {
        (s, ConsoleCommand::Nothing)
    }
}

/// Character keys that act on what is shown or end the session.
pub open spec fn session_char_step(s: ConsoleState, c: char) -> (ConsoleState, ConsoleCommand) {
    if c == 'f' || c == 'F' {
        (
            ConsoleState { freeze: !s.freeze, ..s },
            if s.freeze {
                ConsoleCommand::ShowLatest
            } else {
                ConsoleCommand::Nothing
            },
        )
    } else if c == 'b' || c == 'B' {
        (
            s,
            if s.has_latest {
                ConsoleCommand::Bookmark
            } else {
                ConsoleCommand::Nothing
            },
        )
    } else if c == 'e' || c == 'E' {
        (s, ConsoleCommand::Export)
    } else if c == 'q' {
        if s.finished || !s.live {
            (s, ConsoleCommand::Quit)
        } else {
            (ConsoleState { quit_modal: true, ..s }, ConsoleCommand::Nothing)
        }
    } else {
        (s, ConsoleCommand::Nothing)
    }
}

pub open spec fn is_control_char(c: char) -> bool {
    c == '?' || c == ' ' || c == '.' || c == ']' || c == '[' || c == 'u' || c == 'U' || c == 's'
}

/// The answer to a character key with no dialog open.
pub open spec fn char_step(s: ConsoleState, c: char) -> (ConsoleState, ConsoleCommand) {
    if is_trajectory_char(c) && s.page == 1 {
        trajectory_char_step(s, c)
    } else if is_control_char(c) {
        control_char_step(s, c)
    } else {
        session_char_step(s, c)
    }
}

fn pace_command(s: &ConsoleState, c: ConsoleCommand) -> (r: ConsoleCommand)
    ensures
        r == pacing(*s, c),
{
    if s.has_control {
        c
    } else {
        ConsoleCommand::Nothing
    }
}

fn help_response(s: ConsoleState, key: ConsoleKey) -> (r: (ConsoleState, ConsoleCommand))
    ensures
        r == help_step(s, key),
{
    if key == ConsoleKey::Esc || key == ConsoleKey::Char('?') || key == ConsoleKey::Char('q') {
        (ConsoleState { help_modal: false, ..s }, ConsoleCommand::Nothing)
    } else {
        (s, ConsoleCommand::Nothing)
    }
}

fn quit_response(s: ConsoleState, key: ConsoleKey) -> (r: (ConsoleState, ConsoleCommand))
    ensures
        r == quit_step(s, key),
{
    if key == ConsoleKey::Char('s') {
        (
            ConsoleState { exit_after_finish: true, quit_modal: false, ..s },
            pace_command(&s, ConsoleCommand::CancelRun),
        )
    } else if key == ConsoleKey::Char('d') {
        (
            ConsoleState { detached: true, quit_modal: false, ..s },
            pace_command(&s, ConsoleCommand::ResumeRun),
        )
    } else if key == ConsoleKey::Esc || key == ConsoleKey::Char('q') {
        (ConsoleState { quit_modal: false, ..s }, ConsoleCommand::Nothing)
    } else {
        (s, ConsoleCommand::Nothing)
    }
}

fn arrow_response(s: ConsoleState, right: bool) -> (r: (ConsoleState, ConsoleCommand))
    ensures
        r == arrow_step(s, right),
{
    if s.replay {
        let last = if s.history_len == 0 {
            0
        } else {
            s.history_len - 1
        };
        let cursor = if right {
            if s.cursor < last {
                s.cursor + 1
            } else {
                last
            }
        } else if s.cursor == 0 {
            0
        } else {
            s.cursor - 1
        };
        (ConsoleState { cursor, ..s }, ConsoleCommand::ShowHistoryAt(cursor))
    } else {
        let page = if right {
            if s.page < 6 {
                s.page + 1
            } else {
                6
            }
        } else if s.page == 0 {
            0
        } else {
            s.page - 1
        };
        (ConsoleState { page, ..s }, ConsoleCommand::Nothing)
    }
}

fn nav_response(s: ConsoleState, key: ConsoleKey) -> (r: (ConsoleState, ConsoleCommand))
    ensures
        r == nav_step(s, key),
{
    match key {
        ConsoleKey::Function(n) => {
            if 1 <= n && n <= 7 {
                (ConsoleState { page: (n - 1) as usize, ..s }, ConsoleCommand::Nothing)
            } else {
                (s, ConsoleCommand::Nothing)
            }
        },
        ConsoleKey::Tab => {
            if s.page == 1 {
                (
                    ConsoleState { trajectory_view: s.trajectory_view.next(), ..s },
                    ConsoleCommand::Nothing,
                )
            } else {
                (s, ConsoleCommand::Nothing)
            }
        },
        ConsoleKey::BackTab => {
            if s.page == 1 {
                (
                    ConsoleState { trajectory_view: s.trajectory_view.previous(), ..s },
                    ConsoleCommand::Nothing,
                )
            } else {
                (s, ConsoleCommand::Nothing)
            }
        },
        ConsoleKey::Left => arrow_response(s, false),
        ConsoleKey::Right => arrow_response(s, true),
        ConsoleKey::Home => {
            let c = if s.replay {
                ConsoleCommand::ShowHistoryAt(0)
            } else {
                ConsoleCommand::Nothing
            };
            (ConsoleState { cursor: 0, ..s }, c)
        },
        ConsoleKey::End => {
            if s.replay {
                let cursor = if s.history_len == 0 {
                    0
                } else {
                    s.history_len - 1
                };
                (ConsoleState { cursor, ..s }, ConsoleCommand::ShowLatest)
            } else {
                (s, ConsoleCommand::Nothing)
            }
        },
        _ => (s, ConsoleCommand::Nothing),
    }
}

fn trajectory_char_response(s: ConsoleState, c: char) -> (r: (ConsoleState, ConsoleCommand))
    ensures
        r == trajectory_char_step(s, c),
{
    if c == '1' {
        (ConsoleState { trajectory_view: TrajectoryView::Ascent, ..s }, ConsoleCommand::Nothing)
    } else if c == '2' {
        (ConsoleState { trajectory_view: TrajectoryView::Orbit, ..s }, ConsoleCommand::Nothing)
    } else if c == '3' {
        (
            ConsoleState { trajectory_view: TrajectoryView::GroundTrack, ..s },
            ConsoleCommand::Nothing,
        )
    } else if c == 'p' || c == 'P' {
        (ConsoleState { show_plan: !s.show_plan, ..s }, ConsoleCommand::Nothing)
    } else {
        (ConsoleState { show_onboard: !s.show_onboard, ..s }, ConsoleCommand::Nothing)
    }
}

fn control_char_response(s: ConsoleState, c: char) -> (r: (ConsoleState, ConsoleCommand))
    ensures
        r == control_char_step(s, c),
{
    if c == '?' {
        (ConsoleState { help_modal: true, ..s }, ConsoleCommand::Nothing)
    } else if c == ' ' {
        if s.replay {
            (ConsoleState { playing: !s.playing, ..s }, ConsoleCommand::Nothing)
        } else {
            (s, pace_command(&s, ConsoleCommand::TogglePause))
        }
    } else if c == '.' {
        (s, pace_command(&s, ConsoleCommand::StepRun))
    } else if c == ']' {
        (s, pace_command(&s, ConsoleCommand::FasterRun))
    } else if c == '[' {
        (s, pace_command(&s, ConsoleCommand::SlowerRun))
    } else if c == 'u' || c == 'U' {
        (ConsoleState { units: s.units.next(), ..s }, ConsoleCommand::Nothing)
    } else if c == 's' {
        (ConsoleState { sound: s.sound.next(), ..s }, ConsoleCommand::ApplySound)
    } else {
        (s, ConsoleCommand::Nothing)
    }
}

fn session_char_response(s: ConsoleState, c: char) -> (r: (ConsoleState, ConsoleCommand))
    ensures
        r == session_char_step(s, c),
{
    if c == 'f' || c == 'F' {
        let shown = if s.freeze {
            ConsoleCommand::ShowLatest
        } else {
            ConsoleCommand::Nothing
        };
        (ConsoleState { freeze: !s.freeze, ..s }, shown)
    } else if c == 'b' || c == 'B' {
        if s.has_latest {
            (s, ConsoleCommand::Bookmark)
        } else {
            (s, ConsoleCommand::Nothing)
        }
    } else if c == 'e' || c == 'E' {
        (s, ConsoleCommand::Export)
    } else if c == 'q' {
        if s.finished || !s.live {
            (s, ConsoleCommand::Quit)
        } else {
            (ConsoleState { quit_modal: true, ..s }, ConsoleCommand::Nothing)
        }
    } else {
        (s, ConsoleCommand::Nothing)
    }
}

impl ConsoleState {
    /// Handles a key: changes the console's state and says what else must be
    /// done (pace the run, show an update, bookmark, export, quit).
    pub fn key(&mut self, key: ConsoleKey) -> (r: ConsoleCommand)
        ensures
            (*final(self), r) == console_step(*old(self), key),
    {
        let s = *self;
        let (next, command) = if s.help_modal {
            help_response(s, key)
        } else if s.quit_modal {
            quit_response(s, key)
        } else {
            match key {
                ConsoleKey::Char(c) => {
                    let trajectory = c == '1' || c == '2' || c == '3' || c == 'p' || c == 'P' || c
                        == 'o' || c == 'O';
                    let control = c == '?' || c == ' ' || c == '.' || c == ']' || c == '[' || c
                        == 'u' || c == 'U' || c == 's';
                    if trajectory && s.page == 1 {
                        trajectory_char_response(s, c)
                    } else if control {
                        control_char_response(s, c)
                    } else {
                        session_char_response(s, c)
                    }
                },
                _ => nav_response(s, key),
            }
        };
        *self = next;
        command
    }
}

/// The console after it received an update carrying `event_bits`: the
/// history grows by one; unless frozen, the update becomes the latest and
/// the replay cursor moves onto it.
pub open spec fn accepted(s: ConsoleState) -> ConsoleState {
    let history_len = (s.history_len + 1) as usize;
    if s.freeze {
        ConsoleState { history_len, ..s }
    } else {
        ConsoleState { history_len, has_latest: true, cursor: s.history_len, ..s }
    }
}

impl ConsoleState {
    /// Takes in a received update whose aid packet reports `event_bits`
    /// (0 without one); says whether the update's events are to be
    /// announced and logged.
    pub fn accept(&mut self, event_bits: u16) -> (announce: bool)
        requires
            old(self).history_len < usize::MAX,
        ensures
            *final(self) == accepted(*old(self)),
            announce == (event_bits != 0),
    {
        self.history_len = self.history_len + 1;
        if !self.freeze {
            self.has_latest = true;
            self.cursor = self.history_len - 1;
        }
        event_bits != 0
    }

    /// Marks the run as finished.
    pub fn finish(&mut self)
        ensures
            *final(self) == (ConsoleState { finished: true, ..*old(self) }),
    {
        self.finished = true;
    }
}

/// Receiving an update keeps the console sound.
pub proof fn law_accept_keeps_console_wf(s: ConsoleState)
    requires
        console_wf(s),
        s.history_len < usize::MAX,
    ensures
        console_wf(accepted(s)),
{
}

/// How many lines the console's event log keeps.
pub const EVENT_LOG_LINES: usize = 32;

/// Puts a line at the top of the event log, dropping the oldest lines
/// beyond the log's length.
pub fn log_event(log: &mut Vec<String>, line: String)
    ensures
        final(log)@ == (seq![line] + old(log)@).take(
            if old(log)@.len() + 1 > EVENT_LOG_LINES {
                EVENT_LOG_LINES as int
            } else {
                old(log)@.len() + 1int
            },
        ),
{
    log.insert(0, line);
    if log.len() > EVENT_LOG_LINES {
        log.truncate(EVENT_LOG_LINES);
    }
    assert(final(log)@ =~= (seq![line] + old(log)@).take(
        if old(log)@.len() + 1 > EVENT_LOG_LINES {
            EVENT_LOG_LINES as int
        } else {
            old(log)@.len() + 1int
        },
    ));
}

// ---------------------------------------------------------------------------
// Progress read from the received updates

/// The separation event bit.
pub const EVENT_SEPARATION: u16 = 4;

/// What the console reads of one received update: its epoch and the event
/// bits of its aid packet, if it carried one.
#[derive(Clone, Copy, Debug, PartialEq, Eq, Structural)]
pub struct UpdateMark {
    pub epoch: u32,
    pub aid_events: Option<u16>,
}

/// The length of the longest run of updates from the start whose epochs
/// are all at most `epoch`: for a history in epoch order, the updates
/// shown at that epoch.
pub open spec fn shown_count(marks: Seq<UpdateMark>, epoch: u32) -> int
    decreases marks.len(),
{
    if marks.len() == 0 || marks[0].epoch > epoch {
        0
    } else {
        1 + shown_count(marks.drop_first(), epoch)
    }
}

/// The updates shown when the console displays `epoch`.
pub fn shown_prefix_len(marks: &[UpdateMark], epoch: u32) -> (r: usize)
    ensures
        r == shown_count(marks@, epoch),
{
    let mut i: usize = 0;
    assert(marks@.skip(0) =~= marks@);
    while i < marks.len() && marks[i].epoch <= epoch
        invariant
            i <= marks@.len(),
            forall|j: int| 0 <= j < i ==> marks@[j].epoch <= epoch,
            shown_count(marks@, epoch) == i + shown_count(marks@.skip(i as int), epoch),
        decreases marks@.len() - i,
    {
        assert(marks@.skip(i as int).drop_first() =~= marks@.skip(i + 1));
        i += 1;
    }
    if i < marks.len() {
        assert(marks@.skip(i as int)[0] == marks@[i as int]);
    }
    i
}

/// Every event bit reported by the aid packets of `marks`.
pub open spec fn events_seen(marks: Seq<UpdateMark>) -> u16
    decreases marks.len(),
{
    if marks.len() == 0 {
        0
    } else {
        events_seen(marks.drop_last()) | match marks.last().aid_events {
            Some(e) => e,
            None => 0,
        }
    }
}

/// The events reported so far by the shown updates.
pub fn observed_events(marks: &[UpdateMark]) -> (r: u16)
    ensures
        r == events_seen(marks@),
{
    let mut bits: u16 = 0;
    let mut i: usize = 0;
    while i < marks.len()
        invariant
            i <= marks@.len(),
            bits == events_seen(marks@.take(i as int)),
        decreases marks@.len() - i,
    {
        assert(marks@.take(i + 1).drop_last() =~= marks@.take(i as int));
        if let Some(e) = marks[i].aid_events {
            bits = bits | e;
        } else {
            bits = bits | 0;
        }
        i += 1;
    }
    assert(marks@.take(marks@.len() as int) =~= marks@);
    bits
}

/// The stage in flight: the second once separation has been reported.
pub fn stage_number(marks: &[UpdateMark]) -> (r: u8)
    ensures
        r == (if events_seen(marks@) & EVENT_SEPARATION != 0 {
            2u8
        } else {
            1u8
        }),
{
    if observed_events(marks) & EVENT_SEPARATION != 0 {
        2
    } else {
        1
    }
}

/// The epoch of the first update whose aid packet reports separation, if
/// any.
pub open spec fn separation_epoch(marks: Seq<UpdateMark>) -> Option<u32>
    decreases marks.len(),
{
    if marks.len() == 0 {
        None
    } else if marks[0].aid_events matches Some(e) && e & EVENT_SEPARATION != 0 {
        Some(marks[0].epoch)
    } else {
        separation_epoch(marks.drop_first())
    }
}

fn find_separation(marks: &[UpdateMark]) -> (r: Option<u32>)
    ensures
        r == separation_epoch(marks@),
{
    let mut i: usize = 0;
    assert(marks@.skip(0) =~= marks@);
    while i < marks.len()
        invariant
            i <= marks@.len(),
            separation_epoch(marks@) == separation_epoch(marks@.skip(i as int)),
        decreases marks@.len() - i,
    {
        assert(marks@.skip(i as int)[0] == marks@[i as int]);
        assert(marks@.skip(i as int).drop_first() =~= marks@.skip(i + 1));
        if let Some(e) = marks[i].aid_events {
            if e & EVENT_SEPARATION != 0 {
                return Some(marks[i].epoch);
            }
        }
        i += 1;
    }
    None
}

/// The step within the current stage at the displayed epoch (four epochs a
/// step): counted from the start in the first stage, from separation in the
/// second.
pub fn stage_local_step(marks: &[UpdateMark], display_epoch: u32) -> (r: u32)
    ensures
        r == (if events_seen(marks@) & EVENT_SEPARATION == 0 {
            display_epoch / 4u32
        } else {
            let separation = match separation_epoch(marks@) {
                Some(e) => e,
                None => 0,
            };
            ((if display_epoch >= separation {
                display_epoch - separation
            } else {
                0int
            }) / 4) as u32
        }),
{
    if stage_number(marks) == 1 {
        return display_epoch / 4;
    }
    let separation = match find_separation(marks) {
        Some(e) => e,
        None => 0,
    };
    display_epoch.saturating_sub(separation) / 4
}

// ---------------------------------------------------------------------------
// Layout density

/// How much the console fits on screen.
#[derive(Clone, Copy, Debug, PartialEq, Eq, Structural)]
pub enum DensityTier {
    Compact,
    Standard,
    Wide,
    Ultra,
}

/// The density for a terminal area of `width` columns by `height` rows.
pub fn density_tier(width: u16, height: u16) -> (r: DensityTier)
    ensures
        r == (if width >= 180 && height >= 50 {
            DensityTier::Ultra
        } else if width >= 140 && height >= 42 {
            DensityTier::Wide
        } else if width >= 100 && height >= 30 {
            DensityTier::Standard
        } else {
            DensityTier::Compact
        }),
{
    if width >= 180 && height >= 50 {
        DensityTier::Ultra
    } else if width >= 140 && height >= 42 {
        DensityTier::Wide
    } else if width >= 100 && height >= 30 {
        DensityTier::Standard
    } else {
        DensityTier::Compact
    }
}

/// Keys keep the console sound: the page stays one of the seven and the
/// replay cursor stays inside the history.
#[verifier::spinoff_prover]
#[verifier::rlimit(50)]
pub proof fn law_key_keeps_console_wf(s: ConsoleState, key: ConsoleKey)
    requires
        console_wf(s),
    ensures
        console_wf(console_step(s, key).0),
{
    if !s.help_modal && !s.quit_modal {
        match key {
            ConsoleKey::Char(c) => {
                if is_trajectory_char(c) && s.page == 1 {
                    assert(console_wf(trajectory_char_step(s, c).0));
                } else if is_control_char(c) {
                    assert(console_wf(control_char_step(s, c).0));
                } else {
                    assert(console_wf(session_char_step(s, c).0));
                }
            },
            ConsoleKey::Left => {
                assert(console_wf(arrow_step(s, false).0));
            },
            ConsoleKey::Right => {
                assert(console_wf(arrow_step(s, true).0));
            },
            _ => {
                assert(console_wf(nav_step(s, key).0));
            },
        }
    }
}

/// In replay with no dialog open, Left moves the cursor back by exactly one
/// entry (staying at the first) and shows that entry; nothing else changes.
pub proof fn law_left_steps_back_in_replay(s: ConsoleState)
    requires
        s.replay,
        !s.help_modal,
        !s.quit_modal,
    ensures
        ({
            let (t, c) = console_step(s, ConsoleKey::Left);
            let back: usize = if s.cursor > 0 {
                (s.cursor - 1) as usize
            } else {
                0
            };
            &&& t == ConsoleState { cursor: back, ..s }
            &&& c == ConsoleCommand::ShowHistoryAt(back)
        }),
{
}

/// In replay with no dialog open, Right moves the cursor forward by exactly
/// one entry while it is before the last, stays on the last, and shows the
/// entry; nothing else changes.
pub proof fn law_right_steps_forward_in_replay(s: ConsoleState)
    requires
        s.replay,
        !s.help_modal,
        !s.quit_modal,
        s.cursor < s.history_len,
    ensures
        ({
            let (t, c) = console_step(s, ConsoleKey::Right);
            let next: usize = if s.cursor + 1 < s.history_len {
                (s.cursor + 1) as usize
            } else {
                s.cursor
            };
            &&& t == ConsoleState { cursor: next, ..s }
            &&& c == ConsoleCommand::ShowHistoryAt(next)
        }),
{
}

/// In replay, Left then Right comes back to an entry after the first, and
/// Right then Left comes back to an entry before the last.
pub proof fn law_left_right_undo_each_other(s: ConsoleState)
    requires
        s.replay,
        !s.help_modal,
        !s.quit_modal,
        s.cursor < s.history_len,
    ensures
        s.cursor > 0 ==> console_step(console_step(s, ConsoleKey::Left).0, ConsoleKey::Right).0 == s,
        s.cursor + 1 < s.history_len ==> console_step(
            console_step(s, ConsoleKey::Right).0,
            ConsoleKey::Left,
        ).0 == s,
{
    law_left_steps_back_in_replay(s);
    law_right_steps_forward_in_replay(s);
    let l = console_step(s, ConsoleKey::Left).0;
    let r = console_step(s, ConsoleKey::Right).0;
    if s.cursor > 0 {
        law_right_steps_forward_in_replay(l);
    }
    if s.cursor + 1 < s.history_len {
        law_left_steps_back_in_replay(r);
    }
}

/// Outside replay, with no dialog open, Left and Right turn one page back
/// or forward among the seven pages, stopping at the first and last.
pub proof fn law_arrows_turn_pages(s: ConsoleState)
    requires
        !s.replay,
        !s.help_modal,
        !s.quit_modal,
    ensures
        console_step(s, ConsoleKey::Left) == (ConsoleState {
            page: if s.page > 0 {
                (s.page - 1) as usize
            } else {
                0
            },
            ..s
        }, ConsoleCommand::Nothing),
        console_step(s, ConsoleKey::Right) == (ConsoleState {
            page: if s.page < 6 {
                (s.page + 1) as usize
            } else {
                6
            },
            ..s
        }, ConsoleCommand::Nothing),
{
}

/// While the help dialog is open, keys do nothing but close it.
pub proof fn law_help_dialog_swallows_keys(s: ConsoleState, key: ConsoleKey)
    requires
        s.help_modal,
    ensures
        console_step(s, key).1 == ConsoleCommand::Nothing,
        console_step(s, key).0 == s || console_step(s, key).0 == (ConsoleState {
            help_modal: false,
            ..s
        }),
{
}

/// Without a way to pace the run, no key asks for pacing.
pub proof fn law_no_pacing_without_control(s: ConsoleState, key: ConsoleKey)
    requires
        !s.has_control,
    ensures
        ({
            let c = console_step(s, key).1;
            c != ConsoleCommand::CancelRun && c != ConsoleCommand::ResumeRun && c
                != ConsoleCommand::TogglePause && c != ConsoleCommand::StepRun && c
                != ConsoleCommand::FasterRun && c != ConsoleCommand::SlowerRun
        }),
{
}

/// The page of the operations console after a key: left and right wrap
/// around the seven pages, F1 to F7 jump to a page.
pub open spec fn operations_page_after(page: int, key: ConsoleKey) -> int {
    match key {
        ConsoleKey::Left => (page + 7 - 1) % 7,
        ConsoleKey::Right => (page + 1) % 7,
        ConsoleKey::Function(n) => if 1 <= n <= 7 {
            n - 1
        } else {
            page
        },
        _ => page,
    }
}

/// Moves the operations console between its seven pages.
pub fn update_operations_page(page: usize, key: ConsoleKey) -> (r: usize)
    requires
        page <= usize::MAX - 7,
    ensures
        r == operations_page_after(page as int, key),
{
    match key {
        ConsoleKey::Left => (page + 7 - 1) % 7,
        ConsoleKey::Right => (page + 1) % 7,
        ConsoleKey::Function(n) => {
            if 1 <= n && n <= 7 {
                (n - 1) as usize
            } else {
                page
            }
        },
        _ => page,
    }
}

// ---------------------------------------------------------------------------
// The local-frame console and the operations console

/// How fast the local-frame console runs a mission.
#[derive(Clone, Copy, Debug, PartialEq, Eq, Structural)]
pub enum ConsolePace {
    Fast,
    Realtime,
}

/// Settings of the local-frame console.
#[derive(Clone, Debug)]
pub struct LocalConsoleConfig {
    pub gimbal: bool,
    pub pace: ConsolePace,
    pub title: String,
}

impl Default for LocalConsoleConfig {
    fn default() -> (r: LocalConsoleConfig)
        ensures
            !r.gimbal,
            r.pace == ConsolePace::Realtime,
            r.title@ == "KSA64 // LOCAL-ENU MISSION CONTROL"@,
    {
        LocalConsoleConfig {
            gimbal: false,
            pace: ConsolePace::Realtime,
            title: String::from_str("KSA64 // LOCAL-ENU MISSION CONTROL"),
        }
    }
}

/// Why the local-frame console stopped.
#[derive(Debug)]
pub enum LocalConsoleError {
    Io(std::io::Error),
    Worker,
    Mission,
}

/// Where the parts of a local-frame mission run.
#[derive(Clone, Copy, Debug, PartialEq, Eq, Structural)]
pub enum LocalPlacement {
    HostHost,
    HostExternalFlight,
    CombinedC64,
}

/// Why the operations console stopped.
#[derive(Debug)]
pub enum OperationsConsoleError {
    Io(std::io::Error),
    Session,
}

/// What only the simulation director sees: the identities of the truth
/// evidence and of the injected fault, the counterfactual outcomes by name,
/// and the model envelope.
#[derive(Clone, Debug)]
pub struct SimDirectorPrivateModel {
    pub truth_evidence_identity: u32,
    pub fault_identity: u32,
    pub counterfactuals: Vec<(String, u32)>,
    pub model_envelope: String,
}

// ---------------------------------------------------------------------------
// Sound cues

/// The tone a mission event is announced with.
#[derive(Clone, Copy, Debug, PartialEq, Eq, Structural)]
pub enum CueTone {
    Separation,
    Cutoff,
    Event,
}

/// The cue for a set of event bits: none with sound off or no events;
/// separation (bit 2) takes precedence over cutoff (bit 1), and any other
/// event gets the plain tone.
pub fn cue_tone(profile: SoundProfile, events: u16) -> (r: Option<CueTone>)
    ensures
        r == (if profile == SoundProfile::Off || events == 0 {
            None
        } else if events & 4 != 0 {
            Some(CueTone::Separation)
        } else if events & 2 != 0 {
            Some(CueTone::Cutoff)
        } else {
            Some(CueTone::Event)
        }),
{
    if profile == SoundProfile::Off || events == 0 {
        None
    } else if events & 4 != 0 {
        Some(CueTone::Separation)
    } else if events & 2 != 0 {
        Some(CueTone::Cutoff)
    } else {
        Some(CueTone::Event)
    }
}

/// How long a cue's tone sounds, in milliseconds; the cinematic profile adds
/// an echo an octave lower that lasts twice as long.
pub fn cue_duration_millis(tone: CueTone) -> (r: u64)
    ensures
        r == (match tone {
            CueTone::Separation => 180u64,
            CueTone::Cutoff => 260u64,
            CueTone::Event => 120u64,
        }),
{
    match tone {
        CueTone::Separation => 180,
        CueTone::Cutoff => 260,
        CueTone::Event => 120,
    }
}

} // verus!
