//! The exact-paced link between the host world and an external flight
//! endpoint: the frame headers each side sends in a release, the checks
//! each side makes of the frames it receives, and the evidence the host
//! keeps of the exchange; and the per-epoch rules of the real-time bridge.
//!
//! Each release of epoch `e` numbers its frames from `2e`: the aid sensor
//! frame is `2e`, the fast sensor frame and the command answering it are
//! `2e + 1`, and the flight status is `2e + 2`.
use crate::fnv::{fnv_fold, rolling_hash, FNV_OFFSET};
use vstd::prelude::*;

verus! {

/// The kinds of link record the exchange uses.
#[derive(Clone, Copy, Debug, PartialEq, Eq, Structural)]
pub enum LinkRecordKind {
    Capabilities,
    Start,
    CanonicalSensor,
    CanonicalCommand,
    CanonicalTelemetry,
    Stop,
}

/// The header of a link frame: its record kind, sequence number, and the
/// measurement, production and effective epochs of its payload.
#[derive(Clone, Copy, Debug, PartialEq, Eq, Structural)]
pub struct LinkFrameHeader {
    pub record: LinkRecordKind,
    pub sequence: u32,
    pub measurement: u32,
    pub production: u32,
    pub effective: u32,
}

/// The host accepts a capabilities frame only as the flight endpoint's
/// first frame, numbered 0.
pub fn capabilities_frame_ok(h: LinkFrameHeader) -> (r: bool)
    ensures
        r == (h.record == LinkRecordKind::Capabilities && h.sequence == 0),
{
    h.record == LinkRecordKind::Capabilities && h.sequence == 0
}

/// The frame that starts the exchange.
pub fn start_header() -> (r: LinkFrameHeader)
    ensures
        r == (LinkFrameHeader {
            record: LinkRecordKind::Start,
            sequence: 0,
            measurement: 0,
            production: 0,
            effective: 0,
        }),
{
    LinkFrameHeader {
        record: LinkRecordKind::Start,
        sequence: 0,
        measurement: 0,
        production: 0,
        effective: 0,
    }
}

/// The frame that stops the exchange; `none` is the link's "no epoch" value.
pub fn stop_header(none: u32) -> (r: LinkFrameHeader)
    ensures
        r == (LinkFrameHeader {
            record: LinkRecordKind::Stop,
            sequence: (u32::MAX - 1) as u32,
            measurement: none,
            production: none,
            effective: none,
        }),
{
    LinkFrameHeader {
        record: LinkRecordKind::Stop,
        sequence: u32::MAX - 1,
        measurement: none,
        production: none,
        effective: none,
    }
}

/// The sensor frame the host sends in release `epoch`: the aid frame is
/// numbered `2 * epoch`, the fast sensor frame one more.
pub open spec fn sensor_header_of(epoch: u16, aid: bool, none: u32) -> LinkFrameHeader {
    LinkFrameHeader {
        record: LinkRecordKind::CanonicalSensor,
        sequence: (2 * epoch + if aid {
            0int
        } else {
            1int
        }) as u32,
        measurement: epoch as u32,
        production: epoch as u32,
        effective: none,
    }
}

/// Heads a sensor frame of release `epoch`.
pub fn sensor_header(epoch: u16, aid: bool, none: u32) -> (r: LinkFrameHeader)
    ensures
        r == sensor_header_of(epoch, aid, none),
{
    let e = epoch as u32;
    LinkFrameHeader {
        record: LinkRecordKind::CanonicalSensor,
        sequence: if aid {
            2 * e
        } else {
            2 * e + 1
        },
        measurement: e,
        production: e,
        effective: none,
    }
}

/// The host accepts the command of release `epoch` only under the fast
/// sensor frame's number, measured and produced in that epoch and effective
/// in the next.
pub open spec fn command_frame_accepted(h: LinkFrameHeader, epoch: u16) -> bool {
    &&& h.record == LinkRecordKind::CanonicalCommand
    &&& h.sequence == 2 * epoch + 1
    &&& h.measurement == epoch
    &&& h.production == epoch
    &&& h.effective == epoch + 1
}

/// Checks the header of the command answering release `epoch`.
pub fn command_frame_ok(h: LinkFrameHeader, epoch: u16) -> (r: bool)
    ensures
        r == command_frame_accepted(h, epoch),
{
    let e = epoch as u32;
    h.record == LinkRecordKind::CanonicalCommand && h.sequence == 2 * e + 1 && h.measurement == e
        && h.production == e && h.effective == e + 1
}

/// The host accepts the status of release `epoch` only as the release's
/// last frame, measured and produced in that epoch and effective at no
/// epoch.
pub open spec fn status_frame_accepted(h: LinkFrameHeader, epoch: u16, none: u32) -> bool {
    &&& h.record == LinkRecordKind::CanonicalTelemetry
    &&& h.sequence == 2 * epoch + 2
    &&& h.measurement == epoch
    &&& h.production == epoch
    &&& h.effective == none
}

/// Checks the header of the status closing release `epoch`.
pub fn status_frame_ok(h: LinkFrameHeader, epoch: u16, none: u32) -> (r: bool)
    ensures
        r == status_frame_accepted(h, epoch, none),
{
    let e = epoch as u32;
    h.record == LinkRecordKind::CanonicalTelemetry && h.sequence == 2 * e + 2 && h.measurement
        == e && h.production == e && h.effective == none
}

// ---------------------------------------------------------------------------
// The flight endpoint

/// What the flight endpoint does with a frame it receives.
#[derive(Clone, Copy, Debug, PartialEq, Eq, Structural)]
pub enum FlightFrameAction {
    /// Keep the aid cell for the next tick.
    StoreAid,
    /// Run the flight computer on the inertial cell and answer.
    Tick,
    /// The host stopped the exchange.
    Finish,
    /// Anything else breaks the protocol.
    Refuse,
}

/// The flight endpoint's action for a frame of kind `record` whose payload
/// is `payload_length` bytes: sensor frames are told apart by length.
pub open spec fn flight_action_of(
    record: LinkRecordKind,
    payload_length: int,
    aid_length: int,
    inertial_length: int,
) -> FlightFrameAction {
    if record == LinkRecordKind::CanonicalSensor && payload_length == aid_length {
        FlightFrameAction::StoreAid
    } else if record == LinkRecordKind::CanonicalSensor && payload_length == inertial_length {
        FlightFrameAction::Tick
    } else if record == LinkRecordKind::Stop {
        FlightFrameAction::Finish
    } else {
        FlightFrameAction::Refuse
    }
}

/// Decides what the flight endpoint does with a received frame.
pub fn flight_frame_action(
    record: LinkRecordKind,
    payload_length: usize,
    aid_length: usize,
    inertial_length: usize,
) -> (r: FlightFrameAction)
    ensures
        r == flight_action_of(
            record,
            payload_length as int,
            aid_length as int,
            inertial_length as int,
        ),
{
    if record == LinkRecordKind::CanonicalSensor && payload_length == aid_length {
        FlightFrameAction::StoreAid
    } else if record == LinkRecordKind::CanonicalSensor && payload_length == inertial_length {
        FlightFrameAction::Tick
    } else if record == LinkRecordKind::Stop {
        FlightFrameAction::Finish
    } else {
        FlightFrameAction::Refuse
    }
}

/// The command frame the flight endpoint sends after ticking on the
/// inertial cell of `measurement_epoch`, for a command sourced at
/// `source_epoch` and effective at `effective_epoch`.
pub open spec fn command_header_of(
    measurement_epoch: u16,
    source_epoch: u16,
    effective_epoch: u16,
) -> LinkFrameHeader {
    LinkFrameHeader {
        record: LinkRecordKind::CanonicalCommand,
        sequence: (2 * measurement_epoch + 1) as u32,
        measurement: source_epoch as u32,
        production: source_epoch as u32,
        effective: effective_epoch as u32,
    }
}

/// Heads the flight endpoint's command frame.
pub fn command_header(measurement_epoch: u16, source_epoch: u16, effective_epoch: u16) -> (r:
    LinkFrameHeader)
    ensures
        r == command_header_of(measurement_epoch, source_epoch, effective_epoch),
{
    LinkFrameHeader {
        record: LinkRecordKind::CanonicalCommand,
        sequence: 2 * (measurement_epoch as u32) + 1,
        measurement: source_epoch as u32,
        production: source_epoch as u32,
        effective: effective_epoch as u32,
    }
}

/// The status frame the flight endpoint sends after a tick on the inertial
/// cell of `measurement_epoch` that produced a status.
pub open spec fn status_header_of(
    measurement_epoch: u16,
    source_epoch: u16,
    production_epoch: u16,
    none: u32,
) -> LinkFrameHeader {
    LinkFrameHeader {
        record: LinkRecordKind::CanonicalTelemetry,
        sequence: (2 * measurement_epoch + 2) as u32,
        measurement: source_epoch as u32,
        production: production_epoch as u32,
        effective: none,
    }
}

/// Heads the flight endpoint's status frame.
pub fn status_header(
    measurement_epoch: u16,
    source_epoch: u16,
    production_epoch: u16,
    none: u32,
) -> (r: LinkFrameHeader)
    ensures
        r == status_header_of(measurement_epoch, source_epoch, production_epoch, none),
{
    LinkFrameHeader {
        record: LinkRecordKind::CanonicalTelemetry,
        sequence: 2 * (measurement_epoch as u32) + 2,
        measurement: source_epoch as u32,
        production: production_epoch as u32,
        effective: none,
    }
}

/// The two endpoints agree: the host's sensor frames are sorted by the
/// flight endpoint into aid and tick (the cells' lengths differing), and
/// the frames a flight computer answers with, when it commands in the
/// release it measured for the next release and reports status in the same
/// release, pass the host's checks for that release.
pub proof fn law_endpoints_agree(
    epoch: u16,
    none: u32,
    aid_length: int,
    inertial_length: int,
)
    requires
        epoch < u16::MAX,
        aid_length != inertial_length,
    ensures
        flight_action_of(sensor_header_of(epoch, true, none).record, aid_length, aid_length,
            inertial_length) == FlightFrameAction::StoreAid,
        flight_action_of(sensor_header_of(epoch, false, none).record, inertial_length,
            aid_length, inertial_length) == FlightFrameAction::Tick,
        command_frame_accepted(command_header_of(epoch, epoch, (epoch + 1) as u16), epoch),
        status_frame_accepted(status_header_of(epoch, epoch, epoch, none), epoch, none),
        sensor_header_of(epoch, false, none).sequence == command_header_of(
            epoch,
            epoch,
            (epoch + 1) as u16,
        ).sequence,
{
}

// ---------------------------------------------------------------------------
// The host's evidence

/// What a split host and flight run of the advanced vehicle produced: the
/// releases made and the checksum of each stream exchanged.
#[derive(Clone, Copy, Debug, PartialEq, Eq, Structural)]
pub struct Phase95SplitEvidence {
    pub releases: u32,
    pub sensor_checksum: u32,
    pub command_checksum: u32,
    pub status_checksum: u32,
    pub truth_checksum: u32,
    pub navigation_checksum: u32,
    pub flight_checksum: u32,
    pub allocator_checksum: u32,
}

impl Phase95SplitEvidence {
    /// No releases yet, every checksum at the FNV-1a offset basis.
    pub fn new() -> (r: Self)
        ensures
            r == (Phase95SplitEvidence {
                releases: 0,
                sensor_checksum: FNV_OFFSET,
                command_checksum: FNV_OFFSET,
                status_checksum: FNV_OFFSET,
                truth_checksum: FNV_OFFSET,
                navigation_checksum: FNV_OFFSET,
                flight_checksum: FNV_OFFSET,
                allocator_checksum: FNV_OFFSET,
            }),
    {
        Phase95SplitEvidence {
            releases: 0,
            sensor_checksum: FNV_OFFSET,
            command_checksum: FNV_OFFSET,
            status_checksum: FNV_OFFSET,
            truth_checksum: FNV_OFFSET,
            navigation_checksum: FNV_OFFSET,
            flight_checksum: FNV_OFFSET,
            allocator_checksum: FNV_OFFSET,
        }
    }

    /// The host sent a sensor cell with these bytes.
    pub fn sensor_sent(&mut self, cell: &[u8])
        ensures
            *final(self) == (Phase95SplitEvidence {
                sensor_checksum: fnv_fold(old(self).sensor_checksum, cell@),
                ..*old(self)
            }),
    {
        self.sensor_checksum = rolling_hash(self.sensor_checksum, cell);
    }

    /// The host accepted a command with this payload.
    pub fn command_accepted(&mut self, payload: &[u8])
        ensures
            *final(self) == (Phase95SplitEvidence {
                command_checksum: fnv_fold(old(self).command_checksum, payload@),
                ..*old(self)
            }),
    {
        self.command_checksum = rolling_hash(self.command_checksum, payload);
    }

    /// The host accepted a status with this payload.
    pub fn status_accepted(&mut self, payload: &[u8])
        ensures
            *final(self) == (Phase95SplitEvidence {
                status_checksum: fnv_fold(old(self).status_checksum, payload@),
                ..*old(self)
            }),
    {
        self.status_checksum = rolling_hash(self.status_checksum, payload);
    }

    /// A release finished: the world's truth checksum and the shadow flight
    /// computer's navigation, flight and allocator checksums are the
    /// latest, and the release count goes up (held at its maximum).
    pub fn release_finished(
        &mut self,
        truth_checksum: u32,
        navigation_checksum: u32,
        flight_checksum: u32,
        allocator_checksum: u32,
    )
        ensures
            *final(self) == (Phase95SplitEvidence {
                releases: if old(self).releases == u32::MAX {
                    u32::MAX
                } else {
                    (old(self).releases + 1) as u32
                },
                truth_checksum,
                navigation_checksum,
                flight_checksum,
                allocator_checksum,
                ..*old(self)
            }),
    {
        self.truth_checksum = truth_checksum;
        self.navigation_checksum = navigation_checksum;
        self.flight_checksum = flight_checksum;
        self.allocator_checksum = allocator_checksum;
        self.releases = self.releases.saturating_add(1);
    }
}

// ---------------------------------------------------------------------------
// The real-time bridge

/// The guidance slice the real-time host loads before fast epoch `epoch`:
/// a new slice, numbered by the epoch's block of 32, at the third epoch of
/// each block.
pub fn guidance_refresh(epoch: u32) -> (r: Option<u16>)
    ensures
        r == (if epoch & 31 == 2 {
            Some((epoch >> 5u32) as u16)
        } else {
            None::<u16>
        }),
{
    if epoch & 31 == 2 {
        Some((epoch >> 5) as u16)
    } else {
        None
    }
}

/// Whether the flight computer reports status after fast epoch `epoch`:
/// every fourth epoch.
pub fn status_due(epoch: u32) -> (r: bool)
    ensures
        r == (epoch & 3 == 0),
{
    epoch & 3 == 0
}

/// The real-time host accepts a command for fast epoch `epoch` only when it
/// is sourced in that epoch and effective in the next, both counted modulo
/// 2^16.
pub fn command_epochs_ok(epoch: u32, source_epoch: u16, effective_epoch: u16) -> (r: bool)
    ensures
        r == (source_epoch == epoch % 0x1_0000 && effective_epoch == (epoch + 1) % 0x1_0000),
{
    let low = epoch & 0xffff;
    assert(epoch & 0xffff == epoch % 0x1_0000) by (bit_vector);
    let now = low as u16;
    let next: u16 = if now == u16::MAX {
        0
    } else {
        now + 1
    };
    source_epoch == now && effective_epoch == next
}

} // verus!
