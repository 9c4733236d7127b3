//! The messages between the server and its clients.

use vstd::prelude::*;

use crate::double::Double;
use crate::table::Table;
use crate::text;

verus! {

/// One charge reading: when it was taken (seconds since the epoch), and the charge in pC.
#[derive(Clone, Copy, Debug, PartialEq, Eq, Structural)]
pub struct Point {
    pub timestamp: Double,
    pub value: Double,
}

/// Statistics of a device's rolling buffer.
#[derive(Clone, Copy, Debug, PartialEq, Eq, Structural)]
pub struct Stats {
    pub mean: Double,
    pub min: Double,
    pub max: Double,
    pub rmsd: Double,
}

/// The statistics of an empty buffer.
pub open spec fn no_stats() -> Stats {
    Stats {
        mean: Double { bits: 0 },
        min: Double { bits: 0 },
        max: Double { bits: 0 },
        rmsd: Double { bits: 0 },
    }
}

impl Default for Stats {
    fn default() -> (res: Stats)
        ensures
            res == no_stats(),
    {
        let zero = Double::zero();
        Stats { mean: zero, min: zero, max: zero, rmsd: zero }
    }
}

/// The kinds of charge diagnostic.
#[derive(Clone, Copy, Debug, PartialEq, Eq, Structural)]
pub enum DeviceType {
    /// Wall current monitor.
    Wcm,
    /// Dark charge: the hardware of a wall current monitor, read over a wider window.
    Dq,
    /// Faraday cup.
    Fcup,
    /// Integrating current transformer, which has no front-end box.
    Ict,
}

/// How a notification is shown.
#[derive(Clone, Copy, Debug, PartialEq, Eq, Structural)]
pub enum NotificationLevel {
    Info,
    Success,
    Warning,
    Error,
}

/// The whole buffer of one device, addressed by its index in the device list.
/// `cursor` counts the readings ever taken, up to the last of `points`.
#[derive(Clone, Debug)]
pub struct ChartSnapshot {
    pub device: usize,
    pub points: Vec<Point>,
    pub stats: Stats,
    pub cursor: u64,
}

/// The readings of one device that are new since the last delta.
#[derive(Clone, Debug)]
pub struct DeviceDelta {
    pub device: usize,
    pub new_points: Vec<Point>,
    pub stats: Stats,
    pub cursor: u64,
}

#[verifier::ext_equal]
pub struct ChartView {
    pub device: nat,
    pub points: Seq<Point>,
    pub stats: Stats,
    pub cursor: u64,
}

impl View for ChartSnapshot {
    type V = ChartView;

    open spec fn view(&self) -> ChartView {
        ChartView {
            device: self.device as nat,
            points: self.points@,
            stats: self.stats,
            cursor: self.cursor,
        }
    }
}

impl View for DeviceDelta {
    type V = ChartView;

    open spec fn view(&self) -> ChartView {
        ChartView {
            device: self.device as nat,
            points: self.new_points@,
            stats: self.stats,
            cursor: self.cursor,
        }
    }
}

/// What a client knows of a device.
#[derive(Clone, Debug)]
pub struct DeviceStatus {
    pub name: String,
    pub device_type: DeviceType,
    /// Index into `sensitivities`.
    pub current_sensitivity: usize,
    pub sensitivities: Vec<u8>,
    pub stats: Stats,
    /// Whether charge data is arriving.
    pub connected: bool,
    /// Whether the front-end box answers.
    pub fe_alive: bool,
    /// When data last arrived, in seconds since the epoch; zero for never.
    pub last_data_time: Double,
    /// The default values at the current sensitivity, by their keys.
    pub defaults: Table<Double>,
    /// The sensitivity was changed by someone else, so the calibration may be stale.
    pub calibration_mismatch: bool,
    /// The peak window does not bracket the pulse.
    pub peak_misaligned: bool,
    /// The charge past which each sensitivity level clips, in the order of `sensitivities`.
    pub saturation_charges: Vec<Double>,
}

#[verifier::ext_equal]
pub struct DeviceStatusView {
    pub name: Seq<char>,
    pub device_type: DeviceType,
    pub current_sensitivity: nat,
    pub sensitivities: Seq<u8>,
    pub stats: Stats,
    pub connected: bool,
    pub fe_alive: bool,
    pub last_data_time: Double,
    pub defaults: Map<Seq<char>, Double>,
    pub calibration_mismatch: bool,
    pub peak_misaligned: bool,
    pub saturation_charges: Seq<Double>,
}

impl View for DeviceStatus {
    type V = DeviceStatusView;

    open spec fn view(&self) -> DeviceStatusView {
        DeviceStatusView {
            name: self.name@,
            device_type: self.device_type,
            current_sensitivity: self.current_sensitivity as nat,
            sensitivities: self.sensitivities@,
            stats: self.stats,
            connected: self.connected,
            fe_alive: self.fe_alive,
            last_data_time: self.last_data_time,
            defaults: self.defaults@,
            calibration_mismatch: self.calibration_mismatch,
            peak_misaligned: self.peak_misaligned,
            saturation_charges: self.saturation_charges@,
        }
    }
}

/// What identifies a device.
#[derive(Clone, Debug)]
pub struct DeviceInfo {
    pub name: String,
    pub device_type: DeviceType,
    pub sensitivities: Vec<u8>,
}

/// A message for the operators.
#[derive(Clone, Debug)]
pub struct Notification {
    pub level: NotificationLevel,
    pub message: String,
    pub device: Option<String>,
    pub timestamp: Double,
}

#[verifier::ext_equal]
pub struct NotificationView {
    pub level: NotificationLevel,
    pub message: Seq<char>,
    pub device: Option<Seq<char>>,
    pub timestamp: Double,
}

impl View for Notification {
    type V = NotificationView;

    open spec fn view(&self) -> NotificationView {
        NotificationView {
            level: self.level,
            message: self.message@,
            device: text::opt_text(self.device),
            timestamp: self.timestamp,
        }
    }
}

/// From the server to a client.
#[derive(Clone, Debug)]
pub enum ServerMessage {
    /// The full state, sent when a client connects. `reset_progress` is how many seconds
    /// of how many are left of a front-end reset, while one is running.
    Init {
        devices: Vec<DeviceStatus>,
        buffer_size: usize,
        device_order: Vec<String>,
        reset_progress: Option<(u32, u32)>,
        auto_gain: bool,
    },
    /// The whole buffers, sent after `Init` and whenever readings were discarded.
    ChartData { snapshots: Vec<ChartSnapshot> },
    /// New readings.
    ChartDelta { updates: Vec<DeviceDelta> },
    /// A sensitivity changed.
    StateUpdate { device: String, sensitivity: usize, calibration_mismatch: bool },
    BufferSizeChanged { size: usize },
    DeviceOrderChanged { order: Vec<String> },
    /// A front-end reset counts down; zero seconds remaining when it is over.
    ResetProgress { remaining_secs: u32, total_secs: u32 },
    /// A device's peak window was found to miss the pulse, or to bracket it again.
    PeakAlignment { device: String, misaligned: bool },
    AutoGainChanged { enabled: bool },
    Notify(Notification),
}

#[verifier::ext_equal]
pub enum ServerMessageView {
    Init {
        devices: Seq<DeviceStatusView>,
        buffer_size: nat,
        device_order: Seq<Seq<char>>,
        reset_progress: Option<(u32, u32)>,
        auto_gain: bool,
    },
    ChartData { snapshots: Seq<ChartView> },
    ChartDelta { updates: Seq<ChartView> },
    StateUpdate { device: Seq<char>, sensitivity: nat, calibration_mismatch: bool },
    BufferSizeChanged { size: nat },
    DeviceOrderChanged { order: Seq<Seq<char>> },
    ResetProgress { remaining_secs: u32, total_secs: u32 },
    PeakAlignment { device: Seq<char>, misaligned: bool },
    AutoGainChanged { enabled: bool },
    Notify(NotificationView),
}

impl View for ServerMessage {
    type V = ServerMessageView;

    open spec fn view(&self) -> ServerMessageView {
        match *self {
            ServerMessage::Init { devices, buffer_size, device_order, reset_progress, auto_gain } =>
            ServerMessageView::Init {
                devices: devices@.map_values(|d: DeviceStatus| d@),
                buffer_size: buffer_size as nat,
                device_order: text::texts(device_order@),
                reset_progress,
                auto_gain,
            },
            ServerMessage::ChartData { snapshots } => ServerMessageView::ChartData {
                snapshots: snapshots@.map_values(|s: ChartSnapshot| s@),
            },
            ServerMessage::ChartDelta { updates } => ServerMessageView::ChartDelta {
                updates: updates@.map_values(|u: DeviceDelta| u@),
            },
            ServerMessage::StateUpdate { device, sensitivity, calibration_mismatch } =>
            ServerMessageView::StateUpdate {
                device: device@,
                sensitivity: sensitivity as nat,
                calibration_mismatch,
            },
            ServerMessage::BufferSizeChanged { size } => ServerMessageView::BufferSizeChanged {
                size: size as nat,
            },
            ServerMessage::DeviceOrderChanged { order } => ServerMessageView::DeviceOrderChanged {
                order: text::texts(order@),
            },
            ServerMessage::ResetProgress { remaining_secs, total_secs } =>
            ServerMessageView::ResetProgress { remaining_secs, total_secs },
            ServerMessage::PeakAlignment { device, misaligned } =>
            ServerMessageView::PeakAlignment { device: device@, misaligned },
            ServerMessage::AutoGainChanged { enabled } => ServerMessageView::AutoGainChanged {
                enabled,
            },
            ServerMessage::Notify(n) => ServerMessageView::Notify(n@),
        }
    }
}

/// From a client to the server.
#[derive(Clone, Debug)]
pub enum ClientMessage {
    SetSensitivity { device: String, index: usize },
    ZeroWCM { device: String },
    SweepTiming { device: String },
    RestoreDefaults { device: String },
    ClearCalibration,
    ResetFrontEnds,
    SetBufferSize { size: usize },
    SetDeviceOrder { order: Vec<String> },
    /// Empties the buffer of one device, or of all.
    ClearBuffer { device: Option<String> },
    SetAutoGain { enabled: bool },
}

#[verifier::ext_equal]
pub enum ClientMessageView {
    SetSensitivity { device: Seq<char>, index: nat },
    ZeroWCM { device: Seq<char> },
    SweepTiming { device: Seq<char> },
    RestoreDefaults { device: Seq<char> },
    ClearCalibration,
    ResetFrontEnds,
    SetBufferSize { size: nat },
    SetDeviceOrder { order: Seq<Seq<char>> },
    ClearBuffer { device: Option<Seq<char>> },
    SetAutoGain { enabled: bool },
}

impl View for ClientMessage {
    type V = ClientMessageView;

    open spec fn view(&self) -> ClientMessageView {
        match *self {
            ClientMessage::SetSensitivity { device, index } => ClientMessageView::SetSensitivity {
                device: device@,
                index: index as nat,
            },
            ClientMessage::ZeroWCM { device } => ClientMessageView::ZeroWCM { device: device@ },
            ClientMessage::SweepTiming { device } => ClientMessageView::SweepTiming {
                device: device@,
            },
            ClientMessage::RestoreDefaults { device } => ClientMessageView::RestoreDefaults {
                device: device@,
            },
            ClientMessage::ClearCalibration => ClientMessageView::ClearCalibration,
            ClientMessage::ResetFrontEnds => ClientMessageView::ResetFrontEnds,
            ClientMessage::SetBufferSize { size } => ClientMessageView::SetBufferSize {
                size: size as nat,
            },
            ClientMessage::SetDeviceOrder { order } => ClientMessageView::SetDeviceOrder {
                order: text::texts(order@),
            },
            ClientMessage::ClearBuffer { device } => ClientMessageView::ClearBuffer {
                device: text::opt_text(device),
            },
            ClientMessage::SetAutoGain { enabled } => ClientMessageView::SetAutoGain { enabled },
        }
    }
}

}
