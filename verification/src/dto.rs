//! The records that the gateway hands to its web pages and API clients.
use vstd::prelude::*;

verus! {

// ── Frames ───────────────────────────────────────────────────────────────────

/// A frame that a radio module received or sent.
#[derive(Debug, Clone)]
pub struct RxFrameDto {
    pub module: usize,
    pub direction: String,
    pub rssi: i8,
    pub len: u16,
    pub hex: String,
    pub ascii: String,
    pub crc32: String,
    pub ts: u64,
}

/// What a frame record holds.
pub struct FrameView {
    pub module: usize,
    pub direction: Seq<char>,
    pub rssi: i8,
    pub len: u16,
    pub hex: Seq<char>,
    pub ascii: Seq<char>,
    pub crc32: Seq<char>,
    pub ts: u64,
}

impl View for RxFrameDto {
    type V = FrameView;

    open spec fn view(&self) -> FrameView {
        FrameView {
            module: self.module,
            direction: self.direction@,
            rssi: self.rssi,
            len: self.len,
            hex: self.hex@,
            ascii: self.ascii@,
            crc32: self.crc32@,
            ts: self.ts,
        }
    }
}

impl RxFrameDto {
    /// A copy of the record.
    pub fn copy(&self) -> (out: RxFrameDto)
        ensures
            out == *self,
    {
        RxFrameDto {
            module: self.module,
            direction: self.direction.clone(),
            rssi: self.rssi,
            len: self.len,
            hex: self.hex.clone(),
            ascii: self.ascii.clone(),
            crc32: self.crc32.clone(),
            ts: self.ts,
        }
    }
}

/// Traffic totals and rates of a radio module.
#[derive(Debug, Clone, Copy, Default, PartialEq, Eq, Structural)]
pub struct FrameStatsDto {
    pub rx_frames: u64,
    pub rx_bytes: u64,
    pub rx_bps: u64,
    pub tx_frames: u64,
    pub tx_bytes: u64,
    pub tx_bps: u64,
    pub last_rssi: Option<i8>,
}

// ── System ───────────────────────────────────────────────────────────────────

/// The state of a systemd unit.
#[derive(Debug, Clone, Default)]
pub struct ServiceStatusDto {
    pub unit: String,
    pub brief_name: String,
    pub load_state: String,
    pub active_state: String,
    pub sub_state: String,
    pub status: String,
}

/// What the record of a systemd unit holds.
pub struct ServiceStatusView {
    pub unit: Seq<char>,
    pub brief_name: Seq<char>,
    pub load_state: Seq<char>,
    pub active_state: Seq<char>,
    pub sub_state: Seq<char>,
    pub status: Seq<char>,
}

impl View for ServiceStatusDto {
    type V = ServiceStatusView;

    open spec fn view(&self) -> ServiceStatusView {
        ServiceStatusView {
            unit: self.unit@,
            brief_name: self.brief_name@,
            load_state: self.load_state@,
            active_state: self.active_state@,
            sub_state: self.sub_state@,
            status: self.status@,
        }
    }
}

/// An installed plugin, as the pages list it.
#[derive(Debug, Clone, Default)]
pub struct PluginSummaryDto {
    pub id: String,
    pub name: String,
    pub description: String,
    pub version: String,
    pub service: String,
    pub developer: String,
    pub channel: Option<String>,
    pub webview: Option<u16>,
    pub tls: bool,
    pub icon: Option<String>,
    pub binary_name: String,
    pub bin_path: Option<String>,
    pub sha256: String,
    pub install_dir: String,
    pub package_path: String,
    pub official: bool,
    pub enabled: bool,
    pub removable: bool,
    pub target_name: Option<String>,
    pub status: String,
    pub installed_at: u64,
    pub updated_at: u64,
}

/// The outcome of a plugin action, in words.
#[derive(Debug, Clone, Default)]
pub struct PluginMessageDto {
    pub detail: String,
}

/// A network port that the gateway serves.
#[derive(Debug, Clone, Default)]
pub struct NetworkPortStatusDto {
    pub name: String,
    pub protocol: String,
    pub port: u16,
    pub service: String,
    pub status: String,
    pub details: String,
}

// ── Reticulum ────────────────────────────────────────────────────────────────

/// A Reticulum link and its traffic.
#[derive(Debug, Clone, Default)]
pub struct ReticulumLinkDto {
    pub id: String,
    pub destination: String,
    pub status: String,
    pub last_event: String,
    pub packets: u64,
    pub bytes: u64,
    pub rtt_ms: Option<u64>,
    pub last_seen_ts: u64,
}

/// What the record of a link holds.
pub struct LinkView {
    pub id: Seq<char>,
    pub destination: Seq<char>,
    pub status: Seq<char>,
    pub last_event: Seq<char>,
    pub packets: u64,
    pub bytes: u64,
    pub rtt_ms: Option<u64>,
    pub last_seen_ts: u64,
}

impl View for ReticulumLinkDto {
    type V = LinkView;

    open spec fn view(&self) -> LinkView {
        LinkView {
            id: self.id@,
            destination: self.destination@,
            status: self.status@,
            last_event: self.last_event@,
            packets: self.packets,
            bytes: self.bytes,
            rtt_ms: self.rtt_ms,
            last_seen_ts: self.last_seen_ts,
        }
    }
}

impl ReticulumLinkDto {
    /// A copy of the record.
    pub fn copy(&self) -> (out: ReticulumLinkDto)
        ensures
            out == *self,
    {
        ReticulumLinkDto {
            id: self.id.clone(),
            destination: self.destination.clone(),
            status: self.status.clone(),
            last_event: self.last_event.clone(),
            packets: self.packets,
            bytes: self.bytes,
            rtt_ms: self.rtt_ms,
            last_seen_ts: self.last_seen_ts,
        }
    }
}

/// Error counts of the radio interface.
#[derive(Debug, Clone, Copy, Default, PartialEq, Eq, Structural)]
pub struct ReticulumInterfaceStatsDto {
    pub rx_errors: u64,
    pub tx_errors: u64,
    pub rx_ldpc_errors: u64,
    pub rx_reassembly_errors: u64,
    pub rx_deserialize_errors: u64,
    pub tx_ldpc_errors: u64,
    pub tx_transmit_errors: u64,
    pub tx_serialize_errors: u64,
}

/// Something that happened on the transport.
#[derive(Debug, Clone, Default)]
pub struct ReticulumEventDto {
    pub ts: u64,
    pub direction: String,
    pub kind: String,
    pub link_id: String,
    pub destination: String,
    pub details: String,
}

/// What the record of an event holds.
pub struct EventView {
    pub ts: u64,
    pub direction: Seq<char>,
    pub kind: Seq<char>,
    pub link_id: Seq<char>,
    pub destination: Seq<char>,
    pub details: Seq<char>,
}

impl View for ReticulumEventDto {
    type V = EventView;

    open spec fn view(&self) -> EventView {
        EventView {
            ts: self.ts,
            direction: self.direction@,
            kind: self.kind@,
            link_id: self.link_id@,
            destination: self.destination@,
            details: self.details@,
        }
    }
}

impl ReticulumEventDto {
    /// A copy of the record.
    pub fn copy(&self) -> (out: ReticulumEventDto)
        ensures
            out == *self,
    {
        ReticulumEventDto {
            ts: self.ts,
            direction: self.direction.clone(),
            kind: self.kind.clone(),
            link_id: self.link_id.clone(),
            destination: self.destination.clone(),
            details: self.details.clone(),
        }
    }
}

/// The state of the transport: errors, links and recent events.
#[derive(Debug, Clone, Default)]
pub struct ReticulumSnapshotDto {
    pub interface_stats: ReticulumInterfaceStatsDto,
    pub incoming_links: Vec<ReticulumLinkDto>,
    pub outgoing_links: Vec<ReticulumLinkDto>,
    pub events: Vec<ReticulumEventDto>,
}

/// The state of the transport without its events, for live updates.
#[derive(Debug, Clone, Default)]
pub struct WsReticulumSnapshotDto {
    pub interface_stats: ReticulumInterfaceStatsDto,
    pub incoming_links: Vec<ReticulumLinkDto>,
    pub outgoing_links: Vec<ReticulumLinkDto>,
}

/// The addresses of the local interfaces.
#[derive(Debug, Clone, Default)]
pub struct WsInterfacesDto {
    pub wlan0_ip: Option<String>,
    pub usb0_ip: Option<String>,
}

/// The recent frames and the traffic of a radio module.
#[derive(Debug, Clone, Default)]
pub struct WsRadioFramesDto {
    pub module: usize,
    pub frames: Vec<RxFrameDto>,
    pub stats: FrameStatsDto,
}

// ── Network ──────────────────────────────────────────────────────────────────

/// The state of the wireless interface.
#[derive(Debug, Clone)]
pub struct WifiStatusDto {
    pub mode: String,
    pub antenna: String,
    pub antenna_supported: bool,
    pub configured_ssid: Option<String>,
    pub connected_ssid: Option<String>,
    pub wlan0_ip: Option<String>,
    pub hostapd_status: String,
    pub wpa_supplicant_status: String,
    pub link_details: String,
}

impl WifiStatusDto {
    /// An access point on the internal antenna, of which nothing else is known.
    pub open spec fn is_default(self) -> bool {
        &&& self.mode@ == "ap"@
        &&& self.antenna@ == "internal"@
        &&& !self.antenna_supported
        &&& self.configured_ssid is None
        &&& self.connected_ssid is None
        &&& self.wlan0_ip is None
        &&& self.hostapd_status@.len() == 0
        &&& self.wpa_supplicant_status@.len() == 0
        &&& self.link_details@.len() == 0
    }
}

impl Default for WifiStatusDto {
    fn default() -> (out: WifiStatusDto)
        ensures
            out.is_default(),
    {
        WifiStatusDto {
            mode: "ap".to_owned(),
            antenna: "internal".to_owned(),
            antenna_supported: false,
            configured_ssid: None,
            connected_ssid: None,
            wlan0_ip: None,
            hostapd_status: String::new(),
            wpa_supplicant_status: String::new(),
            link_details: String::new(),
        }
    }
}

/// The state of the local network.
#[derive(Debug, Clone)]
pub struct NetworkSnapshotDto {
    pub backend: String,
    pub interface_source: String,
    pub interface_details: String,
    pub wifi: WifiStatusDto,
}

impl Default for NetworkSnapshotDto {
    fn default() -> (out: NetworkSnapshotDto)
        ensures
            out.backend@.len() == 0,
            out.interface_source@.len() == 0,
            out.interface_details@.len() == 0,
            out.wifi.is_default(),
    {
        NetworkSnapshotDto {
            backend: String::new(),
            interface_source: String::new(),
            interface_details: String::new(),
            wifi: WifiStatusDto::default(),
        }
    }
}

// ── Requests ─────────────────────────────────────────────────────────────────

/// The serial number of the device.
#[derive(Debug, Clone)]
pub struct InfoResponse {
    pub serial: String,
}

/// The routes of the VPN: exported ones, as `exported -> local` where they are
/// aliased, and the remote ones that are installed.
#[derive(Debug, Clone)]
pub struct VpnRoutesResponse {
    pub tunnel_ip: Option<String>,
    pub exported_routes: Vec<String>,
    pub remote_installed: Vec<String>,
}

/// A volume to set.
#[derive(Debug, Clone)]
pub struct PutAudioRequest {
    pub volume: u8,
    pub muted: bool,
}

/// A message to send as a test frame.
#[derive(Debug, Clone)]
pub struct RadioTestRequest {
    pub message: String,
}

/// The routes to advertise.
#[derive(Debug, Clone)]
pub struct PutVpnRoutesRequest {
    pub routes: Vec<String>,
}

/// Which peers may use the VPN.
#[derive(Debug, Clone)]
pub struct PutVpnAccessRequest {
    pub allow_all_peers: bool,
    pub peers: Vec<String>,
}

/// An address to ping.
#[derive(Debug, Clone)]
pub struct VpnPingRequest {
    pub address: String,
}

/// A peer to measure.
#[derive(Debug, Clone)]
pub struct VpnSpeedTestRequest {
    pub address: String,
}

/// A unit to act on.
#[derive(Debug, Clone)]
pub struct ServiceActionRequest {
    pub unit: String,
}

/// A codename to set.
#[derive(Debug, Clone)]
pub struct SetSystemCodenameRequest {
    pub codename: String,
}

/// Whether audio settings were saved.
#[derive(Debug, Clone)]
pub struct AudioSaveResponse {
    pub status: String,
}

/// Whether a test frame was sent.
#[derive(Debug, Clone)]
pub struct RadioTestResponse {
    pub status: String,
}

/// Whether a system action was requested.
#[derive(Debug, Clone)]
pub struct SystemActionResponse {
    pub status: String,
}

/// The codename that was set.
#[derive(Debug, Clone)]
pub struct SystemCodenameResponse {
    pub status: String,
    pub codename: String,
}

/// The peer policy that was set.
#[derive(Debug, Clone)]
pub struct VpnAccessResponse {
    pub status: String,
    pub allow_all_peers: bool,
    pub peers: Vec<String>,
}

/// The outcome of a ping.
#[derive(Debug, Clone)]
pub struct VpnPingResponse {
    pub ok: bool,
    pub latency: Option<String>,
}

/// The outcome of a speed test.
#[derive(Debug, Clone, Copy, PartialEq, Eq, Structural)]
pub struct VpnSpeedTestResponse {
    pub ok: bool,
    pub bytes: u64,
    pub duration_ms: u64,
    pub bps: u64,
}

/// A wireless mode to set.
#[derive(Debug, Clone)]
pub struct WifiModeForm {
    pub mode: String,
}

/// A wireless antenna to set.
#[derive(Debug, Clone)]
pub struct WifiAntennaForm {
    pub antenna: String,
}

/// A wireless network to join.
#[derive(Debug, Clone)]
pub struct WifiConnectForm {
    pub ssid: String,
    pub psk: String,
}

} // verus!
