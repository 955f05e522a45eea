//! The kinds of link a node can reach another over, ranked for data transfer.
use vstd::prelude::*;

verus! {

/// A physical or logical link between nodes.
#[derive(Debug, Clone, Copy, PartialEq, Eq, Hash, Structural)]
pub enum TransportType {
    Ethernet,
    Powerline,
    WiFi5GHz,
    WiFi24GHz,
    WiFi6E,
    WiFiDirect,
    Bluetooth,
    UsbTethering,
    WebSocket,
    Quic,
}

pub open spec fn transport_priority(t: TransportType) -> u8 {
    match t {
        TransportType::Ethernet | TransportType::Powerline => 100,
        TransportType::WiFi6E => 90,
        TransportType::Quic => 85,
        TransportType::WiFi5GHz => 80,
        TransportType::WiFi24GHz => 60,
        TransportType::UsbTethering => 55,
        TransportType::WiFiDirect => 50,
        TransportType::WebSocket => 30,
        TransportType::Bluetooth => 20,
    }
}

/// Estimated bandwidth, in whole Mbps.
pub open spec fn transport_bandwidth(t: TransportType) -> u32 {
    match t {
        TransportType::Ethernet | TransportType::Powerline => 1000,
        TransportType::WiFi6E => 2400,
        TransportType::Quic => 800,
        TransportType::WiFi5GHz => 400,
        TransportType::WiFi24GHz => 100,
        TransportType::UsbTethering => 480,
        TransportType::WiFiDirect => 250,
        TransportType::WebSocket => 50,
        TransportType::Bluetooth => 3,
    }
}

/// Links faster than this many Mbps can carry large transfers.
pub const LARGE_DATA_MIN_MBPS: u32 = 50;

pub open spec fn transport_name(t: TransportType) -> Seq<char> {
    match t {
        TransportType::Ethernet => "Ethernet"@,
        TransportType::Powerline => "Powerline"@,
        TransportType::WiFi5GHz => "WiFi 5GHz"@,
        TransportType::WiFi24GHz => "WiFi 2.4GHz"@,
        TransportType::WiFi6E => "WiFi 6E"@,
        TransportType::WiFiDirect => "WiFi Direct"@,
        TransportType::Bluetooth => "Bluetooth"@,
        TransportType::UsbTethering => "USB Tethering"@,
        TransportType::WebSocket => "WebSocket"@,
        TransportType::Quic => "QUIC"@,
    }
}

impl TransportType {
    /// Higher number = higher priority for data transfer.
    pub fn priority(&self) -> (r: u8)
        ensures
            r == transport_priority(*self),
    {
        match self {
            TransportType::Ethernet | TransportType::Powerline => 100,
            TransportType::WiFi6E => 90,
            TransportType::Quic => 85,
            TransportType::WiFi5GHz => 80,
            TransportType::WiFi24GHz => 60,
            TransportType::UsbTethering => 55,
            TransportType::WiFiDirect => 50,
            TransportType::WebSocket => 30,
            TransportType::Bluetooth => 20,
        }
    }

    /// Estimated bandwidth in Mbps for this transport type; every estimate
    /// is a whole number of Mbps.
    pub fn bandwidth_estimate_mbps(&self) -> (r: u32)
        ensures
            r == transport_bandwidth(*self),
    {
        match self {
            TransportType::Ethernet | TransportType::Powerline => 1000,
            TransportType::WiFi6E => 2400,
            TransportType::Quic => 800,
            TransportType::WiFi5GHz => 400,
            TransportType::WiFi24GHz => 100,
            TransportType::UsbTethering => 480,
            TransportType::WiFiDirect => 250,
            TransportType::WebSocket => 50,
            TransportType::Bluetooth => 3,
        }
    }

    /// Whether this transport can handle large data transfers (>10MB).
    pub fn suitable_for_large_data(&self) -> (r: bool)
        ensures
            r == (transport_bandwidth(*self) > LARGE_DATA_MIN_MBPS),
    {
        self.bandwidth_estimate_mbps() > LARGE_DATA_MIN_MBPS
    }

    /// The name shown for this transport.
    pub fn name(&self) -> (r: &'static str)
        ensures
            r@ == transport_name(*self),
    {
        match self {
            TransportType::Ethernet => "Ethernet",
            TransportType::Powerline => "Powerline",
            TransportType::WiFi5GHz => "WiFi 5GHz",
            TransportType::WiFi24GHz => "WiFi 2.4GHz",
            TransportType::WiFi6E => "WiFi 6E",
            TransportType::WiFiDirect => "WiFi Direct",
            TransportType::Bluetooth => "Bluetooth",
            TransportType::UsbTethering => "USB Tethering",
            TransportType::WebSocket => "WebSocket",
            TransportType::Quic => "QUIC",
        }
    }
}

/// Wired links rank at least as high as any other link, and carry large transfers.
pub proof fn lemma_wired_ranks_first(wired: TransportType, other: TransportType)
    requires
        wired == TransportType::Ethernet || wired == TransportType::Powerline,
    ensures
        transport_priority(wired) >= transport_priority(other),
        transport_bandwidth(wired) > LARGE_DATA_MIN_MBPS,
{
}

/// Every link ranked at least as high as WiFi Direct can carry large transfers,
/// and none ranked lower can.
pub proof fn lemma_large_data_by_rank(t: TransportType)
    ensures
        (transport_bandwidth(t) > LARGE_DATA_MIN_MBPS) <==> transport_priority(t) >= 50,
{
}

} // verus!
