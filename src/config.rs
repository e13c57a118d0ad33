//! The settings a client reads at the top of each connection attempt, and
//! the small plain types shared with the mount layer.
use vstd::prelude::*;
use crate::XENON_PORT;

verus! {

#[derive(Clone, Copy, Debug, PartialEq, Eq, Structural)]
pub enum LogLevel {
    Error,
    Warn,
    Info,
    Debug,
}

impl Default for LogLevel {
    fn default() -> (r: Self)
        ensures
            r == LogLevel::Info,
    {
        LogLevel::Info
    }
}

/// The local port the WebDAV bridge listens on unless configured.
pub fn default_webdav_port() -> (r: u16)
    ensures
        r == 4200,
{
    4200
}

/// Notifications are on unless configured.
pub fn default_notifications() -> (r: bool)
    ensures
        r,
{
    true
}

/// The tunnel port a peer is dialled on unless configured.
pub fn default_connection_port() -> (r: u16)
    ensures
        r == XENON_PORT,
{
    XENON_PORT
}

#[derive(Clone, Debug)]
pub struct GeneralConfig {
    pub port: u16,
    pub log_level: LogLevel,
    pub notifications: bool,
    pub windows_mount_point: Option<String>,
}

impl Default for GeneralConfig {
    fn default() -> (r: Self)
        ensures
            r.port == 4200,
            r.log_level == LogLevel::Info,
            r.notifications,
            r.windows_mount_point is None,
    {
        GeneralConfig {
            port: default_webdav_port(),
            log_level: LogLevel::default(),
            notifications: default_notifications(),
            windows_mount_point: None,
        }
    }
}

/// An IP address: a version 4 address as its four octets, a version 6
/// address as its 128-bit value.
#[derive(Clone, Copy, Debug, PartialEq, Eq, Structural)]
pub enum IpAddress {
    V4(u8, u8, u8, u8),
    V6(u128),
}

/// The peer a client dials: where, under what name, and the static public
/// key it must present.
#[derive(Clone, Debug)]
pub struct ConnectionConfig {
    pub ip: IpAddress,
    pub port: u16,
    pub hostname: String,
    pub pubkey: Vec<u8>,
}

impl Default for ConnectionConfig {
    fn default() -> (r: Self)
        ensures
            r.ip == IpAddress::V4(192, 168, 1, 10),
            r.port == XENON_PORT,
            r.hostname@ == "My iPhone"@,
            r.pubkey@ == Seq::new(32, |i: int| (i + 1) as u8),
    {
        let mut pubkey: Vec<u8> = Vec::with_capacity(32);
        let mut i: u8 = 0;
        while i < 32
            invariant
                i <= 32,
                pubkey@ == Seq::new(i as nat, |j: int| (j + 1) as u8),
            decreases 32 - i,
        {
            pubkey.push(i + 1);
            i += 1;
            assert(pubkey@ =~= Seq::new(i as nat, |j: int| (j + 1) as u8));
        }
        ConnectionConfig {
            ip: IpAddress::V4(192, 168, 1, 10),
            port: default_connection_port(),
            hostname: String::from_str("My iPhone"),
            pubkey,
        }
    }
}

/// A client's whole configuration: the general settings, and the peer to
/// dial if one is paired.
#[derive(Clone, Debug)]
pub struct UserConfig {
    pub general: GeneralConfig,
    pub connection: Option<ConnectionConfig>,
}

impl Default for UserConfig {
    fn default() -> (r: Self)
        ensures
            r.general.port == 4200,
            r.general.log_level == LogLevel::Info,
            r.general.notifications,
            r.general.windows_mount_point is None,
            r.connection is None,
    {
        UserConfig { general: GeneralConfig::default(), connection: None }
    }
}

/// A static keypair as stored: public and private halves.
#[derive(Clone, Debug)]
pub struct KeypairDef {
    pub public: Vec<u8>,
    pub private: Vec<u8>,
}

#[derive(Clone, Copy, Debug, PartialEq, Eq, Structural)]
pub enum MountPreset {
    Photos,
    LocalFiles,
    Home,
    Documents,
}

/// What a named mount serves.
#[derive(Clone, Debug)]
pub enum MountType {
    Path(String),
    ICloudBundle(String),
    Bundle(String),
    Preset(MountPreset),
}

/// A line for the server's log file, or a request to flush it.
#[derive(Clone, Debug)]
pub enum LogMessage {
    Message(String),
    Flush,
}

} // verus!
