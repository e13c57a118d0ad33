use xenon_tunnel::metafs::MetaFs;
use xenon_tunnel::config::{default_connection_port, default_notifications, default_webdav_port, ConnectionConfig, IpAddress, LogLevel, UserConfig};
use xenon_tunnel::{SIZE_LIMIT, XENON_PORT};

#[test]
fn defaults() {
    assert_eq!(default_connection_port(), 28988);
    assert_eq!(XENON_PORT, 28988);
    assert_eq!(SIZE_LIMIT, 65535);
    assert_eq!(default_webdav_port(), 4200);
    assert!(default_notifications());
    assert_eq!(LogLevel::default(), LogLevel::Info);
    let u = UserConfig::default();
    assert_eq!(u.general.port, 4200);
    assert!(u.general.notifications);
    assert!(u.connection.is_none());
    let c = ConnectionConfig::default();
    assert_eq!(c.ip, IpAddress::V4(192, 168, 1, 10));
    assert_eq!(c.port, 28988);
    assert_eq!(c.hostname, "My iPhone");
    assert_eq!(c.pubkey, (1..=32).collect::<Vec<u8>>());
}

#[test]
fn root_listing_has_one_directory_per_mount() {
    let mounts = vec!["photos".to_string(), "docs".to_string()];
    let entries = MetaFs.read_dir(&mounts);
    assert_eq!(entries.len(), 2);
    assert_eq!(entries[0].name(), b"photos".to_vec());
    assert_eq!(entries[1].name(), b"docs".to_vec());
    let meta = entries[1].metadata();
    assert_eq!(meta.len(), 0);
    assert!(meta.is_dir());
}
