use fileserver::config::fs_dir;
use fileserver::config::ipv4_addr;
use fileserver::config::port;
use fileserver::config::root_response;
use fileserver::Config;

#[test]
fn defaults_match_the_documented_values() {
    assert_eq!(ipv4_addr(), "0.0.0.0");
    assert_eq!(port(), 8008);
    assert_eq!(root_response(), "ONLINE");
    assert_eq!(fs_dir(), "./appdata/fs");
}

#[test]
fn default_config_uses_the_field_defaults() {
    let c = Config::default();
    assert_eq!(c.ipv4_addr, "0.0.0.0");
    assert_eq!(c.port, 8008);
    assert_eq!(c.root_response, "ONLINE");
    assert_eq!(c.fs_dir, "./appdata/fs");
}
