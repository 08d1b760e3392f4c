//! Tests of the configuration and limits types.

use rsws::{Config, Limits};
use rsws::config::Timeouts;
use std::time::Duration;

#[test]
fn test_limits_default() {
    let limits = Limits::default();
    assert_eq!(limits.max_frame_size, 16 * 1024 * 1024);
    assert_eq!(limits.max_message_size, 64 * 1024 * 1024);
    assert_eq!(limits.max_fragment_count, 128);
    assert_eq!(limits.max_handshake_size, 8192);
}

#[test]
fn test_limits_embedded() {
    let limits = Limits::embedded();
    assert_eq!(limits.max_frame_size, 64 * 1024);
    assert_eq!(limits.max_message_size, 256 * 1024);
    assert_eq!(limits.max_fragment_count, 16);
    assert_eq!(limits.max_handshake_size, 4096);
}

#[test]
fn test_limits_unrestricted() {
    let limits = Limits::unrestricted();
    assert_eq!(limits.max_frame_size, 1024 * 1024 * 1024);
    assert_eq!(limits.max_fragment_count, 1024);
    assert_eq!(limits.max_handshake_size, 64 * 1024);
}

#[test]
fn test_limits_check_handshake_size() {
    let limits = Limits::default();
    assert!(limits.check_handshake_size(1024).is_ok());
    assert!(limits.check_handshake_size(10000).is_err());
}

#[test]
fn test_limits_check_message_size() {
    let limits = Limits::default();
    assert!(limits.check_message_size(1024).is_ok());
    assert!(limits.check_message_size(100 * 1024 * 1024).is_err());
}

#[test]
fn test_limits_check_frame_size() {
    let limits = Limits::default();
    assert!(limits.check_frame_size(1024).is_ok());
    assert!(limits.check_frame_size(20 * 1024 * 1024).is_err());
}

#[test]
fn test_limits_check_fragment_count() {
    let limits = Limits::default();
    assert!(limits.check_fragment_count(50).is_ok());
    assert!(limits.check_fragment_count(200).is_err());
}

#[test]
fn test_config_default() {
    let config = Config::default();
    assert_eq!(config.fragment_size, 16 * 1024);
    assert!(!config.accept_unmasked_frames);
    assert!(config.mask_frames);
}

#[test]
fn test_config_server() {
    let config = Config::server();
    assert!(!config.mask_frames);
    assert!(!config.accept_unmasked_frames);
}

#[test]
fn test_config_client() {
    let config = Config::client();
    assert!(config.mask_frames);
    assert!(!config.accept_unmasked_frames);
}

#[test]
fn test_config_builder() {
    let config = Config::new()
        .with_limits(Limits::embedded())
        .with_fragment_size(4096);

    assert_eq!(config.fragment_size, 4096);
    assert_eq!(config.limits.max_frame_size, 64 * 1024);
}

#[test]
fn test_config_buffer_size() {
    let config = Config::new()
        .with_read_buffer_size(1024)
        .with_write_buffer_size(2048);

    assert_eq!(config.read_buffer_size, 1024);
    assert_eq!(config.write_buffer_size, 2048);
}

#[test]
fn test_timeouts_default() {
    let timeouts = Timeouts::default();
    assert_eq!(timeouts.handshake, Duration::from_secs(30));
    assert_eq!(timeouts.read, Duration::from_secs(60));
    assert_eq!(timeouts.write, Duration::from_secs(60));
    assert_eq!(timeouts.idle, Duration::from_secs(300));
}

#[test]
fn test_config_with_timeouts() {
    let timeouts = Timeouts::default();
    let config = Config::new().with_timeouts(timeouts.clone());
    assert_eq!(config.timeouts, Some(timeouts));
}

#[test]
fn test_config_with_allowed_origins() {
    let origins = vec!["https://example.com".to_string()];
    let config = Config::new().with_allowed_origins(origins.clone());
    assert_eq!(config.allowed_origins, Some(origins));
}

#[test]
fn test_config_allowed_origins_none_by_default() {
    let config = Config::default();
    assert!(config.allowed_origins.is_none());
}

#[test]
fn test_config_timeouts_none_by_default() {
    let config = Config::default();
    assert!(config.timeouts.is_none());
}
