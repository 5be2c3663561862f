use leaf::{
    log_out, log_text, to_errno, to_u16s, unrolled_find_u16s, ConsoleLogger, ConsoleWriter, Error,
    LogLevel, ReceiverInfo, RuntimeManager, ERR_ASYNC_CHANNEL_SEND, ERR_CONFIG, ERR_IO,
    ERR_NO_CONFIG_FILE, ERR_RUNTIME_MANAGER, ERR_SYNC_CHANNEL_RECV, ERR_WATCHER,
};

#[test]
fn console_writer_releases_whole_lines() {
    let mut w = ConsoleWriter::new();
    let (n, line) = w.write(b"hello\nwor");
    assert_eq!(n, 9);
    assert_eq!(line.as_deref(), Some(b"hello".as_slice()));
    let (n2, line2) = w.write(b"ld");
    assert_eq!(n2, 2);
    assert_eq!(line2, None);
    let (_, line3) = w.write(b"!\ntail");
    assert_eq!(line3.as_deref(), Some(b"world!".as_slice()));
}

#[test]
fn log_text_and_log_out_convert_between_text_and_bytes() {
    assert_eq!(log_text("hi"), b"hi".to_vec());
    assert_eq!(log_out(b"abc"), "abc");
    // invalid UTF-8 decodes lossily, not byte-for-byte
    assert_eq!(log_out(&[0xff]), "\u{FFFD}");
}

#[test]
fn console_logger_formats_and_filters() {
    let logger = ConsoleLogger;
    assert_eq!(
        logger.log(LogLevel::Info, "proxy", "started").as_deref(),
        Some("[INFO] [proxy] started")
    );
    assert_eq!(logger.log(LogLevel::Trace, "proxy", "noise"), None);
    assert!(logger.enabled(LogLevel::Debug));
    assert!(!logger.enabled(LogLevel::Trace));
}

#[test]
fn wide_string_helpers() {
    let units: Vec<u16> = vec![104, 105];
    assert_eq!(unrolled_find_u16s(105, &units), Some(1));
    assert_eq!(unrolled_find_u16s(9, &units), None);
    assert_eq!(to_u16s(&units).unwrap(), vec![104, 105, 0]);
    let bad: Vec<u16> = vec![104, 0, 105];
    match to_u16s(&bad) {
        Err(e) => assert_eq!(to_errno(&e), ERR_IO),
        Ok(_) => panic!("an embedded zero unit must be rejected"),
    }
}

#[test]
fn receiver_info_hands_out_the_channel_once() {
    let mut info = ReceiverInfo::Stopped;
    assert_eq!(info.take_tun_rx(), None);
    info.register(7);
    assert_eq!(info.take_tun_rx(), Some(7));
    // a second take yields nothing: the receiver is gone
    assert_eq!(info.take_tun_rx(), None);
    assert!(info.release());
    assert!(!info.release());
}

#[test]
fn runtime_registry_lifecycle() {
    let mut rm = RuntimeManager::new();
    rm.run_insert(1, Some("/etc/proxy.conf".to_owned())).unwrap();
    rm.run_insert(2, None).unwrap();
    // identifier collision is surfaced to the caller
    let err = rm.run_insert(1, None).unwrap_err();
    assert_eq!(to_errno(&err), ERR_RUNTIME_MANAGER);
    // reload looks the instance up
    assert_eq!(rm.reload_path(1).unwrap(), "/etc/proxy.conf");
    // an instance started from an inline config has no file to reload
    assert_eq!(to_errno(&rm.reload_path(2).unwrap_err()), ERR_NO_CONFIG_FILE);
    assert_eq!(to_errno(&rm.reload_path(9).unwrap_err()), ERR_RUNTIME_MANAGER);
    // shutdown removes
    assert!(rm.shutdown_remove(1));
    assert!(!rm.shutdown_remove(1));
    assert!(rm.reload_path(1).is_err());
}

#[test]
fn error_codes_match_the_control_plane_contract() {
    assert_eq!(to_errno(&Error::Config(String::new())), ERR_CONFIG);
    assert_eq!(to_errno(&Error::NoConfigFile), ERR_NO_CONFIG_FILE);
    assert_eq!(to_errno(&Error::Io(String::new())), ERR_IO);
    assert_eq!(to_errno(&Error::Watcher(String::new())), ERR_WATCHER);
    assert_eq!(to_errno(&Error::AsyncChannelSend(String::new())), ERR_ASYNC_CHANNEL_SEND);
    assert_eq!(to_errno(&Error::SyncChannelRecv(String::new())), ERR_SYNC_CHANNEL_RECV);
    assert_eq!(to_errno(&Error::RuntimeManager), ERR_RUNTIME_MANAGER);
}
