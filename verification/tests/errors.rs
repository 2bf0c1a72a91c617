use rskm::errors::RskmError;

#[test]
fn message_of_each_plain_variant() {
    assert_eq!(RskmError::KeyExists("work".to_string()).message(), "Key 'work' already exists");
    assert_eq!(RskmError::KeyNotFound("work".to_string()).message(), "Key 'work' not found");
    assert_eq!(RskmError::KeygenFailed.message(), "ssh-keygen failed");
    assert_eq!(RskmError::HostExists("web".to_string()).message(), "Host 'web' already exists");
    assert_eq!(RskmError::HostNotFound("web".to_string()).message(), "Host 'web' not found");
    assert_eq!(RskmError::ConfigNotFound("/x/hosts.toml".to_string()).message(), "Config not found: /x/hosts.toml");
    assert_eq!(RskmError::ConfigParseError("bad".to_string()).message(), "Config parse error: bad");
    assert_eq!(RskmError::ConfigWriteError("full".to_string()).message(), "Failed to write config: full");
    assert_eq!(RskmError::AgentNotRunning.message(), "ssh-agent is not running");
    assert_eq!(RskmError::AgentOperationFailed("x".to_string()).message(), "ssh-agent error: x");
    assert_eq!(RskmError::HomeDirectoryNotFound.message(), "Could not determine home directory");
    assert_eq!(RskmError::InvalidInput("port".to_string()).message(), "Invalid input: port");
}

#[test]
fn io_error_is_wrapped_and_described() {
    let inner = std::io::Error::new(std::io::ErrorKind::Other, "disk on fire");
    let err = RskmError::from(inner);
    assert!(err.is_io());
    assert_eq!(err.message(), "IO error: disk on fire");
}

#[test]
fn toml_parse_error_becomes_config_parse_error() {
    let failure = "a = = 1".parse::<toml::Table>().unwrap_err();
    let shown = failure.to_string();
    assert!(!shown.is_empty());
    let err = RskmError::from(failure);
    assert!(!err.is_io());
    match &err {
        RskmError::ConfigParseError(msg) => assert_eq!(msg, &shown),
        _ => panic!("wrong variant"),
    }
    assert_eq!(err.message(), format!("Config parse error: {}", shown));
}

#[test]
fn toml_write_error_becomes_config_write_error() {
    let failure = toml::to_string(&7u32).unwrap_err();
    let shown = failure.to_string();
    assert!(!shown.is_empty());
    let err = RskmError::from(failure);
    match &err {
        RskmError::ConfigWriteError(msg) => assert_eq!(msg, &shown),
        _ => panic!("wrong variant"),
    }
    assert_eq!(err.message(), format!("Failed to write config: {}", shown));
}
