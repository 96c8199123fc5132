use minimq::config::{Buffers, ConfigBuilder, SetupError, DEFAULT_KEEPALIVE_SECS};
use minimq::packets::Will;
use minimq::ProtocolError;

#[test]
fn split_buffer() {
    let mut buffer = [0; 30];
    let buffers = Buffers::split(&mut buffer, 10).unwrap();
    assert_eq!(buffers.rx().len(), 10);
    assert_eq!(buffers.tx().len(), 20);
}

#[test]
fn split_too_large() {
    let mut buffer = [0; 30];
    assert!(matches!(Buffers::split(&mut buffer, 31), Err(SetupError::BufferSplit)));
}

#[test]
fn split_keeps_bytes_in_order() {
    let mut buffer = [1, 2, 3, 4, 5];
    let buffers = Buffers::split(&mut buffer, 2).unwrap();
    assert_eq!(buffers.rx(), &[1, 2]);
    assert_eq!(buffers.tx(), &[3, 4, 5]);
}

#[test]
fn builder() {
    let mut rx = [0; 10];
    let mut tx = [0; 20];
    let (buffers, will, client_id, keepalive, expiry, downgrade, auth) =
        ConfigBuilder::new(Buffers::new(&mut rx, &mut tx)).into_parts();
    assert_eq!(buffers.rx().len(), 10);
    assert_eq!(buffers.tx().len(), 20);
    assert!(will.is_none());
    assert!(client_id.is_empty());
    assert!(auth.is_none());
    assert_eq!(keepalive, DEFAULT_KEEPALIVE_SECS);
    assert_eq!(expiry, u32::MAX);
    assert!(!downgrade);
}

#[test]
fn will_does_not_consume_tx_buffer() {
    let mut rx = [0; 10];
    let mut tx = [0; 20];
    let will = Will::new("topic", b"x", &[]).unwrap();
    let (buffers, will, _, _, _, _, _) = ConfigBuilder::new(Buffers::new(&mut rx, &mut tx))
        .will(will)
        .unwrap()
        .into_parts();
    assert_eq!(buffers.tx().len(), 20);
    assert!(will.is_some());
}

#[test]
fn second_will_or_auth_is_refused() {
    let mut rx = [0; 10];
    let mut tx = [0; 20];
    let will = Will::new("topic", b"x", &[]).unwrap();
    let config = ConfigBuilder::new(Buffers::new(&mut rx, &mut tx)).will(will).unwrap();
    assert!(matches!(config.will(will), Err(ProtocolError::WillAlreadySpecified)));

    let mut rx = [0; 10];
    let mut tx = [0; 20];
    let config = ConfigBuilder::new(Buffers::new(&mut rx, &mut tx)).auth("user", b"pw").unwrap();
    assert!(matches!(config.auth("user", b"pw"), Err(ProtocolError::AuthAlreadySpecified)));
}

#[test]
fn client_id_must_fit() {
    let mut rx = [0; 10];
    let mut tx = [0; 20];
    let long = "x".repeat(65);
    let config = ConfigBuilder::new(Buffers::new(&mut rx, &mut tx));
    assert!(matches!(config.client_id(&long), Err(ProtocolError::ProvidedClientIdTooLong)));

    let mut rx = [0; 10];
    let mut tx = [0; 20];
    let config = ConfigBuilder::new(Buffers::new(&mut rx, &mut tx))
        .client_id("device-1")
        .unwrap()
        .keepalive_interval(30)
        .session_expiry_interval(0)
        .autodowngrade_qos();
    assert_eq!(config.rx_len(), 10);
    assert_eq!(config.tx_len(), 20);
    let (_, _, client_id, keepalive, expiry, downgrade, _) = config.into_parts();
    assert_eq!(client_id.as_str(), "device-1");
    assert_eq!(keepalive, 30);
    assert_eq!(expiry, 0);
    assert!(downgrade);
}

#[test]
fn from_buffer_splits_the_storage() {
    let mut buffer = [0u8; 30];
    let config = ConfigBuilder::from_buffer(&mut buffer, 12).unwrap();
    assert_eq!(config.rx_len(), 12);
    assert_eq!(config.tx_len(), 18);
    let mut small = [0u8; 4];
    assert!(matches!(ConfigBuilder::from_buffer(&mut small, 5), Err(SetupError::BufferSplit)));
}
