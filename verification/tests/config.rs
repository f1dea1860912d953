use cmppprotocol::connection::handshake::check_settings;
use cmppprotocol::connection::timing::{
    check_interval, limits_of, manual_batch_permits, nanos, submit_retry_batch_size,
    takeover_after, takeover_timeout, LONGEST_TIME,
};
use cmppprotocol::connection::udh::{DEFAULT_UDH_REFERENCE_COOLDOWN, MAX_UDH_REFERENCE_COOLDOWN};
use cmppprotocol::{CmppConfig, CmppProtocolParams, Error, CMPP_VERSION_20};

fn config() -> CmppConfig {
    CmppConfig {
        host: "127.0.0.1".into(),
        port: 7890,
        account: "901234".into(),
        password: "secret".into(),
        version: CMPP_VERSION_20,
        protocol_params: CmppProtocolParams::default(),
    }
}

fn fault(change: fn(&mut CmppConfig)) -> String {
    let mut c = config();
    change(&mut c);
    c.validate().unwrap_err()
}

#[test]
fn the_default_parameters_are_the_recommended_ones() {
    let p = CmppProtocolParams::default();
    assert_eq!(p.heartbeat_interval, 180);
    assert_eq!(p.response_timeout, 60);
    assert_eq!(p.retry_count, 3);
    assert_eq!(p.window_size, 16);
    assert_eq!(p.connect_timeout, 10);
    assert_eq!(p.read_idle_timeout, 300);
    assert!(p.verify_authenticator);
    assert!(p.validate().is_ok());
    assert!(config().validate().is_ok());
}

#[test]
fn each_fault_of_a_configuration_is_named() {
    assert_eq!(fault(|c| c.host.clear()), "host 不能为空");
    assert_eq!(fault(|c| c.port = 0), "port 必须在 1 到 65535 之间");
    assert_eq!(fault(|c| c.port = 65536), "port 必须在 1 到 65535 之间");
    assert_eq!(fault(|c| c.account.clear()), "account 不能为空");
    assert_eq!(
        fault(|c| c.account = "9012345".into()),
        "account 长度不能超过 6 bytes"
    );
    assert_eq!(
        fault(|c| c.account = "中文三".into()),
        "account 长度不能超过 6 bytes"
    );
    assert_eq!(fault(|c| c.password.clear()), "password 不能为空");
    assert_eq!(
        fault(|c| c.version = 0x30),
        "仅支持 CMPP 2.0（version 0x20）"
    );
    assert_eq!(
        fault(|c| c.protocol_params.heartbeat_interval = 0),
        "heartbeat_interval 不能为 0"
    );
    assert_eq!(
        fault(|c| c.protocol_params.response_timeout = 0),
        "response_timeout 不能为 0"
    );
    assert_eq!(
        fault(|c| c.protocol_params.retry_count = 0),
        "retry_count 不能为 0"
    );
    assert_eq!(
        fault(|c| c.protocol_params.window_size = 257),
        "window_size 必须在 1 到 256 之间"
    );
    assert_eq!(
        fault(|c| c.protocol_params.window_size = 0),
        "window_size 必须在 1 到 256 之间"
    );
    assert_eq!(
        fault(|c| c.protocol_params.connect_timeout = 0),
        "connect_timeout 不能为 0"
    );
    assert_eq!(
        fault(|c| c.protocol_params.read_idle_timeout = 0),
        "read_idle_timeout 不能为 0"
    );
}

#[test]
fn settings_include_the_cooldown() {
    assert!(check_settings(&config(), DEFAULT_UDH_REFERENCE_COOLDOWN).is_ok());
    assert!(check_settings(&config(), 1).is_ok());
    assert!(check_settings(&config(), MAX_UDH_REFERENCE_COOLDOWN).is_ok());
    for cooldown in [0, MAX_UDH_REFERENCE_COOLDOWN + 1] {
        match check_settings(&config(), cooldown) {
            Err(Error::Config(text)) => {
                assert_eq!(text, "UDH reference cooldown 必须在 1ns 到 24h 之间")
            }
            other => panic!("unexpected {:?}", other),
        }
    }
    let mut bad = config();
    bad.host.clear();
    match check_settings(&bad, 0) {
        Err(Error::Config(text)) => assert_eq!(text, "host 不能为空"),
        other => panic!("unexpected {:?}", other),
    }
}

#[test]
fn derived_numbers_follow_the_parameters() {
    assert_eq!(submit_retry_batch_size(16), 4);
    assert_eq!(submit_retry_batch_size(17), 5);
    assert_eq!(submit_retry_batch_size(1), 1);
    assert_eq!(manual_batch_permits(1), 1);
    assert_eq!(manual_batch_permits(16), 4);
    assert_eq!(nanos(60), 60_000_000_000);
    assert_eq!(check_interval(nanos(60)), 1_000_000_000);
    assert_eq!(check_interval(nanos(1)), 250_000_000);
    assert_eq!(takeover_after(nanos(60)), nanos(181));
    assert_eq!(takeover_after(LONGEST_TIME), LONGEST_TIME);
    assert_eq!(takeover_timeout(nanos(60)), nanos(300));
    assert_eq!(takeover_timeout(LONGEST_TIME), LONGEST_TIME);
    let limits = limits_of(&CmppProtocolParams::default());
    assert_eq!(limits.response_timeout, 60_000_000_000);
    assert_eq!(limits.retry_count, 3);
    assert_eq!(limits.window_size, 16);
    assert_eq!(limits.submit_retry_batch_size, 4);
}

#[test]
fn errors_have_messages() {
    let messages = vec![
        (Error::Decode("x".into()), "decode 错误: x"),
        (Error::Connect("x".into()), "connect 失败: x"),
        (Error::Auth(3), "认证失败，status=3"),
        (
            Error::AuthenticatorMismatch,
            "CONNECT_RESP 中的 AuthenticatorISMG 不匹配",
        ),
        (Error::Timeout, "response 超时"),
        (Error::Closed, "connection 已关闭"),
        (Error::ChannelClosed, "send channel 已关闭"),
        (Error::Terminated, "由 peer 终止"),
        (Error::Config("x".into()), "config 无效: x"),
    ];
    for (error, text) in messages {
        assert_eq!(error.message(), text);
    }
    let io = Error::from(std::io::Error::new(std::io::ErrorKind::Other, "broken"));
    assert_eq!(io.message(), "I/O 错误: broken");
}
