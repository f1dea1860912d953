//! Connection settings and their validation.
use vstd::prelude::*;
use vstd::string::*;
use vstd::utf8::encode_utf8;

use crate::types::CMPP_VERSION_20;

verus! {

/// Timing and window parameters of a link.
#[derive(Debug, Clone)]
pub struct CmppProtocolParams {
    /// Seconds between two ACTIVE_TEST probes.
    pub heartbeat_interval: u64,
    /// Seconds to wait for a response.
    pub response_timeout: u64,
    /// How often a request is sent in all: the first time and `retry_count - 1` repeats.
    pub retry_count: u32,
    /// SUBMITs that may await a response at the same time.
    pub window_size: usize,
    /// Seconds to wait for the TCP connection and for each handshake step.
    pub connect_timeout: u64,
    /// Seconds without inbound traffic after which the link is given up.
    pub read_idle_timeout: u64,
    /// Whether `AuthenticatorISMG` is checked. Some gateways leave it zero.
    pub verify_authenticator: bool,
}

impl Default for CmppProtocolParams {
    fn default() -> (params: Self)
        ensures
            params == (CmppProtocolParams {
                heartbeat_interval: 180,
                response_timeout: 60,
                retry_count: 3,
                window_size: 16,
                connect_timeout: 10,
                read_idle_timeout: 300,
                verify_authenticator: true,
            }),
    {
        CmppProtocolParams {
            heartbeat_interval: 180,
            response_timeout: 60,
            retry_count: 3,
            window_size: 16,
            connect_timeout: 10,
            read_idle_timeout: 300,
            verify_authenticator: true,
        }
    }
}

impl CmppProtocolParams {
    /// The first thing wrong with the parameters, if anything is.
    pub open spec fn fault(self) -> Option<Seq<char>> {
        if self.heartbeat_interval == 0 {
            Some("heartbeat_interval 不能为 0"@)
        } else if self.response_timeout == 0 {
            Some("response_timeout 不能为 0"@)
        } else if self.retry_count == 0 {
            Some("retry_count 不能为 0"@)
        } else if self.window_size == 0 || self.window_size > 256 {
            Some("window_size 必须在 1 到 256 之间"@)
        } else if self.connect_timeout == 0 {
            Some("connect_timeout 不能为 0"@)
        } else if self.read_idle_timeout == 0 {
            Some("read_idle_timeout 不能为 0"@)
        } else {
            None
        }
    }

    /// Checks the parameters; the error names the first fault.
    pub fn validate(&self) -> (result: std::result::Result<(), String>)
        ensures
            match self.fault() {
                None => result is Ok,
                Some(text) => result matches Err(m) && m@ == text,
            },
    {
        if self.heartbeat_interval == 0 {
            return Err("heartbeat_interval 不能为 0".to_string());
        }
        if self.response_timeout == 0 {
            return Err("response_timeout 不能为 0".to_string());
        }
        if self.retry_count == 0 {
            return Err("retry_count 不能为 0".to_string());
        }
        if self.window_size == 0 || self.window_size > 256 {
            return Err("window_size 必须在 1 到 256 之间".to_string());
        }
        if self.connect_timeout == 0 {
            return Err("connect_timeout 不能为 0".to_string());
        }
        if self.read_idle_timeout == 0 {
            return Err("read_idle_timeout 不能为 0".to_string());
        }
        Ok(())
    }
}

/// Everything needed to connect to an ISMG.
#[derive(Debug, Clone)]
pub struct CmppConfig {
    /// Server address.
    pub host: String,
    /// Server port.
    pub port: i32,
    /// Account, sent as Source_Addr (the SP id).
    pub account: String,
    /// Shared secret.
    pub password: String,
    /// Protocol version; only CMPP 2.0 (0x20) is supported.
    pub version: u8,
    /// Timing and window parameters.
    pub protocol_params: CmppProtocolParams,
}

impl CmppConfig {
    /// The first thing wrong with the configuration, if anything is.
    pub open spec fn fault(self) -> Option<Seq<char>> {
        if self.host@.len() == 0 {
            Some("host 不能为空"@)
        } else if self.port < 1 || self.port > 65535 {
            Some("port 必须在 1 到 65535 之间"@)
        } else if self.account@.len() == 0 {
            Some("account 不能为空"@)
        } else if encode_utf8(self.account@).len() > 6 {
            Some("account 长度不能超过 6 bytes"@)
        } else if self.password@.len() == 0 {
            Some("password 不能为空"@)
        } else if self.version != CMPP_VERSION_20 {
            Some("仅支持 CMPP 2.0（version 0x20）"@)
        } else {
            self.protocol_params.fault()
        }
    }

    /// Checks the configuration; the error names the first fault.
    pub fn validate(&self) -> (result: std::result::Result<(), String>)
        ensures
            match self.fault() {
                None => result is Ok,
                Some(text) => result matches Err(m) && m@ == text,
            },
    {
        if self.host.as_str().is_empty() {
            return Err("host 不能为空".to_string());
        }
        if self.port < 1 || self.port > 65535 {
            return Err("port 必须在 1 到 65535 之间".to_string());
        }
        if self.account.as_str().is_empty() {
            return Err("account 不能为空".to_string());
        }
        if self.account.as_str().as_bytes().len() > 6 {
            return Err("account 长度不能超过 6 bytes".to_string());
        }
        if self.password.as_str().is_empty() {
            return Err("password 不能为空".to_string());
        }
        if self.version != CMPP_VERSION_20 {
            return Err("仅支持 CMPP 2.0（version 0x20）".to_string());
        }
        self.protocol_params.validate()?;
        Ok(())
    }
}

// ---- laws ----

/// Parameters are in order when every time and the number of attempts is at least 1 and the
/// window is 1 to 256.
pub proof fn parameters_in_order(params: CmppProtocolParams)
    ensures
        params.fault() is None <==> {
            &&& 1 <= params.heartbeat_interval
            &&& 1 <= params.response_timeout
            &&& 1 <= params.retry_count
            &&& 1 <= params.window_size <= 256
            &&& 1 <= params.connect_timeout
            &&& 1 <= params.read_idle_timeout
        },
{
}

/// A configuration is in order when host, account and password say something, the port is 1 to
/// 65535, the account has at most six bytes, the version is 0x20 and its parameters are in order.
pub proof fn configuration_in_order(config: CmppConfig)
    ensures
        config.fault() is None <==> {
            &&& config.host@.len() > 0
            &&& 1 <= config.port <= 65535
            &&& config.account@.len() > 0
            &&& encode_utf8(config.account@).len() <= 6
            &&& config.password@.len() > 0
            &&& config.version == 0x20
            &&& config.protocol_params.fault() is None
        },
{
}

/// The fault that is named is the first in the order heartbeat, response, attempts, window,
/// connecting, reading, whatever else is wrong.
pub proof fn first_parameter_fault_is_named(params: CmppProtocolParams)
    ensures
        ({
            let one = params.heartbeat_interval >= 1;
            let two = one && params.response_timeout >= 1;
            let three = two && params.retry_count >= 1;
            let four = three && 1 <= params.window_size <= 256;
            let five = four && params.connect_timeout >= 1;
            &&& !one ==> params.fault() == Some("heartbeat_interval 不能为 0"@)
            &&& one && !two ==> params.fault() == Some("response_timeout 不能为 0"@)
            &&& two && !three ==> params.fault() == Some("retry_count 不能为 0"@)
            &&& three && !four ==> params.fault() == Some("window_size 必须在 1 到 256 之间"@)
            &&& four && !five ==> params.fault() == Some("connect_timeout 不能为 0"@)
            &&& five && params.read_idle_timeout == 0 ==> params.fault() == Some(
                "read_idle_timeout 不能为 0"@,
            )
        }),
{
}

/// The fault that is named is the first in the order host, port, account, password, version,
/// parameters, whatever else is wrong.
pub proof fn first_configuration_fault_is_named(config: CmppConfig)
    ensures
        ({
            let one = config.host@.len() > 0;
            let two = one && 1 <= config.port <= 65535;
            let three = two && config.account@.len() > 0;
            let four = three && encode_utf8(config.account@).len() <= 6;
            let five = four && config.password@.len() > 0;
            let six = five && config.version == 0x20;
            &&& !one ==> config.fault() == Some("host 不能为空"@)
            &&& one && !two ==> config.fault() == Some("port 必须在 1 到 65535 之间"@)
            &&& two && !three ==> config.fault() == Some("account 不能为空"@)
            &&& three && !four ==> config.fault() == Some("account 长度不能超过 6 bytes"@)
            &&& four && !five ==> config.fault() == Some("password 不能为空"@)
            &&& five && !six ==> config.fault() == Some("仅支持 CMPP 2.0（version 0x20）"@)
            &&& six ==> config.fault() == config.protocol_params.fault()
        }),
{
}

} // verus!
