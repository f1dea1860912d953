//! The login: what is checked before it, what is sent, and what the answer must be.
use bytes::Bytes;
use vstd::prelude::*;
use vstd::string::*;

use crate::buffer::frozen_contents;
use crate::config::CmppConfig;
use crate::connection::udh::MAX_UDH_REFERENCE_COOLDOWN;
use crate::error::{Error, Result};
use crate::pdu::{
    authenticator_ismg, authenticator_source, compute_authenticator_ismg, is_timestamp, Connect,
    ConnectResp, Frame, Pdu,
};
use crate::text::{fixed_digits, push_fixed_digits};
use crate::wire::PduView;

verus! {

/// The sequence id of the CONNECT.
pub const CONNECT_SEQUENCE_ID: u32 = 1;

/// What is wrong with the settings of a connection, if anything is.
pub open spec fn settings_fault(config: CmppConfig, cooldown: u128) -> Option<Seq<char>> {
    match config.fault() {
        Some(fault) => Some(fault),
        None => if cooldown == 0 || cooldown > MAX_UDH_REFERENCE_COOLDOWN {
            Some("UDH reference cooldown 必须在 1ns 到 24h 之间"@)
        } else {
            None
        },
    }
}

/// Checks the settings of a connection.
pub fn check_settings(config: &CmppConfig, cooldown: u128) -> (result: Result<()>)
    ensures
        match settings_fault(*config, cooldown) {
            None => result is Ok,
            Some(text) => result matches Err(e) && e.is_config(text),
        },
{
    match config.validate() {
        Ok(()) => {},
        Err(text) => {
            return Err(Error::Config(text));
        },
    }
    if cooldown == 0 || cooldown > MAX_UDH_REFERENCE_COOLDOWN {
        return Err(
            Error::Config("UDH reference cooldown 必须在 1ns 到 24h 之间".to_string()),
        );
    }
    Ok(())
}

/// The CONNECT of a configuration, stamped with the present time, and its bytes.
pub fn login(config: &CmppConfig) -> (request: (Connect, Bytes))
    ensures
        request.0@.source_addr == config.account@,
        request.0@.version == config.version,
        is_timestamp(request.0@.timestamp),
        request.0@.authenticator_source == authenticator_source(
            config.account@,
            config.password@,
            request.0@.timestamp,
        ),
        frozen_contents(request.1) == PduView::Connect(request.0@).frame(CONNECT_SEQUENCE_ID),
        frozen_contents(request.1) == PduView::Connect(request.0@).frame(1),
{
    let connect: Connect = Connect::new(
        config.account.as_str(),
        config.password.as_str(),
        config.version,
    );
    let copy: Connect = Connect {
        source_addr: connect.source_addr.clone(),
        authenticator_source: connect.authenticator_source,
        version: connect.version,
        timestamp: connect.timestamp,
    };
    let packet: Bytes = Pdu::Connect(copy).encode(CONNECT_SEQUENCE_ID);
    (connect, packet)
}

/// The text of the error for a frame that is no CONNECT_RESP.
pub open spec fn not_connect_resp_text(command_id: u32) -> Seq<char> {
    "期望 CONNECT_RESP，实际收到 command 0x"@ + fixed_digits(command_id as nat, 16, 8)
}

/// Whether two digests are the same.
fn same_digest(a: &[u8; 16], b: &[u8; 16]) -> (same: bool)
    ensures
        same == (a@ == b@),
{
    let mut i: usize = 0;
    while i < 16
        invariant
            i <= 16,
            forall|j: int| 0 <= j < i ==> a@[j] == b@[j],
        decreases 16 - i,
    {
        if a[i] != b[i] {
            return false;
        }
        i = i + 1;
    }
    assert(a@ =~= b@);
    true
}

/// Checks the answer to a CONNECT: it must be a CONNECT_RESP, its status 0 and, if that is asked
/// for, its digest the one that only who knows the shared secret can tell.
pub fn check_connect_resp(
    frame: Frame,
    source: &[u8; 16],
    shared_secret: &str,
    verify_authenticator: bool,
) -> (result: Result<ConnectResp>)
    ensures
        match frame.pdu {
            Pdu::ConnectResp(resp) => if resp.status != 0 {
                result matches Err(Error::Auth(status)) && status == resp.status
            } else if verify_authenticator && resp.authenticator_ismg@ != authenticator_ismg(
                0,
                source@,
                shared_secret@,
            ) {
                result matches Err(Error::AuthenticatorMismatch)
            } else {
                result matches Ok(r) && r == resp
            },
            other => result matches Err(e) && e.is_connect(
                not_connect_resp_text(other@.command_id()),
            ),
        },
{
    let resp: ConnectResp = match frame.pdu {
        Pdu::ConnectResp(resp) => resp,
        other => {
            let mut text: String = "期望 CONNECT_RESP，实际收到 command 0x".to_string();
            push_fixed_digits(&mut text, other.command_id(), 16, 8);
            return Err(Error::Connect(text));
        },
    };
    if resp.status != 0 {
        return Err(Error::Auth(resp.status));
    }
    if verify_authenticator {
        let expected: [u8; 16] = compute_authenticator_ismg(resp.status, source, shared_secret);
        if !same_digest(&resp.authenticator_ismg, &expected) {
            return Err(Error::AuthenticatorMismatch);
        }
    }
    Ok(resp)
}

// ---- laws ----

/// A connection can be set up where its configuration is in order and a reference rests for
/// at least a nanosecond and at most a day; the configuration is looked at first.
pub proof fn settings_in_order(config: CmppConfig, cooldown: u128)
    ensures
        settings_fault(config, cooldown) is None <==> config.fault() is None && 1 <= cooldown
            <= 24 * 60 * 60 * 1_000_000_000,
        config.fault() is Some ==> settings_fault(config, cooldown) == config.fault(),
{
}

} // verus!
