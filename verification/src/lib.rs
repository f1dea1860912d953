//! A verified CMPP 2.0 client library: the messages and their bytes, the character sets and the
//! splitting of long messages, and the state of a connection to a gateway (ISMG).
pub mod buffer;
pub mod codec;
pub mod config;
pub mod connection;
pub mod encoding;
pub mod error;
pub mod octets;
pub mod pdu;
pub mod submit;
pub mod text;
pub mod types;
pub mod wire;

pub use codec::CmppFrameCodec;
pub use config::{CmppConfig, CmppProtocolParams};
pub use connection::events::Event;
pub use encoding::decode_msg_content;
pub use error::{Error, Result};
pub use pdu::{
    compute_authenticator_ismg, compute_authenticator_source, Connect, ConnectResp, Deliver,
    DeliverReport, DeliverResp, Frame, Pdu, Submit, SubmitResp,
};
pub use submit::SubmitOptions;
pub use types::{
    CmppHeader, CMPP_ACTIVE_TEST, CMPP_ACTIVE_TEST_RESP, CMPP_CONNECT, CMPP_CONNECT_RESP,
    CMPP_DELIVER, CMPP_DELIVER_RESP, CMPP_HEADER_LENGTH, CMPP_SUBMIT, CMPP_SUBMIT_RESP,
    CMPP_TERMINATE, CMPP_TERMINATE_RESP, CMPP_VERSION_20,
};
