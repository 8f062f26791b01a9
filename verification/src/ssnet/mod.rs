//! The ssnet wire protocol.
//!
//! A frame is a header of eight bytes and a payload:
//!
//! * magic: `b"SS"`, two bytes
//! * channel: `u16`, big endian; zero is the control channel
//! * command: `u16`, big endian
//! * payload length: `u16`, big endian
//! * payload
//!
//! Before the first frame the server writes a synchronisation header.

pub mod delay;
pub mod frame;
pub mod payload;
pub mod sync;

pub use self::delay::{
    frame_delay, frame_delay_us, init_frame_delay_from_env, set_frame_delay_us, FrameDelay,
};
pub use self::frame::{
    read_frame, write_frame, Frame, FrameError, AF_INET, AF_INET6, CHUNK, CMD_DNS_REQ,
    CMD_DNS_RESPONSE, CMD_EXIT, CMD_HOST_LIST, CMD_HOST_REQ, CMD_PING, CMD_PONG, CMD_ROUTES,
    CMD_TCP_CONNECT, CMD_TCP_DATA, CMD_TCP_EOF, CMD_TCP_STOP_SENDING, CMD_UDP_CLOSE, CMD_UDP_DATA,
    CMD_UDP_OPEN, HDR_LEN, MAGIC, MAX_PAYLOAD,
};
pub use self::payload::{
    encode_connect, encode_host_list, encode_udp_data, parse_connect, parse_udp_data,
    ConnectError, ConnectTarget, UdpDataError,
};
pub use self::sync::{read_sync_header, SyncError, SYNC_HEADER};
