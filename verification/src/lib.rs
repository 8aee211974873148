//! DNS agent and control plane: the wire format, the scheduling rules and the
//! decisions that the binaries around this library carry out.

pub mod agent;
pub mod backoff;
pub mod concurrency;
pub mod control_plane;
pub mod dispatcher;
pub mod double;
pub mod http;
pub mod kinds;
pub mod lease_extender;
pub mod message;
pub mod nearness;
pub mod net;
pub mod observation;
pub mod packet;
pub mod proxy;
pub mod rate;
pub mod record;
pub mod resolver;
pub mod runtime;
pub mod sharing;
pub mod sort;
pub mod text;
pub mod workers;

pub use message::{Dns, DnsHeader, Flags, Opcode, Question, ResultCode};
pub use packet::{BytePacketBuf, PacketError, MAX_PACKET_SIZE};
pub use record::{DnsRecord, QueryType, ResourceRecord};
