//! The verified core of pnpd, the network policy daemon: the packet ring, the
//! verdict stream, the wire tap's decisions, the policy authoring rules and
//! every piece of text the daemon serves.

pub mod authoring_laws;
pub mod bytes;
pub mod capture;
pub mod engine;
pub mod fanout;
pub mod frame_laws;
pub mod http;
pub mod json;
pub mod json_read;
pub mod live_laws;
pub mod log;
pub mod policy;
pub mod policy_laws;
pub mod query_laws;
pub mod record_laws;
pub mod report;
pub mod request_laws;
pub mod ring;
pub mod sha1;
pub mod shown_laws;
pub mod sid;
pub mod sid_laws;
pub mod split_laws;
pub mod stream;
pub mod stream_laws;
pub mod text;
pub mod text_laws;
pub mod tree_laws;
pub mod walk;
pub mod walk_laws;
