pub mod dag;
pub mod endpoint;
pub mod error;
pub mod segments;
pub mod text;
pub mod topic_match;

pub mod json;
pub mod codec;
pub mod session;
pub mod contracts;
pub mod transport;
pub mod time;
pub mod client;
pub mod server;
pub mod connectors;
pub mod records;
pub mod link_codec;
pub mod record_key;
pub mod pumps;
pub mod links;
pub mod framing;
pub mod codec_laws;
pub mod dispatch;
pub mod pattern_rule;
