//! The decisions of a node: which blocks it takes, which chain it follows, which
//! peers it keeps and believes, and what its endpoints answer.
#![allow(unused_imports)]

pub mod addrbook;
pub mod addrbook_laws;
pub mod admission;
pub mod ancestor;
pub mod assoc;
pub mod bans;
pub mod chain;
pub mod chain_laws;
pub mod clock;
pub mod dialer;
pub mod download_laws;
pub mod endpoint_laws;
pub mod errors;
pub mod events;
pub mod eviction;
pub mod flows;
pub mod forks;
pub mod future;
pub mod hash;
pub mod hexcodec;
pub mod http;
pub mod ibd;
pub mod identity;
pub mod intake;
pub mod json;
pub mod lex;
pub mod limits;
pub mod net;
pub mod orphans;
pub mod pacing;
pub mod peers_laws;
pub mod pipeline;
pub mod pipeline_laws;
pub mod reader;
pub mod registry;
pub mod routing;
pub mod rpc;
pub mod rpc_laws;
pub mod schedule;
pub mod sse;
pub mod stages;
pub mod subscribers;
pub mod supervisor;
pub mod sync_laws;
pub mod text;
pub mod tip_validation;
pub mod tipcheck;
pub mod tips;
pub mod triggers;
pub mod utxo;
pub mod work;
