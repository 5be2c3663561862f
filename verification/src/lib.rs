//! Core of a rule-based, multi-protocol network proxy.
//!
//! The library models the proxy's decision logic: the outbound handler
//! graph and its tag-indexed manager, the routing rules, the UDP NAT
//! table, the fake-DNS address pool, the per-flow dispatch decisions,
//! and the control-plane error codes. Network and platform I/O live
//! outside the library and hand it plain values.

use vstd::prelude::*;

mod combinators;
mod config;
mod copy;
mod dispatcher;
mod dnscache;
mod errors;
mod fakedns;
mod logger;
mod manager;
mod natmgr;
mod router;
mod runtime;
mod selector;
mod strutil;
mod types;
mod winutil;

pub use dnscache::prefer_family;
pub use dnscache::DnsCache;
pub use dnscache::DnsCacheEntry;
pub use dnscache::QueryType;
pub use runtime::Instance;
pub use runtime::RuntimeManager;
pub use winutil::to_u16s;
pub use winutil::unrolled_find_u16s;
pub use winutil::ReceiverInfo;

pub use combinators::attempt_actor;
pub use combinators::failover_dispatch;
pub use combinators::priority_order;
pub use combinators::random_pick;
pub use combinators::retry_dispatch;
pub use combinators::tryall_winner;
pub use combinators::AmuxState;
pub use combinators::FallbackCache;
pub use combinators::FallbackEntry;
pub use copy::copy_direction;
pub use copy::CopyAction;
pub use copy::DirectionCopier;
pub use dispatcher::dispatch_tcp;
pub use dispatcher::dispatch_udp;
pub use dispatcher::resolve_selected;
pub use dispatcher::route_query_of_flow;
pub use dispatcher::effective_destination;
pub use dispatcher::select_handler;
pub use fakedns::build_dns_answer;
pub use fakedns::fake_dns_mode_from_lists;
pub use fakedns::FakeDns;
pub use fakedns::FakeDnsMode;
pub use logger::log_out;
pub use logger::log_text;
pub use logger::ConsoleLogger;
pub use logger::ConsoleWriter;
pub use logger::LogLevel;
pub use natmgr::NatEntry;
pub use natmgr::NatManager;
pub use router::RouteQuery;
pub use router::Router;
pub use router::Rule;
pub use router::RulePredicate;

pub use manager::Handler;
pub use manager::Handlers;
pub use manager::OutboundManager;
pub use selector::OutboundSelector;

pub use config::override_binds;
pub use config::Outbound;
pub use config::Protocol;
pub use config::ProtocolKind;
pub use types::Destination;
pub use types::Flow;
pub use types::IpAddress;
pub use types::Network;
pub use types::SocketAddress;
pub use errors::Error;
pub use errors::to_errno;
pub use errors::ERR_OK;
pub use errors::ERR_CONFIG_PATH;
pub use errors::ERR_CONFIG;
pub use errors::ERR_IO;
pub use errors::ERR_WATCHER;
pub use errors::ERR_ASYNC_CHANNEL_SEND;
pub use errors::ERR_SYNC_CHANNEL_RECV;
pub use errors::ERR_RUNTIME_MANAGER;
pub use errors::ERR_NO_CONFIG_FILE;

verus! {

} // verus!
