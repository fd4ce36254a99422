//! Verified core of an audio routing mixer on PipeWire: routing rules and
//! name matching, node naming and lookup, port linking plans, configuration
//! paths and presets, the ring buffer between plugin streams, meter and
//! command-line bookkeeping, the daemon connection loop, version checks,
//! report names and the calendar behind them, small text parsers, and the
//! mixer's decisions: user actions and daemon messages, graph events and
//! auto-routing, and the plugin chains of the channels.

pub mod text;
pub mod glob;
pub mod regex_support;
pub mod routing_rules;
pub mod parse;
pub mod virtual_sink;
pub mod pw_dump;
pub mod diagnostics;
pub mod app_config;
pub mod meter;
pub mod persistence;
pub mod errors;
pub mod preset;
pub mod volume;
pub mod filter_chain;
pub mod cli_throttle;
pub mod daemon_client;
pub mod plugin_stream;
pub mod graph;
pub mod meter_links;
pub mod mixer;
pub mod graph_events;
pub mod plugin_manager;
pub mod plugin_chain;
