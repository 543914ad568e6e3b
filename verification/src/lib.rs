//! Publishing game servers on a private network through a rented server.
//!
//! An agent at home keeps a WireGuard tunnel open to a gateway with a public
//! address. Players resolve a subdomain to the gateway, which passes their
//! traffic down the tunnel. This crate is what both halves decide: which edge
//! port and which tunnel address is handed out, what is stored, which DNS
//! records and firewall rules should exist, who may ask for what, and which
//! listeners an agent should run. Each decision is a function whose contract
//! is proved; the programs around it do the reading, sending and listening.
//!
//! - Values: [`addr`], [`ids`], [`clock`], [`net`], [`model`], [`api`].
//! - Text and tables: [`text`], [`number`], [`encoding`], [`table`].
//! - Secrets: [`token`], [`wg`].
//! - The gateway: [`allocator`], [`plan`], [`rows`], [`store`], [`http`],
//!   [`config`], [`profile`].
//! - What the gateway drives: [`dns`], [`cloudflare`], [`nft`], [`wgctl`].
//! - The agent: [`client`], [`agent`], [`tunnel`], [`forward`], [`state`],
//!   [`cli`].
//! - What follows from several of these at once: [`dns_laws`],
//!   [`store_laws`].
//! - What each of them is for, stated over all inputs: [`text_laws`],
//!   [`address_laws`], [`plan_laws`], [`profile_laws`], [`traffic_laws`],
//!   [`granting_laws`], [`http_laws`], [`publish_laws`], [`edge_laws`],
//!   [`agent_laws`] and [`message_laws`].
//! - What the functions themselves promise of every call: [`operation_laws`],
//!   [`request_laws`], [`answer_laws`].
pub mod addr;
pub mod address_laws;
pub mod agent;
pub mod agent_laws;
pub mod allocator;
pub mod answer_laws;
pub mod api;
pub mod cli;
pub mod client;
pub mod clock;
pub mod cloudflare;
pub mod config;
pub mod dns;
pub mod dns_laws;
pub mod edge_laws;
pub mod encoding;
pub mod forward;
pub mod granting_laws;
pub mod http;
pub mod http_laws;
pub mod ids;
pub mod message_laws;
pub mod model;
pub mod net;
pub mod nft;
pub mod number;
pub mod operation_laws;
pub mod plan;
pub mod plan_laws;
pub mod profile;
pub mod profile_laws;
pub mod publish_laws;
pub mod request_laws;
pub mod rows;
pub mod state;
pub mod store;
pub mod store_laws;
pub mod table;
pub mod text;
pub mod text_laws;
pub mod token;
pub mod traffic_laws;
pub mod tunnel;
pub mod wg;
pub mod wgctl;
