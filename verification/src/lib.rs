//! Verified core of `rushtle`, a tunnel for TCP connections, DNS queries and datagrams
//! that speaks the ssnet protocol over the standard input and output of a remote command.
//!
//! The library decides, and does no input or output: it reads and writes frames, payloads
//! and configuration as bytes and text, and it holds the state machines that a program
//! drives, which say what to do next and are told what came of it.
//!
//! * [`ssnet`]: frames, payloads, the synchronisation header, the delay between frames
//! * [`probe`], [`link`]: whether the link to the server loses frames, and what is done then
//! * [`client`], [`session`]: the connections and the life of a client
//! * [`server`]: the connections of a server, its bootstrap, name servers and hosts
//! * [`conn`], [`relay`]: the life of a connection, and what becomes of its bytes
//! * [`firewall`]: the rules that redirect traffic to a client
//! * [`cli`]: what is decided from the command line
//! * [`text`], [`split`], [`decimal`], [`ip`], [`ip_text`]: texts, numbers and addresses

pub mod decimal;
pub mod ip;
pub mod ip_text;
pub mod split;
pub mod text;

pub mod ssnet;

pub mod link;
pub mod probe;
pub mod relay;

pub mod cli;
pub mod client;
pub mod conn;
pub mod firewall;
pub mod server;
pub mod session;
