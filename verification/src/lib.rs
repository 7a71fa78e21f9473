//! Persistent terminal sessions: the rules of the daemon, its clients and the
//! protocol between them, independent of sockets, processes and clocks.
pub mod attachment;
pub mod base64;
pub mod child;
pub mod client;
pub mod client_archive;
pub mod codec;
pub mod commands;
pub mod conpty;
pub mod controller;
pub mod daemon_archive;
pub mod delivery;
pub mod dto;
pub mod emulator;
pub mod history;
pub mod ids;
pub mod ipc;
pub mod journal;
pub mod layout;
pub mod lease;
pub mod manager;
pub mod menu;
pub mod names;
pub mod order;
pub mod paths;
pub mod presenter;
pub mod proto;
pub mod report;
pub mod reporter;
pub mod requests;
pub mod restart;
pub mod screen;
pub mod server;
pub mod session;
pub mod shell;
pub mod terminal;
pub mod text;
pub mod textmap;
pub mod topology;
pub mod utf8;
