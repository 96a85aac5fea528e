//! R2N: a virtual LAN overlay.
//!
//! A *supernode* hands out rooms, leases and invitations and relays frames that
//! cannot travel directly; an *edge* joins one room, keeps a data plane towards
//! every member and shuttles packets between the overlay and a local TUN or TAP
//! device. This crate holds the decisions both of them make: the wire format,
//! addressing, packet policy, replay protection, switching tables, the two
//! control state machines and their configuration rules. Sockets, devices,
//! clocks and files belong to the program around it.

#![allow(unused_imports)]

pub mod address;
pub mod bytes;
pub mod cli;
pub mod common;
pub mod config;
pub mod crypto;
pub mod dataplane;
pub mod defense;
pub mod discovery;
pub mod edge;
pub mod edge_commands;
pub mod edge_control;
pub mod edge_handshake;
pub mod endpoints;
pub mod ethernet;
pub mod flood;
pub mod history;
pub mod incoming;
pub mod invite;
pub mod ipc;
pub mod json;
pub mod management;
pub mod metrics;
pub mod nat_probe;
pub mod net;
pub mod outgoing;
pub mod packet;
pub mod path;
pub mod policy;
pub mod port_mapping;
pub mod proto;
pub mod qos;
pub mod rendezvous;
pub mod reports;
pub mod rewrite;
pub mod room;
pub mod route;
pub mod slab;
pub mod sort;
pub mod stun;
pub mod supernode;
pub mod table;
pub mod text;
pub mod transport;
pub mod tun;
pub mod upkeep;
