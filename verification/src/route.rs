//! Routes to the virtual network.

use crate::net::{net_start, Ipv4Net};
use vstd::prelude::*;

verus! {

/// The weight of a route, where routes have one: the lower the more preferred.
pub const ROUTE_METRIC: u32 = 5;

/// What can go wrong with a route; an error of the system comes in words.
#[derive(Debug, PartialEq, Eq)]
pub enum RouteError {
    Io(String),
    Failed(String),
}

impl RouteError {
    pub fn to_text(&self) -> (s: String)
        ensures
            s@ == match *self {
                RouteError::Io(e) => "IO error: "@ + e@,
                RouteError::Failed(e) => "Route manipulation failed: "@ + e@,
            },
    {
        match self {
            RouteError::Io(e) => "IO error: ".to_string().concat(e.as_str()),
            RouteError::Failed(e) => "Route manipulation failed: ".to_string().concat(e.as_str()),
        }
    }
}

/// A route that is to be added or removed.
#[derive(Debug, Clone, Copy, PartialEq, Eq, Structural)]
pub struct RoutePlan {
    pub destination: u32,
    pub prefix: u8,
    pub interface_index: u32,
    pub metric: Option<u32>,
}

/// The route to a network over an interface, given the number of the interface,
/// if it is known, and whether routes have a weight.
pub fn build_route(
    dest: &Ipv4Net,
    interface_name: &str,
    interface_index: Option<u32>,
    weighted: bool,
) -> (r: Result<RoutePlan, RouteError>)
    requires
        dest.wf(),
    ensures
        match r {
            Ok(p) => {
                &&& interface_index is Some
                &&& p.destination == net_start(*dest)
                &&& p.prefix == dest.prefix
                &&& p.interface_index == interface_index->0
                &&& p.metric == if weighted {
                    Some(ROUTE_METRIC)
                } else {
                    None::<u32>
                }
            },
            Err(e) => {
                &&& interface_index is None
                &&& e is Failed
                &&& e->Failed_0@ == "unknown interface: "@ + interface_name@
            },
        },
{
    match interface_index {
        Some(interface_index) => Ok(
            RoutePlan {
                destination: dest.network(),
                prefix: dest.prefix,
                interface_index,
                metric: if weighted {
                    Some(ROUTE_METRIC)
                } else {
                    None
                },
            },
        ),
        None => Err(
            RouteError::Failed("unknown interface: ".to_string().concat(interface_name)),
        ),
    }
}

/// What the system made of a request for a route, with its words where it failed.
#[derive(Debug)]
pub enum SystemReply {
    Done,
    AlreadyExists(String),
    NotFound(String),
    Failed(String),
}

/// What comes of adding a route: one that is there already is as good.
pub fn add_result(reply: SystemReply) -> (r: Result<(), RouteError>)
    ensures
        r is Ok <==> reply is Done || reply is AlreadyExists,
        reply is Failed ==> r is Err && r->Err_0 == RouteError::Io(reply->Failed_0),
        reply is NotFound ==> r is Err && r->Err_0 == RouteError::Io(reply->NotFound_0),
{
    match reply {
        SystemReply::Done | SystemReply::AlreadyExists(_) => Ok(()),
        SystemReply::NotFound(e) | SystemReply::Failed(e) => Err(RouteError::Io(e)),
    }
}

/// What comes of removing a route: one that is not there is as good as removed.
pub fn remove_result(reply: SystemReply) -> (r: Result<(), RouteError>)
    ensures
        r is Ok <==> reply is Done || reply is NotFound,
        reply is Failed ==> r is Err && r->Err_0 == RouteError::Io(reply->Failed_0),
        reply is AlreadyExists ==> r is Err && r->Err_0 == RouteError::Io(reply->AlreadyExists_0),
{
    match reply {
        SystemReply::Done | SystemReply::NotFound(_) => Ok(()),
        SystemReply::AlreadyExists(e) | SystemReply::Failed(e) => Err(RouteError::Io(e)),
    }
}

} // verus!
