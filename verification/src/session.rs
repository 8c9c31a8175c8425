//! Connection coordination: the decisions of one proxied connection.
//!
//! Once the inbound handshake has yielded a target, the coordinator picks
//! an upstream from the pool snapshot and carries out the outbound
//! exchange.  This module computes that whole plan — which upstream to
//! dial and the exact frames to send it — from the snapshot and the
//! target; the caller performs the dialing, writing and relaying.

use crate::codec::SocksAddrType;
use crate::codec::SocksAddrView;
use crate::errors::ClientError;
use crate::errors::ClientErrorView;
use crate::inbound::greeting_reply;
use crate::inbound::parse_greeting;
use crate::inbound::parse_request;
use crate::inbound::spec_parse_greeting;
use crate::inbound::spec_parse_request;
use crate::inbound::GreetingStatus;
use crate::inbound::GreetingView;
use crate::inbound::RequestStatus;
use crate::inbound::RequestView;
use crate::outbound::auth_request;
use crate::outbound::connect_request;
use crate::outbound::outbound_greeting;
use crate::outbound::port_bytes;
use crate::pool::ProxyPool;
use crate::proxy::Proxy;
use crate::proxy::SocketAddress;
use vstd::prelude::*;

verus! {

/// What the coordinator does next on the inbound side, as a function of
/// the bytes received so far.
#[derive(Clone, Debug, PartialEq, Eq)]
pub enum InboundStep {
    /// Keep reading from the client.
    Wait,
    /// The greeting is complete: send exactly these bytes to the client,
    /// then keep reading for the request.
    Reply(Vec<u8>),
    /// The handshake failed: send nothing further and drop the connection.
    Abort(ClientError),
    /// The request is complete: open the tunnel to this target.
    Target(SocksAddrType, u16),
}

/// The mathematical model of an [`InboundStep`].
pub enum InboundStepView {
    Wait,
    Reply(Seq<u8>),
    Abort(ClientErrorView),
    Target(SocksAddrView, u16),
}

impl View for InboundStep {
    type V = InboundStepView;

    open spec fn view(&self) -> InboundStepView {
        match self {
            InboundStep::Wait => InboundStepView::Wait,
            InboundStep::Reply(r) => InboundStepView::Reply(r@),
            InboundStep::Abort(e) => InboundStepView::Abort(e@),
            InboundStep::Target(a, p) => InboundStepView::Target(a@, *p),
        }
    }
}

/// The coordinator's inbound decision rule: wait while the exchange is
/// incomplete, answer a completed greeting with the `05 00` reply exactly
/// once, abort on any protocol violation without sending anything further,
/// and hand the target on once the request is complete.
pub open spec fn spec_inbound_step(s: Seq<u8>, reply_sent: bool) -> InboundStepView {
    match spec_parse_greeting(s) {
        GreetingView::NeedMore => InboundStepView::Wait,
        GreetingView::Fail(e) => InboundStepView::Abort(e),
        GreetingView::Consumed(g) => {
            if !reply_sent {
                InboundStepView::Reply(seq![5u8, 0u8])
            } else {
                match spec_parse_request(s.skip(g)) {
                    RequestView::NeedMore => InboundStepView::Wait,
                    RequestView::Fail(e) => InboundStepView::Abort(e),
                    RequestView::Done { addr, port, .. } => InboundStepView::Target(addr, port),
                }
            }
        },
    }
}

/// One step of the inbound side: `input` is everything received from the
/// client so far, `reply_sent` whether the method reply has gone out.
///
/// The caller acts on the step and comes back with more bytes; a failed
/// handshake yields [`InboundStep::Abort`], after which nothing more is
/// written to the client.
pub fn inbound_step(input: &[u8], reply_sent: bool) -> (r: InboundStep)
    ensures
        r@ == spec_inbound_step(input@, reply_sent),
{
    match parse_greeting(input) {
        GreetingStatus::NeedMore => InboundStep::Wait,
        GreetingStatus::Fail(e) => InboundStep::Abort(e),
        GreetingStatus::Consumed(g) => {
            if !reply_sent {
                InboundStep::Reply(greeting_reply())
            } else {
                let rest = &input[g..input.len()];
                proof {
                    assert(rest@ =~= input@.skip(g as int));
                }
                match parse_request(rest) {
                    RequestStatus::NeedMore => InboundStep::Wait,
                    RequestStatus::Fail(e) => InboundStep::Abort(e),
                    RequestStatus::Done { addr, port, .. } => InboundStep::Target(addr, port),
                }
            }
        },
    }
}

/// Everything one connection sends to its upstream, in sending order: the
/// greeting, the credential frame when the descriptor carries credentials,
/// and the CONNECT request for the inbound client's target.
pub struct ConnectionPlan {
    pub upstream: SocketAddress,
    pub greeting: Vec<u8>,
    pub auth: Option<Vec<u8>>,
    pub request: Vec<u8>,
}

/// True when a credential pair fits the one-byte length prefixes of its
/// RFC 1929 frame.
pub open spec fn creds_fit(a: crate::proxy::ProxyAuthView) -> bool {
    a.username.len() <= 255 && a.password.len() <= 255
}

/// Computes the plan of one connection from the pool snapshot and the
/// target the inbound handshake yielded.
///
/// An empty snapshot aborts the connection, as does a descriptor whose
/// credentials cannot fit their one-byte length prefixes.  Otherwise the
/// first descriptor of the snapshot is used, and the plan's frames are
/// exactly the wire frames of the outbound exchange.
pub fn plan_connection(snapshot: &Vec<Proxy>, target: &SocksAddrType, port: u16) -> (r: Result<
    ConnectionPlan,
    ClientError,
>)
    requires
        target@.wf(),
    ensures
        snapshot@.len() == 0 <==> (r matches Err(e) && e@ == ClientErrorView::Connect(
            "No upstream proxies available"@,
        )),
        (snapshot@.len() > 0 && (snapshot@[0]@.auth matches Some(a) && !creds_fit(a))) <==> (
        r matches Err(e) && e@ == ClientErrorView::Auth("Credentials do not fit the frame"@)),
        r matches Ok(plan) ==> {
            &&& snapshot@.len() > 0
            &&& plan.upstream == snapshot@[0].addr
            &&& plan.greeting@ == seq![5u8, 1u8, 0u8]
            &&& match snapshot@[0]@.auth {
                Some(a) => plan.auth matches Some(frame) && frame@ == seq![
                    1u8,
                    a.username.len() as u8,
                ] + a.username + seq![a.password.len() as u8] + a.password,
                None => plan.auth is None,
            }
            &&& plan.request@ == seq![5u8, 1u8, 0u8] + target@.encoded() + port_bytes(port)
        },
        r is Ok <==> (snapshot@.len() > 0 && (snapshot@[0]@.auth matches Some(a) ==> creds_fit(
            a,
        ))),
{
    let chosen = match ProxyPool::select_upstream(snapshot) {
        None => {
            return Err(ClientError::Connect("No upstream proxies available".to_owned()));
        },
        Some(p) => p,
    };
    let auth = match &chosen.auth {
        Some(a) => {
            if a.username.as_str().as_bytes().len() > 255 || a.password.as_str().as_bytes().len()
                > 255 {
                return Err(ClientError::Auth("Credentials do not fit the frame".to_owned()));
            }
            Some(auth_request(a))
        },
        None => None,
    };
    Ok(
        ConnectionPlan {
            upstream: chosen.addr,
            greeting: outbound_greeting(),
            auth,
            request: connect_request(target, port),
        },
    )
}

} // verus!
