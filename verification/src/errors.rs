//! Error values shared by the handshake engines and the list loader.

use vstd::prelude::*;

verus! {

/// Failure of one connection's SOCKS5 exchange, in either role.
#[derive(Clone, Debug, PartialEq, Eq)]
pub enum ClientError {
    /// Dialing the upstream proxy failed.
    Connect(String),
    /// Sending the username/password sub-negotiation failed.
    Auth(String),
    /// A protocol violation or unexpected byte during a handshake.
    HandShake(String),
}

/// Failure while loading the upstream proxy list.
#[derive(Clone, Debug, PartialEq, Eq)]
pub enum ServerError {
    /// The list source could not be read or parsed.
    Parser(String),
}

/// The mathematical model of a [`ClientError`]: the same variants over the
/// message text.
pub enum ClientErrorView {
    Connect(Seq<char>),
    Auth(Seq<char>),
    HandShake(Seq<char>),
}

impl View for ClientError {
    type V = ClientErrorView;

    open spec fn view(&self) -> ClientErrorView {
        match self {
            ClientError::Connect(m) => ClientErrorView::Connect(m@),
            ClientError::Auth(m) => ClientErrorView::Auth(m@),
            ClientError::HandShake(m) => ClientErrorView::HandShake(m@),
        }
    }
}

/// The mathematical model of a [`ServerError`].
pub enum ServerErrorView {
    Parser(Seq<char>),
}

impl View for ServerError {
    type V = ServerErrorView;

    open spec fn view(&self) -> ServerErrorView {
        match self {
            ServerError::Parser(m) => ServerErrorView::Parser(m@),
        }
    }
}

} // verus!
