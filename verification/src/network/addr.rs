//! Addresses of peers.

use vstd::prelude::*;
use crate::config::text_view;
use crate::ops::{append_decimal, decimal_text};

verus! {

/// Whether a text is a multiaddr: whether `Multiaddr::from_str` of libp2p
/// takes it.
pub uninterp spec fn multiaddr_parses(text: Seq<char>) -> bool;

/// Whether `text` is a multiaddr.
///
/// Trusted: `Multiaddr::from_str` of libp2p.
#[verifier::external_body]
pub(crate) fn is_multiaddr(text: &str) -> (ok: bool)
    ensures
        ok == multiaddr_parses(text@),
{
    text.parse::<libp2p::Multiaddr>().is_ok()
}

/// The address to listen on where nothing says otherwise: any port on every
/// interface.
pub open spec fn any_port() -> Seq<char> {
    "/ip4/0.0.0.0/tcp/0"@
}

/// The address of a port on every interface.
pub open spec fn port_address(port: u16) -> Seq<char> {
    "/ip4/0.0.0.0/tcp/"@ + decimal_text(port as nat)
}

/// The address to listen on: what was typed; else what is configured; else
/// the given port on every interface; else any port on every interface.
pub open spec fn listen_choice(
    typed: Option<Seq<char>>,
    configured: Option<Seq<char>>,
    port: Option<u16>,
) -> Seq<char> {
    match (typed, configured, port) {
        (Some(addr), _, _) => addr,
        (None, Some(addr), _) => addr,
        (None, None, Some(p)) => port_address(p),
        (None, None, None) => any_port(),
    }
}

/// The address to listen on: what was typed; else what is configured; else
/// the given port on every interface; else any port on every interface.
pub fn listen_address(typed: Option<String>, configured: Option<String>, port: Option<u16>) -> (addr:
    String)
    ensures
        addr@ == listen_choice(text_view(typed), text_view(configured), port),
{
    match typed {
        Some(addr) => {
            return addr;
        },
        None => {},
    }
    match configured {
        Some(addr) => {
            return addr;
        },
        None => {},
    }
    match port {
        Some(p) => {
            let mut addr = String::from_str("/ip4/0.0.0.0/tcp/");
            append_decimal(&mut addr, p as u64);
            addr
        },
        None => String::from_str("/ip4/0.0.0.0/tcp/0"),
    }
}

/// With nothing typed and nothing configured, port 0 gives the address of any
/// port.
pub proof fn lemma_port_zero_is_any_port()
    ensures
        listen_choice(None, None, Some(0u16)) == any_port(),
{
    reveal_strlit("/ip4/0.0.0.0/tcp/0");
    reveal_strlit("/ip4/0.0.0.0/tcp/");
    assert(port_address(0) =~= any_port());
}

} // verus!
