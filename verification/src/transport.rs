//! Choice of the transport for a request.
use vstd::prelude::*;

use crate::message::uri::{lookup, SipUri, SpecSipUri, UriScheme};
use crate::text::{chars_of, lowercase_is, vec_lowercase_is};

verus! {

/// Transports SIP runs over.
#[derive(Debug, Clone, Copy, PartialEq, Eq, Hash, Structural)]
pub enum TransportProtocol {
    Udp,
    Tcp,
    Tls,
    Ws,
    Wss,
}

/// The transport a request to `u` goes over: TLS for a `sips:` URI, else
/// the one its `transport` parameter names (`tcp`, `tls` or `udp`, in any
/// letter case), else UDP.
pub open spec fn transport_for(u: SpecSipUri) -> TransportProtocol {
    if u.scheme == UriScheme::Sips {
        TransportProtocol::Tls
    } else {
        match lookup(u.params, "transport"@) {
            Some(Some(v)) => if lowercase_is(v, "tcp"@) {
                TransportProtocol::Tcp
            } else if lowercase_is(v, "tls"@) {
                TransportProtocol::Tls
            } else {
                TransportProtocol::Udp
            },
            _ => TransportProtocol::Udp,
        }
    }
}

/// The transport a request to `uri` goes over; see `transport_for`.
pub fn determine_transport(uri: &SipUri) -> (t: TransportProtocol)
    ensures
        t == transport_for(uri@),
{
    if uri.scheme == UriScheme::Sips {
        return TransportProtocol::Tls;
    }
    match uri.transport() {
        Some(p) => {
            let v = chars_of(p);
            if vec_lowercase_is(&v, "tcp") {
                TransportProtocol::Tcp
            } else if vec_lowercase_is(&v, "tls") {
                TransportProtocol::Tls
            } else {
                TransportProtocol::Udp
            }
        },
        None => TransportProtocol::Udp,
    }
}

} // verus!
