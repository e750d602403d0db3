use siprs::message::uri::SipUri;
use siprs::transport::{determine_transport, TransportProtocol};

fn t(uri: &str) -> TransportProtocol {
    determine_transport(&SipUri::parse(uri).unwrap())
}

#[test]
fn test_determine_transport() {
    assert_eq!(t("sips:bob@example.com"), TransportProtocol::Tls);
    assert_eq!(t("sips:bob@example.com;transport=tcp"), TransportProtocol::Tls);
    assert_eq!(t("sip:bob@example.com;transport=tcp"), TransportProtocol::Tcp);
    assert_eq!(t("sip:bob@example.com;transport=TLS"), TransportProtocol::Tls);
    assert_eq!(t("sip:bob@example.com;transport=udp"), TransportProtocol::Udp);
    assert_eq!(t("sip:bob@example.com;transport=sctp"), TransportProtocol::Udp);
    assert_eq!(t("sip:bob@example.com"), TransportProtocol::Udp);
    assert_eq!(t("sip:bob@example.com;Transport=Tcp"), TransportProtocol::Tcp);
}
