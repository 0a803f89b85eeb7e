use hmac::{Hmac, Mac};
use sha2::{Digest, Sha256};
use oxide_kernel::capability::{CapError, CapabilityTable, PermissionBits, ResourceRef};
use oxide_kernel::crypto::hmac_cap::{constant_time_eq, generate_tag, verify_tag};
use oxide_kernel::crypto::rng::{fill_bytes, random_u64, Rng};
use oxide_kernel::crypto::signing::{generate_agent_keypair, get_public_key, sign, AgentKeys, KeyPair};
use oxide_kernel::net::dns::{init as dns_init, resolve, DnsResolver};
use oxide_kernel::net::firewall::{check_outbound, FirewallDecision};
use oxide_kernel::net::http::{get, parse_u16, parse_url, post, HttpError};
use oxide_kernel::net::socket::{authorize_connect, next_local_port, SocketError};
use oxide_kernel::net::tls::{connect, is_available, TlsError};
use oxide_kernel::net::virtio_net::{init as net_init, VirtioNetDevice};

fn network_table(host: &str, port: u16, perms: PermissionBits) -> (CapabilityTable, u64) {
    let mut t = CapabilityTable::new();
    let id = t.create_root(7, ResourceRef::Network { host: host.to_string(), port }, perms);
    (t, id)
}

#[test]
fn firewall_allows_matching_host_and_port() {
    let (t, id) = network_table("api.example.com", 443, PermissionBits::connect());
    assert_eq!(check_outbound(&t, 7, id, "api.example.com", 443), FirewallDecision::Allow);
}

#[test]
fn firewall_wildcard_host_and_any_port() {
    let (t, id) = network_table("*", 0, PermissionBits::connect());
    assert_eq!(check_outbound(&t, 7, id, "anything.org", 8080), FirewallDecision::Allow);
}

#[test]
fn firewall_denials_carry_reasons() {
    let (t, id) = network_table("api.example.com", 443, PermissionBits::connect());
    assert_eq!(check_outbound(&t, 7, id, "evil.com", 443), FirewallDecision::Deny("host not allowed"));
    assert_eq!(check_outbound(&t, 7, id, "api.example.com", 80), FirewallDecision::Deny("port not allowed"));
    assert_eq!(check_outbound(&t, 8, id, "api.example.com", 443), FirewallDecision::Deny("no valid network capability"));
    let (t2, id2) = network_table("api.example.com", 443, PermissionBits::read());
    assert_eq!(check_outbound(&t2, 7, id2, "api.example.com", 443), FirewallDecision::Deny("no valid network capability"));
    let mut t3 = CapabilityTable::new();
    let id3 = t3.create_root(7, ResourceRef::Storage { path: "/x".to_string() }, PermissionBits::connect());
    assert_eq!(check_outbound(&t3, 7, id3, "api.example.com", 443), FirewallDecision::Deny("not a network capability"));
}

#[test]
fn url_parsing() {
    let (h, p, path) = parse_url("https://api.example.com:8443/v1/chat").unwrap();
    assert_eq!((h.as_str(), p, path.as_str()), ("api.example.com", 8443, "/v1/chat"));
    let (h, p, path) = parse_url("http://localhost").unwrap();
    assert_eq!((h.as_str(), p, path.as_str()), ("localhost", 443, "/"));
    let (h, p, path) = parse_url("example.org:notaport/x").unwrap();
    assert_eq!((h.as_str(), p, path.as_str()), ("example.org", 443, "/x"));
}

#[test]
fn port_parsing_follows_str_parse() {
    assert_eq!(parse_u16("8080"), Some(8080));
    assert_eq!(parse_u16("+80"), Some(80));
    assert_eq!(parse_u16("65535"), Some(65535));
    assert_eq!(parse_u16("65536"), None);
    assert_eq!(parse_u16(""), None);
    assert_eq!(parse_u16("+"), None);
    assert_eq!(parse_u16("12a"), None);
    assert_eq!(parse_u16("-1"), None);
    for s in ["0", "7", "443", "00012", "+0065535", "99999", "a1"] {
        assert_eq!(parse_u16(s), s.parse::<u16>().ok());
    }
}

#[test]
fn http_requests_check_capability_then_firewall() {
    let (t, id) = network_table("api.example.com", 443, PermissionBits::connect());
    let resp = get("https://api.example.com/v1", &t, 7, id).unwrap();
    assert_eq!(resp.status_code, 200);
    assert_eq!(resp.body, b"{}".to_vec());
    let resp = post("https://api.example.com/v1", b"data", &t, 7, id).unwrap();
    assert_eq!(resp.status_code, 200);
    assert_eq!(get("https://other.com/", &t, 7, id).unwrap_err(), HttpError::FirewallDenied);
    assert_eq!(get("https://api.example.com/", &t, 9, id).unwrap_err(), HttpError::CapabilityDenied);
}

#[test]
fn sockets_need_connect_rights_and_take_ephemeral_ports() {
    let (t, id) = network_table("*", 0, PermissionBits::connect());
    assert_eq!(authorize_connect(&t, id, 7), Ok(()));
    assert_eq!(authorize_connect(&t, id, 8), Err(SocketError::CapabilityDenied));
    let mut counter: u16 = 49152;
    assert_eq!(next_local_port(&mut counter), 49152 + 49152 % 16384);
    assert_eq!(counter, 49153);
    let mut counter: u16 = 65535;
    assert_eq!(next_local_port(&mut counter), 49152 + 65535 % 16384);
    assert_eq!(counter, 0);
}

#[test]
fn tls_is_not_available() {
    assert!(!is_available());
    assert_eq!(connect("example.com", 443, 1, 1), Err(TlsError::HandshakeNotImplemented));
}

#[test]
fn dns_knows_localhost_and_added_names() {
    let mut r = DnsResolver::new();
    assert_eq!(r.resolve("localhost"), Some([127, 0, 0, 1]));
    assert_eq!(r.resolve("example.com"), None);
    r.add_entry("example.com".to_string(), [93, 184, 216, 34]);
    assert_eq!(r.resolve("example.com"), Some([93, 184, 216, 34]));
    let mut global: Option<DnsResolver> = None;
    assert_eq!(resolve(&mut global, "localhost"), None);
    let mut global = dns_init();
    assert_eq!(resolve(&mut global, "localhost"), Some([127, 0, 0, 1]));
}

#[test]
fn virtio_net_device() {
    let mut d = VirtioNetDevice::empty();
    assert_eq!(d.transmit(b"frame"), Err("not initialized"));
    net_init(&mut d, 0);
    assert_eq!(d.mac_address(), [0x52, 0x54, 0x00, 0x12, 0x34, 0x56]);
    assert_eq!(d.transmit(b"frame"), Ok(()));
    let mut buf = [0u8; 16];
    assert_eq!(d.receive(&mut buf), None);
}

fn xorshift(mut x: u64) -> u64 {
    x ^= x << 13;
    x ^= x >> 7;
    x ^= x << 17;
    x
}

#[test]
fn software_rng_is_xorshift() {
    let mut rng = Rng::from_parts(false, 12345);
    let a = random_u64(&mut rng);
    assert_eq!(a, xorshift(12345));
    let b = random_u64(&mut rng);
    assert_eq!(b, xorshift(a));
    let mut zero = Rng::from_parts(false, 0);
    assert_eq!(random_u64(&mut zero), xorshift(0xDEAD_BEEF));
}

#[test]
fn fill_bytes_uses_the_output_stream() {
    let mut rng = Rng::from_parts(false, 99);
    let mut buf = [0u8; 12];
    fill_bytes(&mut rng, &mut buf);
    let x1 = xorshift(99);
    let x2 = xorshift(x1);
    let mut expected = x1.to_le_bytes().to_vec();
    expected.extend_from_slice(&x2.to_le_bytes()[..4]);
    assert_eq!(buf.to_vec(), expected);
}

#[test]
fn hmac_tags_verify_and_bind_all_fields() {
    let key = [7u8; 32];
    let tag = generate_tag(&key, 1, 2, 3);
    let mut mac = <Hmac<Sha256> as Mac>::new_from_slice(&key).unwrap();
    mac.update(&1u64.to_le_bytes());
    mac.update(&2u64.to_le_bytes());
    mac.update(&3u32.to_le_bytes());
    let expected: [u8; 32] = mac.finalize().into_bytes().into();
    assert_eq!(tag, expected);
    assert!(verify_tag(&key, 1, 2, 3, &tag));
    assert!(!verify_tag(&key, 1, 2, 4, &tag));
    assert!(!verify_tag(&[8u8; 32], 1, 2, 3, &tag));
    assert_ne!(generate_tag(&key, 2, 1, 3), tag);
    assert!(constant_time_eq(&tag, &tag));
    let mut other = tag;
    other[31] ^= 1;
    assert!(!constant_time_eq(&tag, &other));
}

#[test]
fn agent_signatures() {
    let mut rng = Rng::from_parts(false, 42);
    let mut keys = AgentKeys::new();
    let public = generate_agent_keypair(&mut keys, &mut rng, 5);
    assert_eq!(get_public_key(&keys, 5), Some(public));
    assert_eq!(get_public_key(&keys, 6), None);
    let sig = sign(&keys, 5, b"hello").unwrap();
    assert!(KeyPair::verify(&keys, &public, b"hello", &sig));
    assert!(!KeyPair::verify(&keys, &public, b"hellp", &sig));
    assert!(!KeyPair::verify(&keys, &[0u8; 32], b"hello", &sig));
    assert_eq!(sign(&keys, 6, b"hello"), None);
    // The public key is the SHA-256 of the secret, which the software stream gives.
    let mut rng2 = Rng::from_parts(false, 42);
    let mut secret = [0u8; 32];
    fill_bytes(&mut rng2, &mut secret);
    let expected_public: [u8; 32] = Sha256::digest(&secret).into();
    assert_eq!(public, expected_public);
    let mut h = Sha256::new();
    h.update(&secret);
    h.update(b"hello");
    let expected_sig: [u8; 32] = h.finalize().into();
    assert_eq!(sig, expected_sig);
}

#[test]
fn capability_errors() {
    let mut t = CapabilityTable::new();
    let id = t.create_root(1, ResourceRef::AgentSpawn, PermissionBits::read());
    assert!(matches!(t.validate(99, 1, PermissionBits::read()), Err(CapError::NotFound)));
    assert!(matches!(t.validate(id, 2, PermissionBits::read()), Err(CapError::NotOwner)));
    assert!(matches!(t.validate(id, 1, PermissionBits::write()), Err(CapError::InsufficientPermissions)));
    assert!(t.validate(id, 1, PermissionBits::read()).is_ok());
}
