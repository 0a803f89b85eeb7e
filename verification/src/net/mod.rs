pub mod virtio_net;
pub mod socket;
pub mod dns;
pub mod http;
pub mod firewall;
pub mod tls;
