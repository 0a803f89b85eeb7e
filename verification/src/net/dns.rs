//! Host name resolution from a local table.
use vstd::prelude::*;
use vstd::string::StringExecFns;
use crate::strmap::StrMap;

verus! {

/// An IPv4 address as its four octets.
pub type Ipv4Octets = [u8; 4];

pub struct DnsResolver {
    cache: StrMap<Ipv4Octets>,
}

impl DnsResolver {
    /// Names and their addresses.
    pub closed spec fn table(&self) -> Map<Seq<char>, Ipv4Octets> {
        self.cache@
    }

    pub closed spec fn wf(&self) -> bool {
        self.cache.wf()
    }

    /// A resolver that knows `localhost` as 127.0.0.1.
    pub fn new() -> (r: Self)
        ensures
            r.wf(),
            r.table() == Map::<Seq<char>, Ipv4Octets>::empty().insert("localhost"@, [127u8, 0u8, 0u8, 1u8]),
    {
        let mut cache = StrMap::new();
        cache.insert(String::from_str("localhost"), [127u8, 0u8, 0u8, 1u8]);
        DnsResolver { cache }
    }

    /// The address of `hostname`, if known.
    pub fn resolve(&mut self, hostname: &str) -> (r: Option<Ipv4Octets>)
        requires
            old(self).wf(),
        ensures
            final(self).wf(),
            final(self).table() == old(self).table(),
            match r {
                Some(a) => old(self).table().contains_key(hostname@) && a == old(self).table()[hostname@],
                None => !old(self).table().contains_key(hostname@),
            },
    {
        match self.cache.get(hostname) {
            Some(a) => Some(*a),
            None => None,
        }
    }

    /// Record `addr` as the address of `hostname`.
    pub fn add_entry(&mut self, hostname: String, addr: Ipv4Octets)
        requires
            old(self).wf(),
        ensures
            final(self).wf(),
            final(self).table() == old(self).table().insert(hostname@, addr),
    {
        self.cache.insert(hostname, addr);
    }
}

/// The resolver set up at boot.
pub fn init() -> (r: Option<DnsResolver>)
    ensures
        r matches Some(d) && d.wf()
            && d.table() == Map::<Seq<char>, Ipv4Octets>::empty().insert("localhost"@, [127u8, 0u8, 0u8, 1u8]),
{
    Some(DnsResolver::new())
}

/// Resolve `hostname` with `resolver`; `None` before the resolver is set up.
pub fn resolve(resolver: &mut Option<DnsResolver>, hostname: &str) -> (r: Option<Ipv4Octets>)
    requires
        *old(resolver) matches Some(d) ==> d.wf(),
    ensures
        match *old(resolver) {
            None => r is None && *final(resolver) == *old(resolver),
            Some(d) => *final(resolver) matches Some(d2) && d2.wf() && d2.table() == d.table() && match r {
                Some(a) => d.table().contains_key(hostname@) && a == d.table()[hostname@],
                None => !d.table().contains_key(hostname@),
            },
        },
{
    match resolver {
        Some(d) => d.resolve(hostname),
        None => None,
    }
}

} // verus!
