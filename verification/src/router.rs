//! Routing: map a sanitized hostname to a destination, with client-affine
//! balancing over address lists.

use vstd::prelude::*;

use crate::addr::SockAddr;
use crate::client::{bytes_eq, IncomingClient};
use crate::error::RouterError;
use crate::forwarding::ForwardStrategy;

verus! {

/// Where a routed connection goes: a backend address and the forwarding
/// strategy to prime it with.
#[derive(Debug, Clone, Copy, PartialEq, Eq, Structural)]
pub struct Destination {
    pub address: SockAddr,
    pub strategy: ForwardStrategy,
}

impl Destination {
    pub fn new(address: SockAddr, strategy: ForwardStrategy) -> (r: Destination)
        ensures
            r.address == address && r.strategy == strategy,
    {
        Destination { address, strategy }
    }

    pub open spec fn address_spec(self) -> SockAddr {
        self.address
    }

    pub open spec fn strategy_spec(self) -> ForwardStrategy {
        self.strategy
    }

    pub fn address(&self) -> (r: SockAddr)
        ensures
            r == self.address_spec(),
    {
        self.address
    }

    pub fn strategy(&self) -> (r: ForwardStrategy)
        ensures
            r == self.strategy_spec(),
    {
        self.strategy
    }
}

/// The target of one route: a single address, or a non-empty list balanced
/// over clients.
#[derive(Debug)]
pub enum RouteType {
    Simple(SockAddr),
    Balanced(Vec<SockAddr>),
}

impl RouteType {
    /// A balanced list must not be empty.
    pub open spec fn wf(self) -> bool {
        match self {
            RouteType::Simple(_) => true,
            RouteType::Balanced(l) => l@.len() > 0,
        }
    }
}

/// One route of the table: its target and its forwarding strategy.
#[derive(Debug)]
pub struct RouteInfo {
    pub ip_forwarding: ForwardStrategy,
    pub ip: RouteType,
}

/// The routing table: an optional default route and a hostname-keyed map.
/// Immutable once published; a reload replaces the whole value.
#[derive(Debug)]
pub struct RouterConfig {
    pub default: Option<RouteInfo>,
    pub routes: Vec<(Vec<u8>, RouteInfo)>,
}

/// First route whose key equals `host`, scanning from the front.
pub open spec fn lookup_route(routes: Seq<(Vec<u8>, RouteInfo)>, host: Seq<u8>) -> Option<
    RouteInfo,
>
    decreases routes.len(),
{
    if routes.len() == 0 {
        None
    } else if routes[0].0@ == host {
        Some(routes[0].1)
    } else {
        lookup_route(routes.drop_first(), host)
    }
}

/// The address a route resolves to for a client with affinity hash `h`:
/// a balanced list is indexed by the hash modulo its length.
pub open spec fn pick_address(rt: RouteType, h: u64) -> SockAddr {
    match rt {
        RouteType::Simple(a) => a,
        RouteType::Balanced(l) => l@[h as int % l@.len() as int],
    }
}

/// The destination of a hostname under this table, for a client with
/// affinity hash `h`: the named route, else the default, else nothing.
pub open spec fn route_spec(cfg: RouterConfig, host: Seq<u8>, h: u64) -> Option<Destination> {
    let info = match lookup_route(cfg.routes@, host) {
        Some(i) => Some(i),
        None => cfg.default,
    };
    match info {
        Some(i) => Some(Destination { address: pick_address(i.ip, h), strategy: i.ip_forwarding }),
        None => None,
    }
}

impl RouterConfig {
    /// Every route of the table is well-formed.
    pub open spec fn wf(self) -> bool {
        &&& match self.default {
            Some(i) => i.ip.wf(),
            None => true,
        }
        &&& forall|k: int| 0 <= k < self.routes@.len() ==> (#[trigger] self.routes@[k]).1.ip.wf()
    }

    /// Routes a client: its hostname's route or the default, with the
    /// balanced pick driven by the client's affinity hash. `NoServer`
    /// exactly when neither exists.
    pub fn route(&self, client: &IncomingClient) -> (r: Result<Destination, RouterError>)
        requires
            self.wf(),
        ensures
            match r {
                Ok(d) => route_spec(*self, client.hostname@, client.hash_spec()) == Some(d),
                Err(e) => e == RouterError::NoServer && route_spec(
                    *self,
                    client.hostname@,
                    client.hash_spec(),
                ) is None,
            },
    {
        let h = client.hash();
        let mut k: usize = 0;
        let ghost all = self.routes@;
        proof {
            assert(all.skip(0) =~= all);
        }
        while k < self.routes.len()
            invariant
                k <= self.routes@.len(),
                all == self.routes@,
                lookup_route(all, client.hostname@) == lookup_route(
                    all.skip(k as int),
                    client.hostname@,
                ),
                self.wf(),
                h == client.hash_spec(),
            decreases self.routes@.len() - k,
        {
            let entry = &self.routes[k];
            proof {
                assert(all.skip(k as int)[0] == all[k as int]);
                assert(all.skip(k as int).drop_first() =~= all.skip(k + 1));
            }
            if bytes_eq(entry.0.as_slice(), client.hostname.bytes.as_slice()) {
                proof {
                    assert(lookup_route(all.skip(k as int), client.hostname@)
                        == Some(all[k as int].1));
                }
                let d = self.pick(&entry.1, h);
                proof {
                    assert(lookup_route(self.routes@, client.hostname@)
                        == Some(self.routes@[k as int].1));
                    assert(d.address == pick_address(self.routes@[k as int].1.ip, h));
                    assert(d.strategy == self.routes@[k as int].1.ip_forwarding);
                    assert(h == client.hash_spec());
                    assert(route_spec(*self, client.hostname@, client.hash_spec()) == Some(d));
                }
                return Ok(d);
            }
            k = k + 1;
        }
        proof {
            assert(all.skip(all.len() as int) =~= Seq::<(Vec<u8>, RouteInfo)>::empty());
        }
        match &self.default {
            Some(info) => Ok(self.pick(info, h)),
            None => Err(RouterError::NoServer),
        }
    }

    /// Resolves one route for affinity hash `h`.
    fn pick(&self, info: &RouteInfo, h: u64) -> (r: Destination)
        requires
            info.ip.wf(),
        ensures
            r.address_spec() == pick_address(info.ip, h),
            r.strategy_spec() == info.ip_forwarding,
    {
        let address = match &info.ip {
            RouteType::Simple(a) => *a,
            RouteType::Balanced(l) => {
                let idx = (h % l.len() as u64) as usize;
                proof {
                    vstd::arithmetic::div_mod::lemma_mod_bound(h as int, l@.len() as int);
                }
                l[idx]
            },
        };
        Destination { address, strategy: info.ip_forwarding }
    }
}

/// A router: anything that can map an accepted client to a destination.
pub trait Router {
    fn route(&self, client: &IncomingClient) -> Result<Destination, RouterError>;
}

impl Router for RouterConfig {
    fn route(&self, client: &IncomingClient) -> Result<Destination, RouterError> {
        if !self.check_wf() {
            return Err(RouterError::NoServer);
        }
        RouterConfig::route(self, client)
    }
}

impl RouterConfig {
    /// Checks table well-formedness at run time, for callers that take the
    /// table from outside the library.
    pub fn check_wf(&self) -> (r: bool)
        ensures
            r == self.wf(),
    {
        let ok_default = match &self.default {
            Some(i) => match &i.ip {
                RouteType::Simple(_) => true,
                RouteType::Balanced(l) => l.len() > 0,
            },
            None => true,
        };
        if !ok_default {
            return false;
        }
        let mut k: usize = 0;
        while k < self.routes.len()
            invariant
                k <= self.routes@.len(),
                match self.default {
                    Some(i) => i.ip.wf(),
                    None => true,
                },
                forall|j: int| 0 <= j < k ==> (#[trigger] self.routes@[j]).1.ip.wf(),
            decreases self.routes@.len() - k,
        {
            let ok = match &self.routes[k].1.ip {
                RouteType::Simple(_) => true,
                RouteType::Balanced(l) => l.len() > 0,
            };
            if !ok {
                return false;
            }
            k = k + 1;
        }
        true
    }
}

/// Client affinity: two clients with the same peer address and hostname are
/// routed to the same destination, whatever their order or timing; the
/// affinity hash depends on those two values alone.
pub proof fn lemma_balanced_affinity(cfg: RouterConfig, c1: IncomingClient, c2: IncomingClient)
    requires
        c1.address == c2.address,
        c1.hostname@ == c2.hostname@,
    ensures
        route_spec(cfg, c1.hostname@, c1.hash_spec()) == route_spec(
            cfg,
            c2.hostname@,
            c2.hash_spec(),
        ),
{
}

} // verus!
