//! Audience-aware endpoint announcement: which transports a client is told about depends on how
//! it reached the server.

use crate::config::{Audience, ListenConfig, ListenKind, TransportKind};
use crate::text::{decimal, decimal_text, str_option, views};
use vstd::prelude::*;
use vstd::string::StringExecFns;

verus! {

/// A peer's network address.
#[derive(Clone, Copy, Debug)]
pub enum PeerIp {
    V4([u8; 4]),
    V6([u16; 8]),
}

impl PeerIp {
    /// 127.0.0.0/8 or `::1`.
    pub open spec fn loopback(self) -> bool {
        match self {
            PeerIp::V4(o) => o[0] == 127,
            PeerIp::V6(s) => s@ == seq![0u16, 0, 0, 0, 0, 0, 0, 1],
        }
    }

    /// Loopback, a private network or a link-local one: 10/8, 172.16/12, 192.168/16 and
    /// 169.254/16, or fc00::/7 and fe80::/10.
    pub open spec fn lan(self) -> bool {
        ||| self.loopback()
        ||| match self {
            PeerIp::V4(o) => {
                ||| o[0] == 10
                ||| (o[0] == 172 && 16 <= o[1] <= 31)
                ||| (o[0] == 192 && o[1] == 168)
                ||| (o[0] == 169 && o[1] == 254)
            },
            PeerIp::V6(s) => 0xfc00 <= s[0] <= 0xfdff || 0xfe80 <= s[0] <= 0xfebf,
        }
    }

    pub fn is_loopback(self) -> (r: bool)
        ensures
            r == self.loopback(),
    {
        match self {
            PeerIp::V4(o) => o[0] == 127,
            PeerIp::V6(s) => {
                let r = s[0] == 0 && s[1] == 0 && s[2] == 0 && s[3] == 0 && s[4] == 0 && s[5] == 0
                    && s[6] == 0 && s[7] == 1;
                assert(r ==> s@ =~= seq![0u16, 0, 0, 0, 0, 0, 0, 1]);
                r
            },
        }
    }
}

/// How the client reached the server — determines which audiences pass.
#[derive(Clone, Copy, Debug)]
pub enum BootstrapPath {
    /// Direct query over the local control socket.
    Uds,
    /// SSH bootstrap.
    Ssh,
    /// Direct network connection from a known address.
    Network { peer: PeerIp },
}

/// An endpoint as announced to a client.
#[derive(Clone, Debug)]
pub struct EndpointAdvert {
    pub kind: TransportKind,
    pub address: String,
}

/// The mathematical value of an [`EndpointAdvert`].
pub struct AdvertView {
    pub kind: TransportKind,
    pub address: Seq<char>,
}

impl View for EndpointAdvert {
    type V = AdvertView;

    open spec fn view(&self) -> AdvertView {
        AdvertView { kind: self.kind, address: self.address@ }
    }
}

/// Whether an endpoint for `audience` may be told to a client that came by `path`.
pub open spec fn passes(audience: Audience, path: BootstrapPath) -> bool {
    match audience {
        Audience::Any => true,
        Audience::Local => match path {
            BootstrapPath::Uds => true,
            BootstrapPath::Ssh => false,
            BootstrapPath::Network { peer } => peer.loopback(),
        },
        Audience::SshOnly => path is Ssh,
        Audience::Lan => match path {
            BootstrapPath::Network { peer } => peer.lan(),
            _ => false,
        },
    }
}

/// What is announced of a listener, if anything.
pub open spec fn advert(
    l: ListenConfig,
    path: BootstrapPath,
    public_host: Option<Seq<char>>,
) -> Option<AdvertView> {
    if l.enabled && passes(l.audience, path) {
        Some(
            match l.kind {
                ListenKind::Unix => AdvertView { kind: TransportKind::Uds, address: l.path@ },
                ListenKind::Quic => AdvertView {
                    kind: TransportKind::Quic,
                    address: host_port(l, public_host),
                },
                ListenKind::TcpTls => AdvertView {
                    kind: TransportKind::TcpTls,
                    address: host_port(l, public_host),
                },
            },
        )
    } else {
        None
    }
}

/// The public host, or else the bind address, then a colon and the port.
pub open spec fn host_port(l: ListenConfig, public_host: Option<Seq<char>>) -> Seq<char> {
    (match public_host {
        Some(h) => h,
        None => l.bind@,
    }) + ":"@ + decimal_text(l.port as nat)
}

/// The adverts of the listeners that are announced, in their order.
pub open spec fn adverts(
    ls: Seq<ListenConfig>,
    path: BootstrapPath,
    public_host: Option<Seq<char>>,
) -> Seq<AdvertView>
    decreases ls.len(),
{
    if ls.len() == 0 {
        Seq::empty()
    } else {
        let init = adverts(ls.drop_last(), path, public_host);
        match advert(ls.last(), path, public_host) {
            Some(a) => init.push(a),
            None => init,
        }
    }
}

/// Returns `true` if `addr` is a private, link-local or loopback address.
pub fn is_lan_address(addr: PeerIp) -> (r: bool)
    ensures
        r == addr.lan(),
{
    if addr.is_loopback() {
        return true;
    }
    match addr {
        PeerIp::V4(o) => {
            o[0] == 10 || (o[0] == 172 && (o[1] >= 16 && o[1] <= 31)) || (o[0] == 192 && o[1]
                == 168) || (o[0] == 169 && o[1] == 254)
        },
        PeerIp::V6(s) => {
            let first: u16 = s[0];
            assert((first & 0xfe00) == 0xfc00 <==> 0xfc00 <= first <= 0xfdff) by (bit_vector);
            assert((first & 0xffc0) == 0xfe80 <==> 0xfe80 <= first <= 0xfebf) by (bit_vector);
            (first & 0xfe00) == 0xfc00 || (first & 0xffc0) == 0xfe80
        },
    }
}

/// Build an endpoint advert for a single listener.
///
/// Returns `None` when the listener is disabled or its audience does not match the bootstrap
/// path. The address of a local socket is its path, which the caller has resolved.
pub fn advert_for(
    listener: &ListenConfig,
    path: BootstrapPath,
    public_host: Option<&str>,
) -> (r: Option<EndpointAdvert>)
    ensures
        match r {
            Some(a) => advert(*listener, path, str_option(public_host)) == Some(a@),
            None => advert(*listener, path, str_option(public_host)) is None,
        },
{
    if !listener.enabled {
        return None;
    }
    let open = match listener.audience {
        Audience::Any => true,
        Audience::Local => match path {
            BootstrapPath::Uds => true,
            BootstrapPath::Ssh => false,
            BootstrapPath::Network { peer } => peer.is_loopback(),
        },
        Audience::SshOnly => matches!(path, BootstrapPath::Ssh),
        Audience::Lan => match path {
            BootstrapPath::Network { peer } => is_lan_address(peer),
            _ => false,
        },
    };
    if !open {
        return None;
    }
    Some(
        match listener.kind {
            ListenKind::Unix => EndpointAdvert {
                kind: TransportKind::Uds,
                address: listener.path.clone(),
            },
            ListenKind::Quic => EndpointAdvert {
                kind: TransportKind::Quic,
                address: network_address(listener, public_host),
            },
            ListenKind::TcpTls => EndpointAdvert {
                kind: TransportKind::TcpTls,
                address: network_address(listener, public_host),
            },
        },
    )
}

fn network_address(listener: &ListenConfig, public_host: Option<&str>) -> (r: String)
    ensures
        r@ == host_port(*listener, str_option(public_host)),
{
    let mut address = match public_host {
        Some(host) => host.to_owned(),
        None => listener.bind.clone(),
    };
    address.append(":");
    let port = decimal(listener.port as u64);
    address.append(port.as_str());
    address
}

/// Build the full endpoint list for a given bootstrap path.
pub fn build_endpoint_list(
    listeners: &[ListenConfig],
    path: BootstrapPath,
    public_host: Option<&str>,
) -> (r: Vec<EndpointAdvert>)
    ensures
        views(r@) == adverts(listeners@, path, str_option(public_host)),
{
    let mut out: Vec<EndpointAdvert> = Vec::new();
    let mut i: usize = 0;
    assert(listeners@.take(0).len() == 0);
    assert(views(out@) =~= Seq::empty());
    while i < listeners.len()
        invariant
            0 <= i <= listeners@.len(),
            views(out@) == adverts(listeners@.take(i as int), path, str_option(public_host)),
        decreases listeners@.len() - i,
    {
        let ghost before = out@;
        let ghost next = listeners@.take(i as int + 1);
        proof {
            assert(next.drop_last() =~= listeners@.take(i as int));
            assert(next.last() == listeners@[i as int]);
        }
        match advert_for(&listeners[i], path, public_host) {
            Some(a) => {
                out.push(a);
                assert(views(out@) =~= views(before).push(a@));
            },
            None => {},
        }
        i = i + 1;
    }
    assert(listeners@.take(listeners@.len() as int) =~= listeners@);
    out
}

/// A disabled listener is announced to nobody, and an enabled one for everybody to everybody.
pub proof fn law_audience_extremes(
    l: ListenConfig,
    path: BootstrapPath,
    public_host: Option<Seq<char>>,
)
    ensures
        !l.enabled ==> advert(l, path, public_host) is None,
        l.enabled && l.audience == Audience::Any ==> advert(l, path, public_host) is Some,
        l.enabled && l.audience == Audience::SshOnly ==> (advert(l, path, public_host) is Some
            <==> path is Ssh),
{
}

/// Whatever a loopback client may be told, a client on the local socket or on the local network
/// may be told what their audience allows: a loopback peer passes both the local and the LAN
/// filter.
pub proof fn law_loopback_is_local_and_lan(peer: PeerIp)
    requires
        peer.loopback(),
    ensures
        passes(Audience::Local, BootstrapPath::Network { peer }),
        passes(Audience::Lan, BootstrapPath::Network { peer }),
{
}

/// What counts as loopback and as the local network. Of the old kind of address: 127 and anything,
/// and besides 10, 172 with 16 to 31, 192 with 168, and 169 with 254. Of the new kind: one at the
/// end of nothing, and besides all that begin with fc or fd, and fe80 to febf.
pub proof fn law_what_is_local(o: [u8; 4], s: [u16; 8])
    ensures
        PeerIp::V4(o).loopback() <==> o@[0] == 127,
        PeerIp::V4(o).lan() <==> o@[0] == 127 || o@[0] == 10 || (o@[0] == 172 && 16 <= o@[1] <= 31)
            || (o@[0] == 192 && o@[1] == 168) || (o@[0] == 169 && o@[1] == 254),
        PeerIp::V6(s).loopback() <==> (forall|i: int| 0 <= i < 7 ==> #[trigger] s@[i] == 0)
            && s@[7] == 1,
        PeerIp::V6(s).lan() <==> PeerIp::V6(s).loopback() || s@[0] / 512 == 126 || s@[0] / 64
            == 1018,
{
    let one = seq![0u16, 0, 0, 0, 0, 0, 0, 1];
    if (forall|i: int| 0 <= i < 7 ==> #[trigger] s@[i] == 0) && s@[7] == 1 {
        assert(s@ =~= one);
    }
    if s@ == one {
        assert forall|i: int| 0 <= i < 7 implies #[trigger] s@[i] == 0 by {
            assert(one[i] == 0);
        }
    }
}

/// Who hears of a listener: everyone; or who is on this machine, by a socket or by loopback; or who
/// came over SSH; or who is on the local network.
pub proof fn law_who_hears_of_a_listener(peer: PeerIp)
    ensures
        passes(Audience::Any, BootstrapPath::Uds),
        passes(Audience::Any, BootstrapPath::Ssh),
        passes(Audience::Any, BootstrapPath::Network { peer }),
        passes(Audience::Local, BootstrapPath::Uds),
        !passes(Audience::Local, BootstrapPath::Ssh),
        passes(Audience::Local, BootstrapPath::Network { peer }) == peer.loopback(),
        !passes(Audience::SshOnly, BootstrapPath::Uds),
        passes(Audience::SshOnly, BootstrapPath::Ssh),
        !passes(Audience::SshOnly, BootstrapPath::Network { peer }),
        !passes(Audience::Lan, BootstrapPath::Uds),
        !passes(Audience::Lan, BootstrapPath::Ssh),
        passes(Audience::Lan, BootstrapPath::Network { peer }) == peer.lan(),
{
}

/// What is told of a listener: a socket by its path; another by its kind, with the public host, or
/// the one that it is bound to where there is none, and its port. One that is switched off or
/// meant for others is not told.
pub proof fn law_what_is_told_of_a_listener(
    l: ListenConfig,
    path: BootstrapPath,
    host: Seq<char>,
)
    ensures
        advert(l, path, None) is Some <==> l.enabled && passes(l.audience, path),
        advert(l, path, Some(host)) is Some <==> l.enabled && passes(l.audience, path),
        l.enabled && passes(l.audience, path) ==> {
            let bare = advert(l, path, None)->0;
            let named = advert(l, path, Some(host))->0;
            let port = ":"@ + decimal_text(l.port as nat);
            &&& l.kind == ListenKind::Unix ==> bare.kind == TransportKind::Uds && bare.address
                == l.path@ && named == bare
            &&& l.kind == ListenKind::Quic ==> bare.kind == TransportKind::Quic && named.kind
                == TransportKind::Quic
            &&& l.kind == ListenKind::TcpTls ==> bare.kind == TransportKind::TcpTls && named.kind
                == TransportKind::TcpTls
            &&& l.kind != ListenKind::Unix ==> bare.address == l.bind@ + port && named.address
                == host + port
        },
{
    let port = ":"@ + decimal_text(l.port as nat);
    assert(l.bind@ + ":"@ + decimal_text(l.port as nat) =~= l.bind@ + port);
    assert(host + ":"@ + decimal_text(l.port as nat) =~= host + port);
}

/// The listeners are told in order, one by one.
pub proof fn law_listeners_are_told_in_order(
    ls: Seq<ListenConfig>,
    l: ListenConfig,
    path: BootstrapPath,
    host: Option<Seq<char>>,
)
    ensures
        adverts(Seq::empty(), path, host).len() == 0,
        match advert(l, path, host) {
            Some(t) => adverts(ls.push(l), path, host) == adverts(ls, path, host).push(t),
            None => adverts(ls.push(l), path, host) == adverts(ls, path, host),
        },
{
    assert(ls.push(l).drop_last() =~= ls);
}

} // verus!
