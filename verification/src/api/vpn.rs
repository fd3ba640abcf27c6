//! Requests about the VPN: its routes, its peers and how fast it is.
use crate::api::error::{refused, ApiError, ApiErrorView};
use crate::digest::hex_text;
use crate::dto::{VpnAccessResponse, VpnRoutesResponse, VpnSpeedTestResponse};
use crate::order::viewed;
use crate::text::{
    cat2, cat3, cat4, clone_opt, clone_strings, opt_view, same, trim, trimmed, views,
};
use crate::text_set::{ascending, insert_text};
use crate::vpn::network::{network_of_text, Ipv4Cidr};
use crate::vpn::routes::AddressHash;
use crate::vpn::runtime::all_wf;
use crate::vpn::snapshot::{PeerSnapshotView, RouteSnapshotView, VpnSnapshot};
use vstd::prelude::*;

verus! {

// ── Routes ───────────────────────────────────────────────────────────────────

/// The networks that texts name, white space around them aside, or the refusal
/// of the first that names none.
pub open spec fn routes_of_request(texts: Seq<Seq<char>>) -> Result<Seq<Ipv4Cidr>, ApiErrorView>
    decreases texts.len(),
{
    if texts.len() == 0 {
        Ok(Seq::empty())
    } else {
        match routes_of_request(texts.drop_last()) {
            Err(err) => Err(err),
            Ok(routes) => match network_of_text(trim(texts.last())) {
                Ok((address, length)) => Ok(routes.push(Ipv4Cidr { address, length })),
                Err(err) => Err(
                    refused(400, "invalid route '"@ + texts.last() + "': "@ + err),
                ),
            },
        }
    }
}

/// What an outcome with routes stands for.
pub open spec fn routes_answer(out: Result<Vec<Ipv4Cidr>, ApiError>) -> Result<
    Seq<Ipv4Cidr>,
    ApiErrorView,
> {
    match out {
        Ok(routes) => Ok(routes@),
        Err(err) => Err(err@),
    }
}

/// The routes of a request to advertise them.
pub fn parse_vpn_routes(texts: &Vec<String>) -> (out: Result<Vec<Ipv4Cidr>, ApiError>)
    ensures
        routes_answer(out) == routes_of_request(views(texts@)),
        out matches Ok(routes) ==> all_wf(routes@),
{
    let ghost all = views(texts@);
    let mut out: Vec<Ipv4Cidr> = Vec::new();
    let mut i: usize = 0;
    assert(all.take(0) =~= Seq::<Seq<char>>::empty());
    assert(out@ =~= Seq::<Ipv4Cidr>::empty());
    while i < texts.len()
        invariant
            i <= texts@.len(),
            all == views(texts@),
            all_wf(out@),
            routes_of_request(all.take(i as int)) == Ok::<Seq<Ipv4Cidr>, ApiErrorView>(out@),
        decreases texts@.len() - i,
    {
        proof {
            assert(all.take(i + 1).drop_last() =~= all.take(i as int));
            assert(all.take(i + 1).last() == texts@[i as int]@);
        }
        let text = trimmed(texts[i].as_str());
        match Ipv4Cidr::parse(text.as_str()) {
            Ok(route) => {
                out.push(route);
            },
            Err(err) => {
                proof {
                    lemma_first_route_error(all, i + 1);
                }
                return Err(
                    ApiError {
                        status: 400,
                        message: cat4(
                            "invalid route '",
                            texts[i].as_str(),
                            "': ",
                            err.as_str(),
                        ),
                    },
                );
            },
        }
        i += 1;
    }
    assert(all.take(i as int) =~= all);
    Ok(out)
}

proof fn lemma_first_route_error(texts: Seq<Seq<char>>, n: int)
    requires
        0 <= n <= texts.len(),
        routes_of_request(texts.take(n)) is Err,
    ensures
        routes_of_request(texts) == routes_of_request(texts.take(n)),
    decreases texts.len() - n,
{
    if n < texts.len() {
        assert(texts.take(n + 1).drop_last() =~= texts.take(n));
        lemma_first_route_error(texts, n + 1);
    } else {
        assert(texts.take(n) =~= texts);
    }
}

/// The networks of the routes that are installed.
pub open spec fn installed_networks(routes: Seq<RouteSnapshotView>) -> Seq<Seq<char>>
    decreases routes.len(),
{
    if routes.len() == 0 {
        Seq::empty()
    } else if routes.last().installed {
        installed_networks(routes.drop_last()).push(routes.last().network)
    } else {
        installed_networks(routes.drop_last())
    }
}

/// The routes of the VPN: those that it exports, and those of peers that are
/// installed.
pub fn get_vpn_routes(snapshot: &VpnSnapshot) -> (out: VpnRoutesResponse)
    ensures
        opt_view(out.tunnel_ip) == opt_view(snapshot.local_tunnel_ip),
        views(out.exported_routes@) == views(snapshot.local_routes@),
        views(out.remote_installed@) == installed_networks(viewed(snapshot.remote_routes@)),
{
    let ghost all = viewed(snapshot.remote_routes@);
    let mut installed: Vec<String> = Vec::new();
    let mut i: usize = 0;
    assert(all.take(0) =~= Seq::<RouteSnapshotView>::empty());
    assert(views(installed@) =~= Seq::<Seq<char>>::empty());
    while i < snapshot.remote_routes.len()
        invariant
            i <= snapshot.remote_routes@.len(),
            all == viewed(snapshot.remote_routes@),
            views(installed@) == installed_networks(all.take(i as int)),
        decreases snapshot.remote_routes@.len() - i,
    {
        let ghost before = views(installed@);
        proof {
            assert(all.take(i + 1).drop_last() =~= all.take(i as int));
            assert(all.take(i + 1).last() == snapshot.remote_routes@[i as int]@);
        }
        if snapshot.remote_routes[i].installed {
            let network = snapshot.remote_routes[i].network.clone();
            installed.push(network);
            assert(views(installed@) =~= before.push(network@));
        }
        i += 1;
    }
    assert(all.take(i as int) =~= all);
    VpnRoutesResponse {
        tunnel_ip: clone_opt(&snapshot.local_tunnel_ip),
        exported_routes: clone_strings(&snapshot.local_routes),
        remote_installed: installed,
    }
}

// ── Peers ────────────────────────────────────────────────────────────────────

/// The refusal of the first of the peers that is none, if there is one.
/// `parsed` is what each peer reads as, white space around it aside.
pub open spec fn peers_refusal(
    peers: Seq<Seq<char>>,
    parsed: Seq<Result<AddressHash, String>>,
) -> Option<ApiErrorView>
    decreases peers.len(),
{
    if peers.len() == 0 || parsed.len() == 0 {
        None
    } else if trim(peers[0]).len() == 0 {
        Some(refused(400, "peer hash is required"@))
    } else {
        match parsed[0] {
            Err(err) => Some(
                refused(400, "invalid peer hash '"@ + trim(peers[0]) + "': "@ + err@),
            ),
            Ok(_) => peers_refusal(peers.skip(1), parsed.skip(1)),
        }
    }
}

/// Whether a text is the hash of one of the peers.
pub open spec fn is_peer_hash(parsed: Seq<Result<AddressHash, String>>, text: Seq<char>) -> bool {
    exists|i: int|
        0 <= i < parsed.len() && (#[trigger] parsed[i]) is Ok && hex_text(parsed[i]->Ok_0@) == text
}

/// The hashes of peers as hexadecimal text, in order and each once. `parsed` is
/// what each peer reads as, white space around it aside.
pub fn normalize_vpn_peer_hashes(
    peers: &Vec<String>,
    parsed: &Vec<Result<AddressHash, String>>,
) -> (out: Result<Vec<String>, ApiError>)
    requires
        peers@.len() == parsed@.len(),
    ensures
        match peers_refusal(views(peers@), parsed@) {
            Some(refusal) => out matches Err(err) && err@ == refusal,
            None => {
                &&& out matches Ok(list) && ascending(views(list@)) && forall|text: Seq<char>|
                    #[trigger] views(list@).contains(text) <==> is_peer_hash(parsed@, text)
            },
        },
{
    let ghost names = views(peers@);
    let ghost hashes = parsed@;
    let mut out: Vec<String> = Vec::new();
    let mut i: usize = 0;
    assert(views(out@) =~= Seq::<Seq<char>>::empty());
    assert(names.skip(0) =~= names);
    assert(hashes.skip(0) =~= hashes);
    while i < peers.len()
        invariant
            i <= peers@.len(),
            peers@.len() == parsed@.len(),
            names == views(peers@),
            hashes == parsed@,
            peers_refusal(names.skip(i as int), hashes.skip(i as int)) == peers_refusal(
                names,
                hashes,
            ),
            ascending(views(out@)),
            forall|text: Seq<char>| #[trigger]
                views(out@).contains(text) <==> is_peer_hash(hashes.take(i as int), text),
        decreases peers@.len() - i,
    {
        proof {
            assert(names.skip(i as int)[0] == peers@[i as int]@);
            assert(hashes.skip(i as int)[0] == parsed@[i as int]);
            assert(names.skip(i as int).skip(1) =~= names.skip(i + 1));
            assert(hashes.skip(i as int).skip(1) =~= hashes.skip(i + 1));
        }
        let raw = trimmed(peers[i].as_str());
        if raw.as_str().is_empty() {
            return Err(ApiError { status: 400, message: "peer hash is required".to_owned() });
        }
        match &parsed[i] {
            Ok(hash) => {
                let text = hash.to_hex_string();
                let ghost before = views(out@);
                insert_text(&mut out, text);
                proof {
                    let was = hashes.take(i as int);
                    let now = hashes.take(i + 1);
                    assert forall|t: Seq<char>| #[trigger] views(out@).contains(t)
                        <==> is_peer_hash(now, t) by {
                        assert(before.contains(t) <==> is_peer_hash(was, t));
                        if is_peer_hash(was, t) {
                            let k = choose|k: int|
                                0 <= k < was.len() && (#[trigger] was[k]) is Ok && hex_text(
                                    was[k]->Ok_0@,
                                ) == t;
                            assert(now[k] == was[k]);
                        }
                        if is_peer_hash(now, t) {
                            let k = choose|k: int|
                                0 <= k < now.len() && (#[trigger] now[k]) is Ok && hex_text(
                                    now[k]->Ok_0@,
                                ) == t;
                            if k < was.len() {
                                assert(was[k] == now[k]);
                            }
                        }
                        assert(now[i as int] == hashes[i as int]);
                    }
                }
            },
            Err(err) => {
                return Err(
                    ApiError {
                        status: 400,
                        message: cat4("invalid peer hash '", raw.as_str(), "': ", err.as_str()),
                    },
                );
            },
        }
        i += 1;
    }
    proof {
        assert(names.skip(i as int) =~= Seq::<Seq<char>>::empty());
        assert(hashes.take(i as int) =~= hashes);
    }
    Ok(out)
}

/// The answer to a request that set who may use the VPN.
pub fn access_answer(allow_all_peers: bool, peers: Vec<String>) -> (out: VpnAccessResponse)
    ensures
        out.status@ == (if allow_all_peers {
            "VPN access updated (allow all peers)"@
        } else {
            "VPN access updated (allowlist only)"@
        }),
        out.allow_all_peers == allow_all_peers,
        out.peers == peers,
{
    let status = if allow_all_peers {
        "VPN access updated (allow all peers)"
    } else {
        "VPN access updated (allowlist only)"
    };
    VpnAccessResponse { status: status.to_owned(), allow_all_peers, peers }
}

/// The refusal of a text that is no address. `raw` is the text without white
/// space around it.
pub fn invalid_address(raw: &str, err: &str) -> (out: ApiError)
    ensures
        out@ == refused(400, "invalid IPv4 address '"@ + raw@ + "': "@ + err@),
{
    ApiError { status: 400, message: cat4("invalid IPv4 address '", raw, "': ", err) }
}

// ── Speed ────────────────────────────────────────────────────────────────────

/// Whether a peer has a tunnel address.
pub open spec fn has_tunnel(peers: Seq<PeerSnapshotView>, ip: Seq<char>) -> bool {
    exists|i: int| 0 <= i < peers.len() && (#[trigger] peers[i]).tunnel_ip == Some(ip)
}

/// The page to fetch from the peer with a tunnel address to see how fast the
/// VPN is. The VPN has to run and to have such a peer.
pub fn speed_test_url(snapshot: Option<&VpnSnapshot>, peer_ip: &str) -> (out: Result<
    String,
    ApiError,
>)
    ensures
        match snapshot {
            None => out matches Err(err) && err@ == refused(503, "vpn unavailable"@),
            Some(vpn) => if has_tunnel(viewed(vpn.peers@), peer_ip@) {
                out matches Ok(url) && url@ == "https://"@ + peer_ip@ + "/"@
            } else {
                out matches Err(err) && err@ == refused(404, "peer tunnel IP not found"@)
            },
        },
{
    let vpn = match snapshot {
        Some(vpn) => vpn,
        None => {
            return Err(ApiError { status: 503, message: "vpn unavailable".to_owned() });
        },
    };
    let ghost all = viewed(vpn.peers@);
    let mut i: usize = 0;
    while i < vpn.peers.len()
        invariant
            i <= vpn.peers@.len(),
            all == viewed(vpn.peers@),
            snapshot == Some(vpn),
            forall|k: int| 0 <= k < i ==> (#[trigger] all[k]).tunnel_ip != Some(peer_ip@),
        decreases vpn.peers@.len() - i,
    {
        assert(all[i as int] == vpn.peers@[i as int]@);
        let found = match &vpn.peers[i].tunnel_ip {
            Some(ip) => same(ip.as_str(), peer_ip),
            None => false,
        };
        if found {
            return Ok(cat3("https://", peer_ip, "/"));
        }
        i += 1;
    }
    Err(ApiError { status: 404, message: "peer tunnel IP not found".to_owned() })
}

/// Where a speed test failed, and why.
#[derive(Debug)]
pub enum SpeedTestFailure {
    ReadRootCa(String),
    ParseRootCa(String),
    BuildClient(String),
    Request(String),
    Status(String),
    Body(String),
}

/// The answer to a speed test that failed.
pub fn speed_test_error(failure: SpeedTestFailure) -> (out: ApiError)
    ensures
        out@ == (match failure {
            SpeedTestFailure::ReadRootCa(err) => refused(
                500,
                "failed to read local Root CA certificate: "@ + err@,
            ),
            SpeedTestFailure::ParseRootCa(err) => refused(
                500,
                "failed to parse local Root CA certificate: "@ + err@,
            ),
            SpeedTestFailure::BuildClient(err) => refused(
                500,
                "failed to build speed-test client: "@ + err@,
            ),
            SpeedTestFailure::Request(err) => refused(
                502,
                "speed-test request failed: "@ + err@,
            ),
            SpeedTestFailure::Status(status) => refused(502, "speed-test returned "@ + status@),
            SpeedTestFailure::Body(err) => refused(
                502,
                "failed to read speed-test body: "@ + err@,
            ),
        }),
{
    match failure {
        SpeedTestFailure::ReadRootCa(err) => ApiError {
            status: 500,
            message: cat2("failed to read local Root CA certificate: ", err.as_str()),
        },
        SpeedTestFailure::ParseRootCa(err) => ApiError {
            status: 500,
            message: cat2("failed to parse local Root CA certificate: ", err.as_str()),
        },
        SpeedTestFailure::BuildClient(err) => ApiError {
            status: 500,
            message: cat2("failed to build speed-test client: ", err.as_str()),
        },
        SpeedTestFailure::Request(err) => ApiError {
            status: 502,
            message: cat2("speed-test request failed: ", err.as_str()),
        },
        SpeedTestFailure::Status(status) => ApiError {
            status: 502,
            message: cat2("speed-test returned ", status.as_str()),
        },
        SpeedTestFailure::Body(err) => ApiError {
            status: 502,
            message: cat2("failed to read speed-test body: ", err.as_str()),
        },
    }
}

/// The outcome of a speed test that fetched `bytes` bytes in `elapsed_ms`
/// milliseconds, which count as at least one. Only the low 64 bits of the rate
/// are kept.
pub fn speed_test_result(bytes: u64, elapsed_ms: u64) -> (out: VpnSpeedTestResponse)
    ensures
        ({
            let duration = if elapsed_ms == 0 {
                1u64
            } else {
                elapsed_ms
            };
            out == VpnSpeedTestResponse {
                ok: true,
                bytes,
                duration_ms: duration,
                bps: ((bytes as int * 8000 / duration as int) % 0x1_0000_0000_0000_0000) as u64,
            }
        }),
{
    let duration: u64 = if elapsed_ms == 0 {
        1
    } else {
        elapsed_ms
    };
    let bits: u128 = (bytes as u128) * 8000;
    let rate: u128 = bits / duration as u128;
    let bps: u64 = (rate % 0x1_0000_0000_0000_0000u128) as u64;
    VpnSpeedTestResponse { ok: true, bytes, duration_ms: duration, bps }
}

// ── Laws ─────────────────────────────────────────────────────────────────────

/// Routes are taken if and only if each of them can be read without the space round
/// it, in the order in which they came; else the request is a bad one.
pub proof fn readable_routes_are_taken(texts: Seq<Seq<char>>)
    ensures
        routes_of_request(texts) is Ok <==> forall|i: int|
            0 <= i < texts.len() ==> network_of_text(trim(#[trigger] texts[i])) is Ok,
        routes_of_request(texts) matches Ok(routes) ==> routes.len() == texts.len() && forall|
            i: int,
        |
            0 <= i < routes.len() ==> network_of_text(trim(texts[i])) == Ok::<(u32, u8), Seq<char>>(
                (#[trigger] routes[i].address, routes[i].length),
            ),
        routes_of_request(texts) matches Err(err) ==> err.status == 400,
    decreases texts.len(),
{
    if texts.len() > 0 {
        let rest = texts.drop_last();
        readable_routes_are_taken(rest);
        assert(forall|i: int| 0 <= i < rest.len() ==> #[trigger] rest[i] == texts[i]);
        if routes_of_request(texts) is Ok {
            assert forall|i: int| 0 <= i < texts.len() implies network_of_text(
                trim(#[trigger] texts[i]),
            ) is Ok by {
                if i < rest.len() {
                    assert(network_of_text(trim(rest[i])) is Ok);
                }
            }
        } else if forall|i: int|
            0 <= i < texts.len() ==> network_of_text(trim(#[trigger] texts[i])) is Ok {
            assert(network_of_text(trim(texts[texts.len() - 1])) is Ok);
            assert forall|i: int| 0 <= i < rest.len() implies network_of_text(
                trim(#[trigger] rest[i]),
            ) is Ok by {
                assert(rest[i] == texts[i]);
            }
        }
    }
}

/// The routes that are told of as installed are those that are, and all of them.
pub proof fn installed_routes_are_told_of(routes: Seq<RouteSnapshotView>, network: Seq<char>)
    ensures
        installed_networks(routes).contains(network) <==> exists|i: int|
            0 <= i < routes.len() && (#[trigger] routes[i]).installed && routes[i].network
                == network,
    decreases routes.len(),
{
    if routes.len() > 0 {
        let rest = routes.drop_last();
        let before = installed_networks(rest);
        let after = installed_networks(routes);
        installed_routes_are_told_of(rest, network);
        assert(routes[routes.len() - 1] == routes.last());
        if before.contains(network) {
            let k = choose|k: int| 0 <= k < before.len() && before[k] == network;
            assert(after[k] == network);
            let i = choose|i: int|
                0 <= i < rest.len() && (#[trigger] rest[i]).installed && rest[i].network == network;
            assert(routes[i] == rest[i]);
        }
        if after.contains(network) && !before.contains(network) {
            let k = choose|k: int| 0 <= k < after.len() && after[k] == network;
            if k < before.len() {
                assert(before[k] == network);
            }
        }
        if exists|i: int|
            0 <= i < routes.len() && (#[trigger] routes[i]).installed && routes[i].network
                == network {
            let i = choose|i: int|
                0 <= i < routes.len() && (#[trigger] routes[i]).installed && routes[i].network
                    == network;
            if i < rest.len() {
                assert(rest[i] == routes[i]);
            } else {
                assert(after[before.len() as int] == network);
            }
        }
    }
}

/// Peers are taken if and only if each is named and its name can be read; else the
/// request is a bad one.
pub proof fn readable_peers_are_taken(
    peers: Seq<Seq<char>>,
    parsed: Seq<Result<AddressHash, String>>,
)
    requires
        peers.len() == parsed.len(),
    ensures
        peers_refusal(peers, parsed) is None <==> forall|i: int|
            0 <= i < peers.len() ==> trim(#[trigger] peers[i]).len() > 0 && parsed[i] is Ok,
        peers_refusal(peers, parsed) matches Some(err) ==> err.status == 400,
    decreases peers.len(),
{
    if peers.len() > 0 {
        let rest = peers.skip(1);
        let more = parsed.skip(1);
        readable_peers_are_taken(rest, more);
        assert(forall|i: int| 0 <= i < rest.len() ==> #[trigger] rest[i] == peers[i + 1]);
        assert(forall|i: int| 0 <= i < more.len() ==> #[trigger] more[i] == parsed[i + 1]);
        if peers_refusal(peers, parsed) is None {
            assert forall|i: int| 0 <= i < peers.len() implies trim(#[trigger] peers[i]).len() > 0
                && parsed[i] is Ok by {
                if i > 0 {
                    assert(rest[i - 1] == peers[i] && more[i - 1] == parsed[i]);
                }
            }
        } else if forall|i: int|
            0 <= i < peers.len() ==> trim(#[trigger] peers[i]).len() > 0 && parsed[i] is Ok {
            assert(trim(peers[0]).len() > 0);
            assert forall|i: int| 0 <= i < rest.len() implies trim(#[trigger] rest[i]).len() > 0
                && more[i] is Ok by {
                assert(rest[i] == peers[i + 1] && more[i] == parsed[i + 1]);
            }
        }
    }
}

/// The first peer that is wrong is the one that the refusal tells of.
pub proof fn the_first_wrong_peer_is_told_of(
    peers: Seq<Seq<char>>,
    parsed: Seq<Result<AddressHash, String>>,
    i: int,
)
    requires
        peers.len() == parsed.len(),
        0 <= i < peers.len(),
        forall|k: int| 0 <= k < i ==> trim(#[trigger] peers[k]).len() > 0 && parsed[k] is Ok,
    ensures
        trim(peers[i]).len() == 0 ==> peers_refusal(peers, parsed) == Some(
            refused(400, "peer hash is required"@),
        ),
        trim(peers[i]).len() > 0 && parsed[i] is Err ==> peers_refusal(peers, parsed) == Some(
            refused(
                400,
                "invalid peer hash '"@ + trim(peers[i]) + "': "@ + parsed[i]->Err_0@,
            ),
        ),
    decreases i,
{
    if i > 0 {
        let rest = peers.skip(1);
        let more = parsed.skip(1);
        assert(trim(peers[0]).len() > 0 && parsed[0] is Ok);
        assert forall|k: int| 0 <= k < i - 1 implies trim(#[trigger] rest[k]).len() > 0
            && more[k] is Ok by {
            assert(rest[k] == peers[k + 1] && more[k] == parsed[k + 1]);
        }
        the_first_wrong_peer_is_told_of(rest, more, i - 1);
        assert(rest[i - 1] == peers[i] && more[i - 1] == parsed[i]);
    }
}

/// The peers that are listed are those that were read, and no others.
pub proof fn read_peers_are_listed(parsed: Seq<Result<AddressHash, String>>, i: int)
    ensures
        0 <= i < parsed.len() && parsed[i] is Ok ==> is_peer_hash(
            parsed,
            hex_text(parsed[i]->Ok_0@),
        ),
        (forall|k: int| 0 <= k < parsed.len() ==> (#[trigger] parsed[k]) is Err) ==> forall|
            text: Seq<char>,
        | !is_peer_hash(parsed, text),
{
    if 0 <= i < parsed.len() && parsed[i] is Ok {
        assert(hex_text(parsed[i]->Ok_0@) == hex_text(parsed[i]->Ok_0@));
    }
}

/// A peer with an address in the tunnel is found by it, and no other address is.
pub proof fn tunnels_are_found_by_their_address(
    peers: Seq<PeerSnapshotView>,
    ip: Seq<char>,
    i: int,
)
    ensures
        0 <= i < peers.len() && peers[i].tunnel_ip == Some(ip) ==> has_tunnel(peers, ip),
        (forall|k: int| 0 <= k < peers.len() ==> (#[trigger] peers[k]).tunnel_ip != Some(ip))
            ==> !has_tunnel(peers, ip),
{
}

} // verus!
