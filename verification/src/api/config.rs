//! Requests that change the settings of the VPN.
use crate::api::error::{refused, ApiError, ApiErrorView};
use crate::api::vpn::{
    normalize_vpn_peer_hashes, parse_vpn_routes, peers_refusal, routes_of_request,
};
use crate::settings::{
    config_of, config_values, json_reads_as, module_values, routes_json, saved_settings_come_back,
    ConfigView, GatewayConfig, ModuleTexts, ModuleView,
};
use crate::settings_store::{Database, DatabaseView};
use crate::text::{cat2, views};
use crate::text_set::{ascending, ascending_is_unique};
use crate::vpn::network::{network_text, reads_as, Ipv4Cidr};
use crate::vpn::routes::AddressHash;
use vstd::prelude::*;

verus! {

/// The refusal of a request because the settings cannot be read.
pub open spec fn unreadable_settings(err: Seq<char>) -> ApiErrorView {
    refused(500, "failed to load config: Invalid parameter name: "@ + err)
}

/// Whether a configuration and the settings of the radio modules are what is
/// kept after a request.
pub open spec fn kept(
    before: DatabaseView,
    after: DatabaseView,
    c: ConfigView,
    first: ModuleView,
    second: ModuleView,
) -> bool {
    &&& after.values == module_values(
        module_values(config_values(before.values, c), 0, first),
        1,
        second,
    )
    &&& ascending(after.peers)
    &&& forall|p: Seq<char>| #[trigger] after.peers.contains(p) <==> c.peers.contains(p)
    &&& reads_as(
        network_text(c.network.address, c.network.length),
        c.network.address,
        c.network.length,
    )
    &&& json_reads_as(routes_json(c.advertised_routes), c.advertised_routes)
}

/// Sets the routes that the gateway advertises. Nothing changes where the
/// request is refused. `first` and `second` are the settings of the radio
/// modules, which are kept along with the others.
pub fn put_vpn_routes(
    settings: &mut Database,
    texts: &Vec<String>,
    first: &ModuleTexts,
    second: &ModuleTexts,
) -> (out: Result<Vec<Ipv4Cidr>, ApiError>)
    requires
        old(settings).wf(),
    ensures
        final(settings).wf(),
        match routes_of_request(views(texts@)) {
            Err(refusal) => {
                &&& out matches Err(err) && err@ == refusal
                &&& *final(settings) == *old(settings)
            },
            Ok(routes) => match config_of(old(settings)@) {
                Err(reason) => {
                    &&& out matches Err(err) && err@ == unreadable_settings(reason)
                    &&& *final(settings) == *old(settings)
                },
                Ok(c) => {
                    &&& out matches Ok(list) && list@ == routes
                    &&& kept(
                        old(settings)@,
                        final(settings)@,
                        (ConfigView { advertised_routes: routes, ..c }),
                        first@,
                        second@,
                    )
                },
            },
        },
{
    let routes = match parse_vpn_routes(texts) {
        Ok(routes) => routes,
        Err(err) => {
            return Err(err);
        },
    };
    let config = match settings.load_config() {
        Ok(config) => config,
        Err(err) => {
            return Err(
                ApiError {
                    status: 500,
                    message: cat2(
                        "failed to load config: Invalid parameter name: ",
                        err.as_str(),
                    ),
                },
            );
        },
    };
    let next = GatewayConfig { advertised_routes: copy_routes(&routes), ..config };
    settings.save_config(&next, first, second);
    Ok(routes)
}

/// A copy of a list of networks.
fn copy_routes(routes: &Vec<Ipv4Cidr>) -> (out: Vec<Ipv4Cidr>)
    ensures
        out@ == routes@,
{
    let mut out: Vec<Ipv4Cidr> = Vec::new();
    let mut i: usize = 0;
    while i < routes.len()
        invariant
            i <= routes@.len(),
            out@ == routes@.take(i as int),
        decreases routes@.len() - i,
    {
        out.push(routes[i]);
        assert(out@ =~= routes@.take(i + 1));
        i += 1;
    }
    assert(routes@.take(i as int) =~= routes@);
    out
}

/// Sets who may use the VPN. `parsed` is what each of the peers reads as, white
/// space around it aside. Nothing changes where the request is refused.
/// `first` and `second` are the settings of the radio modules, which are kept
/// along with the others.
pub fn put_vpn_access(
    settings: &mut Database,
    allow_all_peers: bool,
    peers: &Vec<String>,
    parsed: &Vec<Result<AddressHash, String>>,
    first: &ModuleTexts,
    second: &ModuleTexts,
) -> (out: Result<Vec<String>, ApiError>)
    requires
        old(settings).wf(),
        peers@.len() == parsed@.len(),
    ensures
        final(settings).wf(),
        match peers_refusal(views(peers@), parsed@) {
            Some(refusal) => {
                &&& out matches Err(err) && err@ == refusal
                &&& *final(settings) == *old(settings)
            },
            None => match config_of(old(settings)@) {
                Err(reason) => {
                    &&& out matches Err(err) && err@ == unreadable_settings(reason)
                    &&& *final(settings) == *old(settings)
                },
                Ok(c) => {
                    &&& out matches Ok(list) && ascending(views(list@)) && forall|text: Seq<char>|
                        #[trigger] views(list@).contains(text) <==> crate::api::vpn::is_peer_hash(
                            parsed@,
                            text,
                        )
                    &&& final(settings)@.peers == views(out->Ok_0@)
                    &&& kept(
                        old(settings)@,
                        final(settings)@,
                        (ConfigView { allow_all_peers, peers: views(out->Ok_0@), ..c }),
                        first@,
                        second@,
                    )
                },
            },
        },
{
    let list = match normalize_vpn_peer_hashes(peers, parsed) {
        Ok(list) => list,
        Err(err) => {
            return Err(err);
        },
    };
    let config = match settings.load_config() {
        Ok(config) => config,
        Err(err) => {
            return Err(
                ApiError {
                    status: 500,
                    message: cat2(
                        "failed to load config: Invalid parameter name: ",
                        err.as_str(),
                    ),
                },
            );
        },
    };
    let next = GatewayConfig {
        allow_all_peers,
        peers: crate::text::clone_strings(&list),
        ..config
    };
    settings.save_config(&next, first, second);
    proof {
        ascending_is_unique(settings@.peers, views(list@));
    }
    Ok(list)
}

// ── Laws ─────────────────────────────────────────────────────────────────────

/// After a request that was granted, the settings read as the request left
/// them: what it set is there, and everything else is as it was. The peers come
/// back in order and each of them once.
pub proof fn granted_requests_are_kept(
    before: DatabaseView,
    after: DatabaseView,
    c: ConfigView,
    first: ModuleView,
    second: ModuleView,
)
    requires
        c.wf(),
        first.radio_config is Some && first.modulation is Some && first.accelerator is Some
            && first.antenna is Some,
        second.radio_config is Some && second.modulation is Some && second.accelerator is Some
            && second.antenna is Some,
        kept(before, after, c, first, second),
    ensures
        config_of(after) == Ok::<ConfigView, Seq<char>>(ConfigView { peers: after.peers, ..c }),
        ascending(after.peers),
        forall|p: Seq<char>| #[trigger] after.peers.contains(p) <==> c.peers.contains(p),
        ascending(c.peers) ==> config_of(after) == Ok::<ConfigView, Seq<char>>(c),
{
    saved_settings_come_back(before.values, c, first, second, after.peers);
    assert(after == DatabaseView { values: after.values, peers: after.peers });
}

} // verus!
