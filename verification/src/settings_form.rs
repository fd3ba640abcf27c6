//! The configuration of the gateway as the pages show and send it: networks as
//! texts.
use crate::settings::{ConfigView, GatewayConfig};
use crate::text::{cat4, clone_strings, views};
use crate::vpn::network::{network_of_text, network_text, reads_as, Ipv4Cidr};
use crate::vpn::runtime::all_wf;
use vstd::prelude::*;

verus! {

/// The configuration of the gateway, all but its radio modules.
#[derive(Debug)]
pub struct GatewaySettingsDto {
    pub network: String,
    pub allow_all_peers: bool,
    pub peers: Vec<String>,
    pub advertised_routes: Vec<String>,
    pub announce_freq_secs: u32,
}

/// The configuration of the gateway as texts.
pub struct SettingsView {
    pub network: Seq<char>,
    pub allow_all_peers: bool,
    pub peers: Seq<Seq<char>>,
    pub advertised_routes: Seq<Seq<char>>,
    pub announce_freq_secs: u32,
}

impl View for GatewaySettingsDto {
    type V = SettingsView;

    open spec fn view(&self) -> SettingsView {
        SettingsView {
            network: self.network@,
            allow_all_peers: self.allow_all_peers,
            peers: views(self.peers@),
            advertised_routes: views(self.advertised_routes@),
            announce_freq_secs: self.announce_freq_secs,
        }
    }
}

impl Default for GatewaySettingsDto {
    fn default() -> (out: GatewaySettingsDto)
        ensures
            out@ == (SettingsView {
                network: "10.0.0.0/24"@,
                allow_all_peers: true,
                peers: Seq::empty(),
                advertised_routes: seq!["192.168.10.0/24"@],
                announce_freq_secs: 5,
            }),
    {
        let mut routes: Vec<String> = Vec::new();
        routes.push("192.168.10.0/24".to_owned());
        let peers: Vec<String> = Vec::new();
        proof {
            assert(views(routes@) =~= seq!["192.168.10.0/24"@]);
            assert(views(peers@) =~= Seq::<Seq<char>>::empty());
        }
        GatewaySettingsDto {
            network: "10.0.0.0/24".to_owned(),
            allow_all_peers: true,
            peers,
            advertised_routes: routes,
            announce_freq_secs: 5,
        }
    }
}

/// The texts of networks.
pub open spec fn texts_of(routes: Seq<Ipv4Cidr>) -> Seq<Seq<char>> {
    routes.map_values(|r: Ipv4Cidr| network_text(r.address, r.length))
}

/// Whether the texts of networks read as those networks.
pub open spec fn texts_read_back(routes: Seq<Ipv4Cidr>) -> bool {
    forall|i: int|
        0 <= i < routes.len() ==> reads_as(
            network_text((#[trigger] routes[i]).address, routes[i].length),
            routes[i].address,
            routes[i].length,
        )
}

/// A configuration as texts.
pub open spec fn form_of(c: ConfigView) -> SettingsView {
    SettingsView {
        network: network_text(c.network.address, c.network.length),
        allow_all_peers: c.allow_all_peers,
        peers: c.peers,
        advertised_routes: texts_of(c.advertised_routes),
        announce_freq_secs: c.announce_freq_secs,
    }
}

/// The networks that texts name, or what is wrong with the first that names
/// none.
pub open spec fn routes_of_texts(texts: Seq<Seq<char>>) -> Result<Seq<Ipv4Cidr>, Seq<char>>
    decreases texts.len(),
{
    if texts.len() == 0 {
        Ok(Seq::empty())
    } else {
        match routes_of_texts(texts.drop_last()) {
            Err(err) => Err(err),
            Ok(routes) => match network_of_text(texts.last()) {
                Ok((address, length)) => Ok(routes.push(Ipv4Cidr { address, length })),
                Err(err) => Err(
                    "invalid advertised route '"@ + texts.last() + "': "@ + err,
                ),
            },
        }
    }
}

/// The configuration that texts stand for, or what is wrong with them.
pub open spec fn config_of_form(s: SettingsView) -> Result<ConfigView, Seq<char>> {
    match (network_of_text(s.network), routes_of_texts(s.advertised_routes)) {
        (Err(err), _) => Err("invalid network CIDR '"@ + s.network + ": "@ + err),
        (_, Err(err)) => Err(err),
        (Ok((address, length)), Ok(routes)) => Ok(
            ConfigView {
                network: Ipv4Cidr { address, length },
                allow_all_peers: s.allow_all_peers,
                peers: s.peers,
                advertised_routes: routes,
                announce_freq_secs: s.announce_freq_secs,
            },
        ),
    }
}

impl GatewaySettingsDto {
    /// A configuration as texts.
    pub fn from_config(config: &GatewayConfig) -> (out: GatewaySettingsDto)
        requires
            config@.wf(),
        ensures
            out@ == form_of(config@),
            reads_as(
                network_text(config@.network.address, config@.network.length),
                config@.network.address,
                config@.network.length,
            ),
            texts_read_back(config@.advertised_routes),
    {
        let ghost routes = config.advertised_routes@;
        let ghost wanted = texts_of(routes);
        let mut texts: Vec<String> = Vec::new();
        let mut i: usize = 0;
        assert(views(texts@) =~= wanted.take(0));
        while i < config.advertised_routes.len()
            invariant
                i <= config.advertised_routes@.len(),
                routes == config.advertised_routes@,
                all_wf(routes),
                wanted == texts_of(routes),
                views(texts@) == wanted.take(i as int),
                forall|k: int|
                    0 <= k < i ==> reads_as(
                        network_text((#[trigger] routes[k]).address, routes[k].length),
                        routes[k].address,
                        routes[k].length,
                    ),
            decreases config.advertised_routes@.len() - i,
        {
            let ghost before = views(texts@);
            let text = config.advertised_routes[i].text();
            texts.push(text);
            proof {
                assert(views(texts@) =~= before.push(text@));
                assert(wanted.take(i + 1) =~= before.push(wanted[i as int]));
            }
            i += 1;
        }
        assert(wanted.take(i as int) =~= wanted);
        GatewaySettingsDto {
            network: config.network.text(),
            allow_all_peers: config.allow_all_peers,
            peers: clone_strings(&config.peers),
            advertised_routes: texts,
            announce_freq_secs: config.announce_freq_secs,
        }
    }

    /// The configuration that the texts stand for.
    pub fn to_config(&self) -> (out: Result<GatewayConfig, String>)
        ensures
            crate::settings::config_outcome(out) == config_of_form(self@),
            out matches Ok(config) ==> config@.wf(),
    {
        let network = match Ipv4Cidr::parse(self.network.as_str()) {
            Ok(network) => network,
            Err(err) => {
                return Err(
                    cat4("invalid network CIDR '", self.network.as_str(), ": ", err.as_str()),
                );
            },
        };
        let advertised_routes = match parse_routes(&self.advertised_routes) {
            Ok(routes) => routes,
            Err(err) => {
                return Err(err);
            },
        };
        Ok(
            GatewayConfig {
                network,
                allow_all_peers: self.allow_all_peers,
                peers: clone_strings(&self.peers),
                advertised_routes,
                announce_freq_secs: self.announce_freq_secs,
            },
        )
    }
}

/// What an outcome with routes stands for.
pub open spec fn routes_outcome(out: Result<Vec<Ipv4Cidr>, String>) -> Result<
    Seq<Ipv4Cidr>,
    Seq<char>,
> {
    match out {
        Ok(routes) => Ok(routes@),
        Err(err) => Err(err@),
    }
}

/// The networks that texts name.
fn parse_routes(texts: &Vec<String>) -> (out: Result<Vec<Ipv4Cidr>, String>)
    ensures
        routes_outcome(out) == routes_of_texts(views(texts@)),
        out matches Ok(routes) ==> all_wf(routes@),
{
    let ghost all = views(texts@);
    let mut out: Vec<Ipv4Cidr> = Vec::new();
    let mut i: usize = 0;
    assert(all.take(0) =~= Seq::<Seq<char>>::empty());
    assert(out@ =~= Seq::<Ipv4Cidr>::empty());
    while i < texts.len()
        invariant
            i <= texts@.len(),
            all == views(texts@),
            all_wf(out@),
            routes_of_texts(all.take(i as int)) == Ok::<Seq<Ipv4Cidr>, Seq<char>>(out@),
        decreases texts@.len() - i,
    {
        proof {
            assert(all.take(i + 1).drop_last() =~= all.take(i as int));
            assert(all.take(i + 1).last() == texts@[i as int]@);
        }
        match Ipv4Cidr::parse(texts[i].as_str()) {
            Ok(route) => {
                out.push(route);
            },
            Err(err) => {
                proof {
                    lemma_first_error(all, i + 1);
                }
                return Err(
                    cat4("invalid advertised route '", texts[i].as_str(), "': ", err.as_str()),
                );
            },
        }
        i += 1;
    }
    assert(all.take(i as int) =~= all);
    Ok(out)
}

/// An error among the first texts is the error of all of them.
proof fn lemma_first_error(texts: Seq<Seq<char>>, n: int)
    requires
        0 <= n <= texts.len(),
        routes_of_texts(texts.take(n)) is Err,
    ensures
        routes_of_texts(texts) == routes_of_texts(texts.take(n)),
    decreases texts.len() - n,
{
    if n < texts.len() {
        assert(texts.take(n + 1).drop_last() =~= texts.take(n));
        lemma_first_error(texts, n + 1);
    } else {
        assert(texts.take(n) =~= texts);
    }
}

/// A configuration that is shown and sent back unchanged is the same.
pub proof fn shown_settings_come_back(c: ConfigView)
    requires
        c.wf(),
        reads_as(
            network_text(c.network.address, c.network.length),
            c.network.address,
            c.network.length,
        ),
        texts_read_back(c.advertised_routes),
    ensures
        config_of_form(form_of(c)) == Ok::<ConfigView, Seq<char>>(c),
{
    lemma_texts_read_back(c.advertised_routes);
}

proof fn lemma_texts_read_back(routes: Seq<Ipv4Cidr>)
    requires
        texts_read_back(routes),
    ensures
        routes_of_texts(texts_of(routes)) == Ok::<Seq<Ipv4Cidr>, Seq<char>>(routes),
    decreases routes.len(),
{
    if routes.len() > 0 {
        let rest = routes.drop_last();
        assert forall|i: int| 0 <= i < rest.len() implies reads_as(
            network_text((#[trigger] rest[i]).address, rest[i].length),
            rest[i].address,
            rest[i].length,
        ) by {
            assert(rest[i] == routes[i]);
        }
        lemma_texts_read_back(rest);
        assert(texts_of(routes).drop_last() =~= texts_of(rest));
        let last = routes[routes.len() - 1];
        assert(texts_of(routes).last() == network_text(last.address, last.length));
        assert(reads_as(network_text(last.address, last.length), last.address, last.length));
        assert(rest.push(last) =~= routes);
    } else {
        assert(texts_of(routes) =~= Seq::<Seq<char>>::empty());
        assert(routes =~= Seq::<Ipv4Cidr>::empty());
    }
}

/// Settings are taken if and only if the network and every route can be read, and
/// then all of them are taken as they were written.
pub proof fn readable_settings_are_taken(s: SettingsView)
    ensures
        config_of_form(s) is Ok <==> network_of_text(s.network) is Ok && forall|i: int|
            0 <= i < s.advertised_routes.len() ==> network_of_text(
                #[trigger] s.advertised_routes[i],
            ) is Ok,
        config_of_form(s) matches Ok(c) ==> {
            &&& network_of_text(s.network) == Ok::<(u32, u8), Seq<char>>(
                (c.network.address, c.network.length),
            )
            &&& c.allow_all_peers == s.allow_all_peers
            &&& c.peers == s.peers
            &&& c.announce_freq_secs == s.announce_freq_secs
            &&& c.advertised_routes.len() == s.advertised_routes.len()
            &&& forall|i: int|
                0 <= i < c.advertised_routes.len() ==> network_of_text(s.advertised_routes[i])
                    == Ok::<(u32, u8), Seq<char>>(
                    (#[trigger] c.advertised_routes[i].address, c.advertised_routes[i].length),
                )
        },
{
    lemma_routes_of_texts(s.advertised_routes);
}

proof fn lemma_routes_of_texts(texts: Seq<Seq<char>>)
    ensures
        routes_of_texts(texts) is Ok <==> forall|i: int|
            0 <= i < texts.len() ==> network_of_text(#[trigger] texts[i]) is Ok,
        routes_of_texts(texts) matches Ok(routes) ==> routes.len() == texts.len() && forall|i: int|
            0 <= i < routes.len() ==> network_of_text(texts[i]) == Ok::<(u32, u8), Seq<char>>(
                (#[trigger] routes[i].address, routes[i].length),
            ),
    decreases texts.len(),
{
    if texts.len() > 0 {
        let rest = texts.drop_last();
        lemma_routes_of_texts(rest);
        assert(forall|i: int| 0 <= i < rest.len() ==> #[trigger] rest[i] == texts[i]);
        if routes_of_texts(texts) is Ok {
            assert forall|i: int| 0 <= i < texts.len() implies network_of_text(
                #[trigger] texts[i],
            ) is Ok by {
                if i < rest.len() {
                    assert(network_of_text(rest[i]) is Ok);
                }
            }
        } else if forall|i: int|
            0 <= i < texts.len() ==> network_of_text(#[trigger] texts[i]) is Ok {
            assert(network_of_text(texts[texts.len() - 1]) is Ok);
            assert forall|i: int| 0 <= i < rest.len() implies network_of_text(
                #[trigger] rest[i],
            ) is Ok by {
                assert(rest[i] == texts[i]);
            }
        }
    }
}

/// What is shown of the settings is what they are.
pub proof fn settings_are_shown_as_they_are(c: ConfigView)
    ensures
        form_of(c).network == network_text(c.network.address, c.network.length),
        form_of(c).allow_all_peers == c.allow_all_peers,
        form_of(c).peers == c.peers,
        form_of(c).announce_freq_secs == c.announce_freq_secs,
        form_of(c).advertised_routes.len() == c.advertised_routes.len(),
        forall|i: int|
            0 <= i < c.advertised_routes.len() ==> #[trigger] form_of(c).advertised_routes[i]
                == network_text(c.advertised_routes[i].address, c.advertised_routes[i].length),
{
}

} // verus!
