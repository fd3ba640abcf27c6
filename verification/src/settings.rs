//! The configuration of the gateway: how it is kept, and what it is without
//! one.
use crate::digest::{bytes_are_written_one_after_the_other, hex_text};
use crate::settings_store::{lookup, Database, DatabaseView};
use crate::text::{
    cat4, decimal, decimal_reads_back, decimal_text, hex_byte_text, is_digit, join,
    lemma_decimal_digits, lemma_decimal_injective, number, opt_view, parse_number, same, views,
};
use crate::text_set::{ascending, ascending_is_unique};
use crate::vpn::network::{network_of_text, network_text, reads_as, Ipv4Cidr};
use crate::vpn::runtime::all_wf;
use rand::RngCore;
use vstd::prelude::*;

verus! {

// ── Routes as JSON ───────────────────────────────────────────────────────────

/// The first addresses and the prefix lengths of networks.
pub open spec fn pairs(routes: Seq<Ipv4Cidr>) -> Seq<(u32, u8)> {
    routes.map_values(|r: Ipv4Cidr| (r.address, r.length))
}

/// The networks with first addresses and prefix lengths.
pub open spec fn networks(parts: Seq<(u32, u8)>) -> Seq<Ipv4Cidr> {
    parts.map_values(|p: (u32, u8)| Ipv4Cidr { address: p.0, length: p.1 })
}

/// What `serde_json::from_str` makes of a text as a list of
/// `cidr::Ipv4Cidr`: first addresses and prefix lengths, or nothing.
pub uninterp spec fn routes_of_json(text: Seq<char>) -> Option<Seq<(u32, u8)>>;

/// Whether a text reads as a list of networks.
pub open spec fn json_reads_as(text: Seq<char>, routes: Seq<Ipv4Cidr>) -> bool {
    routes_of_json(text) == Some(pairs(routes))
}

/// A list of networks as JSON: their texts in quotes, between commas.
pub open spec fn routes_json(routes: Seq<Ipv4Cidr>) -> Seq<char> {
    "["@ + join(
        routes.map_values(
            |r: Ipv4Cidr| "\""@ + network_text(r.address, r.length) + "\""@,
        ),
        ","@,
    ) + "]"@
}

/// What optional networks stand for.
pub open spec fn opt_pairs(routes: Option<Vec<Ipv4Cidr>>) -> Option<Seq<(u32, u8)>> {
    match routes {
        Some(routes) => Some(pairs(routes@)),
        None => None,
    }
}

/// `serde_json::to_string` on a list of `cidr::Ipv4Cidr` writes their texts in
/// quotes, between brackets and commas and without blanks, and
/// `serde_json::from_str` reads that text as the same list.
#[verifier::external_body]
fn write_routes(routes: &Vec<Ipv4Cidr>) -> (out: String)
    requires
        all_wf(routes@),
    ensures
        out@ == routes_json(routes@),
        json_reads_as(out@, routes@),
{
    let list = routes
        .iter()
        .map(|r| cidr::Ipv4Cidr::new(r.address.into(), r.length).unwrap())
        .collect::<Vec<_>>();
    serde_json::to_string(&list).unwrap()
}

/// `serde_json::from_str` reads a list of `cidr::Ipv4Cidr`; its result is a
/// function of the text, and every network in it is one that
/// `cidr::Ipv4Cidr::new` accepts.
#[verifier::external_body]
fn read_routes(text: &str) -> (out: Option<Vec<Ipv4Cidr>>)
    ensures
        opt_pairs(out) == routes_of_json(text@),
        out matches Some(routes) ==> all_wf(routes@),
{
    match serde_json::from_str::<Vec<cidr::Ipv4Cidr>>(text) {
        Ok(list) => Some(
            list.iter()
                .map(|r| Ipv4Cidr {
                    address: u32::from(r.first_address()),
                    length: r.network_length(),
                })
                .collect(),
        ),
        Err(_) => None,
    }
}

// ── Configuration ────────────────────────────────────────────────────────────

/// The configuration of the gateway, all but its radio modules.
#[derive(Debug)]
pub struct GatewayConfig {
    pub network: Ipv4Cidr,
    pub allow_all_peers: bool,
    pub peers: Vec<String>,
    pub advertised_routes: Vec<Ipv4Cidr>,
    pub announce_freq_secs: u32,
}

/// The configuration of the gateway.
pub struct ConfigView {
    pub network: Ipv4Cidr,
    pub allow_all_peers: bool,
    pub peers: Seq<Seq<char>>,
    pub advertised_routes: Seq<Ipv4Cidr>,
    pub announce_freq_secs: u32,
}

impl View for GatewayConfig {
    type V = ConfigView;

    open spec fn view(&self) -> ConfigView {
        ConfigView {
            network: self.network,
            allow_all_peers: self.allow_all_peers,
            peers: views(self.peers@),
            advertised_routes: self.advertised_routes@,
            announce_freq_secs: self.announce_freq_secs,
        }
    }
}

impl ConfigView {
    /// Its network and its routes are networks.
    pub open spec fn wf(self) -> bool {
        self.network.wf() && all_wf(self.advertised_routes)
    }
}

/// The text under a key, or another one.
pub open spec fn value_or(
    values: Map<Seq<char>, Seq<char>>,
    key: Seq<char>,
    default: Seq<char>,
) -> Seq<char> {
    match lookup(values, key) {
        Some(value) => value,
        None => default,
    }
}

/// How often the gateway announces itself, in seconds.
pub open spec fn announce_of(text: Option<Seq<char>>) -> u32 {
    match text {
        Some(text) => match number(text, u32::MAX as nat) {
            Some(n) => n as u32,
            None => 5,
        },
        None => 5,
    }
}

/// Whether every peer may use the VPN.
pub open spec fn allow_of(text: Option<Seq<char>>) -> bool {
    text != Some("false"@)
}

/// The routes that a text lists, or none.
pub open spec fn routes_of(text: Seq<char>) -> Seq<Ipv4Cidr> {
    match routes_of_json(text) {
        Some(parts) => networks(parts),
        None => Seq::empty(),
    }
}

/// The configuration that settings stand for. What is missing or malformed has
/// its usual value, but a malformed network is an error.
pub open spec fn config_of(db: DatabaseView) -> Result<ConfigView, Seq<char>> {
    let text = value_or(db.values, "network"@, "10.20.0.0/16"@);
    match network_of_text(text) {
        Err(err) => Err("invalid network '"@ + text + "': "@ + err),
        Ok((address, length)) => Ok(
            ConfigView {
                network: Ipv4Cidr { address, length },
                allow_all_peers: allow_of(lookup(db.values, "allow_all_peers"@)),
                peers: db.peers,
                advertised_routes: routes_of(
                    value_or(db.values, "advertised_routes"@, "[\"192.168.10.0/24\"]"@),
                ),
                announce_freq_secs: announce_of(lookup(db.values, "announce_freq_secs"@)),
            },
        ),
    }
}

/// What an outcome with a configuration stands for.
pub open spec fn config_outcome(out: Result<GatewayConfig, String>) -> Result<
    ConfigView,
    Seq<char>,
> {
    match out {
        Ok(config) => Ok(config@),
        Err(err) => Err(err@),
    }
}

/// The text of a yes or no.
pub open spec fn bool_text(flag: bool) -> Seq<char> {
    if flag {
        "true"@
    } else {
        "false"@
    }
}

/// The settings that a configuration is kept as.
pub open spec fn config_values(values: Map<Seq<char>, Seq<char>>, c: ConfigView) -> Map<
    Seq<char>,
    Seq<char>,
> {
    values.insert("network"@, network_text(c.network.address, c.network.length)).insert(
        "advertised_routes"@,
        routes_json(c.advertised_routes),
    ).insert("allow_all_peers"@, bool_text(c.allow_all_peers)).insert(
        "announce_freq_secs"@,
        decimal(c.announce_freq_secs as nat),
    )
}

// ── Radio modules ────────────────────────────────────────────────────────────

/// The settings of a radio module, each as JSON.
#[derive(Debug)]
pub struct ModuleTexts {
    pub radio_config: String,
    pub modulation: String,
    pub accelerator: String,
    pub antenna: String,
}

/// The settings of a radio module as they are kept, as far as they are.
#[derive(Debug)]
pub struct StoredModule {
    pub radio_config: Option<String>,
    pub modulation: Option<String>,
    pub accelerator: Option<String>,
    pub antenna: Option<String>,
}

/// The settings of a radio module, as far as there are any.
pub struct ModuleView {
    pub radio_config: Option<Seq<char>>,
    pub modulation: Option<Seq<char>>,
    pub accelerator: Option<Seq<char>>,
    pub antenna: Option<Seq<char>>,
}

impl View for StoredModule {
    type V = ModuleView;

    open spec fn view(&self) -> ModuleView {
        ModuleView {
            radio_config: opt_view(self.radio_config),
            modulation: opt_view(self.modulation),
            accelerator: opt_view(self.accelerator),
            antenna: opt_view(self.antenna),
        }
    }
}

impl View for ModuleTexts {
    type V = ModuleView;

    open spec fn view(&self) -> ModuleView {
        ModuleView {
            radio_config: Some(self.radio_config@),
            modulation: Some(self.modulation@),
            accelerator: Some(self.accelerator@),
            antenna: Some(self.antenna@),
        }
    }
}

/// The key of a setting of a radio module.
pub open spec fn module_key(name: Seq<char>, module: usize) -> Seq<char> {
    name + "_"@ + decimal(module as nat)
}

/// The key of a setting of a radio module.
fn key_of_module(name: &str, module: usize) -> (out: String)
    ensures
        out@ == module_key(name@, module),
{
    let number = decimal_text(module as u64);
    crate::text::cat3(name, "_", number.as_str())
}

/// A setting of a radio module; for the first module an older key without the
/// number counts too.
pub open spec fn kept_setting(
    values: Map<Seq<char>, Seq<char>>,
    name: Seq<char>,
    module: usize,
) -> Option<Seq<char>> {
    match lookup(values, module_key(name, module)) {
        Some(value) => Some(value),
        None => if module == 0 {
            lookup(values, name)
        } else {
            None
        },
    }
}

/// The settings of a radio module as they are kept.
pub open spec fn module_of(values: Map<Seq<char>, Seq<char>>, module: usize) -> ModuleView {
    ModuleView {
        radio_config: kept_setting(values, "kaonic_ctrl_radio_config"@, module),
        modulation: kept_setting(values, "kaonic_ctrl_modulation"@, module),
        accelerator: lookup(values, module_key("kaonic_ctrl_accelerator"@, module)),
        antenna: lookup(values, module_key("kaonic_ctrl_antenna"@, module)),
    }
}

/// The settings that a radio module is kept as.
pub open spec fn module_values(
    values: Map<Seq<char>, Seq<char>>,
    module: usize,
    m: ModuleView,
) -> Map<Seq<char>, Seq<char>> {
    values.insert(
        module_key("kaonic_ctrl_radio_config"@, module),
        m.radio_config->Some_0,
    ).insert(module_key("kaonic_ctrl_modulation"@, module), m.modulation->Some_0).insert(
        module_key("kaonic_ctrl_accelerator"@, module),
        m.accelerator->Some_0,
    ).insert(module_key("kaonic_ctrl_antenna"@, module), m.antenna->Some_0)
}

// ── Names and seeds ──────────────────────────────────────────────────────────

/// The character of a codename that a byte stands for: one of the letters from
/// `a` on, and behind them the digits.
pub open spec fn codename_char(b: u8) -> char {
    if b % 36 < 26 {
        ('a' as int + (b % 36) as int) as char
    } else {
        ('0' as int + ((b % 36) - 26)) as char
    }
}

/// Whether a character may stand in a codename: a small letter or a digit.
pub open spec fn is_codename_char(c: char) -> bool {
    'a' <= c <= 'z' || '0' <= c <= '9'
}

/// Whether a text is a codename as they are generated.
pub open spec fn is_codename(text: Seq<char>) -> bool {
    text.len() == 8 && forall|i: int|
        0 <= i < text.len() ==> is_codename_char(#[trigger] text[i])
}

/// The codename that bytes stand for, a character for each.
pub fn codename_of_bytes(bytes: &[u8]) -> (out: String)
    ensures
        out@ == bytes@.map_values(|b: u8| codename_char(b)),
{
    let ghost wanted = bytes@.map_values(|b: u8| codename_char(b));
    let mut out = String::new();
    let mut i: usize = 0;
    assert(out@ =~= wanted.take(0));
    while i < bytes.len()
        invariant
            i <= bytes@.len(),
            wanted == bytes@.map_values(|b: u8| codename_char(b)),
            out@ == wanted.take(i as int),
        decreases bytes@.len() - i,
    {
        let ghost before = out@;
        let d: u8 = bytes[i] % 36;
        let c: char = if d < 26 {
            (97u8 + d) as char
        } else {
            (48u8 + (d - 26)) as char
        };
        out.push(c);
        proof {
            assert(c == codename_char(bytes@[i as int]));
            assert(out@ =~= before.push(c));
            assert(wanted.take(i + 1) =~= before.push(wanted[i as int]));
        }
        i += 1;
    }
    assert(wanted.take(i as int) =~= wanted);
    out
}

/// `rand::rngs::OsRng` fills a buffer with random bytes; nothing is said of
/// which.
#[verifier::external_body]
fn random_bytes(len: usize) -> (out: Vec<u8>)
    ensures
        out@.len() == len,
{
    let mut bytes = vec![0u8; len];
    rand::rngs::OsRng.fill_bytes(&mut bytes);
    bytes
}

/// A random codename.
pub fn generate_codename() -> (out: String)
    ensures
        is_codename(out@),
{
    let bytes = random_bytes(8);
    codename_of_bytes(bytes.as_slice())
}

/// Bytes as hexadecimal text.
pub fn seed_of_bytes(bytes: &[u8]) -> (out: String)
    ensures
        out@ == hex_text(bytes@),
{
    let mut out = String::new();
    let mut i: usize = 0;
    assert(bytes@.take(0) =~= Seq::<u8>::empty());
    assert(out@ =~= Seq::<char>::empty());
    while i < bytes.len()
        invariant
            i <= bytes@.len(),
            out@ == hex_text(bytes@.take(i as int)),
        decreases bytes@.len() - i,
    {
        let digits = hex_byte_text(bytes[i]);
        out.append(digits.as_str());
        assert(bytes@.take(i + 1).drop_last() =~= bytes@.take(i as int));
        i += 1;
    }
    assert(bytes@.take(i as int) =~= bytes@);
    out
}

/// Whether a text is a seed as they are generated: 32 bytes in hexadecimal.
pub open spec fn is_seed(text: Seq<char>) -> bool {
    exists|bytes: Seq<u8>| bytes.len() == 32 && text == #[trigger] hex_text(bytes)
}

// ── Loading and saving ───────────────────────────────────────────────────────

impl Database {
    /// The configuration of the gateway.
    pub fn load_config(&self) -> (out: Result<GatewayConfig, String>)
        ensures
            config_outcome(out) == config_of(self@),
            out matches Ok(config) ==> config@.wf(),
    {
        let text = match self.get("network") {
            Some(text) => text,
            None => "10.20.0.0/16".to_owned(),
        };
        let network = match Ipv4Cidr::parse(text.as_str()) {
            Ok(network) => network,
            Err(err) => {
                return Err(cat4("invalid network '", text.as_str(), "': ", err.as_str()));
            },
        };
        let announce_freq_secs: u32 = match self.get("announce_freq_secs") {
            Some(text) => match parse_number(text.as_str(), u32::MAX as u64) {
                Some(n) => n as u32,
                None => 5,
            },
            None => 5,
        };
        let allow_all_peers = match self.get("allow_all_peers") {
            Some(text) => !same(text.as_str(), "false"),
            None => true,
        };
        let routes_text = match self.get("advertised_routes") {
            Some(text) => text,
            None => "[\"192.168.10.0/24\"]".to_owned(),
        };
        let advertised_routes = match read_routes(routes_text.as_str()) {
            Some(routes) => {
                assert(networks(pairs(routes@)) =~= routes@);
                routes
            },
            None => {
                let none: Vec<Ipv4Cidr> = Vec::new();
                assert(none@ =~= Seq::<Ipv4Cidr>::empty());
                none
            },
        };
        Ok(
            GatewayConfig {
                network,
                allow_all_peers,
                peers: self.peers(),
                advertised_routes,
                announce_freq_secs,
            },
        )
    }

    /// Keeps a configuration, with the settings of both radio modules.
    pub fn save_config(&mut self, config: &GatewayConfig, first: &ModuleTexts, second: &ModuleTexts)
        requires
            old(self).wf(),
            config@.wf(),
        ensures
            final(self).wf(),
            final(self)@.values == module_values(
                module_values(config_values(old(self)@.values, config@), 0, first@),
                1,
                second@,
            ),
            ascending(final(self)@.peers),
            forall|p: Seq<char>| #[trigger]
                final(self)@.peers.contains(p) <==> config@.peers.contains(p),
            reads_as(
                network_text(config@.network.address, config@.network.length),
                config@.network.address,
                config@.network.length,
            ),
            json_reads_as(routes_json(config@.advertised_routes), config@.advertised_routes),
    {
        let text = config.network.text();
        self.set("network", text.as_str());
        let routes = write_routes(&config.advertised_routes);
        self.set("advertised_routes", routes.as_str());
        if config.allow_all_peers {
            self.set("allow_all_peers", "true");
        } else {
            self.set("allow_all_peers", "false");
        }
        let seconds = decimal_text(config.announce_freq_secs as u64);
        self.set("announce_freq_secs", seconds.as_str());
        self.replace_peers(&config.peers);
        self.save_module_config(0, first);
        self.save_module_config(1, second);
    }

    /// The settings of a radio module as they are kept.
    pub fn load_module_config(&self, module: usize) -> (out: StoredModule)
        ensures
            out@ == module_of(self@.values, module),
    {
        StoredModule {
            radio_config: self.kept("kaonic_ctrl_radio_config", module),
            modulation: self.kept("kaonic_ctrl_modulation", module),
            accelerator: self.get(key_of_module("kaonic_ctrl_accelerator", module).as_str()),
            antenna: self.get(key_of_module("kaonic_ctrl_antenna", module).as_str()),
        }
    }

    /// A setting of a radio module.
    fn kept(&self, name: &str, module: usize) -> (out: Option<String>)
        ensures
            opt_view(out) == kept_setting(self@.values, name@, module),
    {
        let key = key_of_module(name, module);
        match self.get(key.as_str()) {
            Some(value) => Some(value),
            None => {
                if module == 0 {
                    self.get(name)
                } else {
                    None
                }
            },
        }
    }

    /// Keeps the settings of a radio module.
    pub fn save_module_config(&mut self, module: usize, cfg: &ModuleTexts)
        requires
            old(self).wf(),
        ensures
            final(self).wf(),
            final(self)@ == (DatabaseView {
                values: module_values(old(self)@.values, module, cfg@),
                ..old(self)@
            }),
    {
        let key = key_of_module("kaonic_ctrl_radio_config", module);
        self.set(key.as_str(), cfg.radio_config.as_str());
        let key = key_of_module("kaonic_ctrl_modulation", module);
        self.set(key.as_str(), cfg.modulation.as_str());
        let key = key_of_module("kaonic_ctrl_accelerator", module);
        self.set(key.as_str(), cfg.accelerator.as_str());
        let key = key_of_module("kaonic_ctrl_antenna", module);
        self.set(key.as_str(), cfg.antenna.as_str());
    }

    /// The identity seed of the gateway; a new one is made where there is none.
    pub fn load_or_create_seed(&mut self) -> (out: String)
        requires
            old(self).wf(),
        ensures
            final(self).wf(),
            created(old(self)@, final(self)@, "identity_seed"@, out@),
            lookup(old(self)@.values, "identity_seed"@) is None ==> is_seed(out@),
    {
        self.load_or_create_named_seed("identity_seed")
    }

    /// The seed under a key; a new one is made where there is none.
    pub fn load_or_create_named_seed(&mut self, key: &str) -> (out: String)
        requires
            old(self).wf(),
        ensures
            final(self).wf(),
            created(old(self)@, final(self)@, key@, out@),
            lookup(old(self)@.values, key@) is None ==> is_seed(out@),
    {
        match self.get(key) {
            Some(seed) => seed,
            None => {
                let bytes = random_bytes(32);
                let seed = seed_of_bytes(bytes.as_slice());
                self.set(key, seed.as_str());
                seed
            },
        }
    }

    /// The codename of the system; a new one is made where there is none.
    pub fn load_or_create_codename(&mut self) -> (out: String)
        requires
            old(self).wf(),
        ensures
            final(self).wf(),
            created(old(self)@, final(self)@, "system_codename"@, out@),
            lookup(old(self)@.values, "system_codename"@) is None ==> is_codename(out@),
    {
        match self.get("system_codename") {
            Some(codename) => codename,
            None => {
                let codename = generate_codename();
                self.set("system_codename", codename.as_str());
                codename
            },
        }
    }

    /// Sets the codename of the system.
    pub fn save_codename(&mut self, codename: &str)
        requires
            old(self).wf(),
        ensures
            final(self).wf(),
            final(self)@ == (DatabaseView {
                values: old(self)@.values.insert("system_codename"@, codename@),
                ..old(self)@
            }),
    {
        self.set("system_codename", codename);
    }
}

/// Whether a text was read from under a key, or put there because there was
/// none.
pub open spec fn created(
    before: DatabaseView,
    after: DatabaseView,
    key: Seq<char>,
    text: Seq<char>,
) -> bool {
    match lookup(before.values, key) {
        Some(value) => text == value && after == before,
        None => after == DatabaseView { values: before.values.insert(key, text), ..before },
    }
}

// ── Laws ─────────────────────────────────────────────────────────────────────

/// A name that was made once is kept: asking for it again gives the same one
/// and changes nothing.
pub proof fn created_names_are_kept(
    before: DatabaseView,
    after: DatabaseView,
    later: DatabaseView,
    key: Seq<char>,
    text: Seq<char>,
    again: Seq<char>,
)
    requires
        created(before, after, key, text),
        created(after, later, key, again),
    ensures
        again == text,
        later == after,
{
}

/// A codename that was set is the one that is loaded.
pub proof fn set_codenames_are_loaded(
    before: DatabaseView,
    codename: Seq<char>,
    later: DatabaseView,
    text: Seq<char>,
)
    requires
        created(
            (DatabaseView {
                values: before.values.insert("system_codename"@, codename),
                ..before
            }),
            later,
            "system_codename"@,
            text,
        ),
    ensures
        text == codename,
{
}

/// What was saved comes back: a configuration with its peers in order and each of
/// them once, and the settings of both radio modules. `before` is what was kept
/// before, and `peers` are the peers that are kept. The text of the network and
/// of the routes read as they were written.
pub proof fn saved_settings_come_back(
    before: Map<Seq<char>, Seq<char>>,
    c: ConfigView,
    first: ModuleView,
    second: ModuleView,
    peers: Seq<Seq<char>>,
)
    requires
        c.wf(),
        ascending(peers),
        forall|p: Seq<char>| peers.contains(p) <==> c.peers.contains(p),
        first.radio_config is Some && first.modulation is Some && first.accelerator is Some
            && first.antenna is Some,
        second.radio_config is Some && second.modulation is Some && second.accelerator is Some
            && second.antenna is Some,
        reads_as(
            network_text(c.network.address, c.network.length),
            c.network.address,
            c.network.length,
        ),
        json_reads_as(routes_json(c.advertised_routes), c.advertised_routes),
    ensures
        ({
            let values = module_values(
                module_values(config_values(before, c), 0, first),
                1,
                second,
            );
            &&& config_of(DatabaseView { values, peers }) == Ok::<ConfigView, Seq<char>>(
                ConfigView { peers, ..c },
            )
            &&& ascending(c.peers) ==> peers == c.peers
            &&& module_of(values, 0) == first
            &&& module_of(values, 1) == second
        }),
{
    if ascending(c.peers) {
        ascending_is_unique(peers, c.peers);
    }
    lemma_keys_differ();
    decimal_reads_back(c.announce_freq_secs as nat, u32::MAX as nat);
    reveal_strlit("true");
    reveal_strlit("false");
    assert("true"@.len() != "false"@.len());
    assert(networks(pairs(c.advertised_routes)) =~= c.advertised_routes);
}

/// The keys of settings differ.
proof fn lemma_keys_differ()
    ensures
        ({
            let r = "kaonic_ctrl_radio_config"@;
            let m = "kaonic_ctrl_modulation"@;
            let a = "kaonic_ctrl_accelerator"@;
            let t = "kaonic_ctrl_antenna"@;
            &&& module_key(r, 0).len() == 26 && module_key(r, 1).len() == 26
            &&& module_key(m, 0).len() == 24 && module_key(m, 1).len() == 24
            &&& module_key(a, 0).len() == 25 && module_key(a, 1).len() == 25
            &&& module_key(t, 0).len() == 21 && module_key(t, 1).len() == 21
            &&& module_key(r, 0).last() == '0' && module_key(r, 1).last() == '1'
            &&& module_key(m, 0).last() == '0' && module_key(m, 1).last() == '1'
            &&& module_key(a, 0).last() == '0' && module_key(a, 1).last() == '1'
            &&& module_key(t, 0).last() == '0' && module_key(t, 1).last() == '1'
        }),
        "network"@.len() == 7,
        "advertised_routes"@.len() == 17,
        "allow_all_peers"@.len() == 15,
        "announce_freq_secs"@.len() == 18,
{
    reveal_strlit("network");
    reveal_strlit("advertised_routes");
    reveal_strlit("allow_all_peers");
    reveal_strlit("announce_freq_secs");
    reveal_strlit("kaonic_ctrl_radio_config");
    reveal_strlit("kaonic_ctrl_modulation");
    reveal_strlit("kaonic_ctrl_accelerator");
    reveal_strlit("kaonic_ctrl_antenna");
    reveal_strlit("_");
    assert(decimal(0) =~= seq!['0']);
    assert(decimal(1) =~= seq!['1']);
}

/// What a setting is without a value, or with one that says nothing: all peers are
/// allowed unless `false` was kept, and the gateway announces itself every five
/// seconds unless a number was kept.
pub proof fn missing_settings_have_defaults(db: DatabaseView)
    ensures
        config_of(db) matches Ok(c) ==> {
            &&& c.peers == db.peers
            &&& c.allow_all_peers <==> lookup(db.values, "allow_all_peers"@) != Some("false"@)
            &&& !db.values.contains_key("announce_freq_secs"@) ==> c.announce_freq_secs == 5
            &&& db.values.contains_key("announce_freq_secs"@) && number(
                db.values["announce_freq_secs"@],
                u32::MAX as nat,
            ) is None ==> c.announce_freq_secs == 5
            &&& !db.values.contains_key("network"@) ==> network_of_text("10.20.0.0/16"@) == Ok::<
                (u32, u8),
                Seq<char>,
            >((c.network.address, c.network.length))
            &&& db.values.contains_key("network"@) ==> network_of_text(db.values["network"@])
                == Ok::<(u32, u8), Seq<char>>((c.network.address, c.network.length))
            &&& db.values.contains_key("advertised_routes"@) && routes_of_json(
                db.values["advertised_routes"@],
            ) is None ==> c.advertised_routes.len() == 0
        },
        config_of(db) is Err <==> network_of_text(
            if db.values.contains_key("network"@) {
                db.values["network"@]
            } else {
                "10.20.0.0/16"@
            },
        ) is Err,
{
}

/// Each setting of a module has a key of its own.
pub proof fn module_keys_differ(name: Seq<char>, a: usize, other: Seq<char>, b: usize)
    requires
        module_key(name, a) == module_key(other, b),
    ensures
        name == other,
        a == b,
{
    reveal_strlit("_");
    lemma_decimal_digits(a as nat);
    lemma_decimal_digits(b as nat);
    let x = module_key(name, a);
    let y = module_key(other, b);
    assert(x[name.len() as int] == '_');
    assert(y[other.len() as int] == '_');
    assert(x.len() == name.len() + 1 + decimal(a as nat).len());
    assert(y.len() == other.len() + 1 + decimal(b as nat).len());
    if name.len() < other.len() {
        let k = other.len() - name.len() - 1;
        assert(is_digit(decimal(a as nat)[k]));
        assert(x[other.len() as int] == decimal(a as nat)[k]);
    } else if other.len() < name.len() {
        let k = name.len() - other.len() - 1;
        assert(is_digit(decimal(b as nat)[k]));
        assert(y[name.len() as int] == decimal(b as nat)[k]);
    }
    assert(name =~= x.take(name.len() as int));
    assert(other =~= y.take(name.len() as int));
    assert(decimal(a as nat) =~= x.skip(name.len() as int + 1));
    assert(decimal(b as nat) =~= y.skip(name.len() as int + 1));
    lemma_decimal_injective(a as nat, b as nat);
}

/// What is saved for a module is what is loaded for it, and saving it changes no
/// other module.
pub proof fn modules_are_kept_apart(
    values: Map<Seq<char>, Seq<char>>,
    module: usize,
    m: ModuleView,
    other: usize,
)
    requires
        m.radio_config is Some && m.modulation is Some && m.accelerator is Some && m.antenna is Some,
    ensures
        module_of(module_values(values, module, m), module) == m,
        other != module ==> module_of(module_values(values, module, m), other) == module_of(
            values,
            other,
        ),
{
    let r = "kaonic_ctrl_radio_config"@;
    let d = "kaonic_ctrl_modulation"@;
    let a = "kaonic_ctrl_accelerator"@;
    let t = "kaonic_ctrl_antenna"@;
    reveal_strlit("kaonic_ctrl_radio_config");
    reveal_strlit("kaonic_ctrl_modulation");
    reveal_strlit("kaonic_ctrl_accelerator");
    reveal_strlit("kaonic_ctrl_antenna");
    assert(r.len() == 24 && d.len() == 22 && a.len() == 23 && t.len() == 19);
    let after = module_values(values, module, m);
    assert forall|x: Seq<char>, y: Seq<char>, n: usize|
        (#[trigger] module_key(x, module)) == (#[trigger] module_key(y, n)) implies x == y
        && module == n by {
        module_keys_differ(x, module, y, n);
    }
    assert forall|x: Seq<char>| (#[trigger] module_key(x, module)).last() != 'g' && module_key(
        x,
        module,
    ).last() != 'n' by {
        lemma_decimal_digits(module as nat);
        let n = decimal(module as nat);
        assert(module_key(x, module).last() == n[n.len() - 1]);
    }
    assert(r.last() == 'g');
    assert(d.last() == 'n');
}

/// The first module is also found under the names of the time when there was but
/// one; the other one is not.
pub proof fn old_settings_are_of_the_first_module(
    values: Map<Seq<char>, Seq<char>>,
    module: usize,
)
    requires
        !values.contains_key(module_key("kaonic_ctrl_radio_config"@, module)),
        !values.contains_key(module_key("kaonic_ctrl_modulation"@, module)),
    ensures
        module == 0 ==> module_of(values, module).radio_config == lookup(
            values,
            "kaonic_ctrl_radio_config"@,
        ),
        module == 0 ==> module_of(values, module).modulation == lookup(
            values,
            "kaonic_ctrl_modulation"@,
        ),
        module != 0 ==> module_of(values, module).radio_config is None && module_of(
            values,
            module,
        ).modulation is None,
{
}

/// Saving the settings keeps the name of the gateway and every other value that is
/// no setting.
pub proof fn saving_settings_keeps_the_rest(
    values: Map<Seq<char>, Seq<char>>,
    c: ConfigView,
    key: Seq<char>,
)
    requires
        key != "network"@,
        key != "advertised_routes"@,
        key != "allow_all_peers"@,
        key != "announce_freq_secs"@,
    ensures
        lookup(config_values(values, c), key) == lookup(values, key),
{
}

/// The bytes behind a codename choose among 36 letters and digits: two bytes give
/// the same one if and only if they agree modulo 36.
pub proof fn codenames_use_all_letters_and_digits(a: u8, b: u8)
    ensures
        codename_char(a) == codename_char(b) <==> a % 36 == b % 36,
        is_codename_char(codename_char(a)),
        a < 26 ==> codename_char(a) as int == 'a' as int + a,
        26 <= a < 36 ==> codename_char(a) as int == '0' as int + a - 26,
{
}

/// A codename is made of eight letters and digits, and any eight bytes give one.
pub proof fn codenames_have_eight_characters(text: Seq<char>, bytes: Seq<u8>)
    ensures
        is_codename(text) <==> text.len() == 8 && forall|i: int|
            0 <= i < 8 ==> 'a' <= #[trigger] text[i] <= 'z' || '0' <= text[i] <= '9',
        bytes.len() == 8 ==> is_codename(bytes.map_values(|b: u8| codename_char(b))),
{
    if is_codename(text) {
        assert forall|i: int| 0 <= i < 8 implies 'a' <= #[trigger] text[i] <= 'z' || '0' <= text[i]
            <= '9' by {
            assert(is_codename_char(text[i]));
        }
    }
    let made = bytes.map_values(|b: u8| codename_char(b));
    assert forall|i: int| 0 <= i < made.len() implies is_codename_char(#[trigger] made[i]) by {
        codenames_use_all_letters_and_digits(bytes[i], bytes[i]);
    }
}

/// A seed is 32 bytes, written in 64 hexadecimal digits.
pub proof fn seeds_have_thirty_two_bytes(text: Seq<char>, bytes: Seq<u8>)
    ensures
        is_seed(text) ==> text.len() == 64,
        bytes.len() == 32 ==> is_seed(hex_text(bytes)),
        is_seed(hex_text(bytes)) ==> bytes.len() == 32,
{
    if is_seed(text) {
        let b = choose|b: Seq<u8>| b.len() == 32 && text == #[trigger] hex_text(b);
        bytes_are_written_one_after_the_other(b, b);
    }
    if is_seed(hex_text(bytes)) {
        let b = choose|b: Seq<u8>| b.len() == 32 && hex_text(bytes) == #[trigger] hex_text(b);
        bytes_are_written_one_after_the_other(bytes, b);
    }
}

} // verus!
