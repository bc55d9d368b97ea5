//! Blockchain backends, as far as they keep state on the wallet's side.
use vstd::bytes::spec_u128_to_le_bytes;
use vstd::prelude::*;
use vstd::string::*;
use crate::assoc::{AssocMap, MapKey};
use crate::bytes::{position_of_script, views, ScriptBuf};
use crate::decoy::PrivacyConfig;
use crate::error::WalletError;
use crate::primitives::{Network, OutPoint};

verus! {

/// Where a watched script stands in the wallet.
#[derive(Debug)]
pub struct HdOrigin {
    /// The fingerprint of the account key that the script was derived below.
    pub fingerprint: String,
    /// The chain: 0 for receiving addresses, 1 for change addresses.
    pub keychain_idx: u32,
    /// The index on the chain.
    pub index: u32,
    /// Whether the script is a Taproot script, and not a P2WPKH script.
    pub is_taproot: bool,
}

/// The place of a script as a mathematical value.
pub struct OriginView {
    pub fingerprint: Seq<char>,
    pub keychain_idx: u32,
    pub index: u32,
    pub is_taproot: bool,
}

impl View for HdOrigin {
    type V = OriginView;

    open spec fn view(&self) -> OriginView {
        OriginView {
            fingerprint: self.fingerprint@,
            keychain_idx: self.keychain_idx,
            index: self.index,
            is_taproot: self.is_taproot,
        }
    }
}

impl Clone for HdOrigin {
    fn clone(&self) -> (copy: Self)
        ensures
            copy@ == self@,
    {
        HdOrigin {
            fingerprint: self.fingerprint.clone(),
            keychain_idx: self.keychain_idx,
            index: self.index,
            is_taproot: self.is_taproot,
        }
    }
}

/// The scripts that a backend keeps for the wallet: those that it watches, those that it asks for
/// as cover, and the places of watched scripts in the wallet.
pub struct LocalScripts {
    pub watched: Set<Seq<u8>>,
    pub decoys: Set<Seq<u8>>,
    pub origins: Map<Seq<u8>, OriginView>,
}

impl LocalScripts {
    /// The scripts after one more was watched.
    pub open spec fn watch(self, script: Seq<u8>, hd: Option<OriginView>) -> LocalScripts {
        LocalScripts {
            watched: self.watched.insert(script),
            decoys: self.decoys,
            origins: match hd {
                Some(origin) => self.origins.insert(script, origin),
                None => self.origins,
            },
        }
    }

    /// The scripts after one more decoy was added.
    pub open spec fn add_decoy(self, script: Seq<u8>) -> LocalScripts {
        LocalScripts { decoys: self.decoys.insert(script), ..self }
    }

    /// The scripts without decoys.
    pub open spec fn without_decoys(self) -> LocalScripts {
        LocalScripts { decoys: Set::empty(), ..self }
    }
}

/// The view of an optional place.
pub open spec fn origin_view(hd: Option<HdOrigin>) -> Option<OriginView> {
    match hd {
        Some(origin) => Some(origin@),
        None => None,
    }
}

/// What a backend holds besides the wallet's scripts and its privacy settings.
pub enum BackendRest {
    /// How a node is reached.
    Node { config: RPCConfig },
    /// The outpoints that are locked, the blocks that are known, and the network of a server.
    Server {
        locked: Seq<OutPoint>,
        height_to_hash: AssocMap<u64, BlockHash>,
        hash_to_height: AssocMap<BlockHash, u64>,
        network: Network,
    },
}

/// A source of blockchain data. A backend that asks an Electrum server keeps the wallet's scripts
/// on its own side; one that asks Bitcoin Core keeps nothing, since the node has a wallet.
pub trait BlockchainBackend: Sized {
    /// The configuration that the backend is made from.
    type Config;

    /// Whether the backend asks an Electrum server.
    spec fn spec_is_electrum() -> bool;

    /// Whether the backend asks an Electrum server.
    fn is_electrum() -> (electrum: bool)
        ensures
            electrum == Self::spec_is_electrum(),
    ;

    /// Whether the backend's state is consistent.
    spec fn well_formed(&self) -> bool;

    /// The scripts that the backend keeps.
    spec fn local(&self) -> LocalScripts;

    /// The privacy settings of the backend.
    spec fn privacy(&self) -> Option<PrivacyConfig>;

    /// What the backend holds besides.
    spec fn rest(&self) -> BackendRest;

    /// The configuration of this kind of backend within a configuration.
    fn from_backend_config(backend: &BackendConfig) -> (config: Result<&Self::Config, WalletError>);

    /// Watches a script, and keeps its place in the wallet where that is known.
    fn watch_script(&mut self, script: &ScriptBuf, hd: Option<HdOrigin>)
        requires
            old(self).well_formed(),
        ensures
            final(self).well_formed(),
            final(self).privacy() == old(self).privacy(),
            final(self).rest() == old(self).rest(),
            final(self).local() == if Self::spec_is_electrum() {
                old(self).local().watch(script@, origin_view(hd))
            } else {
                old(self).local()
            },
    ;

    /// Adds a script that is asked for as cover.
    fn watch_decoy_script(&mut self, script: &ScriptBuf)
        requires
            old(self).well_formed(),
        ensures
            final(self).well_formed(),
            final(self).privacy() == old(self).privacy(),
            final(self).rest() == old(self).rest(),
            final(self).local() == if Self::spec_is_electrum() {
                old(self).local().add_decoy(script@)
            } else {
                old(self).local()
            },
    ;

    /// Forgets the scripts that are asked for as cover.
    fn clear_decoy_scripts(&mut self)
        requires
            old(self).well_formed(),
        ensures
            final(self).well_formed(),
            final(self).privacy() == old(self).privacy(),
            final(self).rest() == old(self).rest(),
            final(self).local() == if Self::spec_is_electrum() {
                old(self).local().without_decoys()
            } else {
                old(self).local()
            },
    ;

    /// The privacy settings of the backend.
    fn privacy_config(&self) -> (config: Option<PrivacyConfig>)
        ensures
            config == self.privacy(),
    ;

    /// The place of a watched script in the wallet, where the backend knows it.
    fn hd_origin_for_script(&self, script: &ScriptBuf) -> (origin: Option<HdOrigin>)
        requires
            self.well_formed(),
        ensures
            origin_view(origin) == if self.local().origins.contains_key(script@) {
                Some(self.local().origins[script@])
            } else {
                None
            },
    ;
}

/// How to log in to a Bitcoin node.
#[derive(Debug, Clone, PartialEq, Eq)]
pub enum Auth {
    /// Without authentication.
    Open,
    /// With a user name and a password.
    UserPass(String, String),
    /// With the node's cookie file.
    CookieFile(String),
}

/// How to reach a Bitcoin node.
#[derive(Debug, Clone, PartialEq, Eq)]
pub struct RPCConfig {
    /// The address of the node.
    pub url: String,
    /// How to log in to it.
    pub auth: Auth,
    /// The name of the wallet in the node.
    pub wallet_name: String,
    /// Where the node announces blocks and transactions.
    pub zmq_addr: String,
}

impl Default for RPCConfig {
    fn default() -> (config: Self)
        ensures
            config.url@ == "localhost:18443"@,
            config.auth matches Auth::UserPass(user, password) && user@ == "regtestrpcuser"@
                && password@ == "regtestrpcpass"@,
            config.wallet_name@ == "random-wallet-name"@,
            config.zmq_addr@ == "tcp://127.0.0.1:28332"@,
    {
        RPCConfig {
            url: "localhost:18443".to_owned(),
            auth: Auth::UserPass("regtestrpcuser".to_owned(), "regtestrpcpass".to_owned()),
            wallet_name: "random-wallet-name".to_owned(),
            zmq_addr: "tcp://127.0.0.1:28332".to_owned(),
        }
    }
}

/// How to reach an Electrum server.
#[derive(Debug, Clone, PartialEq, Eq)]
pub struct ElectrumConfig {
    /// The address of the server.
    pub url: String,
    /// The file name of the wallet.
    pub wallet_name: String,
    /// How the wallet's scripts are hidden in its queries.
    pub privacy: PrivacyConfig,
}

impl Default for ElectrumConfig {
    fn default() -> (config: Self)
        ensures
            config.url@ == "electrum1.bluewallet.io:50001"@,
            config.wallet_name@ == "coinswap-wallet"@,
            config.privacy == (PrivacyConfig {
                enabled: true,
                decoy_pool_range: (34, 67),
                real_batch_range: (3, 9),
                max_decoy_cache_size: 500,
                decoy_rotation_range: (0x3FD147AE147AE148, 0x3FE0F5C28F5C28F6),
                max_decoy_age_secs: 259200,
                retire_after_uses_range: (5, 15),
            }),
    {
        ElectrumConfig {
            url: "electrum1.bluewallet.io:50001".to_owned(),
            wallet_name: "coinswap-wallet".to_owned(),
            privacy: PrivacyConfig::default(),
        }
    }
}

/// Which backend the wallet uses.
#[derive(Debug, Clone, PartialEq, Eq)]
pub enum BackendConfig {
    /// A Bitcoin node.
    Bitcoind(RPCConfig),
    /// An Electrum server.
    Electrum(ElectrumConfig),
}

impl RPCConfig {
    /// The address at which the node serves the wallet.
    pub fn wallet_url(&self) -> (url: String)
        ensures
            url@ == "http://"@ + self.url@ + "/wallet/"@ + self.wallet_name@,
    {
        let mut url = "http://".to_owned();
        url.append(self.url.as_str());
        url.append("/wallet/");
        url.append(self.wallet_name.as_str());
        url
    }
}

impl BackendConfig {
    /// The name of the wallet.
    pub open spec fn spec_wallet_name(self) -> Seq<char> {
        match self {
            BackendConfig::Bitcoind(c) => c.wallet_name@,
            BackendConfig::Electrum(c) => c.wallet_name@,
        }
    }

    /// The name of the wallet, whichever backend it uses.
    pub fn wallet_name(&self) -> (name: &str)
        ensures
            name@ == self.spec_wallet_name(),
    {
        match self {
            BackendConfig::Bitcoind(c) => c.wallet_name.as_str(),
            BackendConfig::Electrum(c) => c.wallet_name.as_str(),
        }
    }

    /// Gives the wallet another name, whichever backend it uses.
    pub fn set_wallet_name(&mut self, name: String)
        ensures
            *final(self) == match *old(self) {
                BackendConfig::Bitcoind(c) => BackendConfig::Bitcoind(
                    (RPCConfig { wallet_name: name, ..c }),
                ),
                BackendConfig::Electrum(c) => BackendConfig::Electrum(
                    (ElectrumConfig { wallet_name: name, ..c }),
                ),
            },
            final(self).spec_wallet_name() == name@,
    {
        match self {
            BackendConfig::Bitcoind(c) => {
                c.wallet_name = name;
            },
            BackendConfig::Electrum(c) => {
                c.wallet_name = name;
            },
        }
    }
}

/// The backend that asks a Bitcoin node. The node's wallet keeps the scripts, so there is nothing
/// to keep here.
#[derive(Debug)]
pub struct BitcoindBackend {
    /// How to reach the node.
    pub config: RPCConfig,
}

impl BlockchainBackend for BitcoindBackend {
    type Config = RPCConfig;

    open spec fn spec_is_electrum() -> bool {
        false
    }

    fn is_electrum() -> (electrum: bool) {
        false
    }

    open spec fn well_formed(&self) -> bool {
        true
    }

    open spec fn local(&self) -> LocalScripts {
        LocalScripts { watched: Set::empty(), decoys: Set::empty(), origins: Map::empty() }
    }

    open spec fn privacy(&self) -> Option<PrivacyConfig> {
        None
    }

    open spec fn rest(&self) -> BackendRest {
        BackendRest::Node { config: self.config }
    }

    fn from_backend_config(backend: &BackendConfig) -> (config: Result<&RPCConfig, WalletError>)
        ensures
            match config {
                Ok(c) => *backend == BackendConfig::Bitcoind(*c),
                Err(e) => *backend is Electrum && e.is_general(
                    "expected Bitcoind, got Electrum"@,
                ),
            },
    {
        match backend {
            BackendConfig::Bitcoind(c) => Ok(c),
            BackendConfig::Electrum(_) => Err(
                WalletError::general("expected Bitcoind, got Electrum"),
            ),
        }
    }

    fn watch_script(&mut self, script: &ScriptBuf, hd: Option<HdOrigin>) {
    }

    fn watch_decoy_script(&mut self, script: &ScriptBuf) {
    }

    fn clear_decoy_scripts(&mut self) {
    }

    fn privacy_config(&self) -> (config: Option<PrivacyConfig>) {
        None
    }

    fn hd_origin_for_script(&self, script: &ScriptBuf) -> (origin: Option<HdOrigin>) {
        None
    }
}

/// The hash of a block: its 32 bytes in internal order, as two little-endian halves.
#[derive(Debug, Clone, Copy, PartialEq, Eq, Structural, Hash)]
pub struct BlockHash {
    /// The first sixteen bytes.
    pub hi: u128,
    /// The last sixteen bytes.
    pub lo: u128,
}

impl BlockHash {
    /// The 32 bytes of the hash.
    pub open spec fn spec_bytes(self) -> Seq<u8> {
        spec_u128_to_le_bytes(self.hi) + spec_u128_to_le_bytes(self.lo)
    }
}

impl View for BlockHash {
    type V = BlockHash;

    open spec fn view(&self) -> BlockHash {
        *self
    }
}

impl MapKey for BlockHash {
    fn same_key(&self, other: &Self) -> (same: bool) {
        *self == *other
    }
}

/// The backend that asks an Electrum server. The server knows scripts and no wallets, so the
/// backend keeps what a node's wallet would keep.
#[derive(Debug)]
pub struct ElectrumBackend {
    /// The scripts that the wallet has asked to watch, each once.
    pub watched: Vec<ScriptBuf>,
    /// The scripts that are asked for as cover, each once.
    pub decoys: Vec<ScriptBuf>,
    /// The places of watched scripts in the wallet.
    pub hd_paths: AssocMap<ScriptBuf, HdOrigin>,
    /// The outpoints that the wallet has locked, each once.
    pub locked: Vec<OutPoint>,
    /// The block hashes that are known, by height.
    pub height_to_hash: AssocMap<u64, BlockHash>,
    /// The heights that are known, by block hash.
    pub hash_to_height: AssocMap<BlockHash, u64>,
    /// The network of the server.
    pub network: Network,
    /// How the wallet's scripts are hidden in its queries.
    pub privacy: PrivacyConfig,
}

/// The places that a map of places holds.
pub open spec fn origins_of(paths: AssocMap<ScriptBuf, HdOrigin>) -> Map<Seq<u8>, OriginView> {
    Map::new(|k: Seq<u8>| paths.has(k), |k: Seq<u8>| paths.at(k)@)
}

fn insert_script(scripts: &mut Vec<ScriptBuf>, script: &ScriptBuf)
    ensures
        views(final(scripts)@).to_set() == views(old(scripts)@).to_set().insert(script@),
        views(old(scripts)@).contains(script@) ==> *final(scripts) == *old(scripts),
        !views(old(scripts)@).contains(script@) ==> views(final(scripts)@) == views(
            old(scripts)@,
        ).push(script@),
{
    let ghost before = views(scripts@);
    let found = position_of_script(scripts, script);
    if found.is_none() {
        scripts.push(script.clone());
        proof {
            assert(views(scripts@) =~= before.push(script@));
            assert(views(scripts@).to_set() =~= before.to_set().insert(script@)) by {
                broadcast use vstd::seq_lib::group_seq_properties;

                assert forall|x: Seq<u8>| views(scripts@).contains(x) <==> before.contains(x) || x
                    == script@ by {
                    if before.contains(x) {
                        let i = choose|i: int| 0 <= i < before.len() && before[i] == x;
                        assert(views(scripts@)[i] == x);
                    }
                    assert(views(scripts@)[before.len() as int] == script@);
                }
            }
        }
    } else {
        proof {
            let i = found.unwrap() as int;
            assert(before[i] == script@);
            assert(before.to_set().contains(script@));
            assert(before.to_set() =~= before.to_set().insert(script@));
        }
    }
}

impl BlockchainBackend for ElectrumBackend {
    type Config = ElectrumConfig;

    open spec fn spec_is_electrum() -> bool {
        true
    }

    fn is_electrum() -> (electrum: bool) {
        true
    }

    open spec fn well_formed(&self) -> bool {
        &&& views(self.watched@).no_duplicates()
        &&& views(self.decoys@).no_duplicates()
        &&& self.locked@.no_duplicates()
        &&& self.hd_paths.well_formed()
        &&& self.height_to_hash.well_formed()
        &&& self.hash_to_height.well_formed()
    }

    open spec fn local(&self) -> LocalScripts {
        LocalScripts {
            watched: views(self.watched@).to_set(),
            decoys: views(self.decoys@).to_set(),
            origins: origins_of(self.hd_paths),
        }
    }

    open spec fn privacy(&self) -> Option<PrivacyConfig> {
        Some(self.privacy)
    }

    open spec fn rest(&self) -> BackendRest {
        BackendRest::Server {
            locked: self.locked@,
            height_to_hash: self.height_to_hash,
            hash_to_height: self.hash_to_height,
            network: self.network,
        }
    }

    fn from_backend_config(backend: &BackendConfig) -> (config: Result<
        &ElectrumConfig,
        WalletError,
    >)
        ensures
            match config {
                Ok(c) => *backend == BackendConfig::Electrum(*c),
                Err(e) => *backend is Bitcoind && e.is_general(
                    "expected Electrum, got Bitcoind"@,
                ),
            },
    {
        match backend {
            BackendConfig::Electrum(c) => Ok(c),
            BackendConfig::Bitcoind(_) => Err(
                WalletError::general("expected Electrum, got Bitcoind"),
            ),
        }
    }

    fn watch_script(&mut self, script: &ScriptBuf, hd: Option<HdOrigin>) {
        insert_script(&mut self.watched, script);
        let ghost paths = self.hd_paths;
        if let Some(origin) = hd {
            let ghost seen = origin@;
            self.hd_paths.insert(script.clone(), origin);
            proof {
                assert(origins_of(self.hd_paths) =~= origins_of(paths).insert(script@, seen));
            }
        }
    }

    fn watch_decoy_script(&mut self, script: &ScriptBuf) {
        insert_script(&mut self.decoys, script);
    }

    fn clear_decoy_scripts(&mut self) {
        self.decoys.clear();
        proof {
            assert(views(self.decoys@).to_set() =~= Set::<Seq<u8>>::empty());
        }
    }

    fn privacy_config(&self) -> (config: Option<PrivacyConfig>) {
        Some(self.privacy.clone())
    }

    fn hd_origin_for_script(&self, script: &ScriptBuf) -> (origin: Option<HdOrigin>) {
        match self.hd_paths.get(script) {
            Some(origin) => Some(origin.clone()),
            None => None,
        }
    }
}

/// A backend that is told of a script watches it, and keeps the place that comes with it; it keeps what it had of
/// every other script, and its decoys.
pub proof fn law_watched_script_is_kept(
    local: LocalScripts,
    script: Seq<u8>,
    origin: OriginView,
    other: Seq<u8>,
)
    requires
        other != script,
    ensures
        local.watch(script, None).watched.contains(script),
        local.watch(script, None).origins == local.origins,
        local.watch(script, None).decoys == local.decoys,
        local.watch(script, Some(origin)).watched.contains(script),
        local.watch(script, Some(origin)).origins.contains_key(script),
        local.watch(script, Some(origin)).origins[script] == origin,
        local.watch(script, Some(origin)).decoys == local.decoys,
        local.watch(script, Some(origin)).watched.contains(other) <==> local.watched.contains(other),
        local.watch(script, None).watched.contains(other) <==> local.watched.contains(other),
        local.watch(script, Some(origin)).origins.contains_key(other)
            <==> local.origins.contains_key(other),
        local.origins.contains_key(other) ==> local.watch(script, Some(origin)).origins[other]
            == local.origins[other],
{
}

/// A decoy is kept as a decoy and as nothing else, until all decoys are forgotten.
pub proof fn law_decoys_are_kept_apart(local: LocalScripts, script: Seq<u8>, other: Seq<u8>)
    ensures
        local.add_decoy(script).decoys.contains(script),
        other != script ==> (local.add_decoy(script).decoys.contains(other)
            <==> local.decoys.contains(other)),
        local.add_decoy(script).watched == local.watched,
        local.add_decoy(script).origins == local.origins,
        !local.without_decoys().decoys.contains(other),
        local.without_decoys().watched == local.watched,
        local.without_decoys().origins == local.origins,
{
}

/// What a backend for a server keeps is what stands in its lists, and no more.
pub proof fn law_backend_keeps_its_lists(backend: ElectrumBackend, i: int, script: Seq<u8>)
    requires
        backend.well_formed(),
    ensures
        0 <= i < backend.watched@.len() ==> backend.local().watched.contains(backend.watched@[i]@),
        0 <= i < backend.decoys@.len() ==> backend.local().decoys.contains(backend.decoys@[i]@),
        0 <= i < backend.hd_paths.entries@.len() ==> backend.local().origins.contains_key(
            backend.hd_paths.entries@[i].0@,
        ) && backend.local().origins[backend.hd_paths.entries@[i].0@]
            == backend.hd_paths.entries@[i].1@,
        backend.watched@.len() == 0 ==> !backend.local().watched.contains(script),
        backend.decoys@.len() == 0 ==> !backend.local().decoys.contains(script),
        backend.hd_paths.entries@.len() == 0 ==> !backend.local().origins.contains_key(script),
{
    if 0 <= i < backend.watched@.len() {
        assert(views(backend.watched@)[i] == backend.watched@[i]@);
    }
    if 0 <= i < backend.decoys@.len() {
        assert(views(backend.decoys@)[i] == backend.decoys@[i]@);
    }
    if 0 <= i < backend.hd_paths.entries@.len() {
        backend.hd_paths.lemma_slot(i);
    }
}

/// A wallet is named the same whichever backend its configuration is for.
pub proof fn law_wallet_is_named_by_its_configuration(node: RPCConfig, server: ElectrumConfig)
    ensures
        BackendConfig::Bitcoind(node).spec_wallet_name() == node.wallet_name@,
        BackendConfig::Electrum(server).spec_wallet_name() == server.wallet_name@,
{
}

} // verus!
