//! Decisions of the HTTP server: which network a request is for and whether
//! it is served, which submitted transactions pay the will executor, and the
//! statements that store them.

use vstd::prelude::*;
use vstd::utf8::{encode_utf8, valid_utf8};
use crate::network::{is_known_network, is_known_network_name, network_from_name, network_name, Network};
use crate::text::{
    chars_of, string_from_range, is_hex_digit, is_hex_digit_exec, parse_i64, parse_i64_spec, parse_u64,
    parse_unsigned,
};

verus! {

// ---------------------------------------------------------------------------
// Responses and configuration
// ---------------------------------------------------------------------------

/// What `/<network>/info` answers: where to pay the executor, and how much.
pub struct InfoResponse {
    pub address: String,
    pub base_fee: u64,
    pub chain: String,
    pub info: String,
    pub version: String,
}

/// Aggregate statistics of one network.
pub struct StatsResponse {
    pub report_date: String,
    pub chain: String,
    pub totals: i64,
    pub waiting: i64,
    pub sent: i64,
    pub failed: i64,
    pub waiting_profit: i64,
    pub sent_profit: i64,
    pub missed_profit: i64,
    pub unique_inputs: i64,
}

/// How the server serves one network.
pub struct NetConfig {
    /// The payment address, or an extended public key to derive addresses from.
    pub address: String,
    /// The smallest payment to the executor that a transaction must carry.
    pub fixed_fee: u64,
    /// Whether `address` is an extended public key.
    pub xpub: bool,
    pub network: Network,
    /// The chain name the database uses.
    pub name: String,
    pub enabled: bool,
}

impl NetConfig {
    /// A disabled network with no address and a fee of 50000 satoshi.
    pub fn default_network(name: String, network: Network) -> (c: Self)
        ensures
            c.address@ == Seq::<char>::empty(),
            c.fixed_fee == 50000,
            !c.xpub,
            c.network == network,
            c.name == name,
            !c.enabled,
    {
        NetConfig { address: String::new(), fixed_fee: 50000, xpub: false, name, network, enabled: false }
    }
}

/// The settings of every network the server knows.
pub struct ServerConfig {
    pub regtest: NetConfig,
    pub signet: NetConfig,
    pub testnet: NetConfig,
    pub testnet4: NetConfig,
    pub mainnet: NetConfig,
    pub info: String,
    pub expose_stats: bool,
}

/// The settings that a chain name selects; unknown names select mainnet.
pub open spec fn net_config_for(cfg: ServerConfig, param: Seq<char>) -> NetConfig {
    match network_from_name(param) {
        Network::Regtest => cfg.regtest,
        Network::Testnet => cfg.testnet,
        Network::Testnet4 => cfg.testnet4,
        Network::Signet => cfg.signet,
        Network::Bitcoin => cfg.mainnet,
    }
}

impl ServerConfig {
    /// The settings of the network that a chain name selects.
    pub fn get_net_config(&self, param: &str) -> (c: &NetConfig)
        ensures
            *c == net_config_for(*self, param@),
    {
        match crate::network::net_from_str(param) {
            Network::Regtest => &self.regtest,
            Network::Testnet => &self.testnet,
            Network::Testnet4 => &self.testnet4,
            Network::Signet => &self.signet,
            Network::Bitcoin => &self.mainnet,
        }
    }
}

/// Whether an address setting is an extended public key: longer than five
/// bytes, with `pub` as its second to fourth bytes.
pub open spec fn is_xpub_setting(b: Seq<u8>) -> bool {
    b.len() > 5 && b[1] == 0x70u8 && b[2] == 0x75u8 && b[3] == 0x62u8
}

/// An address setting is an extended key exactly when it is longer than five
/// bytes and its bytes 1 to 3 read `pub`, whatever its first byte (`x`, `y`,
/// `z`, `t`, `u`, `v` or any other).
pub proof fn lemma_xpub_setting_by_pub(b: Seq<u8>, first: u8)
    ensures
        is_xpub_setting(b) <==> (b.len() > 5 && b.subrange(1, 4) == seq![0x70u8, 0x75u8, 0x62u8]),
        b.len() > 0 ==> is_xpub_setting(b.update(0, first)) == is_xpub_setting(b),
{
    if b.len() > 5 && b.subrange(1, 4) == seq![0x70u8, 0x75u8, 0x62u8] {
        assert(b.subrange(1, 4)[0] == b[1]);
        assert(b.subrange(1, 4)[1] == b[2]);
        assert(b.subrange(1, 4)[2] == b[3]);
    }
    if is_xpub_setting(b) {
        assert(b.subrange(1, 4) =~= seq![0x70u8, 0x75u8, 0x62u8]);
    }
}

/// Applies a `BAL_SERVER_<CHAIN>_ADDRESS` setting: the network is enabled,
/// and marked as deriving addresses when the setting is an extended key.
pub fn apply_address_setting(c: &mut NetConfig, value: String)
    requires
        encode_utf8(value@).len() > 5 ==> vstd::utf8::is_char_boundary(encode_utf8(value@), 1)
            && vstd::utf8::is_char_boundary(encode_utf8(value@), 4),
    ensures
        final(c).address == value,
        final(c).xpub == (old(c).xpub || is_xpub_setting(encode_utf8(value@))),
        encode_utf8(value@).len() > 5 && encode_utf8(value@).subrange(1, 4) == seq![0x70u8, 0x75u8, 0x62u8]
            ==> final(c).xpub,
        final(c).enabled,
        final(c).fixed_fee == old(c).fixed_fee,
        final(c).network == old(c).network,
        final(c).name == old(c).name,
{
    let b = value.as_str().as_bytes();
    if b.len() > 5 && b[1] == 0x70u8 && b[2] == 0x75u8 && b[3] == 0x62u8 {
        c.xpub = true;
    }
    c.address = value;
    c.enabled = true;
}

/// Applies a `BAL_SERVER_<CHAIN>_FIXED_FEE` setting; text that is not a
/// `u64` leaves the fee unchanged.
pub fn apply_fee_setting(c: &mut NetConfig, value: &str)
    ensures
        final(c).fixed_fee == (match parse_unsigned(value@, u64::MAX as nat) {
            Some(v) => v as u64,
            None => old(c).fixed_fee,
        }),
        final(c).address == old(c).address,
        final(c).xpub == old(c).xpub,
        final(c).enabled == old(c).enabled,
        final(c).network == old(c).network,
        final(c).name == old(c).name,
{
    if let Some(v) = parse_u64(value) {
        c.fixed_fee = v;
    }
}

/// A numeric setting read from the environment: the value when it is a
/// decimal number no larger than `max`, otherwise `default`.
pub open spec fn setting_spec(value: Option<Seq<char>>, max: nat, default: u64) -> u64 {
    match value {
        Some(t) => match parse_unsigned(t, max) {
            Some(n) => n as u64,
            None => default,
        },
        None => default,
    }
}

/// Reads a numeric setting with a default (the server's tuning variables).
pub fn setting_value(value: Option<&str>, max: u64, default: u64) -> (r: u64)
    ensures
        r == setting_spec(match value {
            Some(t) => Some(t@),
            None => None,
        }, max as nat, default),
{
    match value {
        Some(t) => {
            let v = chars_of(t);
            match crate::text::parse_unsigned_chars(&v, max) {
                Some(n) => n,
                None => default,
            }
        },
        None => default,
    }
}

// ---------------------------------------------------------------------------
// Request gates
// ---------------------------------------------------------------------------

/// Why a request for a network is not served.
#[derive(Clone, Copy, Debug, PartialEq, Eq, Structural)]
pub enum Refusal {
    /// Not one of the five chain names (404).
    UnknownNetwork,
    /// The network is not configured (400).
    Disabled,
    /// Statistics are not exposed (403).
    StatsHidden,
}

/// Which network settings serve a request for `param`, or why none do.
pub open spec fn gate_spec(cfg: ServerConfig, param: Seq<char>) -> Result<NetConfig, Refusal> {
    if !is_known_network(param) {
        Err(Refusal::UnknownNetwork)
    } else if !net_config_for(cfg, param).enabled {
        Err(Refusal::Disabled)
    } else {
        Ok(net_config_for(cfg, param))
    }
}

/// Admits a request for a network (`/<network>/info` and `/<network>/pushtxs`).
pub fn network_gate<'a>(cfg: &'a ServerConfig, param: &str) -> (r: Result<&'a NetConfig, Refusal>)
    ensures
        match gate_spec(*cfg, param@) {
            Ok(c) => r matches Ok(rc) && *rc == c,
            Err(e) => r == Err::<&NetConfig, Refusal>(e),
        },
{
    if !is_known_network_name(param) {
        return Err(Refusal::UnknownNetwork);
    }
    let c = cfg.get_net_config(param);
    if !c.enabled {
        return Err(Refusal::Disabled);
    }
    Ok(c)
}

/// Admits a statistics request: the network must be served and statistics exposed.
pub fn stats_gate<'a>(cfg: &'a ServerConfig, param: &str) -> (r: Result<&'a NetConfig, Refusal>)
    ensures
        match gate_spec(*cfg, param@) {
            Ok(c) => if cfg.expose_stats {
                r matches Ok(rc) && *rc == c
            } else {
                r == Err::<&NetConfig, Refusal>(Refusal::StatsHidden)
            },
            Err(e) => r == Err::<&NetConfig, Refusal>(e),
        },
{
    let c = network_gate(cfg, param)?;
    if !cfg.expose_stats {
        return Err(Refusal::StatsHidden);
    }
    Ok(c)
}

/// What an `/<network>/info` request does next.
pub enum InfoAction {
    /// Answer with this payment address.
    Reply(String),
    /// Look up the address last handed out to the client for the network's
    /// extended key.
    LookUpSaved,
    /// Claim the key's next derivation index, derive that address, save it
    /// for the client and answer with it.
    DeriveNext,
}

/// The next step of an `/<network>/info` request, given what the lookup of
/// the client's saved address gave (`None` while it has not been made): a
/// fixed address is answered at once; for an extended key the address saved
/// for the client is reused, and only without one is a new one derived.
pub fn info_step(c: &NetConfig, saved: Option<Option<String>>) -> (r: InfoAction)
    ensures
        !c.xpub ==> (r matches InfoAction::Reply(a) && a@ == c.address@),
        c.xpub ==> match saved {
            None => r is LookUpSaved,
            Some(Some(a)) => r matches InfoAction::Reply(x) && x@ == a@,
            Some(None) => r is DeriveNext,
        },
{
    if !c.xpub {
        return InfoAction::Reply(c.address.clone());
    }
    match saved {
        None => InfoAction::LookUpSaved,
        Some(Some(a)) => InfoAction::Reply(a),
        Some(None) => InfoAction::DeriveNext,
    }
}

/// A statistics column read as text: its `i64` value, or 0 when it is
/// missing or not a number.
pub open spec fn stat_value_spec(v: Option<Seq<char>>) -> i64 {
    match parse_i64_spec(match v {
        Some(t) => t,
        None => "0"@,
    }) {
        Some(n) => n as i64,
        None => 0,
    }
}

/// Reads a statistics column that may be missing or malformed.
pub fn stat_value(v: Option<String>) -> (r: i64)
    ensures
        r == stat_value_spec(match v {
            Some(t) => Some(t@),
            None => None,
        }),
{
    let text = match v {
        Some(t) => t,
        None => "0".to_string(),
    };
    match parse_i64(text.as_str()) {
        Some(n) => n,
        None => 0,
    }
}

/// A well-formed `/searchtx` body: UTF-8, exactly 64 bytes, all hex digits.
pub open spec fn txid_query_ok(body: Seq<u8>) -> bool {
    &&& valid_utf8(body)
    &&& body.len() == 64
    &&& forall|k: int| 0 <= k < body.len() ==> is_hex_digit(#[trigger] body[k] as char)
}

/// Whether a transaction search body is a transaction id.
pub fn is_txid_query(body: &[u8]) -> (r: bool)
    ensures
        r == txid_query_ok(body@),
{
    if crate::text::utf8_text(body).is_none() {
        return false;
    }
    if body.len() != 64 {
        return false;
    }
    let mut i: usize = 0;
    while i < body.len()
        invariant
            i <= body@.len(),
            forall|k: int| 0 <= k < i ==> is_hex_digit(#[trigger] body@[k] as char),
        decreases body@.len() - i,
    {
        if !is_hex_digit_exec(body[i] as char) {
            return false;
        }
        i += 1;
    }
    true
}


/// The client address a forwarding header (`X-Real-IP`, `X-Forwarded-For`)
/// names: its first comma-separated entry, without surrounding white space.
pub fn client_ip_candidate(header: &str) -> (r: String)
    ensures
        r@ == crate::umbrel_api::trim(crate::text::before_first(header@, ',')),
{
    let v = chars_of(header);
    let end = crate::text::find_char(&v, ',', 0);
    proof {
        crate::text::lemma_find_from(v@, ',', 0);
    }
    let ghost piece = v@.subrange(0, end as int);
    let mut a: usize = 0;
    while a < end && crate::umbrel_api::is_whitespace_exec(v[a])
        invariant
            a <= end <= v@.len(),
            piece == v@.subrange(0, end as int),
            crate::umbrel_api::trim_start(piece) == crate::umbrel_api::trim_start(v@.subrange(a as int, end as int)),
        decreases end - a,
    {
        assert(v@.subrange(a as int, end as int).drop_first() =~= v@.subrange(a + 1, end as int));
        a += 1;
    }
    assert(crate::umbrel_api::trim_start(piece) == v@.subrange(a as int, end as int));
    let mut b: usize = end;
    while b > a && crate::umbrel_api::is_whitespace_exec(v[b - 1])
        invariant
            a <= b <= end <= v@.len(),
            crate::umbrel_api::trim(piece) == crate::umbrel_api::trim_end(v@.subrange(a as int, b as int)),
        decreases b - a,
    {
        assert(v@.subrange(a as int, b as int).drop_last() =~= v@.subrange(a as int, b - 1));
        b -= 1;
    }
    string_from_range(&v, a, b)
}

// ---------------------------------------------------------------------------
// Submitted transactions
// ---------------------------------------------------------------------------

/// The value of an ASCII hex digit byte.
pub open spec fn hex_byte_value(b: u8) -> nat {
    if 0x30u8 <= b && b <= 0x39u8 {
        (b - 0x30u8) as nat
    } else if 0x61u8 <= b && b <= 0x66u8 {
        (b - 0x61u8 + 10) as nat
    } else {
        (b - 0x41u8 + 10) as nat
    }
}

/// Whether a byte is an ASCII hex digit.
pub open spec fn is_hex_byte(b: u8) -> bool {
    (0x30u8 <= b && b <= 0x39u8) || (0x61u8 <= b && b <= 0x66u8) || (0x41u8 <= b && b <= 0x46u8)
}

/// The bytes that hex text encodes: an even number of hex digits, two per
/// byte, high digit first, either case.
pub open spec fn hex_bytes(s: Seq<u8>) -> Option<Seq<u8>> {
    if s.len() % 2 == 0 && forall|k: int| 0 <= k < s.len() ==> is_hex_byte(#[trigger] s[k]) {
        Some(Seq::new(s.len() / 2, |i: int| (hex_byte_value(s[2 * i]) * 16 + hex_byte_value(s[2 * i + 1])) as u8))
    } else {
        None
    }
}

/// Hex decoding (`Vec::<u8>::from_hex` of `hex_conservative`). Claims: it
/// succeeds exactly on an even number of hex digits (of either case), and
/// gives two digits per byte, high digit first.
#[verifier::external_body]
pub(crate) fn hex_to_bytes(s: &str) -> (r: Option<Vec<u8>>)
    ensures
        match hex_bytes(encode_utf8(s@)) {
            Some(b) => r matches Some(v) && v@ == b,
            None => r is None,
        },
{
    <Vec<u8> as hex_conservative::FromHex>::from_hex(s).ok()
}

/// An output of a decoded transaction.
pub struct TxOutput {
    /// The output script's bytes.
    pub script: Vec<u8>,
    /// The output script as the `bitcoin` crate displays it.
    pub script_text: String,
    /// The amount in satoshi.
    pub amount: u64,
}

/// The parts of a decoded transaction that the server stores.
pub struct TxSummary {
    pub txid: String,
    pub wtxid: String,
    pub ntxid: String,
    pub locktime: String,
    /// The outpoints spent: (transaction id, output index) as text.
    pub inputs: Vec<(String, String)>,
    pub outputs: Vec<TxOutput>,
}

/// Mathematical view of a `TxOutput`.
pub struct TxOutputView {
    pub script: Seq<u8>,
    pub script_text: Seq<char>,
    pub amount: u64,
}

/// Mathematical view of a `TxSummary`.
pub struct TxSummaryView {
    pub txid: Seq<char>,
    pub wtxid: Seq<char>,
    pub ntxid: Seq<char>,
    pub locktime: Seq<char>,
    pub inputs: Seq<(Seq<char>, Seq<char>)>,
    pub outputs: Seq<TxOutputView>,
}

/// The view of a list of text pairs.
pub open spec fn pairs_view(v: Seq<(String, String)>) -> Seq<(Seq<char>, Seq<char>)> {
    v.map_values(|p: (String, String)| (p.0@, p.1@))
}

impl View for TxOutput {
    type V = TxOutputView;

    open spec fn view(&self) -> TxOutputView {
        TxOutputView { script: self.script@, script_text: self.script_text@, amount: self.amount }
    }
}

impl View for TxSummary {
    type V = TxSummaryView;

    open spec fn view(&self) -> TxSummaryView {
        TxSummaryView {
            txid: self.txid@,
            wtxid: self.wtxid@,
            ntxid: self.ntxid@,
            locktime: self.locktime@,
            inputs: pairs_view(self.inputs@),
            outputs: self.outputs@.map_values(|o: TxOutput| o@),
        }
    }
}

/// What `bitcoin::consensus::deserialize::<Transaction>` makes of raw bytes:
/// the transaction's ids, lock time, spent outpoints and outputs.
pub uninterp spec fn decoded_transaction(raw: Seq<u8>) -> Option<TxSummaryView>;

/// The address (its text) that pays to an output script on a network, if
/// the script has an address form.
pub uninterp spec fn script_address(script: Seq<u8>, network: Network) -> Option<Seq<char>>;

/// Deserializes a raw transaction (`bitcoin::consensus::deserialize`) and
/// reads its ids (`compute_txid`, `compute_wtxid`, `compute_ntxid`), lock
/// time, inputs and outputs as text and numbers. Claims: the result is the
/// named decoding of the bytes.
#[verifier::external_body]
pub(crate) fn decode_transaction(raw: &[u8]) -> (r: Option<TxSummary>)
    ensures
        match r {
            Some(t) => decoded_transaction(raw@) == Some(t@),
            None => decoded_transaction(raw@) is None,
        },
{
    let tx: bitcoin::Transaction = bitcoin::consensus::deserialize(raw).ok()?;
    let inputs = tx.input.iter().map(|i| (i.previous_output.txid.to_string(), i.previous_output.vout.to_string())).collect();
    let outputs = tx.output.iter().map(|o| TxOutput { script: o.script_pubkey.to_bytes(), script_text: o.script_pubkey.to_string(), amount: o.value.to_sat() }).collect();
    let (txid, wtxid, ntxid) = (tx.compute_txid().to_string(), tx.compute_wtxid().to_string(), tx.compute_ntxid().to_string());
    Some(TxSummary { txid, wtxid, ntxid, locktime: tx.lock_time.to_string(), inputs, outputs })
}

/// The address of an output script (`bitcoin::Address::from_script` on the
/// network, as text). Claims: the result is the named address.
#[verifier::external_body]
pub(crate) fn address_of_script(script: &[u8], network: Network) -> (r: Option<String>)
    ensures
        match r {
            Some(a) => script_address(script@, network) == Some(a@),
            None => script_address(script@, network) is None,
        },
{
    let net = match network {
        Network::Bitcoin => bitcoin::Network::Bitcoin,
        Network::Testnet => bitcoin::Network::Testnet,
        Network::Testnet4 => bitcoin::Network::Testnet4,
        Network::Signet => bitcoin::Network::Signet,
        Network::Regtest => bitcoin::Network::Regtest,
    };
    bitcoin::Address::from_script(bitcoin::Script::from_bytes(script), net).ok().map(|a| a.to_string())
}

/// A submitted transaction, decoded and ready to be stored.
pub struct ParsedTx {
    pub txid: String,
    pub wtxid: String,
    pub ntxid: String,
    /// The hex line it was submitted as.
    pub raw_hex: String,
    pub locktime: String,
    /// (spent transaction id, spent output index)
    pub inputs: Vec<(String, String)>,
    /// (output index, output script text, amount in satoshi)
    pub outputs: Vec<(usize, String, u64)>,
}

/// Mathematical view of a `ParsedTx`.
pub struct ParsedTxView {
    pub txid: Seq<char>,
    pub wtxid: Seq<char>,
    pub ntxid: Seq<char>,
    pub raw_hex: Seq<char>,
    pub locktime: Seq<char>,
    pub inputs: Seq<(Seq<char>, Seq<char>)>,
    pub outputs: Seq<(int, Seq<char>, u64)>,
}

impl View for ParsedTx {
    type V = ParsedTxView;

    open spec fn view(&self) -> ParsedTxView {
        ParsedTxView {
            txid: self.txid@,
            wtxid: self.wtxid@,
            ntxid: self.ntxid@,
            raw_hex: self.raw_hex@,
            locktime: self.locktime@,
            inputs: pairs_view(self.inputs@),
            outputs: self.outputs@.map_values(|o: (usize, String, u64)| (o.0 as int, o.1@, o.2)),
        }
    }
}

/// Whether an output pays the executor: its address is the configured one
/// (or, for an extended key, one of the addresses handed out for it), and it
/// carries at least the fee.
pub open spec fn pays_executor(
    addr: Option<Seq<char>>,
    amount: u64,
    xpub: bool,
    our: Seq<char>,
    fee: u64,
    known: Seq<Seq<char>>,
) -> bool {
    match addr {
        None => false,
        Some(a) => (if xpub {
            known.contains(a)
        } else {
            a == our
        }) && amount >= fee,
    }
}

/// The executor's output among the first outputs: whether there is one, its
/// address and amount (the last such output wins).
pub open spec fn select_ours(
    outs: Seq<(Option<Seq<char>>, u64)>,
    xpub: bool,
    our: Seq<char>,
    fee: u64,
    known: Seq<Seq<char>>,
) -> (bool, Seq<char>, u64)
    decreases outs.len(),
{
    if outs.len() == 0 {
        (false, Seq::empty(), 0)
    } else {
        let o = outs.last();
        if pays_executor(o.0, o.1, xpub, our, fee, known) {
            (true, o.0->0, o.1)
        } else {
            select_ours(outs.drop_last(), xpub, our, fee, known)
        }
    }
}

/// The address and amount of each output of a decoded transaction.
pub open spec fn output_addresses(tx: TxSummaryView, network: Network) -> Seq<(Option<Seq<char>>, u64)> {
    tx.outputs.map_values(|o: TxOutputView| (script_address(o.script, network), o.amount))
}

/// What a submitted line becomes: nothing for an empty line, bad hex, no
/// bytes, an undecodable transaction or one that does not pay the executor
/// (unless the fee is zero); otherwise the decoded transaction with the
/// executor's address and amount.
pub open spec fn parsed_line(
    line: Seq<char>,
    network: Network,
    xpub: bool,
    our: Seq<char>,
    fee: u64,
    known: Seq<Seq<char>>,
) -> Option<(ParsedTxView, Seq<char>, u64)> {
    if line.len() == 0 {
        None
    } else {
        match hex_bytes(encode_utf8(line)) {
            None => None,
            Some(raw) => if raw.len() == 0 {
                None
            } else {
                match decoded_transaction(raw) {
                    None => None,
                    Some(tx) => {
                        let sel = select_ours(output_addresses(tx, network), xpub, our, fee, known);
                        if sel.0 || fee == 0 {
                            Some(
                                (
                                    ParsedTxView {
                                        txid: tx.txid,
                                        wtxid: tx.wtxid,
                                        ntxid: tx.ntxid,
                                        raw_hex: line,
                                        locktime: tx.locktime,
                                        inputs: tx.inputs,
                                        outputs: Seq::new(
                                            tx.outputs.len(),
                                            |i: int| (i, tx.outputs[i].script_text, tx.outputs[i].amount),
                                        ),
                                    },
                                    sel.1,
                                    sel.2,
                                ),
                            )
                        } else {
                            None
                        }
                    },
                }
            },
        }
    }
}

/// The transactions kept from a run of submitted lines, in order.
pub open spec fn parse_lines(
    lines: Seq<Seq<char>>,
    network: Network,
    xpub: bool,
    our: Seq<char>,
    fee: u64,
    known: Seq<Seq<char>>,
) -> Seq<(ParsedTxView, Seq<char>, u64)>
    decreases lines.len(),
{
    if lines.len() == 0 {
        Seq::empty()
    } else {
        (match parsed_line(lines[0], network, xpub, our, fee, known) {
            Some(t) => seq![t],
            None => Seq::empty(),
        }) + parse_lines(lines.drop_first(), network, xpub, our, fee, known)
    }
}

/// The view of a list of text values.
pub open spec fn strings_view(v: Seq<String>) -> Seq<Seq<char>> {
    v.map_values(|s: String| s@)
}

/// The view of parsed submissions.
pub open spec fn results_view(v: Seq<(ParsedTx, String, u64)>) -> Seq<(ParsedTxView, Seq<char>, u64)> {
    v.map_values(|t: (ParsedTx, String, u64)| (t.0@, t.1@, t.2))
}

fn contains_string(known: &Vec<String>, a: &str) -> (r: bool)
    ensures
        r == strings_view(known@).contains(a@),
{
    let mut i: usize = 0;
    while i < known.len()
        invariant
            i <= known@.len(),
            forall|k: int| 0 <= k < i ==> known@[k]@ != a@,
        decreases known@.len() - i,
    {
        if crate::text::str_eq(known[i].as_str(), a) {
            assert(strings_view(known@)[i as int] == a@);
            return true;
        }
        i += 1;
    }
    assert(!strings_view(known@).contains(a@)) by {
        if strings_view(known@).contains(a@) {
            let k = choose|k: int| 0 <= k < strings_view(known@).len() && strings_view(known@)[k] == a@;
            assert(known@[k]@ == a@);
        }
    }
    false
}

/// Decodes one submitted line (see `parsed_line`).
fn parse_line(
    line: String,
    netconfig: &NetConfig,
    known_addresses: &Vec<String>,
) -> (r: Option<(ParsedTx, String, u64)>)
    ensures
        match parsed_line(line@, netconfig.network, netconfig.xpub, netconfig.address@, netconfig.fixed_fee, strings_view(known_addresses@)) {
            Some(t) => r matches Some(x) && (x.0@, x.1@, x.2) == t,
            None => r is None,
        },
        r matches Some(x) ==> records_decoded_ids(x.0@),
{
    if line.as_str().is_empty() {
        return None;
    }
    let raw = match hex_to_bytes(line.as_str()) {
        Some(v) => v,
        None => return None,
    };
    if raw.len() == 0 {
        return None;
    }
    let tx = match decode_transaction(raw.as_slice()) {
        Some(t) => t,
        None => return None,
    };
    let ghost txv = tx@;
    let ghost outs = output_addresses(txv, netconfig.network);
    let ghost known = strings_view(known_addresses@);
    let mut outputs: Vec<(usize, String, u64)> = Vec::new();
    let mut found = false;
    let mut our_address = String::new();
    let mut our_fees: u64 = 0;
    let mut idx: usize = 0;
    while idx < tx.outputs.len()
        invariant
            idx <= tx.outputs@.len(),
            txv == tx@,
            outs == output_addresses(txv, netconfig.network),
            known == strings_view(known_addresses@),
            (found, our_address@, our_fees) == select_ours(outs.take(idx as int), netconfig.xpub, netconfig.address@, netconfig.fixed_fee, known),
            outputs@.map_values(|o: (usize, String, u64)| (o.0 as int, o.1@, o.2)) == Seq::new(
                idx as nat,
                |i: int| (i, txv.outputs[i].script_text, txv.outputs[i].amount),
            ),
        decreases tx.outputs@.len() - idx,
    {
        let out = &tx.outputs[idx];
        let ghost outv = txv.outputs[idx as int];
        assert(outv == out@);
        let text = out.script_text.clone();
        let amount = out.amount;
        let ghost prev = outputs@;
        outputs.push((idx, text, amount));
        proof {
            assert(text@ == outv.script_text);
            assert(amount == outv.amount);
            assert(outputs@ == prev.push((idx, text, amount)));
            let f = |o: (usize, String, u64)| (o.0 as int, o.1@, o.2);
            assert(outputs@.map_values(f) =~= prev.map_values(f).push(f((idx, text, amount))));
        }
        let addr = address_of_script(out.script.as_slice(), netconfig.network);
        proof {
            assert(outs.take(idx + 1).drop_last() =~= outs.take(idx as int));
            assert(outs.take(idx + 1).last() == outs[idx as int]);
            assert(outs[idx as int] == (script_address(outv.script, netconfig.network), outv.amount));
        }
        match addr {
            Some(a) => {
                let is_ours = if netconfig.xpub {
                    contains_string(known_addresses, a.as_str())
                } else {
                    crate::text::str_eq(a.as_str(), netconfig.address.as_str())
                };
                if is_ours && amount >= netconfig.fixed_fee {
                    our_address = a;
                    our_fees = amount;
                    found = true;
                }
            },
            None => {},
        }
        assert(outputs@.map_values(|o: (usize, String, u64)| (o.0 as int, o.1@, o.2)) =~= Seq::new(
            (idx + 1) as nat,
            |i: int| (i, txv.outputs[i].script_text, txv.outputs[i].amount),
        ));
        idx += 1;
    }
    assert(outs.take(idx as int) =~= outs);
    if netconfig.fixed_fee == 0 {
        found = true;
    }
    if !found {
        return None;
    }
    let parsed = ParsedTx {
        txid: tx.txid,
        wtxid: tx.wtxid,
        ntxid: tx.ntxid,
        raw_hex: line,
        locktime: tx.locktime,
        inputs: tx.inputs,
        outputs,
    };
    Some((parsed, our_address, our_fees))
}

/// Whether a kept submission carries the ids of the transaction its hex line
/// decodes to: the transaction id (hash without witness), the witness id and
/// the normalized id, each in its own field.
pub open spec fn records_decoded_ids(t: ParsedTxView) -> bool {
    match hex_bytes(encode_utf8(t.raw_hex)) {
        Some(raw) => match decoded_transaction(raw) {
            Some(tx) => t.txid == tx.txid && t.wtxid == tx.wtxid && t.ntxid == tx.ntxid,
            None => false,
        },
        None => false,
    }
}

/// Every submission kept from a run of lines is one of those lines, and is
/// recorded under the ids of the transaction that line decodes to.
pub proof fn lemma_kept_submissions_carry_decoded_ids(
    lines: Seq<Seq<char>>,
    network: Network,
    xpub: bool,
    our: Seq<char>,
    fee: u64,
    known: Seq<Seq<char>>,
)
    ensures
        forall|i: int| 0 <= i < parse_lines(lines, network, xpub, our, fee, known).len() ==> {
            let t = #[trigger] parse_lines(lines, network, xpub, our, fee, known)[i];
            records_decoded_ids(t.0) && lines.contains(t.0.raw_hex)
        },
    decreases lines.len(),
{
    if lines.len() > 0 {
        let rest = lines.drop_first();
        lemma_kept_submissions_carry_decoded_ids(rest, network, xpub, our, fee, known);
        let head = match parsed_line(lines[0], network, xpub, our, fee, known) {
            Some(t) => seq![t],
            None => Seq::empty(),
        };
        let all = parse_lines(lines, network, xpub, our, fee, known);
        let tail = parse_lines(rest, network, xpub, our, fee, known);
        assert(all == head + tail);
        assert forall|i: int| 0 <= i < all.len() implies {
            let t = #[trigger] all[i];
            records_decoded_ids(t.0) && lines.contains(t.0.raw_hex)
        } by {
            if i < head.len() {
                assert(all[i] == head[i]);
                assert(lines.contains(lines[0]));
            } else {
                assert(all[i] == tail[i - head.len()]);
                let t = tail[i - head.len()];
                let k = choose|k: int| 0 <= k < rest.len() && rest[k] == t.0.raw_hex;
                assert(lines[k + 1] == rest[k]);
            }
        }
    }
}

/// Decodes the submitted transactions, one hex line each, keeping those that
/// pay the executor (see `parse_lines`); the request time is not used.
pub fn parse_request_transactions(
    strbody: &str,
    _req_time: i64,
    netconfig: &NetConfig,
    known_addresses: &Vec<String>,
) -> (r: Vec<(ParsedTx, String, u64)>)
    ensures
        results_view(r@) == parse_lines(
            crate::text::split_chars(strbody@, '\n'),
            netconfig.network,
            netconfig.xpub,
            netconfig.address@,
            netconfig.fixed_fee,
            strings_view(known_addresses@),
        ),
        forall|i: int| 0 <= i < r@.len() ==> records_decoded_ids((#[trigger] r@[i]).0@),
{
    proof {
        lemma_kept_submissions_carry_decoded_ids(
            crate::text::split_chars(strbody@, '\n'),
            netconfig.network,
            netconfig.xpub,
            netconfig.address@,
            netconfig.fixed_fee,
            strings_view(known_addresses@),
        );
    }
    let r = collect_parsed_lines(strbody, netconfig, known_addresses);
    proof {
        assert forall|i: int| 0 <= i < r@.len() implies records_decoded_ids((#[trigger] r@[i]).0@) by {
            assert(results_view(r@)[i] == (r@[i].0@, r@[i].1@, r@[i].2));
        }
    }
    r
}

/// The line-by-line loop behind `parse_request_transactions`.
fn collect_parsed_lines(
    strbody: &str,
    netconfig: &NetConfig,
    known_addresses: &Vec<String>,
) -> (r: Vec<(ParsedTx, String, u64)>)
    ensures
        results_view(r@) == parse_lines(
            crate::text::split_chars(strbody@, '\n'),
            netconfig.network,
            netconfig.xpub,
            netconfig.address@,
            netconfig.fixed_fee,
            strings_view(known_addresses@),
        ),
{
    let v = chars_of(strbody);
    let ghost known = strings_view(known_addresses@);
    let mut result: Vec<(ParsedTx, String, u64)> = Vec::new();
    let mut i: usize = 0;
    loop
        invariant
            i <= v@.len(),
            v@ == strbody@,
            known == strings_view(known_addresses@),
            parse_lines(crate::text::split_chars(strbody@, '\n'), netconfig.network, netconfig.xpub, netconfig.address@, netconfig.fixed_fee, known)
                == results_view(result@) + parse_lines(crate::text::split_from(v@, '\n', i as int), netconfig.network, netconfig.xpub, netconfig.address@, netconfig.fixed_fee, known),
        decreases v@.len() - i,
    {
        let j = crate::text::find_char(&v, '\n', i);
        proof {
            crate::text::lemma_find_from(v@, '\n', i as int);
        }
        let line = crate::text::string_from_range(&v, i, j);
        let ghost rest = if j < v@.len() { crate::text::split_from(v@, '\n', j + 1) } else { Seq::empty() };
        proof {
            assert(crate::text::split_from(v@, '\n', i as int) == seq![line@] + rest);
            assert((seq![line@] + rest).drop_first() =~= rest);
        }
        let ghost before = results_view(result@);
        match parse_line(line, netconfig, known_addresses) {
            Some(t) => {
                result.push(t);
                assert(results_view(result@) =~= before + seq![(t.0@, t.1@, t.2)]);
            },
            None => {},
        }
        if j >= v.len() {
            assert(parse_lines(rest, netconfig.network, netconfig.xpub, netconfig.address@, netconfig.fixed_fee, known) =~= Seq::empty());
            return result;
        }
        i = j + 1;
    }
}


// ---------------------------------------------------------------------------
// Storing submitted transactions
// ---------------------------------------------------------------------------

/// A value bound to a statement parameter.
pub enum SqlValue {
    Text(String),
    Integer(i64),
}

/// Mathematical view of a `SqlValue`.
pub enum SqlValueView {
    Text(Seq<char>),
    Integer(i64),
}

impl View for SqlValue {
    type V = SqlValueView;

    open spec fn view(&self) -> SqlValueView {
        match self {
            SqlValue::Text(s) => SqlValueView::Text(s@),
            SqlValue::Integer(n) => SqlValueView::Integer(*n),
        }
    }
}

/// The view of numbered statement parameters.
pub open spec fn params_view(v: Seq<(usize, SqlValue)>) -> Seq<(int, SqlValueView)> {
    v.map_values(|p: (usize, SqlValue)| (p.0 as int, p.1@))
}

/// The statements that store new transactions with their inputs and outputs.
pub struct InsertPlan {
    pub sqltxs: String,
    pub ptx: Vec<(usize, SqlValue)>,
    pub sqlinps: String,
    pub pinps: Vec<(usize, SqlValue)>,
    pub sqlouts: String,
    pub pouts: Vec<(usize, SqlValue)>,
}

/// What a submission leads to: nothing new to store, or the statements to run.
pub enum PushPlan {
    AlreadyPresent,
    Insert(InsertPlan),
}

/// The submissions whose transaction ids are not stored yet, in order.
pub open spec fn fresh_txs(
    p: Seq<(ParsedTxView, Seq<char>, u64)>,
    dups: Seq<Seq<char>>,
) -> Seq<(ParsedTxView, Seq<char>, u64)>
    decreases p.len(),
{
    if p.len() == 0 {
        Seq::empty()
    } else if dups.contains(p.last().0.txid) {
        fresh_txs(p.drop_last(), dups)
    } else {
        fresh_txs(p.drop_last(), dups).push(p.last())
    }
}

/// `n` copies of `unit` joined by ` UNION ALL`.
pub open spec fn union_of(unit: Seq<char>, n: nat) -> Seq<char>
    decreases n,
{
    if n == 0 {
        Seq::empty()
    } else if n == 1 {
        unit
    } else {
        union_of(unit, (n - 1) as nat) + " UNION ALL"@ + unit
    }
}

pub open spec fn tx_head() -> Seq<char> {
    "INSERT INTO tbl_tx (txid, wtxid, ntxid, tx, locktime, reqid, network, our_address, our_fees)"@
}

pub open spec fn tx_unit() -> Seq<char> {
    " SELECT ?, ?, ?, ?, ?, ?, ?, ?, ?"@
}

pub open spec fn inp_head() -> Seq<char> {
    "INSERT INTO tbl_inp (txid, in_txid, in_vout )"@
}

pub open spec fn inp_unit() -> Seq<char> {
    " SELECT ?, ?, ?"@
}

pub open spec fn out_head() -> Seq<char> {
    "INSERT INTO tbl_out (txid, vout, script_pubkey, amount )"@
}

pub open spec fn out_unit() -> Seq<char> {
    " SELECT ?, ?, ?, ?"@
}

/// The nine parameters of one transaction row, numbered from `n`.
pub open spec fn tx_row(t: (ParsedTxView, Seq<char>, u64), n: int, req: Seq<char>, net: Seq<char>) -> Seq<(int, SqlValueView)> {
    seq![
        (n, SqlValueView::Text(t.0.txid)),
        (n + 1, SqlValueView::Text(t.0.wtxid)),
        (n + 2, SqlValueView::Text(t.0.ntxid)),
        (n + 3, SqlValueView::Text(t.0.raw_hex)),
        (n + 4, SqlValueView::Text(t.0.locktime)),
        (n + 5, SqlValueView::Text(req)),
        (n + 6, SqlValueView::Text(net)),
        (n + 7, SqlValueView::Text(t.1)),
        (n + 8, SqlValueView::Text(crate::text::decimal(t.2 as nat))),
    ]
}

/// The parameters of the transaction rows, numbered from 1.
pub open spec fn tx_params(f: Seq<(ParsedTxView, Seq<char>, u64)>, req: Seq<char>, net: Seq<char>) -> Seq<(int, SqlValueView)>
    decreases f.len(),
{
    if f.len() == 0 {
        Seq::empty()
    } else {
        tx_params(f.drop_last(), req, net) + tx_row(f.last(), 1 + 9 * (f.len() - 1), req, net)
    }
}

/// The number of inputs of a run of transactions.
pub open spec fn input_count(f: Seq<(ParsedTxView, Seq<char>, u64)>) -> nat
    decreases f.len(),
{
    if f.len() == 0 {
        0
    } else {
        input_count(f.drop_last()) + f.last().0.inputs.len()
    }
}

/// The number of outputs of a run of transactions.
pub open spec fn output_count(f: Seq<(ParsedTxView, Seq<char>, u64)>) -> nat
    decreases f.len(),
{
    if f.len() == 0 {
        0
    } else {
        output_count(f.drop_last()) + f.last().0.outputs.len()
    }
}

/// The parameters of one transaction's input rows, three each, numbered from `start`.
pub open spec fn input_rows(txid: Seq<char>, ins: Seq<(Seq<char>, Seq<char>)>, start: int) -> Seq<(int, SqlValueView)>
    decreases ins.len(),
{
    if ins.len() == 0 {
        Seq::empty()
    } else {
        let n = start + 3 * (ins.len() - 1);
        input_rows(txid, ins.drop_last(), start) + seq![
            (n, SqlValueView::Text(txid)),
            (n + 1, SqlValueView::Text(ins.last().0)),
            (n + 2, SqlValueView::Text(ins.last().1)),
        ]
    }
}

/// The parameters of all input rows, numbered from 1.
pub open spec fn inp_params(f: Seq<(ParsedTxView, Seq<char>, u64)>) -> Seq<(int, SqlValueView)>
    decreases f.len(),
{
    if f.len() == 0 {
        Seq::empty()
    } else {
        inp_params(f.drop_last()) + input_rows(f.last().0.txid, f.last().0.inputs, (1 + 3 * input_count(f.drop_last())) as int)
    }
}

/// An integer column value: the number, or `fallback` when it does not fit an `i64`.
pub open spec fn as_i64_or(v: int, fallback: i64) -> i64 {
    if v <= i64::MAX {
        v as i64
    } else {
        fallback
    }
}

/// The parameters of one transaction's output rows, four each, numbered from `start`.
pub open spec fn output_rows(txid: Seq<char>, outs: Seq<(int, Seq<char>, u64)>, start: int) -> Seq<(int, SqlValueView)>
    decreases outs.len(),
{
    if outs.len() == 0 {
        Seq::empty()
    } else {
        let n = start + 4 * (outs.len() - 1);
        let o = outs.last();
        output_rows(txid, outs.drop_last(), start) + seq![
            (n, SqlValueView::Text(txid)),
            (n + 1, SqlValueView::Integer(as_i64_or(o.0, -1i64))),
            (n + 2, SqlValueView::Text(o.1)),
            (n + 3, SqlValueView::Integer(as_i64_or(o.2 as int, 0i64))),
        ]
    }
}

/// The parameters of all output rows, numbered from 1.
pub open spec fn out_params(f: Seq<(ParsedTxView, Seq<char>, u64)>) -> Seq<(int, SqlValueView)>
    decreases f.len(),
{
    if f.len() == 0 {
        Seq::empty()
    } else {
        out_params(f.drop_last()) + output_rows(f.last().0.txid, f.last().0.outputs, (1 + 4 * output_count(f.drop_last())) as int)
    }
}

proof fn lemma_counts_grow(p: Seq<(ParsedTxView, Seq<char>, u64)>, dups: Seq<Seq<char>>, i: int, j: int)
    requires
        0 <= i <= j <= p.len(),
    ensures
        fresh_txs(p.take(i), dups).len() <= fresh_txs(p.take(j), dups).len(),
        input_count(fresh_txs(p.take(i), dups)) <= input_count(fresh_txs(p.take(j), dups)),
        output_count(fresh_txs(p.take(i), dups)) <= output_count(fresh_txs(p.take(j), dups)),
    decreases j - i,
{
    if i < j {
        lemma_counts_grow(p, dups, i, j - 1);
        assert(p.take(j).drop_last() =~= p.take(j - 1));
        let f = fresh_txs(p.take(j - 1), dups);
        if !dups.contains(p.take(j).last().0.txid) {
            assert(f.push(p.take(j).last()).drop_last() =~= f);
        }
    }
}

fn push_text(v: &mut Vec<(usize, SqlValue)>, n: usize, s: String)
    ensures
        params_view(final(v)@) == params_view(old(v)@).push((n as int, SqlValueView::Text(s@))),
{
    v.push((n, SqlValue::Text(s)));
    proof {
        let f = |p: (usize, SqlValue)| (p.0 as int, p.1@);
        assert(final(v)@.map_values(f) =~= old(v)@.map_values(f).push((n as int, SqlValueView::Text(s@))));
    }
}

fn push_integer(v: &mut Vec<(usize, SqlValue)>, n: usize, x: i64)
    ensures
        params_view(final(v)@) == params_view(old(v)@).push((n as int, SqlValueView::Integer(x))),
{
    v.push((n, SqlValue::Integer(x)));
    proof {
        let f = |p: (usize, SqlValue)| (p.0 as int, p.1@);
        assert(final(v)@.map_values(f) =~= old(v)@.map_values(f).push((n as int, SqlValueView::Integer(x))));
    }
}

/// Whether a transaction id is among the stored ones.
fn is_duplicate(duplicates: &Vec<String>, txid: &String) -> (r: bool)
    ensures
        r == strings_view(duplicates@).contains(txid@),
{
    contains_string(duplicates, txid.as_str())
}

/// Plans how to store a submission: nothing when every transaction is
/// already stored, otherwise one multi-row insert each for the new
/// transactions, their inputs and their outputs, with numbered parameters.
pub fn plan_push(
    parsed: &Vec<(ParsedTx, String, u64)>,
    duplicates: &Vec<String>,
    req_time: i64,
    network_name: &str,
) -> (r: PushPlan)
    requires
        ({
            let f = fresh_txs(results_view(parsed@), strings_view(duplicates@));
            &&& 9 * f.len() + 9 <= usize::MAX
            &&& 3 * input_count(f) + 3 <= usize::MAX
            &&& 4 * output_count(f) + 4 <= usize::MAX
        }),
    ensures
        ({
            let f = fresh_txs(results_view(parsed@), strings_view(duplicates@));
            let req = crate::text::signed_decimal(req_time as int);
            if f.len() == 0 {
                r is AlreadyPresent
            } else {
                &&& r matches PushPlan::Insert(plan)
                &&& plan.sqltxs@ == tx_head() + union_of(tx_unit(), f.len()) + seq![';']
                &&& params_view(plan.ptx@) == tx_params(f, req, network_name@)
                &&& plan.sqlinps@ == inp_head() + union_of(inp_unit(), input_count(f)) + seq![';']
                &&& params_view(plan.pinps@) == inp_params(f)
                &&& plan.sqlouts@ == out_head() + union_of(out_unit(), output_count(f)) + seq![';']
                &&& params_view(plan.pouts@) == out_params(f)
            }
        }),
{
    let ghost pv = results_view(parsed@);
    let ghost dups = strings_view(duplicates@);
    let ghost total = fresh_txs(pv, dups);
    let req = crate::text::i64_to_decimal(req_time);
    let mut sqltxs = String::new();
    let mut sqlinps = String::new();
    let mut sqlouts = String::new();
    let mut union_tx = true;
    let mut union_inps = true;
    let mut union_outs = true;
    let mut ptx: Vec<(usize, SqlValue)> = Vec::new();
    let mut pinps: Vec<(usize, SqlValue)> = Vec::new();
    let mut pouts: Vec<(usize, SqlValue)> = Vec::new();
    let mut linenum: usize = 1;
    let mut lineinp: usize = 1;
    let mut lineout: usize = 1;
    let mut i: usize = 0;
    assert(pv.take(0) =~= Seq::<(ParsedTxView, Seq<char>, u64)>::empty());
    while i < parsed.len()
        invariant
            i <= parsed@.len(),
            pv == results_view(parsed@),
            dups == strings_view(duplicates@),
            total == fresh_txs(pv, dups),
            9 * total.len() + 9 <= usize::MAX,
            3 * input_count(total) + 3 <= usize::MAX,
            4 * output_count(total) + 4 <= usize::MAX,
            req@ == crate::text::signed_decimal(req_time as int),
            ({
                let f = fresh_txs(pv.take(i as int), dups);
                &&& union_tx == (f.len() == 0)
                &&& sqltxs@ == union_of(tx_unit(), f.len())
                &&& params_view(ptx@) == tx_params(f, req@, network_name@)
                &&& linenum == 1 + 9 * f.len()
                &&& union_inps == (input_count(f) == 0)
                &&& sqlinps@ == union_of(inp_unit(), input_count(f))
                &&& params_view(pinps@) == inp_params(f)
                &&& lineinp == 1 + 3 * input_count(f)
                &&& union_outs == (output_count(f) == 0)
                &&& sqlouts@ == union_of(out_unit(), output_count(f))
                &&& params_view(pouts@) == out_params(f)
                &&& lineout == 1 + 4 * output_count(f)
            }),
        decreases parsed@.len() - i,
    {
        let ghost f0 = fresh_txs(pv.take(i as int), dups);
        proof {
            assert(pv.take(i + 1).drop_last() =~= pv.take(i as int));
            assert(pv.take(i + 1).last() == pv[i as int]);
            lemma_counts_grow(pv, dups, i + 1, pv.len() as int);
            assert(pv.take(pv.len() as int) =~= pv);
        }
        let entry = &parsed[i];
        let p = &entry.0;
        let ghost t = pv[i as int];
        assert(t == (p@, entry.1@, entry.2));
        if is_duplicate(duplicates, &p.txid) {
            i += 1;
            continue;
        }
        let ghost f1 = f0.push(t);
        assert(f1 == fresh_txs(pv.take(i + 1), dups));
        assert(f1.drop_last() =~= f0);
        // the transaction row
        if !union_tx {
            crate::text::push_all(&mut sqltxs, " UNION ALL");
        } else {
            union_tx = false;
        }
        crate::text::push_all(&mut sqltxs, " SELECT ?, ?, ?, ?, ?, ?, ?, ?, ?");
        push_text(&mut ptx, linenum, p.txid.clone());
        push_text(&mut ptx, linenum + 1, p.wtxid.clone());
        push_text(&mut ptx, linenum + 2, p.ntxid.clone());
        push_text(&mut ptx, linenum + 3, p.raw_hex.clone());
        push_text(&mut ptx, linenum + 4, p.locktime.clone());
        push_text(&mut ptx, linenum + 5, req.clone());
        push_text(&mut ptx, linenum + 6, network_name.to_string());
        push_text(&mut ptx, linenum + 7, entry.1.clone());
        push_text(&mut ptx, linenum + 8, crate::text::u64_to_decimal(entry.2));
        linenum += 9;
        proof {
            assert(params_view(ptx@) =~= tx_params(f1, req@, network_name@));
            assert(sqltxs@ =~= union_of(tx_unit(), f1.len()));
        }
        // the input rows
        let ghost base_in = input_count(f0);
        let mut k: usize = 0;
        while k < p.inputs.len()
            invariant
                k <= p.inputs@.len(),
                t.0 == p@,
                base_in == input_count(f0),
                input_count(f1) == base_in + p.inputs@.len(),
                3 * input_count(total) + 3 <= usize::MAX,
                input_count(f1) <= input_count(total),
                union_inps == (base_in + k == 0),
                sqlinps@ == union_of(inp_unit(), (base_in + k) as nat),
                params_view(pinps@) == inp_params(f0) + input_rows(p.txid@, pairs_view(p.inputs@).take(k as int), (1 + 3 * base_in) as int),
                lineinp == 1 + 3 * (base_in + k),
            decreases p.inputs@.len() - k,
        {
            let ghost ins = pairs_view(p.inputs@);
            if !union_inps {
                crate::text::push_all(&mut sqlinps, " UNION ALL");
            } else {
                union_inps = false;
            }
            crate::text::push_all(&mut sqlinps, " SELECT ?, ?, ?");
            push_text(&mut pinps, lineinp, p.txid.clone());
            push_text(&mut pinps, lineinp + 1, p.inputs[k].0.clone());
            push_text(&mut pinps, lineinp + 2, p.inputs[k].1.clone());
            lineinp += 3;
            proof {
                assert(ins.take(k + 1).drop_last() =~= ins.take(k as int));
                assert(ins.take(k + 1).last() == (p.inputs@[k as int].0@, p.inputs@[k as int].1@));
                assert(params_view(pinps@) =~= inp_params(f0) + input_rows(p.txid@, ins.take(k + 1), (1 + 3 * base_in) as int));
                assert(sqlinps@ =~= union_of(inp_unit(), (base_in + k + 1) as nat));
            }
            k += 1;
        }
        proof {
            assert(pairs_view(p.inputs@).take(p.inputs@.len() as int) =~= pairs_view(p.inputs@));
        }
        // the output rows
        let ghost base_out = output_count(f0);
        let ghost outs_v = p@.outputs;
        let mut m: usize = 0;
        while m < p.outputs.len()
            invariant
                m <= p.outputs@.len(),
                t.0 == p@,
                outs_v == p@.outputs,
                base_out == output_count(f0),
                output_count(f1) == base_out + p.outputs@.len(),
                4 * output_count(total) + 4 <= usize::MAX,
                output_count(f1) <= output_count(total),
                union_outs == (base_out + m == 0),
                sqlouts@ == union_of(out_unit(), (base_out + m) as nat),
                params_view(pouts@) == out_params(f0) + output_rows(p.txid@, outs_v.take(m as int), (1 + 4 * base_out) as int),
                lineout == 1 + 4 * (base_out + m),
            decreases p.outputs@.len() - m,
        {
            if !union_outs {
                crate::text::push_all(&mut sqlouts, " UNION ALL");
            } else {
                union_outs = false;
            }
            crate::text::push_all(&mut sqlouts, " SELECT ?, ?, ?, ?");
            let (idx, script, amount) = (p.outputs[m].0, p.outputs[m].1.clone(), p.outputs[m].2);
            let idx_value: i64 = if (idx as u128) <= (i64::MAX as u128) { idx as i64 } else { -1 };
            let amount_value: i64 = if amount <= i64::MAX as u64 { amount as i64 } else { 0 };
            push_text(&mut pouts, lineout, p.txid.clone());
            push_integer(&mut pouts, lineout + 1, idx_value);
            push_text(&mut pouts, lineout + 2, script);
            push_integer(&mut pouts, lineout + 3, amount_value);
            lineout += 4;
            proof {
                assert(outs_v.take(m + 1).drop_last() =~= outs_v.take(m as int));
                assert(outs_v.take(m + 1).last() == outs_v[m as int]);
                assert(params_view(pouts@) =~= out_params(f0) + output_rows(p.txid@, outs_v.take(m + 1), (1 + 4 * base_out) as int));
                assert(sqlouts@ =~= union_of(out_unit(), (base_out + m + 1) as nat));
            }
            m += 1;
        }
        proof {
            assert(outs_v.take(p.outputs@.len() as int) =~= outs_v);
        }
        i += 1;
    }
    assert(pv.take(i as int) =~= pv);
    if union_tx {
        return PushPlan::AlreadyPresent;
    }
    let mut head_tx = "INSERT INTO tbl_tx (txid, wtxid, ntxid, tx, locktime, reqid, network, our_address, our_fees)".to_string();
    crate::text::push_all(&mut head_tx, sqltxs.as_str());
    crate::text::push_char(&mut head_tx, ';');
    let mut head_inp = "INSERT INTO tbl_inp (txid, in_txid, in_vout )".to_string();
    crate::text::push_all(&mut head_inp, sqlinps.as_str());
    crate::text::push_char(&mut head_inp, ';');
    let mut head_out = "INSERT INTO tbl_out (txid, vout, script_pubkey, amount )".to_string();
    crate::text::push_all(&mut head_out, sqlouts.as_str());
    crate::text::push_char(&mut head_out, ';');
    assert(head_tx@ =~= tx_head() + union_of(tx_unit(), total.len()) + seq![';']);
    assert(head_inp@ =~= inp_head() + union_of(inp_unit(), input_count(total)) + seq![';']);
    assert(head_out@ =~= out_head() + union_of(out_unit(), output_count(total)) + seq![';']);
    PushPlan::Insert(InsertPlan {
        sqltxs: head_tx,
        ptx,
        sqlinps: head_inp,
        pinps,
        sqlouts: head_out,
        pouts,
    })
}


/// The transaction-row parameters are numbered 1, 2, 3, ... without gaps,
/// nine per transaction.
pub proof fn lemma_tx_params_numbered(f: Seq<(ParsedTxView, Seq<char>, u64)>, req: Seq<char>, net: Seq<char>)
    ensures
        tx_params(f, req, net).len() == 9 * f.len(),
        forall|k: int| 0 <= k < tx_params(f, req, net).len() ==> (#[trigger] tx_params(f, req, net)[k]).0 == k + 1,
    decreases f.len(),
{
    if f.len() > 0 {
        lemma_tx_params_numbered(f.drop_last(), req, net);
        let a = tx_params(f.drop_last(), req, net);
        let row = tx_row(f.last(), 1 + 9 * (f.len() - 1), req, net);
        assert forall|k: int| 0 <= k < tx_params(f, req, net).len() implies (#[trigger] tx_params(f, req, net)[k]).0 == k + 1 by {
            if k >= a.len() {
                assert(tx_params(f, req, net)[k] == row[k - a.len()]);
            } else {
                assert(tx_params(f, req, net)[k] == a[k]);
            }
        }
    }
}

proof fn lemma_input_rows_numbered(txid: Seq<char>, ins: Seq<(Seq<char>, Seq<char>)>, start: int)
    ensures
        input_rows(txid, ins, start).len() == 3 * ins.len(),
        forall|k: int| 0 <= k < input_rows(txid, ins, start).len() ==> (#[trigger] input_rows(txid, ins, start)[k]).0 == start + k,
    decreases ins.len(),
{
    if ins.len() > 0 {
        lemma_input_rows_numbered(txid, ins.drop_last(), start);
        let a = input_rows(txid, ins.drop_last(), start);
        assert forall|k: int| 0 <= k < input_rows(txid, ins, start).len() implies (#[trigger] input_rows(txid, ins, start)[k]).0 == start + k by {
            if k < a.len() {
                assert(input_rows(txid, ins, start)[k] == a[k]);
            }
        }
    }
}

/// The input-row parameters are numbered 1, 2, 3, ... without gaps, three
/// per input.
pub proof fn lemma_inp_params_numbered(f: Seq<(ParsedTxView, Seq<char>, u64)>)
    ensures
        inp_params(f).len() == 3 * input_count(f),
        forall|k: int| 0 <= k < inp_params(f).len() ==> (#[trigger] inp_params(f)[k]).0 == k + 1,
    decreases f.len(),
{
    if f.len() > 0 {
        lemma_inp_params_numbered(f.drop_last());
        let a = inp_params(f.drop_last());
        let start = (1 + 3 * input_count(f.drop_last())) as int;
        lemma_input_rows_numbered(f.last().0.txid, f.last().0.inputs, start);
        let rows = input_rows(f.last().0.txid, f.last().0.inputs, start);
        assert forall|k: int| 0 <= k < inp_params(f).len() implies (#[trigger] inp_params(f)[k]).0 == k + 1 by {
            if k >= a.len() {
                assert(inp_params(f)[k] == rows[k - a.len()]);
            } else {
                assert(inp_params(f)[k] == a[k]);
            }
        }
    }
}

proof fn lemma_output_rows_numbered(txid: Seq<char>, outs: Seq<(int, Seq<char>, u64)>, start: int)
    ensures
        output_rows(txid, outs, start).len() == 4 * outs.len(),
        forall|k: int| 0 <= k < output_rows(txid, outs, start).len() ==> (#[trigger] output_rows(txid, outs, start)[k]).0 == start + k,
    decreases outs.len(),
{
    if outs.len() > 0 {
        lemma_output_rows_numbered(txid, outs.drop_last(), start);
        let a = output_rows(txid, outs.drop_last(), start);
        assert forall|k: int| 0 <= k < output_rows(txid, outs, start).len() implies (#[trigger] output_rows(txid, outs, start)[k]).0 == start + k by {
            if k < a.len() {
                assert(output_rows(txid, outs, start)[k] == a[k]);
            }
        }
    }
}

/// The output-row parameters are numbered 1, 2, 3, ... without gaps, four
/// per output.
pub proof fn lemma_out_params_numbered(f: Seq<(ParsedTxView, Seq<char>, u64)>)
    ensures
        out_params(f).len() == 4 * output_count(f),
        forall|k: int| 0 <= k < out_params(f).len() ==> (#[trigger] out_params(f)[k]).0 == k + 1,
    decreases f.len(),
{
    if f.len() > 0 {
        lemma_out_params_numbered(f.drop_last());
        let a = out_params(f.drop_last());
        let start = (1 + 4 * output_count(f.drop_last())) as int;
        lemma_output_rows_numbered(f.last().0.txid, f.last().0.outputs, start);
        let rows = output_rows(f.last().0.txid, f.last().0.outputs, start);
        assert forall|k: int| 0 <= k < out_params(f).len() implies (#[trigger] out_params(f)[k]).0 == k + 1 by {
            if k >= a.len() {
                assert(out_params(f)[k] == rows[k - a.len()]);
            } else {
                assert(out_params(f)[k] == a[k]);
            }
        }
    }
}

/// A transaction already stored is never stored again: every transaction
/// planned for insertion has an id outside the stored ones.
pub proof fn lemma_fresh_not_stored(p: Seq<(ParsedTxView, Seq<char>, u64)>, dups: Seq<Seq<char>>)
    ensures
        forall|k: int| 0 <= k < fresh_txs(p, dups).len() ==> !dups.contains((#[trigger] fresh_txs(p, dups)[k]).0.txid),
    decreases p.len(),
{
    if p.len() > 0 {
        lemma_fresh_not_stored(p.drop_last(), dups);
        let a = fresh_txs(p.drop_last(), dups);
        assert forall|k: int| 0 <= k < fresh_txs(p, dups).len() implies !dups.contains((#[trigger] fresh_txs(p, dups)[k]).0.txid) by {
            if k < a.len() {
                assert(fresh_txs(p, dups)[k] == a[k]);
            }
        }
    }
}

/// The executor's output that `select_ours` reports, when it reports one,
/// is among the outputs: it pays the executor with that address and amount.
proof fn lemma_select_ours_found(
    outs: Seq<(Option<Seq<char>>, u64)>,
    xpub: bool,
    our: Seq<char>,
    fee: u64,
    known: Seq<Seq<char>>,
)
    ensures
        select_ours(outs, xpub, our, fee, known).0 ==> exists|i: int|
            0 <= i < outs.len() && pays_executor(#[trigger] outs[i].0, outs[i].1, xpub, our, fee, known)
                && outs[i].0 == Some(select_ours(outs, xpub, our, fee, known).1)
                && outs[i].1 == select_ours(outs, xpub, our, fee, known).2,
    decreases outs.len(),
{
    if outs.len() > 0 {
        let o = outs.last();
        if pays_executor(o.0, o.1, xpub, our, fee, known) {
            let i = outs.len() - 1;
            assert(outs[i] == o);
        } else {
            let rest = outs.drop_last();
            lemma_select_ours_found(rest, xpub, our, fee, known);
            if select_ours(outs, xpub, our, fee, known).0 {
                let i = choose|i: int|
                    0 <= i < rest.len() && pays_executor(#[trigger] rest[i].0, rest[i].1, xpub, our, fee, known)
                        && rest[i].0 == Some(select_ours(rest, xpub, our, fee, known).1)
                        && rest[i].1 == select_ours(rest, xpub, our, fee, known).2;
                assert(outs[i] == rest[i]);
            }
        }
    }
}

/// A kept submission pays the executor: the amount recorded is at least the
/// fee, the address recorded is the configured one (for an extended key, one
/// handed out for it), and one of the transaction's outputs carries that amount.
pub open spec fn pays_our_output(
    t: (ParsedTxView, Seq<char>, u64),
    xpub: bool,
    our: Seq<char>,
    fee: u64,
    known: Seq<Seq<char>>,
) -> bool {
    &&& t.2 >= fee
    &&& (if xpub { known.contains(t.1) } else { t.1 == our })
    &&& exists|i: int| 0 <= i < t.0.outputs.len() && (#[trigger] t.0.outputs[i]).2 == t.2
}

proof fn lemma_parsed_line_pays(
    line: Seq<char>,
    network: Network,
    xpub: bool,
    our: Seq<char>,
    fee: u64,
    known: Seq<Seq<char>>,
)
    requires
        fee > 0,
        parsed_line(line, network, xpub, our, fee, known) is Some,
    ensures
        pays_our_output(parsed_line(line, network, xpub, our, fee, known)->0, xpub, our, fee, known),
{
    let raw = hex_bytes(encode_utf8(line))->0;
    let tx = decoded_transaction(raw)->0;
    let outs = output_addresses(tx, network);
    let sel = select_ours(outs, xpub, our, fee, known);
    lemma_select_ours_found(outs, xpub, our, fee, known);
    let t = parsed_line(line, network, xpub, our, fee, known)->0;
    let i = choose|i: int|
        0 <= i < outs.len() && pays_executor(#[trigger] outs[i].0, outs[i].1, xpub, our, fee, known)
            && outs[i].0 == Some(sel.1) && outs[i].1 == sel.2;
    assert(outs[i].1 == tx.outputs[i].amount);
    assert(t.0.outputs[i].2 == tx.outputs[i].amount);
}

/// Every transaction kept from a submission pays the executor, when a fee is
/// configured: it carries an output of at least the fee to the executor's
/// address (for an extended key, to an address handed out for it).
pub proof fn lemma_kept_transactions_pay_executor(
    lines: Seq<Seq<char>>,
    network: Network,
    xpub: bool,
    our: Seq<char>,
    fee: u64,
    known: Seq<Seq<char>>,
)
    requires
        fee > 0,
    ensures
        forall|k: int| 0 <= k < parse_lines(lines, network, xpub, our, fee, known).len()
            ==> pays_our_output(#[trigger] parse_lines(lines, network, xpub, our, fee, known)[k], xpub, our, fee, known),
    decreases lines.len(),
{
    if lines.len() > 0 {
        let rest = lines.drop_first();
        lemma_kept_transactions_pay_executor(rest, network, xpub, our, fee, known);
        let head = match parsed_line(lines[0], network, xpub, our, fee, known) {
            Some(t) => seq![t],
            None => Seq::empty(),
        };
        if parsed_line(lines[0], network, xpub, our, fee, known) is Some {
            lemma_parsed_line_pays(lines[0], network, xpub, our, fee, known);
        }
        let all = parse_lines(lines, network, xpub, our, fee, known);
        let tail = parse_lines(rest, network, xpub, our, fee, known);
        assert(all == head + tail);
        assert forall|k: int| 0 <= k < all.len() implies pays_our_output(#[trigger] all[k], xpub, our, fee, known) by {
            if k < head.len() {
                assert(all[k] == head[k]);
            } else {
                assert(all[k] == tail[k - head.len()]);
            }
        }
    }
}

} // verus!
