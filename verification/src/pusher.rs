//! Decisions of the block watcher: where to reach Bitcoin Core, whether the
//! ZMQ feed has stalled, what a broadcast transaction paid its miner, and
//! where to send statistics reports.

use vstd::prelude::*;
use vstd::utf8::encode_utf8;
use crate::network::Network;
use crate::text::{
    chars_of, chars_start_with, decimal, find_last, find_last_char, find_from, find_seq,
    find_seq_from, lemma_find_from, lemma_find_last, lemma_find_seq_from, parse_u16, parse_unsigned,
    starts_with, string_from_range, u64_to_decimal,
};

verus! {

// ---------------------------------------------------------------------------
// Statistics report endpoint
// ---------------------------------------------------------------------------

/// The text after the first `://` (all of it when there is none).
pub open spec fn after_scheme(s: Seq<char>) -> Seq<char> {
    let k = find_seq_from(s, "://"@, 0);
    if k < s.len() {
        s.subrange(k + 3, s.len() as int)
    } else {
        s
    }
}

/// The port used when a URL names none: 443 for `https://`, 80 otherwise.
pub open spec fn default_port(s: Seq<char>) -> u16 {
    if starts_with(s, "https://"@) {
        443
    } else {
        80
    }
}

/// What `parse_host_port` yields: the authority (up to the first `/` after
/// the scheme) split at its last `:`, the port parsed as a `u16` or the
/// scheme's default port.
pub open spec fn host_port_spec(s: Seq<char>) -> (Seq<char>, u16) {
    let rest = after_scheme(s);
    let host_part = rest.subrange(0, find_from(rest, '/', 0));
    let colon = find_last(host_part, ':');
    if colon >= 0 {
        let port_text = host_part.subrange(colon + 1, host_part.len() as int);
        (
            host_part.subrange(0, colon),
            match parse_unsigned(port_text, u16::MAX as nat) {
                Some(p) => p as u16,
                None => default_port(s),
            },
        )
    } else {
        (host_part, default_port(s))
    }
}

/// Extracts the `(host, port)` pair from a base URL like `https://host[:port]`,
/// defaulting the port to 443 for `https` and 80 otherwise.
pub fn parse_host_port(base_url: &str) -> (r: (String, u16))
    ensures
        r.0@ == host_port_spec(base_url@).0,
        r.1 == host_port_spec(base_url@).1,
{
    let v = chars_of(base_url);
    let sep = chars_of("://");
    let k = find_seq(&v, &sep, 0);
    proof {
        reveal_strlit("://");
        lemma_find_seq_from(v@, sep@, 0);
    }
    let start = if k < v.len() { k + 3 } else { 0 };
    let rest = string_from_range(&v, start, v.len());
    assert(rest@ == after_scheme(v@)) by {
        if k >= v@.len() {
            assert(v@.subrange(0, v@.len() as int) =~= v@);
        }
    }
    let rv = chars_of(rest.as_str());
    let slash = find_char_from_start(&rv, '/');
    let host_part = string_from_range(&rv, 0, slash);
    let hv = chars_of(host_part.as_str());
    let default: u16 = if chars_start_with(&v, "https://") { 443 } else { 80 };
    match find_last_char(&hv, ':') {
        Some(colon) => {
            proof {
                lemma_find_last(hv@, ':');
            }
            let host = string_from_range(&hv, 0, colon);
            let port_text = string_from_range(&hv, colon + 1, hv.len());
            let port = match parse_u16(port_text.as_str()) {
                Some(p) => p,
                None => default,
            };
            (host, port)
        },
        None => (host_part, default),
    }
}

fn find_char_from_start(v: &Vec<char>, x: char) -> (r: usize)
    ensures
        r == find_from(v@, x, 0),
        r <= v@.len(),
{
    let r = crate::text::find_char(v, x, 0);
    proof {
        lemma_find_from(v@, x, 0);
    }
    r
}

// ---------------------------------------------------------------------------
// ZMQ connection health
// ---------------------------------------------------------------------------

/// The health of the ZMQ feed; durations are in nanoseconds.
pub enum ConnectionStatus {
    Healthy,
    Warning(u128),
    Lost(u128),
}

/// Tracks ZMQ connection health to detect stalled nodes. Times are readings,
/// in nanoseconds, of a monotonic clock that the caller keeps.
pub struct ConnectionMonitor {
    pub last_message_time: u128,
    pub timeout: u128,
    pub consecutive_timeouts: u32,
    pub max_consecutive_timeouts: u32,
}

/// Time elapsed since the last message at clock reading `now` (zero if the
/// reading is earlier, as `Instant::elapsed` saturates).
pub open spec fn elapsed_since(m: ConnectionMonitor, now: u128) -> u128 {
    if now >= m.last_message_time {
        (now - m.last_message_time) as u128
    } else {
        0
    }
}

/// The monitor after one check at clock reading `now`: a check past the
/// timeout counts one more timeout, any other leaves it as it was.
pub open spec fn monitor_after_check(m: ConnectionMonitor, now: u128) -> ConnectionMonitor {
    if elapsed_since(m, now) > m.timeout {
        ConnectionMonitor { consecutive_timeouts: (m.consecutive_timeouts + 1) as u32, ..m }
    } else {
        m
    }
}

/// What a check at clock reading `now` reports: healthy within the timeout;
/// past it, a warning, or the loss of the connection once the count of
/// consecutive timeouts (this one included) reaches the limit.
pub open spec fn status_after_check(m: ConnectionMonitor, now: u128) -> ConnectionStatus {
    if elapsed_since(m, now) > m.timeout {
        if m.consecutive_timeouts + 1 >= m.max_consecutive_timeouts {
            ConnectionStatus::Lost(elapsed_since(m, now))
        } else {
            ConnectionStatus::Warning(elapsed_since(m, now))
        }
    } else {
        ConnectionStatus::Healthy
    }
}

/// The monitor after checks at each of the readings in turn.
pub open spec fn monitor_after_checks(m: ConnectionMonitor, readings: Seq<u128>) -> ConnectionMonitor
    decreases readings.len(),
{
    if readings.len() == 0 {
        m
    } else {
        monitor_after_checks(monitor_after_check(m, readings[0]), readings.drop_first())
    }
}

impl ConnectionMonitor {
    /// A monitor that has just heard from the node.
    pub fn new(timeout_secs: u64, max_timeouts: u32, now: u128) -> (m: Self)
        ensures
            m.last_message_time == now,
            m.timeout == timeout_secs as u128 * 1_000_000_000,
            m.consecutive_timeouts == 0,
            m.max_consecutive_timeouts == max_timeouts,
    {
        ConnectionMonitor {
            last_message_time: now,
            timeout: timeout_secs as u128 * 1_000_000_000u128,
            consecutive_timeouts: 0,
            max_consecutive_timeouts: max_timeouts,
        }
    }

    /// Records a message from the node.
    pub fn update(&mut self, now: u128)
        ensures
            final(self).last_message_time == now,
            final(self).consecutive_timeouts == 0,
            final(self).timeout == old(self).timeout,
            final(self).max_consecutive_timeouts == old(self).max_consecutive_timeouts,
    {
        self.last_message_time = now;
        self.consecutive_timeouts = 0;
    }

    /// Checks how long the feed has been silent: past the timeout it counts
    /// one more timeout and reports a warning, or the loss of the connection
    /// once the count reaches the limit.
    pub fn check_connection(&mut self, now: u128) -> (st: ConnectionStatus)
        requires
            elapsed_since(*old(self), now) > old(self).timeout ==> old(self).consecutive_timeouts
                < u32::MAX,
        ensures
            *final(self) == monitor_after_check(*old(self), now),
            st == status_after_check(*old(self), now),
    {
        let elapsed: u128 = if now >= self.last_message_time { now - self.last_message_time } else { 0 };
        if elapsed > self.timeout {
            self.consecutive_timeouts += 1;
            if self.consecutive_timeouts >= self.max_consecutive_timeouts {
                ConnectionStatus::Lost(elapsed)
            } else {
                ConnectionStatus::Warning(elapsed)
            }
        } else {
            ConnectionStatus::Healthy
        }
    }

    /// Starts counting afresh, as if a message had just arrived.
    pub fn reset(&mut self, now: u128)
        ensures
            final(self).consecutive_timeouts == 0,
            final(self).last_message_time == now,
            final(self).timeout == old(self).timeout,
            final(self).max_consecutive_timeouts == old(self).max_consecutive_timeouts,
    {
        self.consecutive_timeouts = 0;
        self.last_message_time = now;
    }
}

// ---------------------------------------------------------------------------
// ZMQ sequence numbers, endpoints and fees
// ---------------------------------------------------------------------------

/// The value of four bytes read as a little-endian `u32`.
pub open spec fn le_u32(b: Seq<u8>) -> nat {
    b[0] as nat + b[1] as nat * 0x100 + b[2] as nat * 0x1_0000 + b[3] as nat * 0x100_0000
}

/// Turns a 4-byte little-endian ZMQ sequence number into decimal text;
/// anything else reads `Unknown`.
pub fn seq_to_str(seq: &Vec<u8>) -> (s: String)
    ensures
        s@ == (if seq@.len() == 4 {
            decimal(le_u32(seq@))
        } else {
            "Unknown"@
        }),
{
    if seq.len() == 4 {
        let value: u64 = seq[0] as u64 + seq[1] as u64 * 0x100 + seq[2] as u64 * 0x1_0000 + seq[3] as u64
            * 0x100_0000;
        return u64_to_decimal(value);
    }
    "Unknown".to_string()
}

/// The ZMQ endpoint to subscribe to: the network's own listener unless it is
/// the loopback default, then the global listener unless that is too, and
/// otherwise the network's listener.
pub open spec fn zmq_address_spec(network_listener: Seq<char>, global_listener: Seq<char>) -> Seq<char> {
    if !starts_with(network_listener, "tcp://127.0.0.1"@) {
        network_listener
    } else if !starts_with(global_listener, "tcp://127.0.0.1"@) {
        global_listener
    } else {
        network_listener
    }
}

/// Chooses the ZMQ endpoint; any non-loopback setting wins over the default.
pub fn select_zmq_address(network_listener: &str, global_listener: &str) -> (r: String)
    ensures
        r@ == zmq_address_spec(network_listener@, global_listener@),
{
    let n = chars_of(network_listener);
    let g = chars_of(global_listener);
    if !chars_start_with(&n, "tcp://127.0.0.1") {
        network_listener.to_string()
    } else if !chars_start_with(&g, "tcp://127.0.0.1") {
        global_listener.to_string()
    } else {
        network_listener.to_string()
    }
}

/// The sum of a sequence of amounts.
pub open spec fn sum_amounts(s: Seq<u64>) -> nat
    decreases s.len(),
{
    if s.len() == 0 {
        0
    } else {
        sum_amounts(s.drop_last()) + s.last() as nat
    }
}

/// The miner fee of a transaction from the values of the outputs it spends
/// and of the outputs it creates: their difference, when the inputs are worth
/// more than the outputs.
pub fn network_fee(input_values: &Vec<u64>, output_values: &Vec<u64>) -> (r: Option<u64>)
    requires
        sum_amounts(input_values@) <= u64::MAX,
        sum_amounts(output_values@) <= u64::MAX,
    ensures
        r == (if sum_amounts(input_values@) > sum_amounts(output_values@) {
            Some((sum_amounts(input_values@) - sum_amounts(output_values@)) as u64)
        } else {
            None::<u64>
        }),
{
    let total_input = sum_values(input_values);
    let total_output = sum_values(output_values);
    if total_input > total_output {
        Some(total_input - total_output)
    } else {
        None
    }
}

proof fn lemma_sum_prefix_bounded(s: Seq<u64>, i: int)
    requires
        0 <= i <= s.len(),
    ensures
        sum_amounts(s.take(i)) <= sum_amounts(s),
    decreases s.len() - i,
{
    if i < s.len() {
        lemma_sum_prefix_bounded(s, i + 1);
        assert(s.take(i + 1).drop_last() =~= s.take(i));
    } else {
        assert(s.take(i) =~= s);
    }
}

fn sum_values(v: &Vec<u64>) -> (r: u64)
    requires
        sum_amounts(v@) <= u64::MAX,
    ensures
        r == sum_amounts(v@),
{
    let mut total: u64 = 0;
    let mut i: usize = 0;
    while i < v.len()
        invariant
            i <= v@.len(),
            sum_amounts(v@) <= u64::MAX,
            total == sum_amounts(v@.take(i as int)),
        decreases v@.len() - i,
    {
        proof {
            lemma_sum_prefix_bounded(v@, i + 1);
            assert(v@.take(i + 1).drop_last() =~= v@.take(i as int));
        }
        total = total + v[i];
        i += 1;
    }
    assert(v@.take(i as int) =~= v@);
    total
}

// ---------------------------------------------------------------------------
// Bitcoin Core connection defaults
// ---------------------------------------------------------------------------

/// How to reach the Bitcoin Core node of one network.
pub struct NetworkParams {
    pub host: String,
    pub port: u16,
    pub dir_path: String,
    pub db_field: String,
    pub cookie_file: String,
    pub rpc_user: String,
    pub rpc_pass: String,
    pub zmq_listener: String,
}

/// The default RPC port, data subdirectory, database name and ZMQ endpoint of
/// each network (the node is expected on 127.0.0.1, without credentials).
pub open spec fn default_params(n: Network) -> (u16, Seq<char>, Seq<char>, Seq<char>) {
    match n {
        Network::Testnet => (18332, "testnet3/"@, "testnet"@, "tcp://127.0.0.1:23332"@),
        Network::Testnet4 => (18332, "testnet4/"@, "testnet4"@, "tcp://127.0.0.1:24332"@),
        Network::Signet => (18332, "signet/"@, "signet"@, "tcp://127.0.0.1:22332"@),
        Network::Regtest => (18443, "regtest/"@, "regtest"@, "tcp://127.0.0.1:21332"@),
        Network::Bitcoin => (8332, ""@, "bitcoin"@, "tcp://127.0.0.1:28332"@),
    }
}

/// Builds the default connection parameters for a network.
pub fn get_network_params_default(network: Network) -> (p: NetworkParams)
    ensures
        p.host@ == "http://127.0.0.1"@,
        p.port == default_params(network).0,
        p.dir_path@ == default_params(network).1,
        p.db_field@ == default_params(network).2,
        p.zmq_listener@ == default_params(network).3,
        p.cookie_file@ == Seq::<char>::empty(),
        p.rpc_user@ == Seq::<char>::empty(),
        p.rpc_pass@ == Seq::<char>::empty(),
{
    let (port, dir_path, db_field, zmq_listener) = match network {
        Network::Testnet => (18332u16, "testnet3/", "testnet", "tcp://127.0.0.1:23332"),
        Network::Testnet4 => (18332u16, "testnet4/", "testnet4", "tcp://127.0.0.1:24332"),
        Network::Signet => (18332u16, "signet/", "signet", "tcp://127.0.0.1:22332"),
        Network::Regtest => (18443u16, "regtest/", "regtest", "tcp://127.0.0.1:21332"),
        Network::Bitcoin => (8332u16, "", "bitcoin", "tcp://127.0.0.1:28332"),
    };
    NetworkParams {
        host: "http://127.0.0.1".to_string(),
        port,
        dir_path: dir_path.to_string(),
        db_field: db_field.to_string(),
        cookie_file: String::new(),
        rpc_user: String::new(),
        rpc_pass: String::new(),
        zmq_listener: zmq_listener.to_string(),
    }
}

/// The port that a `BAL_PUSHER_<CHAIN>_PORT` setting gives, if it is a
/// decimal number (a number above 65535 is refused by the caller, which stops).
pub fn port_setting(value: &str) -> (r: Option<u16>)
    requires
        parse_unsigned(value@, u64::MAX as nat) matches Some(n) ==> n <= u16::MAX,
    ensures
        r == (match parse_unsigned(value@, u64::MAX as nat) {
            Some(n) => Some(n as u16),
            None => None::<u16>,
        }),
{
    match crate::text::parse_u64(value) {
        Some(n) => Some(n as u16),
        None => None,
    }
}


// ---------------------------------------------------------------------------
// Statements and texts of a watcher round
// ---------------------------------------------------------------------------

/// Text values joined by `sep`.
pub open spec fn joined(items: Seq<Seq<char>>, sep: Seq<char>) -> Seq<char>
    decreases items.len(),
{
    if items.len() == 0 {
        Seq::empty()
    } else if items.len() == 1 {
        items[0]
    } else {
        joined(items.drop_last(), sep) + sep + items.last()
    }
}

/// Marks the broadcast transactions as sent (status 1).
pub fn pushed_status_sql(txids: &Vec<String>) -> (r: String)
    ensures
        r@ == "UPDATE tbl_tx SET status = 1 WHERE txid in ('"@ + joined(
            txids@.map_values(|t: String| t@),
            "','"@,
        ) + "');"@,
{
    let ghost tv = txids@.map_values(|t: String| t@);
    let mut list = String::new();
    let mut i: usize = 0;
    while i < txids.len()
        invariant
            i <= txids@.len(),
            tv == txids@.map_values(|t: String| t@),
            list@ == joined(tv.take(i as int), "','"@),
        decreases txids@.len() - i,
    {
        if i > 0 {
            crate::text::push_all(&mut list, "','");
        }
        crate::text::push_all(&mut list, txids[i].as_str());
        proof {
            assert(tv.take(i + 1).drop_last() =~= tv.take(i as int));
            if i == 0 {
                assert(list@ =~= joined(tv.take(1), "','"@));
            }
        }
        i += 1;
    }
    assert(tv.take(i as int) =~= tv);
    let mut r = "UPDATE tbl_tx SET status = 1 WHERE txid in ('".to_string();
    crate::text::push_all(&mut r, list.as_str());
    crate::text::push_all(&mut r, "');");
    r
}

/// Marks a transaction whose broadcast failed (status 2) with the node's error.
pub fn failed_status_sql(txid: &str, txerr: &str) -> (r: String)
    ensures
        r@ == "UPDATE tbl_tx SET status = 2, push_err='"@ + txerr@ + "' WHERE txid = '"@ + txid@ + "'"@,
{
    let mut r = "UPDATE tbl_tx SET status = 2, push_err='".to_string();
    crate::text::push_all(&mut r, txerr);
    crate::text::push_all(&mut r, "' WHERE txid = '");
    crate::text::push_all(&mut r, txid);
    crate::text::push_all(&mut r, "'");
    r
}

/// Selects the sent transactions of a network, to check their confirmations.
pub fn sent_txids_sql(db_field: &str) -> (r: String)
    ensures
        r@ == "SELECT txid FROM tbl_tx WHERE status = 1 AND network = '"@ + db_field@ + "'"@,
{
    let mut r = "SELECT txid FROM tbl_tx WHERE status = 1 AND network = '".to_string();
    crate::text::push_all(&mut r, db_field);
    crate::text::push_all(&mut r, "'");
    r
}

/// Records how many confirmations a sent transaction has.
pub fn confirmations_sql(confs: i64, txid: &str) -> (r: String)
    ensures
        r@ == "UPDATE tbl_tx SET confirmations = "@ + crate::text::signed_decimal(confs as int)
            + " WHERE txid = '"@ + txid@ + "'"@,
{
    let mut r = "UPDATE tbl_tx SET confirmations = ".to_string();
    let n = crate::text::i64_to_decimal(confs);
    crate::text::push_all(&mut r, n.as_str());
    crate::text::push_all(&mut r, " WHERE txid = '");
    crate::text::push_all(&mut r, txid);
    crate::text::push_all(&mut r, "'");
    r
}

/// Marks a sent transaction that is neither mined nor in the mempool as
/// double-spent (status 2, confirmations -1).
pub fn double_spent_sql(txid: &str) -> (r: String)
    ensures
        r@ == "UPDATE tbl_tx SET status = 2, confirmations = -1, push_err = 'double-spent: tx evicted from mempool' WHERE txid = '"@
            + txid@ + "'"@,
{
    let mut r = "UPDATE tbl_tx SET status = 2, confirmations = -1, push_err = 'double-spent: tx evicted from mempool' WHERE txid = '".to_string();
    crate::text::push_all(&mut r, txid);
    crate::text::push_all(&mut r, "'");
    r
}

/// `s` with every `'` doubled, as SQL string literals need.
pub open spec fn sql_quote_doubled(s: Seq<char>) -> Seq<char>
    decreases s.len(),
{
    if s.len() == 0 {
        Seq::empty()
    } else {
        sql_quote_doubled(s.drop_last()) + (if s.last() == '\'' { seq!['\'', '\''] } else { seq![s.last()] })
    }
}

/// The pieces of the statement that recomputes a chain's statistics, between
/// which the chain name is written.
pub open spec fn stats_sql_pieces() -> Seq<Seq<char>> {
    seq![
        "INSERT INTO tbl_stats (\n  report_date, chain, totals, waiting, sent, failed,\n  waiting_profit, sent_profit, missed_profit, unique_inputs\n)\nVALUES (\n  CURRENT_TIMESTAMP,\n  '"@,
        "',\n  (SELECT COUNT(*) FROM tbl_tx WHERE network = '"@,
        "'),\n  (SELECT COUNT(*) FROM tbl_tx WHERE status = 0 AND (locktime < 500000000 OR locktime > CAST(strftime('%s','now') AS INTEGER)) AND network = '"@,
        "'),\n  (SELECT COUNT(*) FROM tbl_tx WHERE status = 1 AND network = '"@,
        "'),\n  (SELECT COUNT(*) FROM tbl_tx WHERE status = 2 AND network = '"@,
        "'),\n  (SELECT IFNULL(SUM(our_fees),0) FROM tbl_tx WHERE status = 0 AND (locktime < 500000000 OR locktime > CAST(strftime('%s','now') AS INTEGER)) AND network = '"@,
        "'),\n  (SELECT IFNULL(SUM(our_fees),0) FROM tbl_tx WHERE status = 1 AND network = '"@,
        "'),\n  (SELECT IFNULL(SUM(our_fees),0) FROM tbl_tx WHERE status = 2 AND network = '"@,
        "'),\n  (SELECT COUNT(DISTINCT tbl_inp.in_txid)\n     FROM tbl_inp\n     JOIN tbl_tx ON tbl_inp.txid = tbl_tx.txid\n     WHERE tbl_tx.status = 0 AND (tbl_tx.locktime < 500000000 OR tbl_tx.locktime > CAST(strftime('%s','now') AS INTEGER)) AND tbl_tx.network = '"@,
        "')\n)\nON CONFLICT(chain) DO UPDATE SET\n  report_date = excluded.report_date,\n  totals = excluded.totals,\n  waiting = excluded.waiting,\n  sent = excluded.sent,\n  failed = excluded.failed,\n  waiting_profit = excluded.waiting_profit,\n  sent_profit = excluded.sent_profit,\n  missed_profit = excluded.missed_profit,\n  unique_inputs = excluded.unique_inputs;\n  "@,
    ]
}

fn stats_sql_piece(i: usize) -> (p: &'static str)
    requires
        i < 10,
    ensures
        p@ == stats_sql_pieces()[i as int],
{
    if i == 0 {
        "INSERT INTO tbl_stats (\n  report_date, chain, totals, waiting, sent, failed,\n  waiting_profit, sent_profit, missed_profit, unique_inputs\n)\nVALUES (\n  CURRENT_TIMESTAMP,\n  '"
    } else if i == 1 {
        "',\n  (SELECT COUNT(*) FROM tbl_tx WHERE network = '"
    } else if i == 2 {
        "'),\n  (SELECT COUNT(*) FROM tbl_tx WHERE status = 0 AND (locktime < 500000000 OR locktime > CAST(strftime('%s','now') AS INTEGER)) AND network = '"
    } else if i == 3 {
        "'),\n  (SELECT COUNT(*) FROM tbl_tx WHERE status = 1 AND network = '"
    } else if i == 4 {
        "'),\n  (SELECT COUNT(*) FROM tbl_tx WHERE status = 2 AND network = '"
    } else if i == 5 {
        "'),\n  (SELECT IFNULL(SUM(our_fees),0) FROM tbl_tx WHERE status = 0 AND (locktime < 500000000 OR locktime > CAST(strftime('%s','now') AS INTEGER)) AND network = '"
    } else if i == 6 {
        "'),\n  (SELECT IFNULL(SUM(our_fees),0) FROM tbl_tx WHERE status = 1 AND network = '"
    } else if i == 7 {
        "'),\n  (SELECT IFNULL(SUM(our_fees),0) FROM tbl_tx WHERE status = 2 AND network = '"
    } else if i == 8 {
        "'),\n  (SELECT COUNT(DISTINCT tbl_inp.in_txid)\n     FROM tbl_inp\n     JOIN tbl_tx ON tbl_inp.txid = tbl_tx.txid\n     WHERE tbl_tx.status = 0 AND (tbl_tx.locktime < 500000000 OR tbl_tx.locktime > CAST(strftime('%s','now') AS INTEGER)) AND tbl_tx.network = '"
    } else {
        "')\n)\nON CONFLICT(chain) DO UPDATE SET\n  report_date = excluded.report_date,\n  totals = excluded.totals,\n  waiting = excluded.waiting,\n  sent = excluded.sent,\n  failed = excluded.failed,\n  waiting_profit = excluded.waiting_profit,\n  sent_profit = excluded.sent_profit,\n  missed_profit = excluded.missed_profit,\n  unique_inputs = excluded.unique_inputs;\n  "
    }
}

/// The statement that recomputes the statistics of a chain (totals, waiting,
/// sent and failed counts and profits, distinct spent inputs) and stores them
/// in its row of `tbl_stats`; the chain name is written into the text.
pub fn stats_upsert_sql(chain: &str) -> (r: String)
    ensures
        r@ == joined(stats_sql_pieces(), chain@),
{
    let mut r = String::new();
    let mut i: usize = 0;
    while i < 10
        invariant
            i <= 10,
            stats_sql_pieces().len() == 10,
            i == 0 ==> r@ == Seq::<char>::empty(),
            i > 0 ==> r@ == joined(stats_sql_pieces().take(i as int), chain@),
        decreases 10 - i,
    {
        let ghost pieces = stats_sql_pieces();
        if i > 0 {
            crate::text::push_all(&mut r, chain);
        }
        crate::text::push_all(&mut r, stats_sql_piece(i));
        proof {
            assert(pieces.take(i + 1).drop_last() =~= pieces.take(i as int));
            assert(pieces.take(i + 1).last() == pieces[i as int]);
            if i == 0 {
                assert(r@ =~= joined(pieces.take(1), chain@));
            }
        }
        i += 1;
    }
    assert(stats_sql_pieces().take(10) =~= stats_sql_pieces());
    r
}

/// What the node reports of a transaction already broadcast.
pub enum SentTxState {
    /// Known to the node's transaction index, with its confirmations if reported.
    Known(Option<u32>),
    /// Not indexed yet, but waiting in the mempool.
    InMempool,
    /// Neither indexed nor in the mempool.
    Missing,
}

/// The statement that records a sent transaction's state: its confirmations
/// (0 when the node reports none), nothing while it waits in the mempool,
/// and a double spend when the node no longer knows it.
pub fn sent_tx_update(txid: &str, state: SentTxState) -> (r: Option<String>)
    ensures
        match state {
            SentTxState::Known(c) => r matches Some(s) && s@ == "UPDATE tbl_tx SET confirmations = "@
                + crate::text::signed_decimal(match c {
                Some(n) => n as int,
                None => 0,
            }) + " WHERE txid = '"@ + txid@ + "'"@,
            SentTxState::InMempool => r is None,
            SentTxState::Missing => r matches Some(s) && s@ == "UPDATE tbl_tx SET status = 2, confirmations = -1, push_err = 'double-spent: tx evicted from mempool' WHERE txid = '"@
                + txid@ + "'"@,
        },
{
    match state {
        SentTxState::Known(c) => {
            let confs: i64 = match c {
                Some(n) => n as i64,
                None => 0,
            };
            Some(confirmations_sql(confs, txid))
        },
        SentTxState::InMempool => None,
        SentTxState::Missing => Some(double_spent_sql(txid)),
    }
}

/// The statement that writes a consistent copy of the database to `path`.
pub fn vacuum_into_sql(path: &str) -> (r: String)
    ensures
        r@ == "VACUUM INTO '"@ + sql_quote_doubled(path@) + "'"@,
{
    let v = chars_of(path);
    let mut r = "VACUUM INTO '".to_string();
    let ghost start = r@;
    let mut i: usize = 0;
    while i < v.len()
        invariant
            i <= v@.len(),
            v@ == path@,
            r@ == start + sql_quote_doubled(v@.take(i as int)),
        decreases v@.len() - i,
    {
        crate::text::push_char(&mut r, v[i]);
        if v[i] == '\'' {
            crate::text::push_char(&mut r, '\'');
        }
        proof {
            assert(v@.take(i + 1).drop_last() =~= v@.take(i as int));
            assert(r@ =~= start + sql_quote_doubled(v@.take(i + 1)));
        }
        i += 1;
    }
    assert(v@.take(i as int) =~= v@);
    crate::text::push_char(&mut r, '\'');
    proof {
        reveal_strlit("'");
        assert(r@ =~= "VACUUM INTO '"@ + sql_quote_doubled(path@) + "'"@);
    }
    r
}

/// The file name of the weekly backup taken on a date written `YYYYMMDD`.
pub fn weekly_backup_name(date: &str) -> (r: String)
    ensures
        r@ == "bal-"@ + date@ + ".db"@,
{
    let mut r = "bal-".to_string();
    crate::text::push_all(&mut r, date);
    crate::text::push_all(&mut r, ".db");
    r
}

/// The RPC cookie file of a node: the configured one, or
/// `<home>/.bitcoin/<dir_path>.cookie`; without a home directory there is none.
pub fn get_cookie_filename(network: &NetworkParams, home: Option<&str>) -> (r: Result<String, String>)
    ensures
        network.cookie_file@.len() > 0 ==> (r matches Ok(s) && s@ == network.cookie_file@),
        network.cookie_file@.len() == 0 ==> match home {
            Some(h) => r matches Ok(s) && s@ == h@ + "/.bitcoin/"@ + network.dir_path@ + ".cookie"@,
            None => r matches Err(e) && e@ == "Please Set HOME environment variable"@,
        },
{
    if !network.cookie_file.as_str().is_empty() {
        return Ok(network.cookie_file.clone());
    }
    match home {
        Some(h) => {
            let mut s = h.to_string();
            crate::text::push_all(&mut s, "/.bitcoin/");
            crate::text::push_all(&mut s, network.dir_path.as_str());
            crate::text::push_all(&mut s, ".cookie");
            Ok(s)
        },
        None => Err("Please Set HOME environment variable".to_string()),
    }
}

/// The RPC endpoint of a node, `<host>:<port>/`.
pub fn rpc_url(network: &NetworkParams) -> (r: String)
    ensures
        r@ == network.host@ + ":"@ + decimal(network.port as nat) + "/"@,
{
    let mut s = network.host.clone();
    crate::text::push_all(&mut s, ":");
    let p = u64_to_decimal(network.port as u64);
    crate::text::push_all(&mut s, p.as_str());
    crate::text::push_all(&mut s, "/");
    s
}

/// The text signed in a statistics report: this server's URL, the chain, the
/// block height, the median time past and the best block hash, run together.
pub fn stats_message(url: &str, chain: &str, blocks: u64, median_time: u64, best_block_hash: &str) -> (r: String)
    ensures
        r@ == url@ + chain@ + decimal(blocks as nat) + decimal(median_time as nat) + best_block_hash@,
{
    let mut s = url.to_string();
    crate::text::push_all(&mut s, chain);
    let b = u64_to_decimal(blocks);
    crate::text::push_all(&mut s, b.as_str());
    let m = u64_to_decimal(median_time);
    crate::text::push_all(&mut s, m.as_str());
    crate::text::push_all(&mut s, best_block_hash);
    s
}


// ---------------------------------------------------------------------------
// Which waiting transactions are broadcast
// ---------------------------------------------------------------------------

/// Lock times below this value are block heights; from it on they are Unix
/// times (Bitcoin's consensus rule).
pub const LOCKTIME_THRESHOLD: i64 = 500_000_000;

/// Whether a waiting transaction's lock time has passed, given the chain's
/// block height and median time past: a lock time below the threshold is a
/// block height and has passed once it is below the chain's height; one at
/// or above the threshold is a Unix time and has passed once it is before
/// the median time past.
pub open spec fn lock_time_passed(locktime: int, height: int, median_time: int) -> bool {
    if locktime < LOCKTIME_THRESHOLD {
        locktime < height
    } else {
        locktime < median_time
    }
}

/// Whether a waiting transaction is due for broadcast at the node's current
/// block height and median time past.
pub fn is_due(locktime: i64, blocks: u64, median_time: u64) -> (r: bool)
    ensures
        r == lock_time_passed(locktime as int, blocks as int, median_time as int),
{
    if locktime < LOCKTIME_THRESHOLD {
        locktime < 0 || (locktime as u64) < blocks
    } else {
        (locktime as u64) < median_time
    }
}

/// Once due, always due: as the chain grows (its height and median time past
/// never go back), a transaction whose lock time has passed stays due.
pub proof fn lemma_due_stays_due(locktime: int, height: int, median_time: int, later_height: int, later_time: int)
    requires
        lock_time_passed(locktime, height, median_time),
        height <= later_height,
        median_time <= later_time,
    ensures
        lock_time_passed(locktime, later_height, later_time),
{
}

/// A lock time that is a block height is released by the height alone: the
/// clock never makes it due, and it is due exactly once the chain has grown
/// past it.
pub proof fn lemma_height_lock_waits_for_height(locktime: int, height: int, median_time: int)
    requires
        locktime < LOCKTIME_THRESHOLD,
    ensures
        lock_time_passed(locktime, height, median_time) == (locktime < height),
{
}

/// A lock time that is a Unix time (the threshold itself included) is
/// released by the median time past alone, whatever the height.
pub proof fn lemma_time_lock_waits_for_time(locktime: int, height: int, median_time: int)
    requires
        locktime >= LOCKTIME_THRESHOLD,
    ensures
        lock_time_passed(locktime, height, median_time) == (locktime < median_time),
{
}

/// Whether the weekly backup is due on a day of the week numbered as
/// `chrono` writes `%u` (Monday is `1`): backups are taken on Sundays.
pub fn weekly_backup_due(weekday: &str) -> (r: bool)
    ensures
        r == (weekday@ == "7"@),
{
    crate::text::str_eq(weekday, "7")
}

// ---------------------------------------------------------------------------
// Signed statistics reports
// ---------------------------------------------------------------------------

/// The character of the standard base64 alphabet (`A`-`Z`, `a`-`z`,
/// `0`-`9`, `+`, `/`) for a six-bit value.
pub open spec fn base64_char(v: u8) -> char {
    if v < 26 {
        (65 + v) as char
    } else if v < 52 {
        (97 + (v - 26)) as char
    } else if v < 62 {
        (48 + (v - 52)) as char
    } else if v == 62 {
        '+'
    } else {
        '/'
    }
}

/// Standard base64 with padding (RFC 4648): every three bytes become four
/// characters, six bits each, high bits first; a final one or two bytes are
/// padded with `=` to four characters.
pub open spec fn base64_spec(d: Seq<u8>) -> Seq<char>
    decreases d.len(),
{
    if d.len() == 0 {
        Seq::empty()
    } else if d.len() == 1 {
        seq![base64_char(d[0] >> 2u8), base64_char((d[0] & 3u8) << 4u8), '=', '=']
    } else if d.len() == 2 {
        seq![
            base64_char(d[0] >> 2u8),
            base64_char(((d[0] & 3u8) << 4u8) | (d[1] >> 4u8)),
            base64_char((d[1] & 15u8) << 2u8),
            '=',
        ]
    } else {
        seq![
            base64_char(d[0] >> 2u8),
            base64_char(((d[0] & 3u8) << 4u8) | (d[1] >> 4u8)),
            base64_char(((d[1] & 15u8) << 2u8) | (d[2] >> 6u8)),
            base64_char(d[2] & 63u8),
        ] + base64_spec(d.subrange(3, d.len() as int))
    }
}

/// Base64 encoding (`base64::engine::general_purpose::STANDARD.encode`).
/// Claims: the standard alphabet with padding, as `base64_spec` states it.
#[verifier::external_body]
fn base64_encode(data: &[u8]) -> (r: String)
    ensures
        r@ == base64_spec(data@),
{
    base64::Engine::encode(&base64::engine::general_purpose::STANDARD, data)
}

/// The signatures that signing `message` with the private key written in
/// `key_pem` can give: none when the key cannot be read or cannot sign,
/// exactly one for a deterministic scheme such as Ed25519, and possibly
/// several for a scheme that draws random numbers. Which of them comes out
/// may vary; whether one comes out depends on the key and the message alone.
pub uninterp spec fn pem_signatures(key_pem: Seq<u8>, message: Seq<u8>) -> Set<Seq<u8>>;

/// Reads a private key from PEM (`openssl::pkey::PKey::private_key_from_pem`)
/// and signs the message with it, without a digest
/// (`Signer::new_without_digest`, `sign_oneshot_to_vec`), as Ed25519 keys are
/// used. Claims: it returns a signature exactly when the key and message admit
/// one, and what it returns is one of them. Which bytes a signature holds is
/// left to the name `pem_signatures` (it depends on the key type).
#[verifier::external_body]
fn sign_with_pem_key(key_pem: &[u8], message: &[u8]) -> (r: Option<Vec<u8>>)
    ensures
        r is Some <==> exists|sig: Seq<u8>| #[trigger] pem_signatures(key_pem@, message@).contains(sig),
        r matches Some(sig) ==> pem_signatures(key_pem@, message@).contains(sig@),
{
    let key = openssl::pkey::PKey::private_key_from_pem(key_pem).ok()?;
    let mut signer = openssl::sign::Signer::new_without_digest(&key).ok()?;
    signer.sign_oneshot_to_vec(message).ok()
}

/// The text form of a report signature: its base64 encoding.
pub fn encode_signature(sig: &[u8]) -> (r: String)
    ensures
        r@ == base64_spec(sig@),
{
    base64_encode(sig)
}

/// Signs the text of a statistics report (its UTF-8 bytes) with the
/// server's private key (given as PEM) and returns the signature in base64;
/// nothing when the key cannot be read or used. With a key whose scheme is
/// deterministic (Ed25519) the result is that one signature, so equal inputs
/// give equal results.
pub fn sign_message(key_pem: &[u8], message: &str) -> (r: Option<String>)
    ensures
        r is Some <==> exists|sig: Seq<u8>|
            #[trigger] pem_signatures(key_pem@, encode_utf8(message@)).contains(sig),
        r matches Some(s) ==> exists|sig: Seq<u8>|
            pem_signatures(key_pem@, encode_utf8(message@)).contains(sig) && s@ == #[trigger] base64_spec(sig),
        pem_signatures(key_pem@, encode_utf8(message@)).is_singleton() ==> (r matches Some(s)
            && s@ == base64_spec(pem_signatures(key_pem@, encode_utf8(message@)).choose())),
{
    match sign_with_pem_key(key_pem, message.as_bytes()) {
        Some(sig) => {
            let r = encode_signature(sig.as_slice());
            proof {
                let sigs = pem_signatures(key_pem@, encode_utf8(message@));
                if sigs.is_singleton() {
                    assert(sigs.contains(sigs.choose()));
                    assert(sig@ == sigs.choose());
                }
            }
            Some(r)
        },
        None => {
            // No signature came back, so the set is empty and not a singleton.
            proof {
                let sigs = pem_signatures(key_pem@, encode_utf8(message@));
                if sigs.is_singleton() {
                    assert(sigs.contains(sigs.choose()));
                }
            }
            None
        },
    }
}

/// Whether a ZMQ message's topic announces a new block (`hashblock`).
pub fn is_block_notification(topic: &[u8]) -> (r: bool)
    ensures
        r == (topic@ == seq![0x68u8, 0x61, 0x73, 0x68, 0x62, 0x6c, 0x6f, 0x63, 0x6b]),
{
    let expected: [u8; 9] = [0x68u8, 0x61, 0x73, 0x68, 0x62, 0x6c, 0x6f, 0x63, 0x6b];
    if topic.len() != 9 {
        return false;
    }
    let mut i: usize = 0;
    while i < 9
        invariant
            i <= 9,
            topic@.len() == 9,
            expected@ == seq![0x68u8, 0x61, 0x73, 0x68, 0x62, 0x6c, 0x6f, 0x63, 0x6b],
            forall|k: int| 0 <= k < i ==> topic@[k] == expected@[k],
        decreases 9 - i,
    {
        if topic[i] != expected[i] {
            return false;
        }
        i += 1;
    }
    assert(topic@ =~= expected@);
    true
}

/// How the watcher authenticates with a node, in the order the methods are
/// tried until one succeeds.
#[derive(Clone, Copy, Debug, PartialEq, Eq, Structural)]
pub enum AuthMethod {
    /// The RPC cookie file.
    Cookie,
    /// The configured RPC user and password.
    UserPass,
}

/// The methods tried in turn: the cookie first when its file is there, then
/// user and password, and the cookie as a last resort.
pub open spec fn auth_plan_spec(cookie_available: bool) -> Seq<AuthMethod> {
    if cookie_available {
        seq![AuthMethod::Cookie, AuthMethod::UserPass, AuthMethod::Cookie]
    } else {
        seq![AuthMethod::UserPass, AuthMethod::Cookie]
    }
}

/// The order in which to try the authentication methods.
pub fn auth_plan(cookie_available: bool) -> (r: Vec<AuthMethod>)
    ensures
        r@ == auth_plan_spec(cookie_available),
{
    let mut r: Vec<AuthMethod> = Vec::new();
    if cookie_available {
        r.push(AuthMethod::Cookie);
    }
    r.push(AuthMethod::UserPass);
    r.push(AuthMethod::Cookie);
    assert(r@ =~= auth_plan_spec(cookie_available));
    r
}

/// The error reported when every authentication method failed.
pub fn auth_failure_message(user_err: &str, cookie_err: &str) -> (r: String)
    ensures
        r@ == "all auth methods failed (user/pass: "@ + user_err@ + " | cookie: "@ + cookie_err@ + ")"@,
{
    let mut r = "all auth methods failed (user/pass: ".to_string();
    crate::text::push_all(&mut r, user_err);
    crate::text::push_all(&mut r, " | cookie: ");
    crate::text::push_all(&mut r, cookie_err);
    crate::text::push_all(&mut r, ")");
    r
}

// ---------------------------------------------------------------------------
// Watcher configuration
// ---------------------------------------------------------------------------

/// The watcher's settings: the global ZMQ endpoint, the database, the nodes
/// of every network, and where and how statistics are reported.
pub struct PusherConfig {
    pub zmq_listener: String,
    pub db_file: String,
    pub bitcoin_dir: String,
    pub regtest: NetworkParams,
    pub testnet: NetworkParams,
    pub testnet4: NetworkParams,
    pub signet: NetworkParams,
    pub mainnet: NetworkParams,
    pub send_stats: bool,
    pub url: String,
    pub ssl_key_path: String,
}

/// The node settings of a network.
pub open spec fn params_for(cfg: PusherConfig, network: Network) -> NetworkParams {
    match network {
        Network::Testnet => cfg.testnet,
        Network::Testnet4 => cfg.testnet4,
        Network::Signet => cfg.signet,
        Network::Regtest => cfg.regtest,
        Network::Bitcoin => cfg.mainnet,
    }
}

/// The node settings of the watched network.
pub fn get_network_params(cfg: &PusherConfig, network: Network) -> (p: &NetworkParams)
    ensures
        *p == params_for(*cfg, network),
{
    match network {
        Network::Testnet => &cfg.testnet,
        Network::Testnet4 => &cfg.testnet4,
        Network::Signet => &cfg.signet,
        Network::Regtest => &cfg.regtest,
        Network::Bitcoin => &cfg.mainnet,
    }
}

// ---------------------------------------------------------------------------
// Fees of broadcast transactions
// ---------------------------------------------------------------------------

/// Hex decoding (`hex::decode`). Claims: it succeeds exactly on an even
/// number of hex digits (of either case), and gives two digits per byte,
/// high digit first.
#[verifier::external_body]
fn hex_decode(s: &str) -> (r: Option<Vec<u8>>)
    ensures
        match crate::server::hex_bytes(encode_utf8(s@)) {
            Some(b) => r matches Some(v) && v@ == b,
            None => r is None,
        },
{
    hex::decode(s).ok()
}

/// What the miner fee of a stored transaction is computed from: the
/// outpoints it spends (transaction id, output index) and the amounts of its
/// outputs; nothing when the hex text does not decode to a transaction.
pub open spec fn fee_basis_spec(tx_hex: Seq<char>) -> Option<(Seq<(Seq<char>, Seq<char>)>, Seq<u64>)> {
    match crate::server::hex_bytes(encode_utf8(tx_hex)) {
        Some(raw) => match crate::server::decoded_transaction(raw) {
            Some(t) => Some((t.inputs, t.outputs.map_values(|o: crate::server::TxOutputView| o.amount))),
            None => None,
        },
        None => None,
    }
}

/// Decodes a stored transaction for its miner fee: the outpoints whose
/// values the node must supply, and the amounts of the outputs.
pub fn fee_basis(tx_hex: &str) -> (r: Option<(Vec<(String, String)>, Vec<u64>)>)
    ensures
        match fee_basis_spec(tx_hex@) {
            Some(b) => r matches Some(x) && crate::server::pairs_view(x.0@) == b.0 && x.1@ == b.1,
            None => r is None,
        },
{
    let raw = match hex_decode(tx_hex) {
        Some(b) => b,
        None => return None,
    };
    let tx = match crate::server::decode_transaction(raw.as_slice()) {
        Some(t) => t,
        None => return None,
    };
    let ghost outs = tx@.outputs;
    let mut amounts: Vec<u64> = Vec::new();
    let mut i: usize = 0;
    while i < tx.outputs.len()
        invariant
            i <= tx.outputs@.len(),
            outs == tx@.outputs,
            amounts@ == outs.take(i as int).map_values(|o: crate::server::TxOutputView| o.amount),
        decreases tx.outputs@.len() - i,
    {
        amounts.push(tx.outputs[i].amount);
        proof {
            let g = |o: crate::server::TxOutputView| o.amount;
            assert(outs.take(i + 1).map_values(g) =~= outs.take(i as int).map_values(g).push(outs[i as int].amount));
        }
        i += 1;
    }
    assert(outs.take(i as int) =~= outs);
    Some((tx.inputs, amounts))
}

// ---------------------------------------------------------------------------
// Weekly backups
// ---------------------------------------------------------------------------

/// Where the watcher reads the backup settings: `backup_config.json` in the
/// database's directory, joined with a `/`.
pub fn backup_config_file(db_file: &str) -> (r: String)
    ensures
        r@ == crate::umbrel_api::data_dir_spec(db_file@) + "/backup_config.json"@,
{
    let mut r = crate::umbrel_api::data_dir(db_file);
    crate::text::push_all(&mut r, "/backup_config.json");
    r
}

/// How long weekly backups are kept: twelve weeks, in nanoseconds.
pub open spec fn retention_nanos() -> int {
    7_257_600_000_000_000int
}

/// Whether a backup last modified at `modified` (nanoseconds since the Unix
/// epoch) is older than the retention period at time `now`.
pub fn backup_expired(modified: i128, now: i128) -> (r: bool)
    ensures
        r == (modified < now - retention_nanos()),
{
    let retention: i128 = 7_257_600_000_000_000;
    if now < i128::MIN + retention {
        false
    } else {
        modified < now - retention
    }
}

/// Whether `name` is the file name of a weekly backup: `bal-`, the date in
/// eight digits, `.db`.
pub open spec fn is_weekly_backup_name(name: Seq<char>) -> bool {
    &&& name.len() == 15
    &&& name.subrange(0, 4) == "bal-"@
    &&& forall|i: int| 4 <= i < 12 ==> crate::text::is_digit(#[trigger] name[i])
    &&& name.subrange(12, 15) == ".db"@
}

/// Every weekly backup named from a date of eight digits is recognised as one.
pub proof fn lemma_weekly_backup_name_recognised(date: Seq<char>)
    requires
        date.len() == 8,
        forall|i: int| 0 <= i < 8 ==> crate::text::is_digit(#[trigger] date[i]),
    ensures
        is_weekly_backup_name("bal-"@ + date + ".db"@),
{
    reveal_strlit("bal-");
    reveal_strlit(".db");
    let name = "bal-"@ + date + ".db"@;
    assert(name.subrange(0, 4) =~= "bal-"@);
    assert(name.subrange(12, 15) =~= ".db"@);
    assert forall|i: int| 4 <= i < 12 implies crate::text::is_digit(#[trigger] name[i]) by {
        assert(name[i] == date[i - 4]);
    }
}

/// Whether the file `name` in the backup directory is a weekly backup.
pub fn is_weekly_backup_file(name: &str) -> (r: bool)
    ensures
        r == is_weekly_backup_name(name@),
{
    let v = chars_of(name);
    proof {
        reveal_strlit("bal-");
        reveal_strlit(".db");
    }
    if v.len() != 15 {
        return false;
    }
    if !(v[0] == 'b' && v[1] == 'a' && v[2] == 'l' && v[3] == '-') {
        assert(v@.subrange(0, 4) != "bal-"@) by {
            if v@.subrange(0, 4) == "bal-"@ {
                assert(v@.subrange(0, 4)[0] == v@[0]);
                assert(v@.subrange(0, 4)[1] == v@[1]);
                assert(v@.subrange(0, 4)[2] == v@[2]);
                assert(v@.subrange(0, 4)[3] == v@[3]);
            }
        }
        return false;
    }
    assert(v@.subrange(0, 4) =~= "bal-"@);
    if !(v[12] == '.' && v[13] == 'd' && v[14] == 'b') {
        assert(v@.subrange(12, 15) != ".db"@) by {
            if v@.subrange(12, 15) == ".db"@ {
                assert(v@.subrange(12, 15)[0] == v@[12]);
                assert(v@.subrange(12, 15)[1] == v@[13]);
                assert(v@.subrange(12, 15)[2] == v@[14]);
            }
        }
        return false;
    }
    assert(v@.subrange(12, 15) =~= ".db"@);
    let mut i: usize = 4;
    while i < 12
        invariant
            4 <= i <= 12,
            v@ == name@,
            v.len() == 15,
            forall|j: int| 4 <= j < i ==> crate::text::is_digit(#[trigger] v@[j]),
        decreases 12 - i,
    {
        if !('0' <= v[i] && v[i] <= '9') {
            return false;
        }
        i += 1;
    }
    true
}

/// Whether the weekly backup clean-up removes the file `name`, last modified
/// at `modified`, at time `now` (both in nanoseconds since the Unix epoch):
/// only weekly backups older than the retention period go.
pub fn removes_old_backup(name: &str, modified: i128, now: i128) -> (r: bool)
    ensures
        r == (is_weekly_backup_name(name@) && modified < now - retention_nanos()),
{
    is_weekly_backup_file(name) && backup_expired(modified, now)
}

proof fn lemma_silent_checks_from(m: ConnectionMonitor, readings: Seq<u128>)
    requires
        m.consecutive_timeouts + readings.len() <= u32::MAX,
        forall|i: int| 0 <= i < readings.len() ==> elapsed_since(m, #[trigger] readings[i]) > m.timeout,
    ensures
        monitor_after_checks(m, readings).consecutive_timeouts == m.consecutive_timeouts + readings.len(),
        monitor_after_checks(m, readings).last_message_time == m.last_message_time,
        monitor_after_checks(m, readings).timeout == m.timeout,
        monitor_after_checks(m, readings).max_consecutive_timeouts == m.max_consecutive_timeouts,
    decreases readings.len(),
{
    if readings.len() > 0 {
        let m1 = monitor_after_check(m, readings[0]);
        let rest = readings.drop_first();
        assert forall|i: int| 0 <= i < rest.len() implies elapsed_since(m1, #[trigger] rest[i]) > m1.timeout by {
            assert(rest[i] == readings[i + 1]);
        }
        lemma_silent_checks_from(m1, rest);
    }
}

/// Stalls are counted check by check: from a monitor that has counted no
/// timeout, each of a run of checks that find the feed silent past the
/// timeout counts one more, and the next such check reports the connection
/// lost exactly when that makes the limit reached (a warning otherwise).
pub proof fn lemma_silent_checks_reach_limit(m: ConnectionMonitor, readings: Seq<u128>, next: u128)
    requires
        m.consecutive_timeouts == 0,
        readings.len() < u32::MAX,
        forall|i: int| 0 <= i < readings.len() ==> elapsed_since(m, #[trigger] readings[i]) > m.timeout,
        elapsed_since(m, next) > m.timeout,
    ensures
        monitor_after_checks(m, readings).consecutive_timeouts == readings.len(),
        status_after_check(monitor_after_checks(m, readings), next) == (if readings.len() + 1
            >= m.max_consecutive_timeouts {
            ConnectionStatus::Lost(elapsed_since(m, next))
        } else {
            ConnectionStatus::Warning(elapsed_since(m, next))
        }),
{
    lemma_silent_checks_from(m, readings);
}

/// After a reset (or an update) at clock reading `t`, a check at a reading
/// `now` no later than `t` plus the timeout finds the feed healthy and counts
/// nothing.
pub proof fn lemma_healthy_after_reset(m: ConnectionMonitor, t: u128, now: u128)
    requires
        m.last_message_time == t,
        m.consecutive_timeouts == 0,
        now <= t + m.timeout,
    ensures
        elapsed_since(m, now) <= m.timeout,
{
}

} // verus!
