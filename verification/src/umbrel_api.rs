//! The dashboard backend's decisions: reading query strings, building the
//! transaction-list query, locating the settings and backup files, and
//! recognising uploaded logo images.

use vstd::prelude::*;
use crate::network::Network;
use vstd::utf8::{decode_utf8, encode_utf8, encode_utf8_decode_utf8, valid_utf8};
use crate::text::{
    hex_filter_take, after_first, before_first, bytes_range, chars_of, find_char, lemma_find_from,
    lemma_find_in_subrange, range_eq, split_chars, split_from, starts_with, str_eq,
    string_from_range,
};

verus! {

// ---------------------------------------------------------------------------
// Response types
// ---------------------------------------------------------------------------

/// Per-network statistics with the dashboard's profit split.
pub struct StatsResponse {
    pub report_date: String,
    pub chain: String,
    pub totals: i64,
    pub waiting: i64,
    pub sent: i64,
    pub failed: i64,
    pub waiting_profit: i64,
    pub sent_profit: i64,
    pub missed_profit: i64,
    pub unique_inputs: i64,
    pub confirmed_profit: i64,
    pub mempool_profit: i64,
}

/// One row of the transaction list.
pub struct TxListEntry {
    pub txid: String,
    pub network: String,
    pub our_fees: String,
    pub our_address: String,
    pub status: i64,
    pub locktime: i64,
    pub date_creation: String,
    pub confirmations: i64,
}

/// A page of the transaction list with the total number of matches.
pub struct TxListResponse {
    pub total: i64,
    pub txs: Vec<TxListEntry>,
}

/// An input of a stored transaction.
pub struct InputEntry {
    pub in_txid: String,
    pub in_vout: String,
}

/// An output of a stored transaction.
pub struct OutputEntry {
    pub script_pubkey: String,
    pub amount: String,
    pub vout: String,
    pub address: String,
}

/// Everything the dashboard shows about one stored transaction.
pub struct TxDetailResponse {
    pub txid: String,
    pub network: String,
    pub our_fees: String,
    pub our_address: String,
    pub status: i64,
    pub locktime: i64,
    pub date_creation: String,
    pub date_update: String,
    pub tx: String,
    pub push_err: Option<String>,
    pub network_fees: String,
    pub total_output: String,
    pub inputs: Vec<InputEntry>,
    pub outputs: Vec<OutputEntry>,
    pub confirmations: i64,
}

// ---------------------------------------------------------------------------
// Query strings
// ---------------------------------------------------------------------------

/// The key of a `key=value` pair (all of it when there is no `=`).
pub open spec fn pair_key(pair: Seq<char>) -> Seq<char> {
    before_first(pair, '=')
}

/// The value of a `key=value` pair (empty when there is no `=`).
pub open spec fn pair_value(pair: Seq<char>) -> Seq<char> {
    match after_first(pair, '=') {
        Some(v) => v,
        None => Seq::empty(),
    }
}

/// The value of the first pair whose key is `key`.
pub open spec fn find_pair(pairs: Seq<Seq<char>>, key: Seq<char>) -> Option<Seq<char>>
    decreases pairs.len(),
{
    if pairs.len() == 0 {
        None
    } else if pair_key(pairs[0]) == key {
        Some(pair_value(pairs[0]))
    } else {
        find_pair(pairs.drop_first(), key)
    }
}

/// What `query_param` yields: the still URL-encoded value of the first `&`
/// separated pair whose key is `key`.
pub open spec fn query_param_spec(qs: Seq<char>, key: Seq<char>) -> Option<Seq<char>> {
    find_pair(split_chars(qs, '&'), key)
}

/// Reads one parameter from a raw query string (everything after `?`). The
/// value is returned still URL-encoded; a key without `=` has an empty value.
pub fn query_param(qs: &str, key: &str) -> (r: Option<String>)
    ensures
        match query_param_spec(qs@, key@) {
            Some(v) => r matches Some(s) && s@ == v,
            None => r is None,
        },
{
    let v = chars_of(qs);
    let k = chars_of(key);
    let mut i: usize = 0;
    loop
        invariant
            i <= v@.len(),
            v@ == qs@,
            k@ == key@,
            query_param_spec(qs@, key@) == find_pair(split_from(v@, '&', i as int), key@),
        decreases v@.len() - i,
    {
        let j = find_char(&v, '&', i);
        let eq = find_char(&v, '=', i);
        proof {
            lemma_find_from(v@, '&', i as int);
            lemma_find_from(v@, '=', i as int);
            lemma_find_in_subrange(v@, '=', i as int, j as int);
        }
        let ghost pair = v@.subrange(i as int, j as int);
        let key_end = if eq < j { eq } else { j };
        proof {
            assert(pair_key(pair) =~= v@.subrange(i as int, key_end as int));
            if eq < j {
                assert(pair_value(pair) =~= v@.subrange(eq + 1, j as int));
            }
        }
        proof {
            if j < v@.len() {
                assert(split_from(v@, '&', i as int) == seq![pair] + split_from(v@, '&', j + 1));
                assert((seq![pair] + split_from(v@, '&', j + 1)).drop_first() =~= split_from(v@, '&', j + 1));
            } else {
                assert(split_from(v@, '&', i as int) == seq![pair]);
                assert(seq![pair].drop_first() =~= Seq::<Seq<char>>::empty());
            }
        }
        if range_eq(&v, i, key_end, &k) {
            if eq < j {
                return Some(string_from_range(&v, eq + 1, j));
            } else {
                return Some(String::new());
            }
        }
        if j >= v.len() {
            proof {
                assert(pair_key(pair) != key@);
                assert(find_pair(seq![pair], key@) == find_pair(seq![pair].drop_first(), key@));
                assert(find_pair(Seq::<Seq<char>>::empty(), key@) is None);
            }
            return None;
        }
        i = j + 1;
    }
}

// ---------------------------------------------------------------------------
// Files next to the database
// ---------------------------------------------------------------------------

/// The parent directory of a path (`std::path::Path::parent`).
pub uninterp spec fn path_parent(p: Seq<char>) -> Option<Seq<char>>;

/// A path with a file name appended (`std::path::Path::join`).
pub uninterp spec fn path_join(base: Seq<char>, name: Seq<char>) -> Seq<char>;

/// `std::path::Path::parent`, as text. Claims: the result is the named parent.
#[verifier::external_body]
fn parent_of(p: &str) -> (r: Option<String>)
    ensures
        match r {
            Some(s) => path_parent(p@) == Some(s@),
            None => path_parent(p@) is None,
        },
{
    std::path::Path::new(p).parent().map(|q| q.to_string_lossy().into_owned())
}

/// `std::path::Path::join`, as text. Claims: the result is the named join.
#[verifier::external_body]
fn join_path(base: &str, name: &str) -> (r: String)
    ensures
        r@ == path_join(base@, name@),
{
    std::path::Path::new(base).join(name).to_string_lossy().into_owned()
}

/// The directory holding the database file (`.` when the path has no parent).
pub open spec fn data_dir_spec(db_file: Seq<char>) -> Seq<char> {
    match path_parent(db_file) {
        Some(p) => p,
        None => "."@,
    }
}

/// The directory holding the database file, where the dashboard keeps its
/// own files.
pub fn data_dir(db_file: &str) -> (r: String)
    ensures
        r@ == data_dir_spec(db_file@),
{
    match parent_of(db_file) {
        Some(p) => p,
        None => ".".to_string(),
    }
}

/// Where the dashboard settings are kept.
pub fn settings_path(db_file: &str) -> (r: String)
    ensures
        r@ == path_join(data_dir_spec(db_file@), "settings.json"@),
{
    let d = data_dir(db_file);
    join_path(d.as_str(), "settings.json")
}

/// Where an uploaded logo is kept.
pub fn logo_path(db_file: &str) -> (r: String)
    ensures
        r@ == path_join(data_dir_spec(db_file@), "custom_logo"@),
{
    let d = data_dir(db_file);
    join_path(d.as_str(), "custom_logo")
}

/// Where the backup configuration is kept.
pub fn backup_config_path(db_file: &str) -> (r: String)
    ensures
        r@ == path_join(data_dir_spec(db_file@), "backup_config.json"@),
{
    let d = data_dir(db_file);
    join_path(d.as_str(), "backup_config.json")
}

/// The backup directory: the configured one, or `backup` next to the database.
pub fn backup_dir(configured: &str, db_file: &str) -> (r: String)
    ensures
        r@ == (if configured@.len() > 0 {
            configured@
        } else {
            path_join(data_dir_spec(db_file@), "backup"@)
        }),
{
    if !configured.is_empty() {
        return configured.to_string();
    }
    let d = data_dir(db_file);
    join_path(d.as_str(), "backup")
}

// ---------------------------------------------------------------------------
// Logo images
// ---------------------------------------------------------------------------

/// Unicode `White_Space` (what `char::is_whitespace` tests).
pub open spec fn is_whitespace(c: char) -> bool {
    ||| ('\u{9}' <= c && c <= '\u{d}')
    ||| c == ' '
    ||| c == '\u{85}'
    ||| c == '\u{a0}'
    ||| c == '\u{1680}'
    ||| ('\u{2000}' <= c && c <= '\u{200a}')
    ||| c == '\u{2028}'
    ||| c == '\u{2029}'
    ||| c == '\u{202f}'
    ||| c == '\u{205f}'
    ||| c == '\u{3000}'
}

pub(crate) fn is_whitespace_exec(c: char) -> (r: bool)
    ensures
        r == is_whitespace(c),
{
    ('\u{9}' <= c && c <= '\u{d}') || c == ' ' || c == '\u{85}' || c == '\u{a0}' || c == '\u{1680}'
        || ('\u{2000}' <= c && c <= '\u{200a}') || c == '\u{2028}' || c == '\u{2029}' || c
        == '\u{202f}' || c == '\u{205f}' || c == '\u{3000}'
}

/// `s` without its leading white space (`str::trim_start`).
pub open spec fn trim_start(s: Seq<char>) -> Seq<char>
    decreases s.len(),
{
    if s.len() > 0 && is_whitespace(s[0]) {
        trim_start(s.drop_first())
    } else {
        s
    }
}

/// `s` without its trailing white space (`str::trim_end`).
pub open spec fn trim_end(s: Seq<char>) -> Seq<char>
    decreases s.len(),
{
    if s.len() > 0 && is_whitespace(s.last()) {
        trim_end(s.drop_last())
    } else {
        s
    }
}

/// `s` without leading or trailing white space (`str::trim`).
pub open spec fn trim(s: Seq<char>) -> Seq<char> {
    trim_end(trim_start(s))
}

/// Whether the first (at most) 256 bytes read as UTF-8 text that, after
/// leading white space, begins an XML declaration or an `<svg` element.
pub open spec fn looks_like_svg(d: Seq<u8>) -> bool {
    let head = d.subrange(0, if d.len() < 256 { d.len() as int } else { 256 });
    let text = if valid_utf8(head) { decode_utf8(head) } else { Seq::empty() };
    starts_with(trim_start(text), "<?xml"@) || starts_with(trim_start(text), "<svg"@)
}

/// The image format recognised from a file's first bytes: PNG and JPEG by
/// their magic numbers, WebP by its RIFF header, SVG by its opening text.
pub open spec fn image_format_spec(d: Seq<u8>) -> Option<Seq<char>> {
    if d.len() < 4 {
        None
    } else if d[0] == 0x89u8 && d[1] == 0x50u8 && d[2] == 0x4eu8 && d[3] == 0x47u8 {
        Some("png"@)
    } else if d[0] == 0xffu8 && d[1] == 0xd8u8 {
        Some("jpeg"@)
    } else if d.len() >= 12 && d[0] == 0x52u8 && d[1] == 0x49u8 && d[2] == 0x46u8 && d[3] == 0x46u8
        && d[8] == 0x57u8 && d[9] == 0x45u8 && d[10] == 0x42u8 && d[11] == 0x50u8 {
        Some("webp"@)
    } else if looks_like_svg(d) {
        Some("svg"@)
    } else {
        None
    }
}

fn starts_svg(data: &[u8]) -> (r: bool)
    ensures
        r == looks_like_svg(data@),
{
    let n = if data.len() < 256 { data.len() } else { 256 };
    let head = bytes_range(data, 0, n);
    let v = match crate::text::utf8_text(head.as_slice()) {
        Some(t) => {
            proof {
                encode_utf8_decode_utf8(t@);
            }
            chars_of(t)
        },
        None => Vec::new(),
    };
    let ghost text = v@;
    let mut i: usize = 0;
    assert(v@.subrange(0, v@.len() as int) =~= v@);
    while i < v.len() && is_whitespace_exec(v[i])
        invariant
            i <= v@.len(),
            v@ == text,
            trim_start(text) == trim_start(v@.subrange(i as int, v@.len() as int)),
        decreases v@.len() - i,
    {
        assert(v@.subrange(i as int, v@.len() as int).drop_first() =~= v@.subrange(i + 1, v@.len() as int));
        i += 1;
    }
    let rest = string_from_range(&v, i, v.len());
    let rv = chars_of(rest.as_str());
    crate::text::chars_start_with(&rv, "<?xml") || crate::text::chars_start_with(&rv, "<svg")
}

/// Recognises the format of an uploaded logo from its first bytes.
pub fn detect_image_format(data: &[u8]) -> (r: Option<&'static str>)
    ensures
        match image_format_spec(data@) {
            Some(f) => r matches Some(s) && s@ == f,
            None => r is None,
        },
{
    if data.len() < 4 {
        return None;
    }
    if data[0] == 0x89u8 && data[1] == 0x50u8 && data[2] == 0x4eu8 && data[3] == 0x47u8 {
        return Some("png");
    }
    if data[0] == 0xffu8 && data[1] == 0xd8u8 {
        return Some("jpeg");
    }
    if data.len() >= 12 && data[0] == 0x52u8 && data[1] == 0x49u8 && data[2] == 0x46u8 && data[3]
        == 0x46u8 && data[8] == 0x57u8 && data[9] == 0x45u8 && data[10] == 0x42u8 && data[11]
        == 0x50u8 {
        return Some("webp");
    }
    if starts_svg(data) {
        return Some("svg");
    }
    None
}

/// The MIME type for a recognised image format.
pub open spec fn mime_spec(fmt: Seq<char>) -> Seq<char> {
    if fmt == "png"@ {
        "image/png"@
    } else if fmt == "jpeg"@ {
        "image/jpeg"@
    } else if fmt == "webp"@ {
        "image/webp"@
    } else if fmt == "svg"@ {
        "image/svg+xml"@
    } else {
        "application/octet-stream"@
    }
}

/// The MIME type to serve a logo of the given format with.
pub fn mime_for_format(fmt: &str) -> (r: &'static str)
    ensures
        r@ == mime_spec(fmt@),
{
    if str_eq(fmt, "png") {
        "image/png"
    } else if str_eq(fmt, "jpeg") {
        "image/jpeg"
    } else if str_eq(fmt, "webp") {
        "image/webp"
    } else if str_eq(fmt, "svg") {
        "image/svg+xml"
    } else {
        "application/octet-stream"
    }
}


// ---------------------------------------------------------------------------
// Transaction list and detail requests
// ---------------------------------------------------------------------------

/// Keeps the hex digits of a user-supplied transaction id, at most 64 of them.
pub fn sanitize_hex_id(s: &str) -> (r: String)
    ensures
        r@ == hex_filter_take(s@, 64),
{
    let v = chars_of(s);
    let mut r = String::new();
    let mut i: usize = 0;
    let mut kept: usize = 0;
    proof {
        assert(v@.subrange(0, v@.len() as int) =~= v@);
    }
    while i < v.len() && kept < 64
        invariant
            i <= v@.len(),
            kept <= 64,
            v@ == s@,
            r@.len() == kept,
            hex_filter_take(s@, 64) == r@ + hex_filter_take(v@.subrange(i as int, v@.len() as int), (64 - kept) as nat),
        decreases v@.len() - i,
    {
        let c = v[i];
        let ghost rest = v@.subrange(i as int, v@.len() as int);
        assert(rest.drop_first() =~= v@.subrange(i + 1, v@.len() as int));
        if crate::text::is_hex_digit_exec(c) {
            crate::text::push_char(&mut r, c);
            kept += 1;
            assert(r@ + hex_filter_take(v@.subrange(i + 1, v@.len() as int), (64 - kept) as nat) =~= r@.drop_last() + (seq![c] + hex_filter_take(rest.drop_first(), (64 - kept) as nat)));
        }
        i += 1;
    }
    proof {
        let rest = v@.subrange(i as int, v@.len() as int);
        assert(hex_filter_take(rest, (64 - kept) as nat) =~= Seq::<char>::empty());
    }
    r
}

/// The transaction-list request read from a query string.
pub struct TxListQuery {
    pub network: Option<String>,
    pub show_failed: bool,
    pub search: String,
    pub limit: i64,
    pub offset: i64,
    pub order_expr: &'static str,
    pub dir: &'static str,
}

/// The ordering expression a `sort` parameter selects (creation date by default).
pub open spec fn order_expr_spec(sort: Option<Seq<char>>) -> Seq<char> {
    match sort {
        Some(s) => if s == "txid"@ {
            "txid"@
        } else if s == "network"@ {
            "network"@
        } else if s == "our_fees"@ {
            "CAST(our_fees AS INTEGER)"@
        } else if s == "locktime"@ {
            "locktime"@
        } else if s == "state"@ {
            "CASE WHEN status=0 THEN 0 WHEN status=1 AND confirmations>0 THEN 2 WHEN status=1 THEN 1 WHEN status=2 AND confirmations=-1 THEN 3 ELSE 4 END"@
        } else {
            "date_creation"@
        },
        None => "date_creation"@,
    }
}

/// Each whitelisted sort name orders by its own column: `txid`, `network` and
/// `locktime` by the column of that name, `our_fees` by the fee as a number,
/// `state` by the status rank; every other name, and no name at all, orders
/// by the creation date.
pub proof fn lemma_sort_orders_by_own_column(s: Seq<char>)
    ensures
        (s == "txid"@ || s == "network"@ || s == "locktime"@) ==> order_expr_spec(Some(s)) == s,
        s == "our_fees"@ ==> order_expr_spec(Some(s)) == "CAST(our_fees AS INTEGER)"@,
        s == "state"@ ==> order_expr_spec(Some(s)) == "CASE WHEN status=0 THEN 0 WHEN status=1 AND confirmations>0 THEN 2 WHEN status=1 THEN 1 WHEN status=2 AND confirmations=-1 THEN 3 ELSE 4 END"@,
        (order_expr_spec(Some(s)) == "date_creation"@) <==> !(s == "txid"@ || s == "network"@ || s == "locktime"@
            || s == "our_fees"@ || s == "state"@),
        order_expr_spec(None) == "date_creation"@,
{
    reveal_strlit("txid");
    reveal_strlit("network");
    reveal_strlit("locktime");
    reveal_strlit("our_fees");
    reveal_strlit("state");
    reveal_strlit("date_creation");
    reveal_strlit("CAST(our_fees AS INTEGER)");
    reveal_strlit("CASE WHEN status=0 THEN 0 WHEN status=1 AND confirmations>0 THEN 2 WHEN status=1 THEN 1 WHEN status=2 AND confirmations=-1 THEN 3 ELSE 4 END");
    assert("txid"@.len() == 4 && "network"@.len() == 7 && "state"@.len() == 5);
    assert("locktime"@.len() == 8 && "our_fees"@.len() == 8 && "date_creation"@.len() == 13);
    assert("locktime"@[0] != "our_fees"@[0]);
    assert("locktime"@ != "our_fees"@);
}

/// A numeric parameter: its `i64` value, or `default` when missing or malformed.
pub open spec fn int_param(v: Option<Seq<char>>, default: i64) -> int {
    match v {
        Some(t) => match crate::text::parse_i64_spec(t) {
            Some(n) => n,
            None => default as int,
        },
        None => default as int,
    }
}

/// Clamps a page size to 1..=200.
pub open spec fn clamp_limit(n: int) -> int {
    if n < 1 {
        1
    } else if n > 200 {
        200
    } else {
        n
    }
}

fn param_is(v: &Option<String>, expected: &str) -> (r: bool)
    ensures
        r == (match v {
            Some(s) => s@ == expected@,
            None => false,
        }),
{
    match v {
        Some(s) => str_eq(s.as_str(), expected),
        None => false,
    }
}

fn int_param_exec(v: &Option<String>, default: i64) -> (r: i64)
    ensures
        r as int == int_param(match v {
            Some(t) => Some(t@),
            None => None,
        }, default),
{
    match v {
        Some(t) => match crate::text::parse_i64(t.as_str()) {
            Some(n) => n,
            None => default,
        },
        None => default,
    }
}

/// Reads the transaction-list parameters: an optional non-empty network, whether
/// failed transactions are shown (`show_failed=1`), a hex search prefix of at
/// most 64 digits, a page size clamped to 1..=200 (25 by default), a
/// non-negative offset, a whitelisted ordering and a direction (descending
/// unless `dir=asc`).
pub fn txlist_query(qs: &str) -> (q: TxListQuery)
    ensures
        match query_param_spec(qs@, "network"@) {
            Some(n) => if n.len() > 0 {
                q.network matches Some(x) && x@ == n
            } else {
                q.network is None
            },
            None => q.network is None,
        },
        q.show_failed == (query_param_spec(qs@, "show_failed"@) == Some("1"@)),
        q.search@ == hex_filter_take(match query_param_spec(qs@, "search"@) {
            Some(t) => t,
            None => Seq::empty(),
        }, 64),
        q.limit as int == clamp_limit(int_param(query_param_spec(qs@, "limit"@), 25)),
        q.offset as int == (if int_param(query_param_spec(qs@, "offset"@), 0) < 0 {
            0
        } else {
            int_param(query_param_spec(qs@, "offset"@), 0)
        }),
        q.order_expr@ == order_expr_spec(query_param_spec(qs@, "sort"@)),
        q.dir@ == (if query_param_spec(qs@, "dir"@) == Some("asc"@) {
            "ASC"@
        } else {
            "DESC"@
        }),
        1 <= q.limit <= 200,
        0 <= q.offset,
{
    let network = match query_param(qs, "network") {
        Some(n) => if n.as_str().is_empty() {
            None
        } else {
            Some(n)
        },
        None => None,
    };
    let show_failed = param_is(&query_param(qs, "show_failed"), "1");
    let search_raw = match query_param(qs, "search") {
        Some(t) => t,
        None => String::new(),
    };
    let search = sanitize_hex_id(search_raw.as_str());
    let raw_limit = int_param_exec(&query_param(qs, "limit"), 25);
    let limit = if raw_limit < 1 {
        1
    } else if raw_limit > 200 {
        200
    } else {
        raw_limit
    };
    let raw_offset = int_param_exec(&query_param(qs, "offset"), 0);
    let offset = if raw_offset < 0 { 0 } else { raw_offset };
    let sort = query_param(qs, "sort");
    let order_expr = if param_is(&sort, "txid") {
        "txid"
    } else if param_is(&sort, "network") {
        "network"
    } else if param_is(&sort, "our_fees") {
        "CAST(our_fees AS INTEGER)"
    } else if param_is(&sort, "locktime") {
        "locktime"
    } else if param_is(&sort, "state") {
        "CASE WHEN status=0 THEN 0 WHEN status=1 AND confirmations>0 THEN 2 WHEN status=1 THEN 1 WHEN status=2 AND confirmations=-1 THEN 3 ELSE 4 END"
    } else {
        "date_creation"
    };
    let dir = if param_is(&query_param(qs, "dir"), "asc") { "ASC" } else { "DESC" };
    TxListQuery { network, show_failed, search, limit, offset, order_expr, dir }
}

/// The statements of a transaction-list request and the values to bind, in
/// order (the select statement takes the page size and offset after them).
pub struct TxListStatements {
    pub count_sql: String,
    pub select_sql: String,
    pub binds: Vec<crate::server::SqlValue>,
}

/// The filter of a transaction-list request.
pub open spec fn where_spec(has_network: bool, show_failed: bool, has_search: bool) -> Seq<char> {
    "1=1"@ + (if has_network { " AND network = ?"@ } else { Seq::empty() }) + (if !show_failed {
        " AND status IN (0,1)"@
    } else {
        Seq::empty()
    }) + (if has_search { " AND txid LIKE ?"@ } else { Seq::empty() })
}

/// Builds the count and page statements of a transaction-list request; the
/// filter binds the network and the search prefix followed by `%`.
pub fn txlist_statements(q: &TxListQuery) -> (r: TxListStatements)
    ensures
        ({
            let w = where_spec(q.network is Some, q.show_failed, q.search@.len() > 0);
            &&& r.count_sql@ == "SELECT COUNT(*) AS c FROM tbl_tx WHERE "@ + w
            &&& r.select_sql@ == "SELECT txid, network, our_fees, our_address, status, locktime, date_creation, confirmations FROM tbl_tx WHERE "@
                + w + " ORDER BY "@ + q.order_expr@ + " "@ + q.dir@ + " LIMIT ? OFFSET ?"@
            &&& r.binds@.map_values(|b: crate::server::SqlValue| b@) == (match q.network {
                Some(n) => seq![crate::server::SqlValueView::Text(n@)],
                None => Seq::empty(),
            }) + (if q.search@.len() > 0 {
                seq![crate::server::SqlValueView::Text(q.search@.push('%'))]
            } else {
                Seq::empty()
            })
        }),
{
    let mut where_sql = "1=1".to_string();
    let mut binds: Vec<crate::server::SqlValue> = Vec::new();
    let ghost bview0 = binds@.map_values(|b: crate::server::SqlValue| b@);
    match &q.network {
        Some(n) => {
            crate::text::push_all(&mut where_sql, " AND network = ?");
            binds.push(crate::server::SqlValue::Text(n.clone()));
        },
        None => {},
    }
    let ghost mid = binds@;
    if !q.show_failed {
        crate::text::push_all(&mut where_sql, " AND status IN (0,1)");
    }
    if !q.search.as_str().is_empty() {
        crate::text::push_all(&mut where_sql, " AND txid LIKE ?");
        let mut pattern = q.search.clone();
        crate::text::push_char(&mut pattern, '%');
        binds.push(crate::server::SqlValue::Text(pattern));
    }
    assert(where_sql@ =~= where_spec(q.network is Some, q.show_failed, q.search@.len() > 0));
    assert(binds@.map_values(|b: crate::server::SqlValue| b@) =~= (match q.network {
        Some(n) => seq![crate::server::SqlValueView::Text(n@)],
        None => Seq::empty(),
    }) + (if q.search@.len() > 0 {
        seq![crate::server::SqlValueView::Text(q.search@.push('%'))]
    } else {
        Seq::empty()
    }));
    let mut count_sql = "SELECT COUNT(*) AS c FROM tbl_tx WHERE ".to_string();
    crate::text::push_all(&mut count_sql, where_sql.as_str());
    let mut select_sql = "SELECT txid, network, our_fees, our_address, status, locktime, date_creation, confirmations FROM tbl_tx WHERE ".to_string();
    crate::text::push_all(&mut select_sql, where_sql.as_str());
    crate::text::push_all(&mut select_sql, " ORDER BY ");
    crate::text::push_all(&mut select_sql, q.order_expr);
    crate::text::push_all(&mut select_sql, " ");
    crate::text::push_all(&mut select_sql, q.dir);
    crate::text::push_all(&mut select_sql, " LIMIT ? OFFSET ?");
    TxListStatements { count_sql, select_sql, binds }
}

/// The sum of the stored output amounts that parse as `u64`, as the
/// transaction detail totals them.
pub open spec fn total_output_spec(amounts: Seq<Seq<char>>) -> nat
    decreases amounts.len(),
{
    if amounts.len() == 0 {
        0
    } else {
        total_output_spec(amounts.drop_last()) + match crate::text::parse_unsigned(amounts.last(), u64::MAX as nat) {
            Some(v) => v,
            None => 0,
        }
    }
}

/// Totals the output amounts of a transaction, skipping malformed ones.
pub fn total_output(amounts: &Vec<String>) -> (r: u64)
    requires
        total_output_spec(amounts@.map_values(|a: String| a@)) <= u64::MAX,
    ensures
        r == total_output_spec(amounts@.map_values(|a: String| a@)),
{
    let ghost av = amounts@.map_values(|a: String| a@);
    let mut total: u64 = 0;
    let mut i: usize = 0;
    while i < amounts.len()
        invariant
            i <= amounts@.len(),
            av == amounts@.map_values(|a: String| a@),
            total_output_spec(av) <= u64::MAX,
            total == total_output_spec(av.take(i as int)),
        decreases amounts@.len() - i,
    {
        proof {
            assert(av.take(i + 1).drop_last() =~= av.take(i as int));
            lemma_total_prefix(av, i + 1);
        }
        match crate::text::parse_u64(amounts[i].as_str()) {
            Some(v) => {
                total = total + v;
            },
            None => {},
        }
        i += 1;
    }
    assert(av.take(i as int) =~= av);
    total
}

proof fn lemma_total_prefix(a: Seq<Seq<char>>, i: int)
    requires
        0 <= i <= a.len(),
    ensures
        total_output_spec(a.take(i)) <= total_output_spec(a),
    decreases a.len() - i,
{
    if i < a.len() {
        lemma_total_prefix(a, i + 1);
        assert(a.take(i + 1).drop_last() =~= a.take(i));
    } else {
        assert(a.take(i) =~= a);
    }
}


/// The output scripts of a stored raw transaction, in order: none when the
/// stored text is empty, is not hex or does not decode to a transaction.
pub open spec fn stored_output_scripts(tx_hex: Seq<char>) -> Seq<Seq<u8>> {
    if tx_hex.len() == 0 {
        Seq::empty()
    } else {
        match crate::server::hex_bytes(encode_utf8(tx_hex)) {
            Some(raw) => match crate::server::decoded_transaction(raw) {
                Some(t) => t.outputs.map_values(|o: crate::server::TxOutputView| o.script),
                None => Seq::empty(),
            },
            None => Seq::empty(),
        }
    }
}

/// Decodes a stored raw transaction to recover its output scripts, from
/// which the addresses of legacy output rows are shown.
pub fn output_scripts(tx_hex: &str) -> (r: Vec<Vec<u8>>)
    ensures
        r@.map_values(|v: Vec<u8>| v@) == stored_output_scripts(tx_hex@),
{
    if tx_hex.is_empty() {
        let r: Vec<Vec<u8>> = Vec::new();
        assert(r@.map_values(|v: Vec<u8>| v@) =~= Seq::<Seq<u8>>::empty());
        return r;
    }
    let empty: Vec<Vec<u8>> = Vec::new();
    assert(empty@.map_values(|v: Vec<u8>| v@) =~= Seq::<Seq<u8>>::empty());
    let raw = match crate::server::hex_to_bytes(tx_hex) {
        Some(b) => b,
        None => return empty,
    };
    let tx = match crate::server::decode_transaction(raw.as_slice()) {
        Some(t) => t,
        None => return empty,
    };
    let ghost outs = tx@.outputs;
    let mut r: Vec<Vec<u8>> = Vec::new();
    let mut i: usize = 0;
    while i < tx.outputs.len()
        invariant
            i <= tx.outputs@.len(),
            outs == tx@.outputs,
            r@.map_values(|v: Vec<u8>| v@) == outs.take(i as int).map_values(|o: crate::server::TxOutputView| o.script),
        decreases tx.outputs@.len() - i,
    {
        let script = &tx.outputs[i].script;
        let copy = crate::text::bytes_range(script.as_slice(), 0, script.len());
        proof {
            assert(copy@ =~= outs[i as int].script);
        }
        let ghost before = r@;
        r.push(copy);
        proof {
            let f = |v: Vec<u8>| v@;
            let g = |o: crate::server::TxOutputView| o.script;
            assert(r@.map_values(f) =~= before.map_values(f).push(copy@));
            assert(outs.take(i + 1).map_values(g) =~= outs.take(i as int).map_values(g).push(outs[i as int].script));
        }
        i += 1;
    }
    assert(outs.take(i as int) =~= outs);
    r
}

/// The address shown for a stored output row that has none: the address of
/// the output at index `vout` (index 0 when `vout` is not a number) of the
/// decoded transaction, or empty text when there is no such output or it
/// has no address form.
pub open spec fn fallback_address_spec(scripts: Seq<Seq<u8>>, vout: Seq<char>, network: Network) -> Seq<char> {
    let idx: int = match crate::text::parse_unsigned(vout, usize::MAX as nat) {
        Some(n) => n as int,
        None => 0,
    };
    if idx < scripts.len() {
        match crate::server::script_address(scripts[idx], network) {
            Some(a) => a,
            None => Seq::empty(),
        }
    } else {
        Seq::empty()
    }
}

/// Recovers the address of a stored output row from the decoded transaction.
pub fn fallback_output_address(scripts: &Vec<Vec<u8>>, vout: &str, network: Network) -> (r: String)
    ensures
        r@ == fallback_address_spec(scripts@.map_values(|v: Vec<u8>| v@), vout@, network),
{
    let v = chars_of(vout);
    let idx: usize = match crate::text::parse_unsigned_chars(&v, usize::MAX as u64) {
        Some(n) => n as usize,
        None => 0,
    };
    if idx < scripts.len() {
        match crate::server::address_of_script(scripts[idx].as_slice(), network) {
            Some(a) => a,
            None => String::new(),
        }
    } else {
        String::new()
    }
}

// ---------------------------------------------------------------------------
// Settings, backups and uploads
// ---------------------------------------------------------------------------

/// The dashboard settings kept in `settings.json`.
#[derive(Debug)]
pub struct BitcoinSettings {
    pub address: String,
    pub fee: u64,
    pub info: String,
    pub logo_text: String,
    pub logo_format: String,
}

/// Whether a string is an address valid on Bitcoin mainnet
/// (`bitcoin::Address::from_str` then `is_valid_for_network(Bitcoin)`).
pub uninterp spec fn is_mainnet_address(s: Seq<char>) -> bool;

/// Parses an address (`bitcoin::Address::from_str`) and checks that it is
/// valid for mainnet (`is_valid_for_network`); text that does not parse is
/// not valid. Claims: the result is the named verdict.
#[verifier::external_body]
fn is_valid_bitcoin_address(addr: &str) -> (r: bool)
    ensures
        r == is_mainnet_address(addr@),
{
    match addr.parse::<bitcoin::Address<bitcoin::address::NetworkUnchecked>>() {
        Ok(a) => a.is_valid_for_network(bitcoin::Network::Bitcoin),
        Err(_) => false,
    }
}

/// Why a settings update is refused.
#[derive(Clone, Copy, Debug, PartialEq, Eq, Structural)]
pub enum SettingsError {
    /// The fee is zero.
    ZeroFee,
    /// The address is not a valid mainnet address.
    InvalidAddress,
}

/// Merges a settings update into the stored settings: a zero fee is refused;
/// a non-empty address must be a mainnet address and replaces the stored one;
/// the fee always replaces it; a non-empty description replaces it; a logo text
/// of at most 30 bytes replaces it; the logo format is kept.
pub fn apply_settings(current: BitcoinSettings, incoming: BitcoinSettings) -> (r: Result<BitcoinSettings, SettingsError>)
    ensures
        incoming.fee == 0 ==> r == Err::<BitcoinSettings, SettingsError>(SettingsError::ZeroFee),
        incoming.fee != 0 && incoming.address@.len() > 0 && !is_mainnet_address(incoming.address@)
            ==> r == Err::<BitcoinSettings, SettingsError>(SettingsError::InvalidAddress),
        incoming.fee != 0 && (incoming.address@.len() == 0 || is_mainnet_address(incoming.address@))
            ==> (r matches Ok(s) && {
            &&& s.address@ == (if incoming.address@.len() > 0 { incoming.address@ } else { current.address@ })
            &&& s.fee == incoming.fee
            &&& s.info@ == (if incoming.info@.len() > 0 { incoming.info@ } else { current.info@ })
            &&& s.logo_text@ == (if encode_utf8(incoming.logo_text@).len() <= 30 {
                incoming.logo_text@
            } else {
                current.logo_text@
            })
            &&& s.logo_format@ == current.logo_format@
        }),
{
    if incoming.fee == 0 {
        return Err(SettingsError::ZeroFee);
    }
    let mut s = current;
    if !incoming.address.as_str().is_empty() {
        if !is_valid_bitcoin_address(incoming.address.as_str()) {
            return Err(SettingsError::InvalidAddress);
        }
        s.address = incoming.address;
    }
    s.fee = incoming.fee;
    if !incoming.info.as_str().is_empty() {
        s.info = incoming.info;
    }
    if incoming.logo_text.as_str().as_bytes().len() <= 30 {
        s.logo_text = incoming.logo_text;
    }
    Ok(s)
}

/// Whether a path has a `..` component (it has one exactly when one of its
/// `/`-separated pieces is `..`).
pub open spec fn has_parent_component(p: Seq<char>) -> bool {
    exists|k: int| 0 <= k < split_chars(p, '/').len() && #[trigger] split_chars(p, '/')[k] == ".."@
}

/// Whether a path has a `..` component.
pub fn has_parent_dir(p: &str) -> (r: bool)
    ensures
        r == has_parent_component(p@),
{
    let v = chars_of(p);
    let dots = chars_of("..");
    let mut i: usize = 0;
    assert(split_from(v@, '/', 0) == split_chars(p@, '/'));
    loop
        invariant
            i <= v@.len(),
            v@ == p@,
            dots@ == ".."@,
            has_parent_component(p@) == exists|k: int| 0 <= k < split_from(v@, '/', i as int).len() && #[trigger] split_from(v@, '/', i as int)[k] == ".."@,
        decreases v@.len() - i,
    {
        let j = find_char(&v, '/', i);
        proof {
            lemma_find_from(v@, '/', i as int);
        }
        let ghost piece = v@.subrange(i as int, j as int);
        let ghost rest = if j < v@.len() { split_from(v@, '/', j + 1) } else { Seq::empty() };
        proof {
            assert(split_from(v@, '/', i as int) == seq![piece] + rest);
        }
        if range_eq(&v, i, j, &dots) {
            assert((seq![piece] + rest)[0] == ".."@);
            return true;
        }
        proof {
            let all = seq![piece] + rest;
            assert((exists|k: int| 0 <= k < all.len() && #[trigger] all[k] == ".."@) == (exists|k: int| 0 <= k < rest.len() && #[trigger] rest[k] == ".."@)) by {
                if exists|k: int| 0 <= k < all.len() && #[trigger] all[k] == ".."@ {
                    let k = choose|k: int| 0 <= k < all.len() && #[trigger] all[k] == ".."@;
                    assert(k != 0);
                    assert(rest[k - 1] == all[k]);
                }
                if exists|k: int| 0 <= k < rest.len() && #[trigger] rest[k] == ".."@ {
                    let k = choose|k: int| 0 <= k < rest.len() && #[trigger] rest[k] == ".."@;
                    assert(all[k + 1] == rest[k]);
                }
            }
        }
        if j >= v.len() {
            return false;
        }
        i = j + 1;
    }
}

/// Why a backup directory setting is refused.
#[derive(Clone, Copy, Debug, PartialEq, Eq, Structural)]
pub enum BackupPathError {
    /// The path is relative.
    NotAbsolute,
    /// The path has a `..` component.
    ParentDir,
}

/// Checks a backup directory setting: empty (the default) or an absolute
/// path without `..` components.
pub fn validate_backup_path(p: &str) -> (r: Result<(), BackupPathError>)
    ensures
        p@.len() == 0 ==> r is Ok,
        p@.len() > 0 && p@[0] != '/' ==> r == Err::<(), BackupPathError>(BackupPathError::NotAbsolute),
        p@.len() > 0 && p@[0] == '/' ==> r == (if has_parent_component(p@) {
            Err::<(), BackupPathError>(BackupPathError::ParentDir)
        } else {
            Ok(())
        }),
{
    let v = chars_of(p);
    if v.len() == 0 {
        return Ok(());
    }
    if v[0] != '/' {
        return Err(BackupPathError::NotAbsolute);
    }
    if has_parent_dir(p) {
        return Err(BackupPathError::ParentDir);
    }
    Ok(())
}

/// Whether a backup file name is a plain name: no `..`, `/` or `\\`.
pub open spec fn safe_backup_name(name: Seq<char>) -> bool {
    !crate::text::contains_run(name, ".."@) && !name.contains('/') && !name.contains('\\')
}

/// Whether a file name may be restored from the backup directory.
pub fn is_safe_backup_filename(name: &str) -> (r: bool)
    ensures
        r == safe_backup_name(name@),
{
    let v = chars_of(name);
    let mut i: usize = 0;
    while i < v.len()
        invariant
            i <= v@.len(),
            v@ == name@,
            forall|k: int| 0 <= k < i ==> v@[k] != '/' && v@[k] != '\\',
            forall|k: int| 0 <= k < i && k + 1 < v@.len() ==> !(#[trigger] v@[k] == '.' && v@[k + 1] == '.'),
        decreases v@.len() - i,
    {
        if v[i] == '/' || v[i] == '\\' {
            assert(name@.contains(v@[i as int]));
            return false;
        }
        if i + 1 < v.len() && v[i] == '.' && v[i + 1] == '.' {
            assert(name@.subrange(i as int, i + 2) =~= ".."@) by {
                reveal_strlit("..");
            }
            return false;
        }
        i += 1;
    }
    proof {
        reveal_strlit("..");
        if crate::text::contains_run(name@, ".."@) {
            let k = choose|k: int| 0 <= k <= name@.len() - 2 && #[trigger] name@.subrange(k, k + 2) == ".."@;
            assert(name@.subrange(k, k + 2)[0] == '.');
            assert(name@.subrange(k, k + 2)[1] == '.');
        }
        if name@.contains('/') {
            let k = choose|k: int| 0 <= k < name@.len() && name@[k] == '/';
        }
        if name@.contains('\\') {
            let k = choose|k: int| 0 <= k < name@.len() && name@[k] == '\\';
        }
    }
    true
}

/// A file found in the backup directory.
pub struct BackupFile {
    pub name: String,
    pub size: u64,
    /// Last modification, in seconds since the Unix epoch (0 when unknown).
    pub modified: i64,
    /// Whether it is a regular file.
    pub is_file: bool,
}

/// Whether a name ends in `.db`.
pub open spec fn has_db_suffix(name: Seq<char>) -> bool {
    name.len() >= 3 && name[name.len() - 3] == '.' && name[name.len() - 2] == 'd' && name[name.len() - 1] == 'b'
}

/// Whether a directory entry is offered for restore: a regular file whose
/// name ends in `.db`.
pub open spec fn is_listed_backup(f: BackupFile) -> bool {
    f.is_file && has_db_suffix(f.name@)
}

/// The entries offered for restore, in directory order.
pub open spec fn listed_backups(s: Seq<BackupFile>) -> Seq<BackupFile>
    decreases s.len(),
{
    if s.len() == 0 {
        Seq::empty()
    } else if is_listed_backup(s.last()) {
        listed_backups(s.drop_last()).push(s.last())
    } else {
        listed_backups(s.drop_last())
    }
}

/// `f` placed before the first entry modified earlier than it (after all
/// those at least as recent).
pub open spec fn insert_newest_first(sorted: Seq<BackupFile>, f: BackupFile) -> Seq<BackupFile>
    decreases sorted.len(),
{
    if sorted.len() == 0 {
        seq![f]
    } else if sorted[0].modified < f.modified {
        seq![f] + sorted
    } else {
        seq![sorted[0]] + insert_newest_first(sorted.drop_first(), f)
    }
}

/// The entries ordered newest first; entries modified at the same time keep
/// their order (a stable sort).
pub open spec fn newest_first(s: Seq<BackupFile>) -> Seq<BackupFile>
    decreases s.len(),
{
    if s.len() == 0 {
        Seq::empty()
    } else {
        insert_newest_first(newest_first(s.drop_last()), s.last())
    }
}

/// The index of the first entry modified earlier than `m`.
pub open spec fn first_older(s: Seq<BackupFile>, m: i64) -> int
    decreases s.len(),
{
    if s.len() == 0 {
        0
    } else if s[0].modified < m {
        0
    } else {
        1 + first_older(s.drop_first(), m)
    }
}

proof fn lemma_first_older_is(s: Seq<BackupFile>, m: i64, p: int)
    requires
        0 <= p <= s.len(),
        forall|k: int| 0 <= k < p ==> (#[trigger] s[k]).modified >= m,
        p < s.len() ==> s[p].modified < m,
    ensures
        first_older(s, m) == p,
    decreases s.len(),
{
    if s.len() > 0 && p > 0 {
        assert(s[0].modified >= m);
        let t = s.drop_first();
        assert forall|k: int| 0 <= k < p - 1 implies (#[trigger] t[k]).modified >= m by {
            assert(t[k] == s[k + 1]);
        }
        if p - 1 < t.len() {
            assert(t[p - 1] == s[p]);
        }
        lemma_first_older_is(t, m, p - 1);
    }
}

proof fn lemma_insert_newest_first_at(s: Seq<BackupFile>, f: BackupFile)
    ensures
        0 <= first_older(s, f.modified) <= s.len(),
        insert_newest_first(s, f) == s.insert(first_older(s, f.modified), f),
    decreases s.len(),
{
    if s.len() > 0 {
        lemma_insert_newest_first_at(s.drop_first(), f);
        if s[0].modified < f.modified {
            assert(seq![f] + s =~= s.insert(0, f));
        } else {
            let p = first_older(s.drop_first(), f.modified);
            assert(seq![s[0]] + s.drop_first().insert(p, f) =~= s.insert(p + 1, f));
        }
    }
}

/// Whether a file name ends in `.db`.
fn has_db_suffix_exec(name: &str) -> (r: bool)
    ensures
        r == has_db_suffix(name@),
{
    let v = chars_of(name);
    let n = v.len();
    n >= 3 && v[n - 3] == '.' && v[n - 2] == 'd' && v[n - 1] == 'b'
}

/// The backups offered for restore: the regular files whose names end in
/// `.db`, newest first (files modified at the same second keep their
/// directory order).
pub fn backup_listing(entries: Vec<BackupFile>) -> (r: Vec<BackupFile>)
    ensures
        r@ == newest_first(listed_backups(entries@)),
{
    let ghost all = entries@;
    let total = entries.len();
    let mut entries = entries;
    let mut r: Vec<BackupFile> = Vec::new();
    let mut i: usize = 0;
    while entries.len() > 0
        invariant
            i + entries@.len() == all.len(),
            all.len() == total,
            entries@ == all.subrange(i as int, all.len() as int),
            r@ == newest_first(listed_backups(all.take(i as int))),
        decreases entries@.len(),
    {
        let f = entries.remove(0);
        proof {
            assert(all.take(i + 1).drop_last() =~= all.take(i as int));
            assert(all.take(i + 1).last() == f);
            assert(entries@ =~= all.subrange(i + 1, all.len() as int));
        }
        if f.is_file && has_db_suffix_exec(f.name.as_str()) {
            let mut p: usize = 0;
            while p < r.len() && r[p].modified >= f.modified
                invariant
                    p <= r@.len(),
                    forall|k: int| 0 <= k < p ==> (#[trigger] r@[k]).modified >= f.modified,
                decreases r@.len() - p,
            {
                p += 1;
            }
            proof {
                lemma_first_older_is(r@, f.modified, p as int);
                lemma_insert_newest_first_at(r@, f);
                assert(listed_backups(all.take(i + 1)) == listed_backups(all.take(i as int)).push(f));
                assert(listed_backups(all.take(i + 1)).drop_last() =~= listed_backups(all.take(i as int)));
            }
            r.insert(p, f);
        }
        i += 1;
    }
    assert(all.take(i as int) =~= all);
    r
}

proof fn lemma_insert_keeps_order(s: Seq<BackupFile>, f: BackupFile)
    requires
        forall|i: int, j: int| 0 <= i < j < s.len() ==> (#[trigger] s[i]).modified >= (#[trigger] s[j]).modified,
    ensures
        forall|i: int, j: int| 0 <= i < j < insert_newest_first(s, f).len()
            ==> (#[trigger] insert_newest_first(s, f)[i]).modified >= (#[trigger] insert_newest_first(s, f)[j]).modified,
{
    lemma_insert_newest_first_at(s, f);
    let p = first_older(s, f.modified);
    let t = insert_newest_first(s, f);
    assert forall|k: int| 0 <= k < p implies (#[trigger] s[k]).modified >= f.modified by {
        lemma_first_older_prefix(s, f.modified, k);
    }
    assert forall|i: int, j: int| 0 <= i < j < t.len() implies (#[trigger] t[i]).modified >= (#[trigger] t[j]).modified by {
        if p < s.len() {
            lemma_first_older_stops(s, f.modified);
        }
        if i < p {
            assert(t[i] == s[i]);
            if j < p {
                assert(t[j] == s[j]);
            } else if j == p {
                assert(t[j] == f);
            } else {
                assert(t[j] == s[j - 1]);
            }
        } else if i == p {
            assert(t[i] == f);
            assert(t[j] == s[j - 1]);
            assert(s[p].modified < f.modified);
            if j - 1 > p {
                assert(s[p].modified >= s[j - 1].modified);
            }
        } else {
            assert(t[i] == s[i - 1]);
            assert(t[j] == s[j - 1]);
        }
    }
}

proof fn lemma_first_older_prefix(s: Seq<BackupFile>, m: i64, k: int)
    requires
        0 <= k < first_older(s, m),
    ensures
        s[k].modified >= m,
    decreases s.len(),
{
    lemma_first_older_stops(s, m);
    if k > 0 {
        lemma_first_older_prefix(s.drop_first(), m, k - 1);
        assert(s.drop_first()[k - 1] == s[k]);
    }
}

proof fn lemma_first_older_stops(s: Seq<BackupFile>, m: i64)
    ensures
        0 <= first_older(s, m) <= s.len(),
        first_older(s, m) < s.len() ==> s[first_older(s, m)].modified < m,
    decreases s.len(),
{
    if s.len() > 0 && s[0].modified >= m {
        lemma_first_older_stops(s.drop_first(), m);
        if first_older(s, m) < s.len() {
            assert(s.drop_first()[first_older(s, m) - 1] == s[first_older(s, m)]);
        }
    }
}

/// The backup listing is ordered newest first.
pub proof fn lemma_newest_first_sorted(s: Seq<BackupFile>)
    ensures
        forall|i: int, j: int| 0 <= i < j < newest_first(s).len()
            ==> (#[trigger] newest_first(s)[i]).modified >= (#[trigger] newest_first(s)[j]).modified,
    decreases s.len(),
{
    if s.len() > 0 {
        lemma_newest_first_sorted(s.drop_last());
        lemma_insert_keeps_order(newest_first(s.drop_last()), s.last());
    }
}

/// The backup listing holds exactly the files offered for restore, each as
/// often as in the directory, and nothing else.
pub proof fn lemma_listing_holds_listed(s: Seq<BackupFile>)
    ensures
        newest_first(listed_backups(s)).to_multiset() == listed_backups(s).to_multiset(),
        forall|k: int| 0 <= k < listed_backups(s).len() ==> is_listed_backup(#[trigger] listed_backups(s)[k]),
    decreases s.len(),
{
    lemma_newest_first_permutes(listed_backups(s));
    if s.len() > 0 {
        lemma_listing_holds_listed(s.drop_last());
        let l = listed_backups(s);
        let l0 = listed_backups(s.drop_last());
        assert forall|k: int| 0 <= k < l.len() implies is_listed_backup(#[trigger] l[k]) by {
            if k < l0.len() {
                assert(l[k] == l0[k]);
            }
        }
    }
}

/// The entries modified at time `m`, in order.
pub open spec fn modified_at(s: Seq<BackupFile>, m: i64) -> Seq<BackupFile>
    decreases s.len(),
{
    if s.len() == 0 {
        Seq::empty()
    } else if s.last().modified == m {
        modified_at(s.drop_last(), m).push(s.last())
    } else {
        modified_at(s.drop_last(), m)
    }
}

proof fn lemma_modified_at_concat(a: Seq<BackupFile>, b: Seq<BackupFile>, m: i64)
    ensures
        modified_at(a + b, m) == modified_at(a, m) + modified_at(b, m),
    decreases b.len(),
{
    if b.len() == 0 {
        assert(a + b =~= a);
        assert(modified_at(a, m) + modified_at(b, m) =~= modified_at(a, m));
    } else {
        lemma_modified_at_concat(a, b.drop_last(), m);
        assert((a + b).drop_last() =~= a + b.drop_last());
        assert((a + b).last() == b.last());
        if b.last().modified == m {
            assert(modified_at(a, m) + modified_at(b.drop_last(), m).push(b.last()) =~= (modified_at(a, m)
                + modified_at(b.drop_last(), m)).push(b.last()));
        }
    }
}

proof fn lemma_modified_at_none(s: Seq<BackupFile>, m: i64)
    requires
        forall|k: int| 0 <= k < s.len() ==> (#[trigger] s[k]).modified != m,
    ensures
        modified_at(s, m) == Seq::<BackupFile>::empty(),
    decreases s.len(),
{
    if s.len() > 0 {
        assert forall|k: int| 0 <= k < s.drop_last().len() implies (#[trigger] s.drop_last()[k]).modified != m by {
            assert(s.drop_last()[k] == s[k]);
        }
        lemma_modified_at_none(s.drop_last(), m);
    }
}

proof fn lemma_insert_keeps_ties(s: Seq<BackupFile>, f: BackupFile, m: i64)
    requires
        forall|i: int, j: int| 0 <= i < j < s.len() ==> (#[trigger] s[i]).modified >= (#[trigger] s[j]).modified,
    ensures
        modified_at(insert_newest_first(s, f), m) == (if f.modified == m {
            modified_at(s, m).push(f)
        } else {
            modified_at(s, m)
        }),
{
    lemma_insert_newest_first_at(s, f);
    lemma_first_older_stops(s, f.modified);
    let p = first_older(s, f.modified);
    let head = s.take(p);
    let tail = s.skip(p);
    assert(s =~= head + tail);
    assert(s.insert(p, f) =~= head + seq![f] + tail);
    lemma_modified_at_concat(head, tail, m);
    lemma_modified_at_concat(head + seq![f], tail, m);
    lemma_modified_at_concat(head, seq![f], m);
    let one = seq![f];
    assert(one.drop_last() =~= Seq::<BackupFile>::empty());
    assert(one.last() == f);
    assert(modified_at(Seq::<BackupFile>::empty(), m) == Seq::<BackupFile>::empty());
    assert(modified_at(one, m) =~= (if f.modified == m { seq![f] } else { Seq::<BackupFile>::empty() }));
    if f.modified == m {
        assert forall|k: int| 0 <= k < tail.len() implies (#[trigger] tail[k]).modified != m by {
            assert(tail[k] == s[p + k]);
            if k > 0 {
                assert(s[p].modified >= s[p + k].modified);
            }
        }
        lemma_modified_at_none(tail, m);
        assert(modified_at(head, m) + modified_at(seq![f], m) =~= modified_at(head, m).push(f));
        assert(modified_at(head, m) + Seq::<BackupFile>::empty() =~= modified_at(head, m));
    } else {
        assert(modified_at(seq![f], m) =~= Seq::<BackupFile>::empty());
        assert(modified_at(head, m) + Seq::<BackupFile>::empty() =~= modified_at(head, m));
    }
}

/// The ordering is stable: the entries modified at any one time come out in
/// the order they came in.
pub proof fn lemma_newest_first_stable(s: Seq<BackupFile>, m: i64)
    ensures
        modified_at(newest_first(s), m) == modified_at(s, m),
    decreases s.len(),
{
    if s.len() > 0 {
        lemma_newest_first_stable(s.drop_last(), m);
        lemma_newest_first_sorted(s.drop_last());
        lemma_insert_keeps_ties(newest_first(s.drop_last()), s.last(), m);
    }
}

proof fn lemma_newest_first_permutes(s: Seq<BackupFile>)
    ensures
        newest_first(s).to_multiset() == s.to_multiset(),
    decreases s.len(),
{
    broadcast use vstd::seq_lib::group_to_multiset_ensures;
    if s.len() > 0 {
        lemma_newest_first_permutes(s.drop_last());
        let t = newest_first(s.drop_last());
        lemma_insert_newest_first_at(t, s.last());
        vstd::seq_lib::to_multiset_insert(t, first_older(t, s.last().modified), s.last());
        assert(s.drop_last().push(s.last()) =~= s);
    }
}

/// Why an uploaded logo is refused.
#[derive(Clone, Copy, Debug, PartialEq, Eq, Structural)]
pub enum LogoError {
    /// Larger than 200 KiB (204800 bytes).
    TooLarge,
    /// Not a PNG, JPEG, WebP or SVG image.
    UnsupportedFormat,
}

/// Checks an uploaded logo and names its format.
pub fn check_logo_upload(body: &[u8]) -> (r: Result<&'static str, LogoError>)
    ensures
        body@.len() > 204800 ==> r == Err::<&'static str, LogoError>(LogoError::TooLarge),
        body@.len() <= 204800 ==> match image_format_spec(body@) {
            Some(f) => r matches Ok(s) && s@ == f,
            None => r == Err::<&'static str, LogoError>(LogoError::UnsupportedFormat),
        },
{
    if body.len() > 204800 {
        return Err(LogoError::TooLarge);
    }
    match detect_image_format(body) {
        Some(f) => Ok(f),
        None => Err(LogoError::UnsupportedFormat),
    }
}

} // verus!
