//! Database decisions that do not need the database: which file paths may
//! be opened, and the batched duplicate-id query.

use vstd::prelude::*;
use crate::text::{chars_of, find_char, lemma_find_from, push_all, push_char, range_eq, split_chars, split_from};
use crate::umbrel_api::{has_parent_component, has_parent_dir};

verus! {

/// The system directories a database must not live under, by name (each
/// sits at the root of the file system).
pub open spec fn forbidden_dirs() -> Seq<Seq<char>> {
    seq!["etc"@, "proc"@, "sys"@, "dev"@, "usr"@, "bin"@, "sbin"@, "lib"@, "opt"@]
}

/// The first component named by a run of `/`-separated pieces: empty pieces
/// (from repeated `/`) and `.` name none.
pub open spec fn first_component(pieces: Seq<Seq<char>>) -> Option<Seq<char>>
    decreases pieces.len(),
{
    if pieces.len() == 0 {
        None
    } else if pieces[0].len() == 0 || pieces[0] == "."@ {
        first_component(pieces.drop_first())
    } else {
        Some(pieces[0])
    }
}

/// Why a database path is refused, as the message reported for it: a `..`
/// component, or an absolute path whose top directory (once empty and `.`
/// components are dropped) is a system directory.
pub open spec fn db_path_error(p: Seq<char>) -> Option<Seq<char>> {
    if has_parent_component(p) {
        Some("Database path may not contain '..'"@)
    } else if p.len() > 0 && p[0] == '/' {
        match first_component(split_chars(p, '/')) {
            Some(c) => if forbidden_dirs().contains(c) {
                Some("Absolute database path under /"@ + c + " is forbidden"@)
            } else {
                None
            },
            None => None,
        }
    } else {
        None
    }
}

fn forbidden_dir(i: usize) -> (d: &'static str)
    requires
        i < 9,
    ensures
        d@ == forbidden_dirs()[i as int],
{
    if i == 0 {
        "etc"
    } else if i == 1 {
        "proc"
    } else if i == 2 {
        "sys"
    } else if i == 3 {
        "dev"
    } else if i == 4 {
        "usr"
    } else if i == 5 {
        "bin"
    } else if i == 6 {
        "sbin"
    } else if i == 7 {
        "lib"
    } else {
        "opt"
    }
}

/// Checks a database path before it is opened: no `..` component, and an
/// absolute path must not lie under a system directory, however many `/` or
/// `.` components it spells that directory with. (Whether an existing file is
/// a regular file is checked when the file is opened.)
pub fn check_db_path(path: &str) -> (r: Result<(), String>)
    ensures
        match db_path_error(path@) {
            Some(m) => r matches Err(e) && e@ == m,
            None => r is Ok,
        },
{
    if has_parent_dir(path) {
        return Err("Database path may not contain '..'".to_string());
    }
    let v = chars_of(path);
    if v.len() == 0 || v[0] != '/' {
        return Ok(());
    }
    let dot = chars_of(".");
    proof {
        reveal_strlit(".");
    }
    let mut i: usize = 0;
    loop
        invariant
            i <= v@.len(),
            v@ == path@,
            dot@ == "."@,
            !has_parent_component(path@),
            path@.len() > 0 && path@[0] == '/',
            first_component(split_chars(path@, '/')) == first_component(split_from(v@, '/', i as int)),
        decreases v@.len() - i,
    {
        let j = find_char(&v, '/', i);
        proof {
            lemma_find_from(v@, '/', i as int);
        }
        let ghost piece = v@.subrange(i as int, j as int);
        let ghost rest = if j < v@.len() { split_from(v@, '/', j + 1) } else { Seq::empty() };
        proof {
            assert(split_from(v@, '/', i as int) == seq![piece] + rest);
            assert((seq![piece] + rest)[0] == piece);
            assert((seq![piece] + rest).drop_first() =~= rest);
        }
        if j == i || range_eq(&v, i, j, &dot) {
            assert(piece.len() == 0 || piece == "."@);
            assert(first_component(split_from(v@, '/', i as int)) == first_component(rest));
            if j >= v.len() {
                assert(first_component(rest) is None);
                return Ok(());
            }
            i = j + 1;
        } else {
            assert(piece.len() > 0 && piece != "."@);
            assert(first_component(split_chars(path@, '/')) == Some(piece));
            let mut k: usize = 0;
            while k < 9
                invariant
                    k <= 9,
                    i < j <= v@.len(),
                    piece == v@.subrange(i as int, j as int),
                    v@ == path@,
                    !has_parent_component(path@),
                    path@.len() > 0 && path@[0] == '/',
                    first_component(split_chars(path@, '/')) == Some(piece),
                    forall|q: int| 0 <= q < k ==> forbidden_dirs()[q] != piece,
                decreases 9 - k,
            {
                let d = forbidden_dir(k);
                let dv = chars_of(d);
                if range_eq(&v, i, j, &dv) {
                    let mut msg = "Absolute database path under /".to_string();
                    push_all(&mut msg, d);
                    push_all(&mut msg, " is forbidden");
                    assert(forbidden_dirs()[k as int] == piece);
                    assert(forbidden_dirs().contains(piece));
                    return Err(msg);
                }
                k += 1;
            }
            assert(!forbidden_dirs().contains(piece)) by {
                if forbidden_dirs().contains(piece) {
                    let q = choose|q: int| 0 <= q < forbidden_dirs().len() && forbidden_dirs()[q] == piece;
                    assert(forbidden_dirs().len() == 9);
                }
            }
            return Ok(());
        }
    }
}

/// `n` question marks separated by commas.
pub open spec fn placeholders(n: nat) -> Seq<char>
    decreases n,
{
    if n == 0 {
        Seq::empty()
    } else if n == 1 {
        seq!['?']
    } else {
        placeholders((n - 1) as nat) + seq![',', '?']
    }
}

/// The query that finds which of `n` transaction ids are already stored.
pub fn duplicate_query_sql(n: usize) -> (r: String)
    ensures
        r@ == "SELECT txid FROM tbl_tx WHERE txid IN ("@ + placeholders(n as nat) + ")"@,
{
    let mut list = String::new();
    let mut k: usize = 0;
    while k < n
        invariant
            k <= n,
            list@ == placeholders(k as nat),
        decreases n - k,
    {
        if k > 0 {
            push_char(&mut list, ',');
        }
        push_char(&mut list, '?');
        k += 1;
        assert(list@ =~= placeholders(k as nat));
    }
    let mut r = "SELECT txid FROM tbl_tx WHERE txid IN (".to_string();
    push_all(&mut r, list.as_str());
    push_all(&mut r, ")");
    r
}

} // verus!
