//! The inbox: a watched folder where bank files land and become imports on their own.
//!
//! Every statement file is recorded exactly once (its checksum remembers it), imported straight away
//! when a learned profile knows the account, and kept as a `pending` import otherwise.

use vstd::prelude::*;

use crate::accounts::{get_account, place_of};
use crate::connections::{account_of, connected, ConnectionAccount};
use crate::error::{invalid, Refusal, Result};
use crate::imports::bank_api;
use crate::imports::enable_banking;
use crate::imports::mercury;
use crate::imports::ofx::digits_from;
use crate::imports::opt_text;
use crate::imports::pipeline::{detect_source, source_of};
use crate::imports::pluggy;
use crate::model::{Account, AccountType};
use crate::text::{ascii_digit, cat3, cat5, chars, contains, holds, int_string, int_text, is_digit, lemma_held_somewhere, lemma_position_within, lemma_replaced_length, lowercase_of, own, position, replace, replaced, replaced_from, same, string, to_lowercase};

verus! {

/// What one file became during a scan.
#[derive(Debug)]
pub struct InboxOutcome {
    pub file: String,
    /// imported | pending | duplicate | failed | ignored
    pub action: String,
    pub import_id: Option<i64>,
    pub detail: String,
}

/// A learned routing rule for statement files. An empty glob is the source-wide fallback.
#[derive(Debug)]
pub struct ImportProfile {
    pub id: i64,
    pub source: String,
    pub filename_glob: String,
    pub account_id: i64,
    pub hits_count: i64,
    pub updated_at: String,
}

/// What separates the words of a file name.
pub open spec fn separates(c: char) -> bool {
    c == '-' || c == '_' || c == ' ' || c == '.' || c == '(' || c == ')'
}

fn is_separator(c: char) -> (r: bool)
    ensures
        r == separates(c),
{
    c == '-' || c == '_' || c == ' ' || c == '.' || c == '(' || c == ')'
}

/// A name from `i` on, behind what was made of it before: digit runs that separators bound become a
/// star.
pub open spec fn starred(s: Seq<char>, i: int, out: Seq<char>) -> Seq<char>
    decreases s.len() - i,
{
    if i < 0 || i >= s.len() {
        out
    } else if is_digit(s[i]) {
        let end = digits_from(s, i);
        let bounded = (i == 0 || separates(s[i - 1])) && (end == s.len() || separates(s[end]));
        let next = if !bounded {
            out + s.subrange(i, end)
        } else if out.len() > 0 && out.last() == '*' {
            out
        } else {
            out.push('*')
        };
        if i < end <= s.len() {
            starred(s, end, next)
        } else {
            out
        }
    } else {
        starred(s, i + 1, out.push(s[i]))
    }
}

/// A text in which each `pattern` has become one star.
pub open spec fn collapsed(s: Seq<char>, pattern: Seq<char>) -> Seq<char>
    decreases s.len(),
{
    if holds(s, pattern) && replaced(s, pattern, "*"@).len() < s.len() {
        collapsed(replaced(s, pattern, "*"@), pattern)
    } else {
        s
    }
}

/// The shape of a file name: "n26-csv-transactions-2026-08.csv" is "n26-csv-transactions-*.csv".
/// Digit runs bounded by separators (dates, sequence numbers), and the separators between them,
/// become one star. Digits inside a word ("n26") stay, so a bank's name keeps telling files apart.
pub open spec fn shape_of(filename: Seq<char>) -> Seq<char> {
    collapsed(
        collapsed(
            collapsed(collapsed(collapsed(starred(lowercase_of(filename), 0, Seq::empty()), "*-*"@), "*_*"@), "* *"@),
            "*.*"@,
        ),
        "**"@,
    )
}

proof fn lemma_digits_grow(s: Seq<char>, i: int)
    requires
        0 <= i <= s.len(),
    ensures
        i <= digits_from(s, i) <= s.len(),
        i < s.len() && is_digit(s[i]) ==> digits_from(s, i) > i,
    decreases s.len() - i,
{
    if i < s.len() && is_digit(s[i]) {
        lemma_digits_grow(s, i + 1);
    }
}

fn star(cs: &Vec<char>) -> (r: String)
    ensures
        r@ == starred(cs@, 0, Seq::empty()),
{
    let mut out: Vec<char> = Vec::new();
    let mut i: usize = 0;
    assert(out@ =~= Seq::<char>::empty());
    while i < cs.len()
        invariant
            i <= cs.len(),
            starred(cs@, i as int, out@) == starred(cs@, 0, Seq::empty()),
        decreases cs.len() - i,
    {
        if ascii_digit(cs[i]) {
            let start = i;
            let ghost before = out@;
            proof {
                lemma_digits_grow(cs@, start as int);
            }
            let mut end: usize = i;
            while end < cs.len() && ascii_digit(cs[end])
                invariant
                    start <= end <= cs.len(),
                    digits_from(cs@, start as int) == digits_from(cs@, end as int),
                decreases cs.len() - end,
            {
                end = end + 1;
            }
            let bounded = (start == 0 || is_separator(cs[start - 1])) && (end == cs.len() || is_separator(cs[end]));
            if !bounded {
                let mut k: usize = start;
                while k < end
                    invariant
                        start <= k <= end <= cs.len(),
                        out@ == before + cs@.subrange(start as int, k as int),
                    decreases end - k,
                {
                    out.push(cs[k]);
                    k = k + 1;
                    assert(out@ =~= before + cs@.subrange(start as int, k as int));
                }
            } else if !(out.len() > 0 && out[out.len() - 1] == '*') {
                out.push('*');
            }
            i = end;
        } else {
            out.push(cs[i]);
            i = i + 1;
        }
    }
    string(&out)
}

fn collapse(s: String, pattern: &str) -> (r: String)
    requires
        pattern@.len() > 1,
    ensures
        r@ == collapsed(s@, pattern@),
    decreases s@.len(),
{
    if contains(s.as_str(), pattern) {
        let t = replace(s.as_str(), pattern, "*");
        proof {
            reveal_strlit("*");
            lemma_held_somewhere(s@, pattern@);
            lemma_replaced_length(s@, pattern@, "*"@, 0);
        }
        collapse(t, pattern)
    } else {
        s
    }
}

pub fn glob_of(filename: &str) -> (r: String)
    ensures
        r@ == shape_of(filename@),
{
    proof {
        reveal_strlit("*-*");
        reveal_strlit("*_*");
        reveal_strlit("* *");
        reveal_strlit("*.*");
        reveal_strlit("**");
    }
    let s = star(&chars(to_lowercase(filename).as_str()));
    collapse(collapse(collapse(collapse(collapse(s, "*-*"), "*_*"), "* *"), "*.*"), "**")
}

/// Whether a name fits a pattern in which a star spans anything.
pub open spec fn fits(g: Seq<char>, n: Seq<char>) -> bool
    decreases g.len() + n.len(),
{
    if g.len() == 0 {
        n.len() == 0
    } else if g[0] == '*' {
        fits(g.skip(1), n) || (n.len() > 0 && fits(g, n.skip(1)))
    } else {
        n.len() > 0 && g[0] == n[0] && fits(g.skip(1), n.skip(1))
    }
}

fn fit(g: &Vec<char>, i: usize, n: &Vec<char>, j: usize) -> (r: bool)
    requires
        i <= g@.len(),
        j <= n@.len(),
    ensures
        r == fits(g@.skip(i as int), n@.skip(j as int)),
    decreases g@.len() - i + n@.len() - j,
{
    if i == g.len() {
        return j == n.len();
    }
    assert(g@.skip(i as int).skip(1) =~= g@.skip(i + 1));
    if j < n.len() {
        assert(n@.skip(j as int).skip(1) =~= n@.skip(j + 1));
    }
    if g[i] == '*' {
        fit(g, i + 1, n, j) || (j < n.len() && fit(g, i, n, j + 1))
    } else {
        j < n.len() && g[i] == n[j] && fit(g, i + 1, n, j + 1)
    }
}

/// Case-insensitive match where a star spans anything.
pub fn glob_match(glob: &str, name: &str) -> (r: bool)
    ensures
        r == fits(lowercase_of(glob@), lowercase_of(name@)),
{
    let g = chars(to_lowercase(glob).as_str());
    let n = chars(to_lowercase(name).as_str());
    assert(g@.skip(0) =~= g@);
    assert(n@.skip(0) =~= n@);
    fit(&g, 0, &n, 0)
}

/// Whether a statement may land in an account: it still exists, it is not a placeholder or closed,
/// and it is one of the two types a bank line belongs to. A file whose account fails this waits as a
/// pending import instead of posting into an account that cannot take it.
pub open spec fn takes(accounts: Seq<Account>, id: i64) -> bool {
    match place_of(accounts, id) {
        Some(i) => {
            let a = accounts[i];
            !a.placeholder && a.closed_at is None && (a.account_type == AccountType::Asset || a.account_type == AccountType::Liability)
        },
        None => false,
    }
}

pub fn takes_statements(accounts: &[Account], id: i64) -> (r: bool)
    ensures
        r == takes(accounts@, id),
{
    match get_account(accounts, id) {
        Ok(a) => !a.placeholder && !a.is_closed() && matches!(a.account_type, AccountType::Asset | AccountType::Liability),
        Err(_) => false,
    }
}

/// The sources whose files name their account themselves.
pub open spec fn names_account(source: Seq<char>) -> bool {
    source == "enable_banking_json"@ || source == "mercury_json"@ || source == "inter_pj_json"@ || source == "wise_json"@
}

fn is_envelope(source: &str) -> (r: bool)
    ensures
        r == names_account(source@),
{
    same(source, "enable_banking_json") || same(source, "mercury_json") || same(source, "inter_pj_json") || same(source, "wise_json")
}

/// The account of the first profile, from `i` on, that fits a file and can take it.
pub open spec fn profiled(
    profiles: Seq<ImportProfile>,
    source: Seq<char>,
    filename: Seq<char>,
    accounts: Seq<Account>,
    i: int,
) -> Option<i64>
    decreases profiles.len() - i,
{
    if i < 0 || i >= profiles.len() {
        None
    } else {
        let p = profiles[i];
        if p.source@ == source && (p.filename_glob@.len() == 0 || fits(lowercase_of(p.filename_glob@), lowercase_of(filename))) && takes(
            accounts,
            p.account_id,
        ) {
            Some(p.account_id)
        } else {
            profiled(profiles, source, filename, accounts, i + 1)
        }
    }
}

/// The account that files of a source and name land in. A channel names the account it pulled from
/// inside the file name, so its files do not share a source-level profile: an account nobody has
/// placed yet stays unknown instead of landing in the account of the first file that was imported.
pub open spec fn resolved(
    source: Seq<char>,
    filename: Seq<char>,
    profiles: Seq<ImportProfile>,
    connections: Seq<ConnectionAccount>,
    accounts: Seq<Account>,
) -> Option<i64> {
    if names_account(source) {
        None
    } else if source == "pluggy_json"@ {
        let id = match pluggy::named_in(filename) {
            Some(p) => connected(connections, "pluggy"@, p, 0),
            None => None,
        };
        if id is Some && takes(accounts, id->0) {
            id
        } else {
            None
        }
    } else {
        profiled(profiles, source, filename, accounts, 0)
    }
}

/// The account that files of a source and name land in, by profiles in the order of their globs, the
/// longest first, and of their hits: the longest matching filename glob wins, the source-level
/// default is the fallback. Closed or merged-away accounts drop out.
pub fn resolve_account(source: &str, filename: &str, profiles: &[ImportProfile], connections: &[ConnectionAccount], accounts: &[Account]) -> (r: Option<
    i64,
>)
    ensures
        r == resolved(source@, filename@, profiles@, connections@, accounts@),
{
    if is_envelope(source) {
        return None;
    }
    if same(source, "pluggy_json") {
        let id = match pluggy::provider_account_of(filename) {
            Some(p) => account_of(connections, "pluggy", p.as_str()),
            None => None,
        };
        return match id {
            Some(a) => if takes_statements(accounts, a) {
                Some(a)
            } else {
                None
            },
            None => None,
        };
    }
    let mut i: usize = 0;
    while i < profiles.len()
        invariant
            i <= profiles.len(),
            !names_account(source@),
            source@ != "pluggy_json"@,
            profiled(profiles@, source@, filename@, accounts@, 0) == profiled(profiles@, source@, filename@, accounts@, i as int),
        decreases profiles.len() - i,
    {
        let p = &profiles[i];
        if same(p.source.as_str(), source) && (p.filename_glob.as_str().is_empty() || glob_match(p.filename_glob.as_str(), filename))
            && takes_statements(accounts, p.account_id) {
            return Some(p.account_id);
        }
        i = i + 1;
    }
    None
}

/// What an import teaches about where files land.
#[derive(Debug)]
pub enum Lesson {
    Nothing,
    /// This Pluggy account's files belong to the account.
    Provider(String),
    /// The source gets a default.
    NewDefault,
    /// The source's default was right again.
    DefaultHit,
    /// Files of this shape belong to the account.
    Glob(String),
}

/// The account of the first default of a source, from `i` on.
pub open spec fn default_of(profiles: Seq<ImportProfile>, source: Seq<char>, i: int) -> Option<i64>
    decreases profiles.len() - i,
{
    if i < 0 || i >= profiles.len() {
        None
    } else if profiles[i].source@ == source && profiles[i].filename_glob@.len() == 0 {
        Some(profiles[i].account_id)
    } else {
        default_of(profiles, source, i + 1)
    }
}

/// Whether a lesson is what an import teaches. A bank source gets a source-level default; when the
/// source already lands elsewhere (two accounts at one bank), or the source is a generic CSV, the
/// filename's shape tells the files apart.
pub open spec fn teaches(l: Lesson, source: Seq<char>, filename: Seq<char>, account_id: i64, profiles: Seq<ImportProfile>) -> bool {
    let shape = shape_of(filename);
    if source.len() == 0 || source == "account_tracker"@ || names_account(source) {
        l is Nothing
    } else if source == "pluggy_json"@ {
        match pluggy::named_in(filename) {
            Some(p) => l matches Lesson::Provider(t) && t@ == p,
            None => l is Nothing,
        }
    } else if default_of(profiles, source, 0) is None && source != "generic_csv"@ {
        l is NewDefault
    } else if default_of(profiles, source, 0) == Some(account_id) {
        l is DefaultHit
    } else if shape.len() == 0 || shape == "*"@ {
        l is Nothing
    } else {
        l matches Lesson::Glob(t) && t@ == shape
    }
}

/// What to remember of where an import landed.
pub fn learn_profile(source: &str, filename: &str, account_id: i64, profiles: &[ImportProfile]) -> (r: Lesson)
    ensures
        teaches(r, source@, filename@, account_id, profiles@),
{
    if source.is_empty() || same(source, "account_tracker") || is_envelope(source) {
        return Lesson::Nothing;
    }
    if same(source, "pluggy_json") {
        return match pluggy::provider_account_of(filename) {
            Some(p) => Lesson::Provider(p),
            None => Lesson::Nothing,
        };
    }
    let mut i: usize = 0;
    let mut default: Option<i64> = None;
    while i < profiles.len() && default.is_none()
        invariant
            i <= profiles.len(),
            match default {
                Some(a) => default_of(profiles@, source@, 0) == Some(a),
                None => default_of(profiles@, source@, 0) == default_of(profiles@, source@, i as int),
            },
        decreases profiles.len() - i,
    {
        if same(profiles[i].source.as_str(), source) && profiles[i].filename_glob.as_str().is_empty() {
            default = Some(profiles[i].account_id);
        }
        i = i + 1;
    }
    match default {
        None => {
            if !same(source, "generic_csv") {
                return Lesson::NewDefault;
            }
        },
        Some(a) => {
            if a == account_id {
                return Lesson::DefaultHit;
            }
        },
    }
    let shape = glob_of(filename);
    if shape.as_str().is_empty() || same(shape.as_str(), "*") {
        return Lesson::Nothing;
    }
    Lesson::Glob(shape)
}

/// Why a file is not taken in. A .json file is a channel's own payload or nothing: anything else would
/// be a generic CSV, and such an import can never be completed.
pub open spec fn ignored(extension: Seq<char>, content: Seq<u8>) -> Option<Seq<char>> {
    if extension == "atb"@ {
        Some("an Account Tracker backup: import it with `means import`"@)
    } else if !(extension == "csv"@ || extension == "ofx"@ || extension == "qfx"@ || extension == "xml"@ || extension == "txt"@ || extension
        == "json"@) {
        Some("."@ + extension + " is not a statement file"@)
    } else if extension == "json"@ && !pluggy::from_channel(content) && !enable_banking::from_channel(content) && !mercury::from_channel(content)
        && bank_api::source_of(content) is None {
        Some("."@ + extension + " is not a statement file"@)
    } else {
        None
    }
}

/// Why a file with this extension, in lower case, is left where it lies.
pub fn ignore(extension: &str, content: &[u8]) -> (r: Option<String>)
    ensures
        opt_text(r) == ignored(extension@, content@),
{
    if same(extension, "atb") {
        return Some(own("an Account Tracker backup: import it with `means import`"));
    }
    let json = same(extension, "json");
    let known = same(extension, "csv") || same(extension, "ofx") || same(extension, "qfx") || same(extension, "xml") || same(extension, "txt") || json;
    if !known || (json && !pluggy::is_pluggy_file(content) && !enable_banking::is_file(content) && !mercury::is_file(content) && bank_api::source(
        content,
    ).is_none()) {
        return Some(cat3(".", extension, " is not a statement file"));
    }
    None
}

/// What is done with a file.
#[derive(Debug)]
pub enum Take {
    /// It was recorded before, as this import.
    Duplicate(i64),
    /// It is not a statement.
    Ignored,
    /// It is imported into an account.
    Import { source: String, account_id: i64 },
    /// It waits for an account.
    Pending { source: String },
}

/// The account of a file, by what it is or by what its source taught, or why that is refused.
pub open spec fn destination(
    source: Seq<char>,
    routing_name: Seq<char>,
    content: Seq<u8>,
    profiles: Seq<ImportProfile>,
    connections: Seq<ConnectionAccount>,
    accounts: Seq<Account>,
) -> std::result::Result<Option<i64>, Refusal> {
    let named = if source == "enable_banking_json"@ {
        Ok(
            match enable_banking::parse_of(content) {
                Ok(p) => connected(connections, "enable_banking"@, p.account_ref, 0),
                Err(_) => None,
            },
        )
    } else if source == "inter_pj_json"@ || source == "wise_json"@ {
        bank_api::routed(content, connections, accounts)
    } else if source == "mercury_json"@ {
        mercury::routed(content, connections, accounts)
    } else {
        Ok(resolved(source, routing_name, profiles, connections, accounts))
    };
    match named {
        Ok(Some(id)) => Ok(
            if takes(accounts, id) {
                Some(id)
            } else {
                None
            },
        ),
        other => other,
    }
}

fn find_destination(
    source: &str,
    routing_name: &str,
    content: &[u8],
    profiles: &[ImportProfile],
    connections: &[ConnectionAccount],
    accounts: &[Account],
) -> (r: Result<Option<i64>>)
    ensures
        match r {
            Ok(id) => destination(source@, routing_name@, content@, profiles@, connections@, accounts@) == Ok::<Option<i64>, Refusal>(id),
            Err(e) => destination(source@, routing_name@, content@, profiles@, connections@, accounts@) == Err::<Option<i64>, Refusal>(e@),
        },
{
    let named = if same(source, "enable_banking_json") {
        enable_banking::account_for_file(content, connections)
    } else if same(source, "inter_pj_json") || same(source, "wise_json") {
        match bank_api::account_for_file(content, connections, accounts) {
            Ok(id) => id,
            Err(e) => {
                return Err(e);
            },
        }
    } else if same(source, "mercury_json") {
        match mercury::account_for_file(content, connections, accounts) {
            Ok(id) => id,
            Err(e) => {
                return Err(e);
            },
        }
    } else {
        resolve_account(source, routing_name, profiles, connections, accounts)
    };
    match named {
        Some(id) => if takes_statements(accounts, id) {
            Ok(Some(id))
        } else {
            Ok(None)
        },
        None => Ok(None),
    }
}

/// Decides what is done with a file: a duplicate of a known import, an import into a learned account,
/// or one that waits. `routing_name` is the name by which profiles know the file.
pub fn take_file(
    name: &str,
    routing_name: &str,
    content: &[u8],
    known: Option<i64>,
    profiles: &[ImportProfile],
    connections: &[ConnectionAccount],
    accounts: &[Account],
) -> (r: Result<Take>)
    ensures
        ({
            let source = source_of(name@, content@);
            if known is Some {
                r matches Ok(Take::Duplicate(id)) && id == known->0
            } else if source == "account_tracker"@ {
                r matches Ok(Take::Ignored)
            } else {
                match destination(source, routing_name@, content@, profiles@, connections@, accounts@) {
                    Err(f) => r matches Err(e) && e@ == f,
                    Ok(Some(id)) => r matches Ok(Take::Import { source: s, account_id }) && s@ == source && account_id == id,
                    Ok(None) => r matches Ok(Take::Pending { source: s }) && s@ == source,
                }
            }
        }),
{
    if let Some(id) = known {
        return Ok(Take::Duplicate(id));
    }
    let source = detect_source(name, content);
    if same(source.as_str(), "account_tracker") {
        return Ok(Take::Ignored);
    }
    match find_destination(source.as_str(), routing_name, content, profiles, connections, accounts) {
        Ok(Some(account_id)) => Ok(Take::Import { source, account_id }),
        Ok(None) => Ok(Take::Pending { source }),
        Err(e) => Err(e),
    }
}

/// Checks that a waiting import can be finished.
pub fn check_pending(id: i64, status: &str, has_content: bool) -> (r: Result<()>)
    ensures
        if status@ != "pending"@ {
            r matches Err(e) && e.invalid("import #"@ + int_text(id as int) + " is "@ + status@ + "; only a pending import takes an account"@)
        } else if !has_content {
            r matches Err(e) && e.invalid("import #"@ + int_text(id as int) + " kept no file content"@)
        } else {
            r is Ok
        },
{
    if !same(status, "pending") {
        return Err(invalid(cat5("import #", int_string(id).as_str(), " is ", status, "; only a pending import takes an account").as_str()));
    }
    if !has_content {
        return Err(invalid(cat3("import #", int_string(id).as_str(), " kept no file content").as_str()));
    }
    Ok(())
}

/// Patterns in a row fit names in a row.
proof fn lemma_fits_both(a: Seq<char>, b: Seq<char>, x: Seq<char>, y: Seq<char>)
    requires
        fits(a, x),
        fits(b, y),
    ensures
        fits(a + b, x + y),
    decreases a.len() + x.len(),
{
    if a.len() == 0 {
        assert(a + b =~= b);
        assert(x + y =~= y);
    } else {
        assert((a + b)[0] == a[0]);
        assert((a + b).skip(1) =~= a.skip(1) + b);
        if a[0] == '*' {
            if fits(a.skip(1), x) {
                lemma_fits_both(a.skip(1), b, x, y);
            } else {
                assert((x + y).skip(1) =~= x.skip(1) + y);
                lemma_fits_both(a, b, x.skip(1), y);
            }
        } else {
            assert((x + y)[0] == x[0]);
            assert((x + y).skip(1) =~= x.skip(1) + y);
            lemma_fits_both(a.skip(1), b, x.skip(1), y);
        }
    }
}

/// A name that fits two patterns in a row falls into two parts, one for each.
proof fn lemma_fits_split(a: Seq<char>, b: Seq<char>, n: Seq<char>) -> (k: int)
    requires
        fits(a + b, n),
    ensures
        0 <= k <= n.len(),
        fits(a, n.take(k)),
        fits(b, n.skip(k)),
    decreases a.len() + n.len(),
{
    if a.len() == 0 {
        assert(a + b =~= b);
        assert(n.take(0) =~= Seq::<char>::empty());
        assert(n.skip(0) =~= n);
        0
    } else {
        assert((a + b)[0] == a[0]);
        assert((a + b).skip(1) =~= a.skip(1) + b);
        if a[0] == '*' && fits((a + b).skip(1), n) {
            lemma_fits_split(a.skip(1), b, n)
        } else {
            let k = if a[0] == '*' {
                lemma_fits_split(a, b, n.skip(1))
            } else {
                lemma_fits_split(a.skip(1), b, n.skip(1))
            };
            assert(n.take(k + 1)[0] == n[0]);
            assert(n.take(k + 1).skip(1) =~= n.skip(1).take(k));
            assert(n.skip(k + 1) =~= n.skip(1).skip(k));
            k + 1
        }
    }
}

/// A star fits anything.
proof fn lemma_star_fits(n: Seq<char>)
    ensures
        fits(seq!['*'], n),
    decreases n.len(),
{
    let g = seq!['*'];
    let none = g.skip(1);
    assert(none =~= Seq::<char>::empty());
    if n.len() > 0 {
        lemma_star_fits(n.skip(1));
        assert(fits(g, n.skip(1)));
    } else {
        assert(fits(none, n));
    }
    assert(g[0] == '*');
}

/// A text fits itself.
proof fn lemma_fits_itself(s: Seq<char>)
    ensures
        fits(s, s),
    decreases s.len(),
{
    if s.len() > 0 {
        lemma_fits_itself(s.skip(1));
        if s[0] == '*' {
            assert(fits(s, s.skip(1)));
        }
    }
}

/// A pattern that ends in a star fits whatever follows.
proof fn lemma_last_star(g: Seq<char>, n: Seq<char>, d: Seq<char>)
    requires
        g.len() > 0,
        g.last() == '*',
        fits(g, n),
    ensures
        fits(g, n + d),
{
    let head = g.drop_last();
    assert(head + seq!['*'] =~= g);
    let k = lemma_fits_split(head, seq!['*'], n);
    lemma_star_fits(n.skip(k) + d);
    lemma_fits_both(head, seq!['*'], n.take(k), n.skip(k) + d);
    assert(n.take(k) + (n.skip(k) + d) =~= n + d);
}

proof fn lemma_starred_fits(s: Seq<char>, i: int, out: Seq<char>)
    requires
        0 <= i <= s.len(),
        fits(out, s.take(i)),
    ensures
        fits(starred(s, i, out), s),
    decreases s.len() - i,
{
    if i == s.len() {
        assert(s.take(i) =~= s);
    } else if is_digit(s[i]) {
        lemma_digits_grow(s, i);
        let end = digits_from(s, i);
        let run = s.subrange(i, end);
        assert(s.take(i) + run =~= s.take(end));
        let bounded = (i == 0 || separates(s[i - 1])) && (end == s.len() || separates(s[end]));
        if !bounded {
            lemma_fits_itself(run);
            lemma_fits_both(out, run, s.take(i), run);
            lemma_starred_fits(s, end, out + run);
        } else if out.len() > 0 && out.last() == '*' {
            lemma_last_star(out, s.take(i), run);
            lemma_starred_fits(s, end, out);
        } else {
            lemma_star_fits(run);
            lemma_fits_both(out, seq!['*'], s.take(i), run);
            assert(out + seq!['*'] =~= out.push('*'));
            lemma_starred_fits(s, end, out.push('*'));
        }
    } else {
        let c = seq![s[i]];
        lemma_fits_itself(c);
        lemma_fits_both(out, c, s.take(i), c);
        assert(out + c =~= out.push(s[i]));
        assert(s.take(i) + c =~= s.take(i + 1));
        lemma_starred_fits(s, i + 1, out.push(s[i]));
    }
}

proof fn lemma_replaced_fits(g: Seq<char>, pattern: Seq<char>, i: int, n: Seq<char>)
    requires
        0 <= i <= g.len(),
        pattern.len() > 0,
        fits(g.skip(i), n),
    ensures
        fits(replaced_from(g, pattern, seq!['*'], i), n),
    decreases g.len() - i,
{
    lemma_position_within(g, pattern, i);
    match position(g, pattern, i) {
        None => {},
        Some(p) => {
            let u = g.subrange(i, p);
            let rest = g.skip(p + pattern.len());
            assert(g.skip(i) =~= u + (pattern + rest));
            let k = lemma_fits_split(u, pattern + rest, n);
            let m = n.skip(k);
            let j = lemma_fits_split(pattern, rest, m);
            lemma_star_fits(m.take(j));
            lemma_replaced_fits(g, pattern, p + pattern.len(), m.skip(j));
            let after = replaced_from(g, pattern, seq!['*'], p + pattern.len());
            lemma_fits_both(seq!['*'], after, m.take(j), m.skip(j));
            assert(m.take(j) + m.skip(j) =~= m);
            lemma_fits_both(u, seq!['*'] + after, n.take(k), m);
            assert(n.take(k) + m =~= n);
            assert(u + (seq!['*'] + after) =~= u + seq!['*'] + after);
        },
    }
}

proof fn lemma_collapsed_fits(g: Seq<char>, pattern: Seq<char>, n: Seq<char>)
    requires
        pattern.len() > 0,
        fits(g, n),
    ensures
        fits(collapsed(g, pattern), n),
    decreases g.len(),
{
    reveal_strlit("*");
    assert("*"@ =~= seq!['*']);
    if holds(g, pattern) && replaced(g, pattern, "*"@).len() < g.len() {
        assert(g.skip(0) =~= g);
        lemma_replaced_fits(g, pattern, 0, n);
        lemma_collapsed_fits(replaced(g, pattern, "*"@), pattern, n);
    }
}

/// The shape of a file name fits the name: what one import teaches holds of the same file again.
pub proof fn law_shape_fits(filename: Seq<char>)
    ensures
        fits(shape_of(filename), lowercase_of(filename)),
{
    let n = lowercase_of(filename);
    reveal_strlit("*-*");
    reveal_strlit("*_*");
    reveal_strlit("* *");
    reveal_strlit("*.*");
    reveal_strlit("**");
    assert(n.take(0) =~= Seq::<char>::empty());
    lemma_starred_fits(n, 0, Seq::empty());
    let a = starred(n, 0, Seq::empty());
    lemma_collapsed_fits(a, "*-*"@, n);
    let b = collapsed(a, "*-*"@);
    lemma_collapsed_fits(b, "*_*"@, n);
    let c = collapsed(b, "*_*"@);
    lemma_collapsed_fits(c, "* *"@, n);
    let d = collapsed(c, "* *"@);
    lemma_collapsed_fits(d, "*.*"@, n);
    lemma_collapsed_fits(collapsed(d, "*.*"@), "**"@, n);
}

} // verus!
