//! Client drivers: their names and features, connection strings, and
//! transactions.
//!
//! A connection string is a list of `key=value` settings separated by
//! `;`. Keys are compared after trimming white space and lowercasing;
//! `data_dir` (or `datadir`) sets the data directory and `port` the port
//! (8080 when the value is not a port number); other settings and pieces
//! without `=` are ignored, and a later setting overrides an earlier one.

use vstd::prelude::*;
use vstd::string::{StrSliceExecFns, StringExecFns};
use crate::format::{signed_decimal, signed_decimal_string};
use crate::text::{is_whitespace, owned, push_char, str_eq, to_lowercase, unicode_lowercase, unicode_whitespace};

verus! {

/// Transaction isolation levels.
#[derive(Debug, Clone, Copy, PartialEq, Eq, Structural)]
pub enum IsolationLevel {
    ReadUncommitted,
    ReadCommitted,
    RepeatableRead,
    Serializable,
}

/// Features a driver supports.
#[derive(Debug, Clone, Copy, PartialEq, Eq, Structural)]
pub enum DriverFeature {
    Transactions,
    PreparedStatements,
    AsyncOperations,
    ConnectionPooling,
    SSL,
    Compression,
    ReferentialActions,
    Sequences,
    Views,
    Triggers,
    AlterTable,
    ReturningClause,
    GroupByQuery,
    InformationSchema,
    TruncateCascade,
    ExtendedDataTypes,
}

/// A transaction opened through a driver.
#[derive(Debug)]
pub struct Transaction {
    pub id: String,
    pub isolation_level: IsolationLevel,
}

/// What a connection string sets.
#[derive(Debug)]
pub struct ConnectionSettings {
    /// Data directory (default `./data`).
    pub data_dir: String,
    /// Port (default 8080).
    pub port: u16,
}

/// The pieces of `s` between the separators `sep`, in order; there is one
/// more piece than separators.
pub open spec fn split_on(s: Seq<char>, sep: char) -> Seq<Seq<char>>
    decreases s.len(),
{
    if s.len() == 0 {
        seq![Seq::empty()]
    } else {
        let prev = split_on(s.drop_last(), sep);
        if s.last() == sep {
            prev.push(Seq::empty())
        } else {
            prev.update(prev.len() - 1, prev.last().push(s.last()))
        }
    }
}

/// `s` without the white space that begins it.
pub open spec fn trim_start(s: Seq<char>) -> Seq<char>
    decreases s.len(),
{
    if s.len() > 0 && unicode_whitespace(s[0]) {
        trim_start(s.drop_first())
    } else {
        s
    }
}

/// `s` without the white space that ends it.
pub open spec fn trim_end(s: Seq<char>) -> Seq<char>
    decreases s.len(),
{
    if s.len() > 0 && unicode_whitespace(s.last()) {
        trim_end(s.drop_last())
    } else {
        s
    }
}

/// `s` without white space at either end.
pub open spec fn trim(s: Seq<char>) -> Seq<char> {
    trim_end(trim_start(s))
}

/// The value of a string of decimal digits.
pub open spec fn digits_value(d: Seq<char>) -> nat
    decreases d.len(),
{
    if d.len() == 0 {
        0
    } else {
        digits_value(d.drop_last()) * 10 + (d.last() as nat - '0' as nat) as nat
    }
}

/// Whether every character is an ASCII digit.
pub open spec fn all_digits(d: Seq<char>) -> bool {
    forall|i: int| 0 <= i < d.len() ==> '0' <= #[trigger] d[i] <= '9'
}

/// The port number a string denotes, as `u16`'s parser reads it: an
/// optional `+`, then one or more ASCII digits, worth at most 65535.
pub open spec fn port_value(s: Seq<char>) -> Option<u16> {
    let d = if s.len() > 0 && s[0] == '+' {
        s.drop_first()
    } else {
        s
    };
    if d.len() > 0 && all_digits(d) && digits_value(d) <= 65535 {
        Some(digits_value(d) as u16)
    } else {
        None
    }
}

/// The position of the first `=` in a piece, if any.
pub open spec fn eq_index(p: Seq<char>) -> Option<int> {
    if exists|i: int| 0 <= i < p.len() && p[i] == '=' {
        Some(choose|i: int| 0 <= i < p.len() && p[i] == '=' && forall|j: int| 0 <= j < i ==> p[j] != '=')
    } else {
        None
    }
}

/// The settings after one piece of a connection string.
pub open spec fn apply_setting(settings: (Seq<char>, u16), piece: Seq<char>) -> (Seq<char>, u16) {
    match eq_index(piece) {
        None => settings,
        Some(i) => {
            let key = unicode_lowercase(trim(piece.take(i)));
            let value = trim(piece.skip(i + 1));
            if key == "data_dir"@ || key == "datadir"@ {
                (value, settings.1)
            } else if key == "port"@ {
                (settings.0, match port_value(value) {
                    Some(p) => p,
                    None => 8080u16,
                })
            } else {
                settings
            }
        },
    }
}

/// The settings after every piece, from the defaults.
pub open spec fn settings_after(pieces: Seq<Seq<char>>) -> (Seq<char>, u16)
    decreases pieces.len(),
{
    if pieces.len() == 0 {
        ("./data"@, 8080u16)
    } else {
        apply_setting(settings_after(pieces.drop_last()), pieces.last())
    }
}

/// `s` without white space at either end.
pub fn trim_text(s: &str) -> (r: String)
    ensures
        r@ == trim(s@),
{
    let n = s.unicode_len();
    let mut a: usize = 0;
    assert(s@.skip(0) =~= s@);
    while a < n && is_whitespace(s.get_char(a))
        invariant
            n == s@.len(),
            a <= n,
            trim_start(s@.skip(a as int)) == trim_start(s@),
        decreases n - a,
    {
        assert(s@.skip(a as int).drop_first() =~= s@.skip(a + 1));
        a = a + 1;
    }
    proof {
        assert(s@.skip(0) =~= s@);
    }
    let mut b: usize = n;
    assert(s@.subrange(a as int, n as int) =~= s@.skip(a as int));
    while b > a && is_whitespace(s.get_char(b - 1))
        invariant
            n == s@.len(),
            a <= b <= n,
            trim_end(s@.subrange(a as int, b as int)) == trim(s@),
        decreases b - a,
    {
        assert(s@.subrange(a as int, b as int).drop_last() =~= s@.subrange(a as int, b - 1));
        b = b - 1;
    }
    s.substring_char(a, b).to_owned()
}

/// The port number a string denotes, if any.
pub fn parse_port(s: &str) -> (r: Option<u16>)
    ensures
        r == port_value(s@),
{
    let n = s.unicode_len();
    let start: usize = if n > 0 && s.get_char(0) == '+' {
        1
    } else {
        0
    };
    let ghost d = s@.skip(start as int);
    proof {
        if start == 1 {
            assert(d =~= s@.drop_first());
        } else {
            assert(d =~= s@);
        }
    }
    if start == n {
        return None;
    }
    let mut acc: u32 = 0;
    let mut i: usize = start;
    while i < n
        invariant
            n == s@.len(),
            start <= i <= n,
            d == s@.skip(start as int),
            d == (if s@.len() > 0 && s@[0] == '+' {
                s@.drop_first()
            } else {
                s@
            }),
            all_digits(s@.subrange(start as int, i as int)),
            acc == if digits_value(s@.subrange(start as int, i as int)) < 65536 {
                digits_value(s@.subrange(start as int, i as int))
            } else {
                65536
            },
        decreases n - i,
    {
        let c = s.get_char(i);
        if !('0' <= c && c <= '9') {
            proof {
                let j = i - start;
                assert(d[j] == s@[i as int]);
                assert(!('0' <= d[j] <= '9'));
                assert(!all_digits(d));
                assert(port_value(s@) is None);
            }
            return None;
        }
        let digit: u32 = (c as u32) - ('0' as u32);
        let ghost prefix = s@.subrange(start as int, i + 1);
        assert(prefix.drop_last() =~= s@.subrange(start as int, i as int));
        acc = if acc >= 65536 {
            65536
        } else if acc * 10 + digit >= 65536 {
            65536
        } else {
            acc * 10 + digit
        };
        i = i + 1;
    }
    assert(s@.subrange(start as int, n as int) =~= d);
    if acc > 65535 {
        None
    } else {
        Some(acc as u16)
    }
}

/// The pieces of `s` between the separators `sep`.
pub fn split_text(s: &str, sep: char) -> (r: Vec<String>)
    ensures
        r@.map_values(|p: String| p@) == split_on(s@, sep),
{
    let n = s.unicode_len();
    let mut pieces: Vec<String> = Vec::new();
    let mut current = String::new();
    let mut i: usize = 0;
    assert(s@.take(0) =~= Seq::<char>::empty());
    while i < n
        invariant
            n == s@.len(),
            i <= n,
            pieces@.map_values(|p: String| p@).push(current@) == split_on(s@.take(i as int), sep),
        decreases n - i,
    {
        let c = s.get_char(i);
        assert(s@.take(i + 1).drop_last() =~= s@.take(i as int));
        let ghost before = pieces@.map_values(|p: String| p@);
        let ghost cur = current@;
        if c == sep {
            let mut done = String::new();
            std::mem::swap(&mut done, &mut current);
            pieces.push(done);
            assert(pieces@.map_values(|p: String| p@) =~= before.push(cur));
            assert(pieces@.map_values(|p: String| p@).push(current@) =~= before.push(cur).push(Seq::empty()));
        } else {
            push_char(&mut current, c);
            assert(before.push(cur).update(before.len() as int, cur.push(c)) =~= before.push(cur.push(c)));
        }
        i = i + 1;
    }
    assert(s@.take(n as int) =~= s@);
    let ghost before = pieces@.map_values(|p: String| p@);
    let ghost cur = current@;
    pieces.push(current);
    assert(pieces@.map_values(|p: String| p@) =~= before.push(cur));
    pieces
}

/// Reads a connection string: see the module's description.
pub fn parse_connection_string(s: &str) -> (c: ConnectionSettings)
    ensures
        c.data_dir@ == settings_after(split_on(s@, ';')).0,
        c.port == settings_after(split_on(s@, ';')).1,
{
    let pieces = split_text(s, ';');
    let ghost ps = pieces@.map_values(|p: String| p@);
    let mut data_dir = owned("./data");
    let mut port: u16 = 8080;
    let mut k: usize = 0;
    assert(ps.take(0) =~= Seq::<Seq<char>>::empty());
    while k < pieces.len()
        invariant
            ps == pieces@.map_values(|p: String| p@),
            k <= pieces@.len(),
            (data_dir@, port) == settings_after(ps.take(k as int)),
        decreases pieces@.len() - k,
    {
        assert(ps.take(k + 1).drop_last() =~= ps.take(k as int));
        assert(ps.take(k + 1).last() == pieces@[k as int]@);
        let piece = pieces[k].as_str();
        match crate::text::find_char(piece, '=') {
            None => {},
            Some(i) => {
                let n = piece.unicode_len();
                let raw_key = piece.substring_char(0, i);
                let raw_value = piece.substring_char(i + 1, n);
                assert(raw_key@ =~= piece@.take(i as int));
                assert(raw_value@ =~= piece@.skip(i + 1));
                let trimmed = trim_text(raw_key);
                let key = to_lowercase(trimmed.as_str());
                let value = trim_text(raw_value);
                if str_eq(key.as_str(), "data_dir") || str_eq(key.as_str(), "datadir") {
                    data_dir = value;
                } else if str_eq(key.as_str(), "port") {
                    port = match parse_port(value.as_str()) {
                        Some(p) => p,
                        None => 8080,
                    };
                }
            },
        }
        k = k + 1;
    }
    assert(ps.take(ps.len() as int) =~= ps);
    ConnectionSettings { data_dir, port }
}

/// The transaction a driver opens at time `now_nanos`: its id is the
/// driver's prefix followed by the time, and it reads committed data.
pub fn begin_transaction_at(prefix: &str, now_nanos: i64) -> (t: Transaction)
    ensures
        t.id@ == prefix@ + signed_decimal(now_nanos as int),
        t.isolation_level == IsolationLevel::ReadCommitted,
{
    let mut id = owned(prefix);
    let digits = signed_decimal_string(now_nanos);
    id.append(digits.as_str());
    Transaction { id, isolation_level: IsolationLevel::ReadCommitted }
}

/// The features every driver has.
pub open spec fn common_features() -> Seq<DriverFeature> {
    seq![
        DriverFeature::ReferentialActions,
        DriverFeature::Sequences,
        DriverFeature::Views,
        DriverFeature::Triggers,
        DriverFeature::AlterTable,
        DriverFeature::ReturningClause,
        DriverFeature::GroupByQuery,
        DriverFeature::InformationSchema,
        DriverFeature::TruncateCascade,
        DriverFeature::ExtendedDataTypes,
    ]
}

/// `lead` followed by the features every driver has.
fn features_with(lead: Vec<DriverFeature>) -> (r: Vec<DriverFeature>)
    ensures
        r@ == lead@ + common_features(),
{
    let mut r = lead;
    let ghost l = r@;
    r.push(DriverFeature::ReferentialActions);
    r.push(DriverFeature::Sequences);
    r.push(DriverFeature::Views);
    r.push(DriverFeature::Triggers);
    r.push(DriverFeature::AlterTable);
    r.push(DriverFeature::ReturningClause);
    r.push(DriverFeature::GroupByQuery);
    r.push(DriverFeature::InformationSchema);
    r.push(DriverFeature::TruncateCascade);
    r.push(DriverFeature::ExtendedDataTypes);
    assert(r@ =~= l + common_features());
    r
}

/// The Rust driver.
pub struct RustDriver;

/// The Python driver.
pub struct PythonDriver;

/// The Node.js driver.
pub struct NodeDriver;

/// The Java driver.
pub struct JavaDriver;

/// The Ruby driver.
pub struct RubyDriver;

impl RustDriver {
    /// The driver's name.
    pub fn driver_name(&self) -> (s: &'static str)
        ensures
            s@ == "rust"@,
    {
        "rust"
    }

    /// Transactions, asynchronous operations and connection pooling, then
    /// the common features.
    pub fn supported_features(&self) -> (r: Vec<DriverFeature>)
        ensures
            r@ == seq![DriverFeature::Transactions, DriverFeature::AsyncOperations, DriverFeature::ConnectionPooling]
                + common_features(),
    {
        features_with(vec![DriverFeature::Transactions, DriverFeature::AsyncOperations, DriverFeature::ConnectionPooling])
    }

    /// A transaction `tx_<now_nanos>`.
    pub fn begin_transaction_at(&self, now_nanos: i64) -> (t: Transaction)
        ensures
            t.id@ == "tx_"@ + signed_decimal(now_nanos as int),
            t.isolation_level == IsolationLevel::ReadCommitted,
    {
        begin_transaction_at("tx_", now_nanos)
    }
}

impl PythonDriver {
    /// The driver's name.
    pub fn driver_name(&self) -> (s: &'static str)
        ensures
            s@ == "python"@,
    {
        "python"
    }

    /// Transactions, prepared statements and asynchronous operations, then
    /// the common features.
    pub fn supported_features(&self) -> (r: Vec<DriverFeature>)
        ensures
            r@ == seq![DriverFeature::Transactions, DriverFeature::PreparedStatements, DriverFeature::AsyncOperations]
                + common_features(),
    {
        features_with(
            vec![DriverFeature::Transactions, DriverFeature::PreparedStatements, DriverFeature::AsyncOperations],
        )
    }

    /// A transaction `py_tx_<now_nanos>`.
    pub fn begin_transaction_at(&self, now_nanos: i64) -> (t: Transaction)
        ensures
            t.id@ == "py_tx_"@ + signed_decimal(now_nanos as int),
            t.isolation_level == IsolationLevel::ReadCommitted,
    {
        begin_transaction_at("py_tx_", now_nanos)
    }
}

impl NodeDriver {
    /// The driver's name.
    pub fn driver_name(&self) -> (s: &'static str)
        ensures
            s@ == "node"@,
    {
        "node"
    }

    /// Transactions, asynchronous operations and connection pooling, then
    /// the common features.
    pub fn supported_features(&self) -> (r: Vec<DriverFeature>)
        ensures
            r@ == seq![DriverFeature::Transactions, DriverFeature::AsyncOperations, DriverFeature::ConnectionPooling]
                + common_features(),
    {
        features_with(vec![DriverFeature::Transactions, DriverFeature::AsyncOperations, DriverFeature::ConnectionPooling])
    }

    /// A transaction `node_tx_<now_nanos>`.
    pub fn begin_transaction_at(&self, now_nanos: i64) -> (t: Transaction)
        ensures
            t.id@ == "node_tx_"@ + signed_decimal(now_nanos as int),
            t.isolation_level == IsolationLevel::ReadCommitted,
    {
        begin_transaction_at("node_tx_", now_nanos)
    }
}

impl JavaDriver {
    /// The driver's name.
    pub fn driver_name(&self) -> (s: &'static str)
        ensures
            s@ == "java"@,
    {
        "java"
    }

    /// Transactions, prepared statements, SSL and connection pooling, then
    /// the common features.
    pub fn supported_features(&self) -> (r: Vec<DriverFeature>)
        ensures
            r@ == seq![
                DriverFeature::Transactions,
                DriverFeature::PreparedStatements,
                DriverFeature::SSL,
                DriverFeature::ConnectionPooling,
            ] + common_features(),
    {
        features_with(
            vec![
                DriverFeature::Transactions,
                DriverFeature::PreparedStatements,
                DriverFeature::SSL,
                DriverFeature::ConnectionPooling,
            ],
        )
    }

    /// A transaction `java_tx_<now_nanos>`.
    pub fn begin_transaction_at(&self, now_nanos: i64) -> (t: Transaction)
        ensures
            t.id@ == "java_tx_"@ + signed_decimal(now_nanos as int),
            t.isolation_level == IsolationLevel::ReadCommitted,
    {
        begin_transaction_at("java_tx_", now_nanos)
    }
}

impl RubyDriver {
    /// The driver's name.
    pub fn driver_name(&self) -> (s: &'static str)
        ensures
            s@ == "ruby"@,
    {
        "ruby"
    }

    /// Transactions and asynchronous operations, then the common features.
    pub fn supported_features(&self) -> (r: Vec<DriverFeature>)
        ensures
            r@ == seq![DriverFeature::Transactions, DriverFeature::AsyncOperations] + common_features(),
    {
        features_with(vec![DriverFeature::Transactions, DriverFeature::AsyncOperations])
    }

    /// A transaction `ruby_tx_<now_nanos>`.
    pub fn begin_transaction_at(&self, now_nanos: i64) -> (t: Transaction)
        ensures
            t.id@ == "ruby_tx_"@ + signed_decimal(now_nanos as int),
            t.isolation_level == IsolationLevel::ReadCommitted,
    {
        begin_transaction_at("ruby_tx_", now_nanos)
    }
}

} // verus!
