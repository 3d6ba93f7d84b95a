//! Builders for the gateway's request URLs. Names are validated, values are
//! percent-encoded, and SQL values travel as positional arguments.

use vstd::prelude::*;
use vstd::string::StringExecFns;
use crate::text::{
    is_identifier, is_valid_identifier, decimal, signed_decimal, url_encoded, url_encode,
    append_decimal, append_signed_decimal,
};

verus! {

/// The page size that the SQL helpers ask for.
pub const DEFAULT_PAGE_SIZE: u32 = 10;

/// A value bound to a `?` placeholder.
#[derive(Debug)]
pub enum SqlArg {
    Int(i64),
    Text(String),
}

/// The text in which an argument is sent.
pub open spec fn arg_text(a: SqlArg) -> Seq<char> {
    match a {
        SqlArg::Int(n) => signed_decimal(n as int),
        SqlArg::Text(s) => s@,
    }
}

/// Why a request could not be built.
#[derive(PartialEq, Eq, Structural, Clone, Copy, Debug)]
pub enum RequestError {
    /// A cache name is empty or holds a character other than an ASCII letter,
    /// digit or underscore.
    BadIdentifier,
    /// The statement's placeholders and the arguments differ in number.
    PlaceholderMismatch { placeholders: usize, args: usize },
    /// A page must hold at least one row.
    ZeroPageSize,
}

/// The cache administration commands.
#[derive(PartialEq, Eq, Structural, Clone, Copy, Debug)]
pub enum CacheCommand {
    /// Creates the cache unless it exists.
    GetOrCreate,
    /// Deletes the cache and everything in it.
    Destroy,
}

/// How many single quotes a text holds.
pub open spec fn quote_count(s: Seq<char>) -> nat
    decreases s.len(),
{
    if s.len() == 0 {
        0
    } else {
        quote_count(s.drop_last()) + if s.last() == '\'' {
            1nat
        } else {
            0nat
        }
    }
}

/// How many `?` placeholders a statement holds: a `?` inside a quoted
/// literal (after an odd number of quotes) is text, not a placeholder.
pub open spec fn placeholder_count(s: Seq<char>) -> nat
    decreases s.len(),
{
    if s.len() == 0 {
        0
    } else {
        placeholder_count(s.drop_last()) + if s.last() == '?' && quote_count(s.drop_last()) % 2
            == 0 {
            1nat
        } else {
            0nat
        }
    }
}

/// The query parameters `&arg1=..&argN=..` of a list of arguments.
pub open spec fn args_query(args: Seq<SqlArg>) -> Seq<char>
    decreases args.len(),
{
    if args.len() == 0 {
        Seq::empty()
    } else {
        args_query(args.drop_last()) + "&arg"@ + decimal(args.len()) + "="@ + url_encoded(
            arg_text(args.last()),
        )
    }
}

/// The optional `&schemaName=..` parameter.
pub open spec fn schema_query(schema: Option<Seq<char>>) -> Seq<char> {
    match schema {
        Some(name) => "&schemaName="@ + name,
        None => Seq::empty(),
    }
}

/// The text of an optional name.
pub open spec fn opt_view(o: Option<&str>) -> Option<Seq<char>> {
    match o {
        Some(s) => Some(s@),
        None => None,
    }
}

/// The URL of a SQL fields query.
pub open spec fn sql_url(
    base: Seq<char>,
    cache: Seq<char>,
    schema: Option<Seq<char>>,
    query: Seq<char>,
    args: Seq<SqlArg>,
    page_size: u32,
) -> Seq<char> {
    base + "?cmd=qryfldexe&cacheName="@ + cache + "&qry="@ + url_encoded(query) + "&pageSize="@
        + decimal(page_size as nat) + schema_query(schema) + args_query(args)
}

/// The outcome of building a SQL request, checks first.
pub open spec fn sql_request(
    base: Seq<char>,
    cache: Seq<char>,
    schema: Option<Seq<char>>,
    query: Seq<char>,
    args: Seq<SqlArg>,
    page_size: u32,
) -> Result<Seq<char>, RequestError> {
    if !is_identifier(cache) || (schema is Some && !is_identifier(schema->Some_0)) {
        Err(RequestError::BadIdentifier)
    } else if placeholder_count(query) != args.len() {
        Err(
            RequestError::PlaceholderMismatch {
                placeholders: placeholder_count(query) as usize,
                args: args.len() as usize,
            },
        )
    } else if page_size == 0 {
        Err(RequestError::ZeroPageSize)
    } else {
        Ok(sql_url(base, cache, schema, query, args, page_size))
    }
}

/// Views a built request as the text it holds.
pub open spec fn url_view(r: Result<String, RequestError>) -> Result<Seq<char>, RequestError> {
    match r {
        Ok(s) => Ok(s@),
        Err(e) => Err(e),
    }
}

/// Counts the `?` placeholders of a statement, outside quoted literals.
pub fn count_placeholders(s: &str) -> (r: usize)
    ensures
        r == placeholder_count(s@),
{
    let n = s.unicode_len();
    let mut count: usize = 0;
    let mut in_quote = false;
    let mut i: usize = 0;
    while i < n
        invariant
            n == s@.len(),
            i <= n,
            count <= i,
            count == placeholder_count(s@.subrange(0, i as int)),
            in_quote == (quote_count(s@.subrange(0, i as int)) % 2 == 1),
        decreases n - i,
    {
        let c = s.get_char(i);
        assert(s@.subrange(0, i + 1).drop_last() =~= s@.subrange(0, i as int));
        if c == '?' && !in_quote {
            count = count + 1;
        }
        if c == '\'' {
            in_quote = !in_quote;
        }
        i = i + 1;
    }
    assert(s@.subrange(0, n as int) =~= s@);
    count
}

fn append_arg(out: &mut String, a: &SqlArg)
    ensures
        final(out)@ == old(out)@ + url_encoded(arg_text(*a)),
{
    match a {
        SqlArg::Int(n) => {
            let mut digits = String::new();
            append_signed_decimal(&mut digits, *n);
            assert(digits@ =~= signed_decimal(*n as int));
            let enc = url_encode(digits.as_str());
            out.append(enc.as_str());
        },
        SqlArg::Text(t) => {
            let enc = url_encode(t.as_str());
            out.append(enc.as_str());
        },
    }
}

/// Builds the URL of a SQL fields query on the gateway at `base`, in cache
/// `cache` and, where one is given, schema `schema`, with `args` bound in
/// order to the `?` placeholders of `query`; the first page holds at most
/// `page_size` rows.
pub fn sql_query_url(
    base: &str,
    cache: &str,
    schema: Option<&str>,
    query: &str,
    args: &Vec<SqlArg>,
    page_size: u32,
) -> (r: Result<String, RequestError>)
    ensures
        url_view(r) == sql_request(base@, cache@, opt_view(schema), query@, args@, page_size),
{
    if !is_valid_identifier(cache) {
        return Err(RequestError::BadIdentifier);
    }
    if let Some(name) = schema {
        if !is_valid_identifier(name) {
            return Err(RequestError::BadIdentifier);
        }
    }
    let placeholders = count_placeholders(query);
    if placeholders != args.len() {
        return Err(RequestError::PlaceholderMismatch { placeholders, args: args.len() });
    }
    if page_size == 0 {
        return Err(RequestError::ZeroPageSize);
    }
    let mut out = String::from_str(base);
    out.append("?cmd=qryfldexe&cacheName=");
    out.append(cache);
    out.append("&qry=");
    let enc = url_encode(query);
    out.append(enc.as_str());
    out.append("&pageSize=");
    append_decimal(&mut out, page_size as u64);
    if let Some(name) = schema {
        out.append("&schemaName=");
        out.append(name);
    }
    let ghost head = out@;
    assert(head =~= base@ + "?cmd=qryfldexe&cacheName="@ + cache@ + "&qry="@ + url_encoded(query@)
        + "&pageSize="@ + decimal(page_size as nat) + schema_query(opt_view(schema)));
    let n = args.len();
    let mut i: usize = 0;
    while i < n
        invariant
            n == args@.len(),
            i <= n,
            out@ == head + args_query(args@.subrange(0, i as int)),
        decreases n - i,
    {
        out.append("&arg");
        append_decimal(&mut out, (i + 1) as u64);
        out.append("=");
        append_arg(&mut out, &args[i]);
        i = i + 1;
        let ghost sub = args@.subrange(0, i as int);
        assert(sub.drop_last() =~= args@.subrange(0, i - 1));
        assert(out@ =~= head + args_query(sub));
    }
    assert(args@.subrange(0, n as int) =~= args@);
    assert(out@ =~= sql_url(base@, cache@, opt_view(schema), query@, args@, page_size));
    Ok(out)
}

/// A DDL statement (CREATE TABLE, DROP TABLE, ...) in cache `cache`: no
/// arguments.
pub fn ddl_url(base: &str, cache: &str, statement: &str) -> (r: Result<String, RequestError>)
    ensures
        url_view(r) == sql_request(base@, cache@, None, statement@, Seq::empty(), DEFAULT_PAGE_SIZE),
{
    let args: Vec<SqlArg> = Vec::new();
    let r = sql_query_url(base, cache, None, statement, &args, DEFAULT_PAGE_SIZE);
    assert(args@ =~= Seq::<SqlArg>::empty());
    r
}

/// A DML statement (INSERT, UPDATE, DELETE) in cache `cache`, with
/// positional arguments.
pub fn dml_url(base: &str, cache: &str, statement: &str, args: &Vec<SqlArg>) -> (r: Result<
    String,
    RequestError,
>)
    ensures
        url_view(r) == sql_request(base@, cache@, None, statement@, args@, DEFAULT_PAGE_SIZE),
{
    sql_query_url(base, cache, None, statement, args, DEFAULT_PAGE_SIZE)
}

/// The command word of a cache administration command.
pub open spec fn command_word(c: CacheCommand) -> Seq<char> {
    match c {
        CacheCommand::GetOrCreate => "getorcreate"@,
        CacheCommand::Destroy => "destcache"@,
    }
}

/// The outcome of building a request on a named cache: the name is checked,
/// then `tail` follows it.
pub open spec fn cache_request(base: Seq<char>, cmd: Seq<char>, cache: Seq<char>, tail: Seq<char>) -> Result<
    Seq<char>,
    RequestError,
> {
    if is_identifier(cache) {
        Ok(base + "?cmd="@ + cmd + "&cacheName="@ + cache + tail)
    } else {
        Err(RequestError::BadIdentifier)
    }
}

fn cache_url_with(base: &str, cmd: &str, cache: &str) -> (r: Result<String, RequestError>)
    ensures
        url_view(r) == cache_request(base@, cmd@, cache@, Seq::empty()),
{
    if !is_valid_identifier(cache) {
        return Err(RequestError::BadIdentifier);
    }
    let mut out = String::from_str(base);
    out.append("?cmd=");
    out.append(cmd);
    out.append("&cacheName=");
    out.append(cache);
    assert(out@ =~= base@ + "?cmd="@ + cmd@ + "&cacheName="@ + cache@ + Seq::<char>::empty());
    Ok(out)
}

/// Builds the URL of a cache administration command.
pub fn cache_command_url(base: &str, command: CacheCommand, cache: &str) -> (r: Result<
    String,
    RequestError,
>)
    ensures
        url_view(r) == cache_request(base@, command_word(command), cache@, Seq::empty()),
{
    match command {
        CacheCommand::GetOrCreate => cache_url_with(base, "getorcreate", cache),
        CacheCommand::Destroy => cache_url_with(base, "destcache", cache),
    }
}

/// Builds the URL that stores `value` under `key`, replacing what was there.
pub fn put_url(base: &str, cache: &str, key: &str, value: &str) -> (r: Result<String, RequestError>)
    ensures
        url_view(r) == cache_request(
            base@,
            "put"@,
            cache@,
            "&key="@ + url_encoded(key@) + "&val="@ + url_encoded(value@),
        ),
{
    let mut out = match cache_url_with(base, "put", cache) {
        Ok(s) => s,
        Err(e) => {
            return Err(e);
        },
    };
    out.append("&key=");
    let k = url_encode(key);
    out.append(k.as_str());
    out.append("&val=");
    let v = url_encode(value);
    out.append(v.as_str());
    assert(out@ =~= base@ + "?cmd="@ + "put"@ + "&cacheName="@ + cache@ + ("&key="@ + url_encoded(
        key@,
    ) + "&val="@ + url_encoded(value@)));
    Ok(out)
}

/// Builds the URL that looks `key` up.
pub fn get_url(base: &str, cache: &str, key: &str) -> (r: Result<String, RequestError>)
    ensures
        url_view(r) == cache_request(base@, "get"@, cache@, "&key="@ + url_encoded(key@)),
{
    let mut out = match cache_url_with(base, "get", cache) {
        Ok(s) => s,
        Err(e) => {
            return Err(e);
        },
    };
    out.append("&key=");
    let k = url_encode(key);
    out.append(k.as_str());
    assert(out@ =~= base@ + "?cmd="@ + "get"@ + "&cacheName="@ + cache@ + ("&key="@ + url_encoded(
        key@,
    )));
    Ok(out)
}

} // verus!
