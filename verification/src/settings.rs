//! The settings that the program starts with.

use vstd::prelude::*;
use crate::number::parse_integer;
use crate::text::split;

verus! {

/// The port of the health endpoints where no other is given.
pub const DEFAULT_PORT: u16 = 8000;

/// The address of the feed: the one from the environment, else the one from the command
/// line, else the built-in one.
pub fn choose_url(env: Option<String>, arg: Option<String>, built_in: String) -> (r: String)
    ensures
        r == (match (env, arg) {
            (Some(url), _) => url,
            (None, Some(url)) => url,
            (None, None) => built_in,
        }),
{
    match env {
        Some(url) => url,
        None => match arg {
            Some(url) => url,
            None => built_in,
        },
    }
}

/// The port that the text `s` names, if it names one.
pub open spec fn port_of(s: Option<Seq<char>>) -> u16 {
    match s {
        Some(text) => match crate::number::integer_of(text, 10, u16::MAX as nat) {
            Some(n) => n as u16,
            None => DEFAULT_PORT,
        },
        None => DEFAULT_PORT,
    }
}

/// The port of the health endpoints: the one from the environment, if it is a port.
pub fn choose_port(env: Option<&str>) -> (r: u16)
    ensures
        env matches Some(text) ==> r == port_of(Some(text@)),
        env is None ==> r == port_of(None),
{
    match env {
        Some(text) => match parse_integer(text, 10, 65535) {
            Some(n) => n as u16,
            None => DEFAULT_PORT,
        },
        None => DEFAULT_PORT,
    }
}

/// The server in an address: what stands between its second and its third slash.
pub open spec fn node_of(url: Seq<char>) -> Seq<char> {
    let parts = crate::text::pieces(url, '/');
    if parts.len() > 2 {
        parts[2]
    } else {
        "?"@
    }
}

/// Names the server in an address.
pub fn node_name(url: &str) -> (r: String)
    ensures
        r@ == node_of(url@),
{
    let parts = split(url, '/');
    let ghost p = parts@.map_values(|s: String| s@);
    if parts.len() > 2 {
        assert(p[2] == parts[2]@);
        parts[2].clone()
    } else {
        "?".to_owned()
    }
}

/// The port is the number that the environment gives, if it is a decimal number that a port
/// can have, and 8000 otherwise.
pub proof fn lemma_port(text: Seq<char>)
    ensures
        match crate::number::integer_of(text, 10, 65535) {
            Some(n) => port_of(Some(text)) as nat == n,
            None => port_of(Some(text)) == 8000,
        },
        port_of(None) == 8000,
{
}

/// Every port is read back from its decimal numeral.
pub proof fn lemma_port_reads_back(port: u16)
    ensures
        port_of(Some(crate::number::numeral(port as nat, 10))) == port,
{
    crate::number::lemma_numeral_reads_back(port as nat, 10, 65535);
}

/// The server is what stands behind the second slash of an address, up to the third one or
/// to the end.
pub proof fn lemma_node(a: Seq<char>, b: Seq<char>, host: Seq<char>, path: Seq<char>)
    requires
        !a.contains('/'),
        !b.contains('/'),
        !host.contains('/'),
    ensures
        node_of(a.push('/') + (b.push('/') + host)) == host,
        node_of(a.push('/') + (b.push('/') + (host.push('/') + path))) == host,
{
    lemma_one_piece(a);
    lemma_one_piece(b);
    lemma_one_piece(host);
    crate::text::lemma_pieces_around(host, path, '/');
    crate::text::lemma_pieces_around(b, host, '/');
    crate::text::lemma_pieces_around(b, host.push('/') + path, '/');
    crate::text::lemma_pieces_around(a, b.push('/') + host, '/');
    crate::text::lemma_pieces_around(a, b.push('/') + (host.push('/') + path), '/');
}

/// An address with fewer than two slashes names no server.
pub proof fn lemma_no_node(a: Seq<char>, b: Seq<char>)
    requires
        !a.contains('/'),
        !b.contains('/'),
    ensures
        node_of(a) == "?"@,
        node_of(a.push('/') + b) == "?"@,
{
    lemma_one_piece(a);
    lemma_one_piece(b);
    crate::text::lemma_pieces_around(a, b, '/');
}

proof fn lemma_one_piece(s: Seq<char>)
    requires
        !s.contains('/'),
    ensures
        crate::text::pieces(s, '/') == seq![s],
{
    crate::text::lemma_pieces_in_front(s, Seq::empty(), '/');
    assert(s + Seq::<char>::empty() == s);
    assert(crate::text::pieces(s, '/') =~= seq![s]);
}

/// An address from the environment is taken whatever else is given, one from the command line
/// only without it, and the built-in one only without both.
pub proof fn lemma_url(env: Option<String>, arg: Option<String>, built_in: String, r: String)
    requires
        call_ensures(choose_url, (env, arg, built_in), r),
    ensures
        env is Some ==> Some(r) == env,
        env is None && arg is Some ==> Some(r) == arg,
        env is None && arg is None ==> r == built_in,
{
}

/// The port that is chosen is the one that the environment names, if it names one.
pub proof fn lemma_port_chosen(env: &str, r: u16, s: u16)
    requires
        call_ensures(choose_port, (Some(env),), r),
        call_ensures(choose_port, (None,), s),
    ensures
        r as nat == crate::number::integer_of(env@, 10, 65535).unwrap_or(8000),
        s == 8000,
{
    lemma_port(env@);
}

/// The server that is named stands behind the second slash of the address.
pub proof fn lemma_node_named(url: &str, a: Seq<char>, b: Seq<char>, host: Seq<char>, r: String)
    requires
        !a.contains('/'),
        !b.contains('/'),
        !host.contains('/'),
        url@ == a.push('/') + (b.push('/') + host),
        call_ensures(node_name, (url,), r),
    ensures
        r@ == host,
{
    lemma_node(a, b, host, Seq::empty());
}

} // verus!
