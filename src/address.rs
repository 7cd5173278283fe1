//! Listen and target addresses, written `scheme://address`, and the
//! protocol a service speaks.
use vstd::prelude::*;
use crate::text::{chars_of, string_from_chars, slice_chars, append_chars, find_first, first_occurrence};

verus! {

/// What makes a service's configuration unusable.
#[derive(PartialEq, Eq, Structural, Debug, Clone, Copy)]
pub enum ConfigError {
    /// The address has no `://`.
    MissingScheme,
    /// The address names a scheme other than `tcp` or `unix`.
    UnsupportedScheme,
    /// The protocol is neither `tcp` nor `http`.
    UnsupportedProtocol,
}

/// The transport an address selects.
#[derive(PartialEq, Eq, Structural, Debug, Clone, Copy)]
pub enum Transport {
    Tcp,
    Unix,
}

pub open spec fn scheme_separator() -> Seq<char> {
    seq![':', '/', '/']
}

pub open spec fn scheme_name(t: Transport) -> Seq<char> {
    match t {
        Transport::Tcp => seq!['t', 'c', 'p'],
        Transport::Unix => seq!['u', 'n', 'i', 'x'],
    }
}

/// Reads `scheme://address`: the scheme is the text before the first `://`,
/// the address everything after it.
pub open spec fn parse_address(s: Seq<char>) -> Result<(Transport, Seq<char>), ConfigError> {
    if exists|i: int| first_occurrence(s, scheme_separator(), i) {
        let i = choose|i: int| first_occurrence(s, scheme_separator(), i);
        let scheme = s.subrange(0, i);
        let rest = s.subrange(i + 3, s.len() as int);
        if scheme == scheme_name(Transport::Tcp) {
            Ok((Transport::Tcp, rest))
        } else if scheme == scheme_name(Transport::Unix) {
            Ok((Transport::Unix, rest))
        } else {
            Err(ConfigError::UnsupportedScheme)
        }
    } else {
        Err(ConfigError::MissingScheme)
    }
}

/// The canonical text of an address.
pub open spec fn format_address(t: Transport, a: Seq<char>) -> Seq<char> {
    scheme_name(t) + scheme_separator() + a
}

/// A TCP or Unix-domain socket address.
#[derive(Debug)]
pub enum SocketAddress {
    /// `host:port`.
    Tcp(String),
    /// A filesystem path.
    Unix(String),
}

impl SocketAddress {
    pub open spec fn transport(&self) -> Transport {
        match self {
            SocketAddress::Tcp(_) => Transport::Tcp,
            SocketAddress::Unix(_) => Transport::Unix,
        }
    }

    pub open spec fn address(&self) -> Seq<char> {
        match self {
            SocketAddress::Tcp(a) => a@,
            SocketAddress::Unix(a) => a@,
        }
    }

    /// Reads `tcp://host:port` or `unix:///path`.
    pub fn parse(s: &str) -> (r: Result<SocketAddress, ConfigError>)
        ensures
            match r {
                Ok(a) => parse_address(s@) == Ok::<(Transport, Seq<char>), ConfigError>(
                    (a.transport(), a.address()),
                ),
                Err(e) => parse_address(s@) == Err::<(Transport, Seq<char>), ConfigError>(e),
            },
    {
        let c = chars_of(s);
        let sep = vec![':', '/', '/'];
        match find_first(&c, &sep) {
            None => {
                proof {
                    if exists|i: int| first_occurrence(s@, scheme_separator(), i) {
                        let i = choose|i: int| first_occurrence(s@, scheme_separator(), i);
                        assert(sep@ =~= scheme_separator());
                        assert(crate::text::occurs_at(c@, sep@, i));
                    }
                }
                Err(ConfigError::MissingScheme)
            },
            Some(i) => {
                proof {
                    assert(sep@ =~= scheme_separator());
                    let w = choose|w: int| first_occurrence(s@, scheme_separator(), w);
                    if w < i {
                        assert(!crate::text::occurs_at(c@, sep@, w));
                    } else if w > i {
                        assert(!crate::text::occurs_at(s@, scheme_separator(), i as int));
                    }
                }
                let scheme = slice_chars(&c, 0, i);
                let n = c.len();
                let rest = string_from_chars(slice_chars(&c, i + 3, n).as_slice());
                if scheme.len() == 3 && scheme[0] == 't' && scheme[1] == 'c' && scheme[2] == 'p' {
                    assert(scheme@ =~= scheme_name(Transport::Tcp));
                    Ok(SocketAddress::Tcp(rest))
                } else if scheme.len() == 4 && scheme[0] == 'u' && scheme[1] == 'n' && scheme[2]
                    == 'i' && scheme[3] == 'x' {
                    assert(scheme@ =~= scheme_name(Transport::Unix));
                    Ok(SocketAddress::Unix(rest))
                } else {
                    proof {
                        if scheme@ == scheme_name(Transport::Tcp) {
                            assert(scheme@.len() == 3 && scheme@[0] == 't' && scheme@[1] == 'c'
                                && scheme@[2] == 'p');
                        }
                        if scheme@ == scheme_name(Transport::Unix) {
                            assert(scheme@.len() == 4 && scheme@[0] == 'u' && scheme@[1] == 'n'
                                && scheme@[2] == 'i' && scheme@[3] == 'x');
                        }
                    }
                    Err(ConfigError::UnsupportedScheme)
                }
            },
        }
    }

    /// The address written `scheme://address`.
    pub fn to_uri_string(&self) -> (r: String)
        ensures
            r@ == format_address(self.transport(), self.address()),
    {
        let (mut out, a) = match self {
            SocketAddress::Tcp(a) => (vec!['t', 'c', 'p'], a),
            SocketAddress::Unix(a) => (vec!['u', 'n', 'i', 'x'], a),
        };
        out.push(':');
        out.push('/');
        out.push('/');
        append_chars(&mut out, &chars_of(a.as_str()));
        string_from_chars(out.as_slice())
    }
}

proof fn lemma_first_separator(s: Seq<char>, k: int)
    requires
        0 <= k,
        crate::text::occurs_at(s, scheme_separator(), k),
        forall|j: int| 0 <= j < k ==> s[j] != ':',
    ensures
        first_occurrence(s, scheme_separator(), k),
        (choose|w: int| first_occurrence(s, scheme_separator(), w)) == k,
{
    assert forall|j: int| 0 <= j < k implies !#[trigger] crate::text::occurs_at(
        s,
        scheme_separator(),
        j,
    ) by {
        if crate::text::occurs_at(s, scheme_separator(), j) {
            assert(s.subrange(j, j + 3)[0] == s[j]);
        }
    }
    assert(first_occurrence(s, scheme_separator(), k));
    let w = choose|w: int| first_occurrence(s, scheme_separator(), w);
    assert(first_occurrence(s, scheme_separator(), w));
    if w > k {
        assert(!crate::text::occurs_at(s, scheme_separator(), k));
    }
}

/// Writing an address out and reading it back gives the same address.
pub proof fn lemma_address_round_trip(t: Transport, a: Seq<char>)
    ensures
        parse_address(format_address(t, a)) == Ok::<(Transport, Seq<char>), ConfigError>((t, a)),
{
    let s = format_address(t, a);
    let name = scheme_name(t);
    let k = name.len() as int;
    assert(s.subrange(k, k + 3) =~= scheme_separator());
    assert forall|j: int| 0 <= j < k implies s[j] != ':' by {
        assert(s[j] == name[j]);
    }
    lemma_first_separator(s, k);
    assert(s.subrange(0, k) =~= name);
    assert(s.subrange(k + 3, s.len() as int) =~= a);
}

/// Reading an address and writing it out again gives back the text read.
pub proof fn lemma_address_text_round_trip(s: Seq<char>)
    requires
        parse_address(s) is Ok,
    ensures
        format_address(parse_address(s)->Ok_0.0, parse_address(s)->Ok_0.1) == s,
{
    let i = choose|i: int| first_occurrence(s, scheme_separator(), i);
    let (t, a) = parse_address(s)->Ok_0;
    assert(s.subrange(0, i) == scheme_name(t));
    assert(s.subrange(i, i + 3) == scheme_separator());
    assert(s =~= s.subrange(0, i) + s.subrange(i, i + 3) + s.subrange(i + 3, s.len() as int));
}

/// How a service forwards what it accepts.
#[derive(PartialEq, Eq, Structural, Debug, Clone, Copy)]
pub enum Protocol {
    /// Raw bytes in both directions.
    Tcp,
    /// HTTP requests, rewritten and forwarded one by one.
    Http,
}

pub open spec fn parse_protocol(s: Seq<char>) -> Result<Protocol, ConfigError> {
    if s == seq!['t', 'c', 'p'] {
        Ok(Protocol::Tcp)
    } else if s == seq!['h', 't', 't', 'p'] {
        Ok(Protocol::Http)
    } else {
        Err(ConfigError::UnsupportedProtocol)
    }
}

impl Protocol {
    /// Reads `tcp` or `http`.
    pub fn parse(s: &str) -> (r: Result<Protocol, ConfigError>)
        ensures
            r == parse_protocol(s@),
    {
        let c = chars_of(s);
        if c.len() == 3 && c[0] == 't' && c[1] == 'c' && c[2] == 'p' {
            assert(c@ =~= seq!['t', 'c', 'p']);
            Ok(Protocol::Tcp)
        } else if c.len() == 4 && c[0] == 'h' && c[1] == 't' && c[2] == 't' && c[3] == 'p' {
            assert(c@ =~= seq!['h', 't', 't', 'p']);
            Ok(Protocol::Http)
        } else {
            proof {
                if c@ == seq!['t', 'c', 'p'] {
                    assert(c@.len() == 3 && c@[0] == 't' && c@[1] == 'c' && c@[2] == 'p');
                }
                if c@ == seq!['h', 't', 't', 'p'] {
                    assert(c@.len() == 4 && c@[0] == 'h' && c@[1] == 't' && c@[2] == 't' && c@[3]
                        == 'p');
                }
            }
            Err(ConfigError::UnsupportedProtocol)
        }
    }
}

} // verus!
