//! Command-line arguments and service definitions.
use vstd::prelude::*;
use std::collections::HashMap;
use crate::gateway::UriMapping;
use crate::text::string_from_chars;

verus! {

/// Command-line arguments: a single service given by its addresses, or a
/// configuration file that lists services.
pub struct MystiArg {
    pub target: Option<String>,
    pub listen: Option<String>,
    pub config: Option<String>,
}

/// One configured proxy service.
pub struct MystiEngine {
    /// Unique; used in diagnostics.
    pub name: String,
    /// `scheme://address` to accept connections on.
    pub listen: String,
    /// `scheme://address` to forward to.
    pub target: String,
    /// `tcp` or `http`.
    pub protocol: String,
    pub uri_mapping: Option<Vec<UriMapping>>,
    /// Accepted and not enforced.
    pub timeout: Option<String>,
    pub header: Option<HashMap<String, String>>,
}

/// A configuration file's content.
pub struct Config {
    pub service: Vec<MystiEngine>,
}

pub open spec fn default_listen() -> Seq<char> {
    seq!['t', 'c', 'p', ':', '/', '/', '0', '.', '0', '.', '0', '.', '0', ':', '3', '0', '0', '0']
}

impl MystiArg {
    /// The single service the arguments describe when no configuration file
    /// is given: named `default`, listening where `--listen` says or on
    /// `tcp://0.0.0.0:3000`, forwarding raw bytes to `--target`, or else to
    /// `fallback_target`. None when neither target is there.
    pub fn default_service(&self, fallback_target: Option<String>) -> (r: Option<MystiEngine>)
        ensures
            match r {
                Some(e) => {
                    &&& e.name@ == seq!['d', 'e', 'f', 'a', 'u', 'l', 't']
                    &&& e.listen@ == match self.listen {
                        Some(l) => l@,
                        None => default_listen(),
                    }
                    &&& Some(e.target@) == match self.target {
                        Some(t) => Some(t@),
                        None => match fallback_target {
                            Some(t) => Some(t@),
                            None => None::<Seq<char>>,
                        },
                    }
                    &&& e.protocol@ == seq!['t', 'c', 'p']
                    &&& e.uri_mapping is None
                    &&& e.timeout is None
                    &&& e.header is None
                },
                None => self.target is None && fallback_target is None,
            },
    {
        let target = match &self.target {
            Some(t) => t.clone(),
            None => match fallback_target {
                Some(t) => t,
                None => {
                    return None;
                },
            },
        };
        let listen = match &self.listen {
            Some(l) => l.clone(),
            None => string_from_chars(
                vec![
                    't', 'c', 'p', ':', '/', '/', '0', '.', '0', '.', '0', '.', '0', ':', '3', '0',
                    '0', '0',
                ].as_slice(),
            ),
        };
        Some(
            MystiEngine {
                name: string_from_chars(vec!['d', 'e', 'f', 'a', 'u', 'l', 't'].as_slice()),
                listen,
                target,
                protocol: string_from_chars(vec!['t', 'c', 'p'].as_slice()),
                uri_mapping: None,
                timeout: None,
                header: None,
            },
        )
    }
}

} // verus!
