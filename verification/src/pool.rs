//! Client connection pooling: bookkeeping of live connections per
//! destination, so an idle connection is reused instead of opened
//! twice. The sockets themselves live with the caller.

use vstd::prelude::*;
use crate::method::bytes_equal;
use vstd::string::StringSliceAdditionalSpecFns;

verus! {

/// Config options for the `Pool`.
#[derive(Debug)]
pub struct Config {
    /// The maximum idle connections *per host*.
    pub max_idle: usize,
    pub max_connections: usize,
}

impl Default for Config {
    fn default() -> (r: Config)
        ensures
            r.max_idle == 5,
            r.max_connections == 8192,
    {
        Config { max_idle: 5, max_connections: 8192 }
    }
}

/// A connection's scheme.
pub enum Scheme {
    Http,
    Https,
    Other(Vec<u8>),
}

pub open spec fn http_scheme() -> Seq<u8> {
    seq![104u8, 116u8, 116u8, 112u8]
}

pub open spec fn https_scheme() -> Seq<u8> {
    seq![104u8, 116u8, 116u8, 112u8, 115u8]
}

impl Scheme {
    /// The scheme's name bytes.
    pub open spec fn spec_bytes(self) -> Seq<u8> {
        match self {
            Scheme::Http => http_scheme(),
            Scheme::Https => https_scheme(),
            Scheme::Other(v) => v@,
        }
    }
}

/// Reads a scheme from its name.
pub fn scheme_of(name: &[u8]) -> (r: Scheme)
    ensures
        r.spec_bytes() == name@,
{
    let h: [u8; 4] = [104u8, 116u8, 116u8, 112u8];
    if bytes_equal(name, h.as_slice()) {
        proof {
            assert(h@ =~= http_scheme());
        }
        return Scheme::Http;
    }
    let hs: [u8; 5] = [104u8, 116u8, 116u8, 112u8, 115u8];
    if bytes_equal(name, hs.as_slice()) {
        proof {
            assert(hs@ =~= https_scheme());
        }
        return Scheme::Https;
    }
    Scheme::Other(crate::headers::copy_bytes(name))
}

/// What a pooled connection is keyed by: host, port, and scheme.
pub struct Key(pub Vec<u8>, pub u16, pub Scheme);

/// The abstract identity of a key.
pub open spec fn key_view(k: Key) -> (Seq<u8>, u16, Seq<u8>) {
    (k.0@, k.1, k.2.spec_bytes())
}

/// Builds a pool key from a destination.
pub fn key(host: &str, port: u16, scheme: &str) -> (r: Key)
    ensures
        key_view(r) == (host.spec_bytes(), port, scheme.spec_bytes()),
{
    let r = Key(
        crate::headers::copy_bytes(host.as_bytes()),
        port,
        scheme_of(scheme.as_bytes()),
    );
    r
}

/// Compares two keys.
fn key_eq(a: &Key, b: &Key) -> (r: bool)
    ensures
        r == (key_view(*a) == key_view(*b)),
{
    if !bytes_equal(a.0.as_slice(), b.0.as_slice()) {
        return false;
    }
    if a.1 != b.1 {
        return false;
    }
    let sa = match &a.2 {
        Scheme::Http => {
            let v: [u8; 4] = [104u8, 116u8, 116u8, 112u8];
            proof {
                assert(v@ =~= http_scheme());
            }
            crate::headers::copy_bytes(v.as_slice())
        },
        Scheme::Https => {
            let v: [u8; 5] = [104u8, 116u8, 116u8, 112u8, 115u8];
            proof {
                assert(v@ =~= https_scheme());
            }
            crate::headers::copy_bytes(v.as_slice())
        },
        Scheme::Other(v) => crate::headers::copy_bytes(v.as_slice()),
    };
    let sb = match &b.2 {
        Scheme::Http => {
            let v: [u8; 4] = [104u8, 116u8, 116u8, 112u8];
            proof {
                assert(v@ =~= http_scheme());
            }
            crate::headers::copy_bytes(v.as_slice())
        },
        Scheme::Https => {
            let v: [u8; 5] = [104u8, 116u8, 116u8, 112u8, 115u8];
            proof {
                assert(v@ =~= https_scheme());
            }
            crate::headers::copy_bytes(v.as_slice())
        },
        Scheme::Other(v) => crate::headers::copy_bytes(v.as_slice()),
    };
    bytes_equal(sa.as_slice(), sb.as_slice())
}

/// A handle standing for one connection checked out of the pool.
pub struct PooledStream {
    pub key: Key,
}

/// The pool: how many connections are live per key.
pub struct Pool {
    config: Config,
    conns: Vec<(Key, usize)>,
}

impl Pool {
    /// The live (key identity, count) pairs.
    pub closed spec fn view(&self) -> Seq<((Seq<u8>, u16, Seq<u8>), int)> {
        self.conns@.map_values(|p: (Key, usize)| (key_view(p.0), p.1 as int))
    }

    /// Creates a `Pool` with the given limits.
    pub fn new(config: Config) -> (r: Pool)
        ensures
            r@ == Seq::<((Seq<u8>, u16, Seq<u8>), int)>::empty(),
    {
        let r = Pool { config, conns: Vec::new() };
        proof {
            assert(r@ =~= Seq::<((Seq<u8>, u16, Seq<u8>), int)>::empty());
        }
        r
    }

    /// How many distinct destinations have live connections.
    pub fn conns_len(&self) -> (r: usize)
        ensures
            r == self@.len(),
    {
        self.conns.len()
    }

    /// How many live connections a destination has.
    pub fn conns_count(&self, k: &Key) -> (r: usize)
        ensures
            match spec_lookup(self@, key_view(*k)) {
                Some(c) => r == c,
                None => r == 0,
            },
    {
        let mut i: usize = 0;
        while i < self.conns.len()
            invariant
                i <= self.conns@.len(),
                self@.len() == self.conns@.len(),
                forall|j: int| 0 <= j < i ==> self@[j].0 != key_view(*k),
                spec_lookup(self@, key_view(*k)) == spec_lookup_from(self@, key_view(*k), i as int),
            decreases self.conns@.len() - i,
        {
            if key_eq(&self.conns[i].0, k) {
                proof {
                    assert(self@[i as int] == (key_view(self.conns@[i as int].0), self.conns@[
                        i as int].1 as int));
                }
                return self.conns[i].1;
            }
            i = i + 1;
        }
        0
    }

    /// Takes a connection to the destination: an existing one is
    /// reused, else a new one is opened, unless the pool is full.
    pub fn connect(&mut self, host: &str, port: u16, scheme: &str) -> (r: Option<PooledStream>)
        ensures
            match spec_lookup(old(self)@, (host.spec_bytes(), port, scheme.spec_bytes())) {
                Some(_) => final(self)@ == old(self)@ && r is Some,
                None => if old(self)@.len() < old(self).spec_max_connections() {
                    final(self)@ == old(self)@ + seq![
                        ((host.spec_bytes(), port, scheme.spec_bytes()), 1int),
                    ] && r is Some
                } else {
                    final(self)@ == old(self)@ && r is None
                },
            },
    {
        let k = key(host, port, scheme);
        let ghost kv = key_view(k);
        let mut i: usize = 0;
        while i < self.conns.len()
            invariant
                i <= self.conns@.len(),
                self@ == old(self)@,
                self@.len() == self.conns@.len(),
                kv == (host.spec_bytes(), port, scheme.spec_bytes()),
                kv == key_view(k),
                forall|j: int| 0 <= j < i ==> self@[j].0 != kv,
                spec_lookup(self@, kv) == spec_lookup_from(self@, kv, i as int),
            decreases self.conns@.len() - i,
        {
            proof {
                assert(self@[i as int] == (key_view(self.conns@[i as int].0), self.conns@[
                    i as int].1 as int));
            }
            if key_eq(&self.conns[i].0, &k) {
                proof {
                    assert(self@[i as int].0 == kv);
                    assert(spec_lookup_from(self@, kv, i as int) == Some(self@[i as int].1));
                }
                return Some(PooledStream { key: k });
            }
            proof {
                assert(self@[i as int].0 != kv);
                assert(spec_lookup_from(self@, kv, i as int) == spec_lookup_from(
                    self@,
                    kv,
                    i + 1,
                ));
            }
            i = i + 1;
        }
        if self.conns.len() < self.config.max_connections {
            let k2 = Key(
                crate::headers::copy_bytes(k.0.as_slice()),
                k.1,
                match &k.2 {
                    Scheme::Http => Scheme::Http,
                    Scheme::Https => Scheme::Https,
                    Scheme::Other(v) => Scheme::Other(crate::headers::copy_bytes(v.as_slice())),
                },
            );
            self.conns.push((k2, 1));
            proof {
                assert(self@ =~= old(self)@ + seq![(kv, 1int)]);
            }
            Some(PooledStream { key: k })
        } else {
            None
        }
    }

    /// The configured connection cap.
    pub closed spec fn spec_max_connections(&self) -> int {
        self.config.max_connections as int
    }
}

/// The count stored for a key, searching from `from`.
pub open spec fn spec_lookup_from(
    v: Seq<((Seq<u8>, u16, Seq<u8>), int)>,
    k: (Seq<u8>, u16, Seq<u8>),
    from: int,
) -> Option<int>
    decreases v.len() - from,
{
    if from < 0 || from >= v.len() {
        None
    } else if v[from].0 == k {
        Some(v[from].1)
    } else {
        spec_lookup_from(v, k, from + 1)
    }
}

/// The count stored for a key.
pub open spec fn spec_lookup(
    v: Seq<((Seq<u8>, u16, Seq<u8>), int)>,
    k: (Seq<u8>, u16, Seq<u8>),
) -> Option<int> {
    spec_lookup_from(v, k, 0)
}

} // verus!
