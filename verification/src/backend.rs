//! The choice of a backend and of an address at startup.

use crate::storages::key::same_bytes;
use vstd::prelude::*;
use vstd::string::*;
use vstd::utf8::*;

verus! {

/// The backends that a server can run over.
#[derive(Clone, Copy, Debug, PartialEq, Eq, Structural)]
pub enum Backend {
    Rocksdb,
    Bredis,
    SurrealKV,
}

/// The backend that a name on the command line stands for, if any.
pub open spec fn backend_named(name: Seq<char>) -> Option<Backend> {
    if name == "rocksdb"@ {
        Some(Backend::Rocksdb)
    } else if name == "bredis"@ {
        Some(Backend::Bredis)
    } else if name == "surrealkv"@ {
        Some(Backend::SurrealKV)
    } else {
        None
    }
}

/// The place of the first colon in `text`, or the length of `text` where it
/// has none.
pub open spec fn first_colon(text: Seq<char>) -> int
    decreases text.len(),
{
    if text.len() == 0 || text[0] == ':' {
        0
    } else {
        1 + first_colon(text.skip(1))
    }
}

/// What stands before the first colon of a bind address: the whole of it
/// where it has no colon.
pub open spec fn bind_host(bind: Seq<char>) -> Seq<char> {
    bind.take(first_colon(bind))
}

/// What stands after the first colon of a bind address: the default port
/// where it has no colon.
pub open spec fn bind_port(bind: Seq<char>) -> Seq<char> {
    if first_colon(bind) < bind.len() {
        bind.skip(first_colon(bind) + 1)
    } else {
        "4123"@
    }
}

/// The first colon stands where no colon stands before it.
pub proof fn lemma_first_colon(text: Seq<char>, n: int)
    requires
        0 <= n <= text.len(),
        forall|i: int| 0 <= i < n ==> text[i] != ':',
        n == text.len() || text[n] == ':',
    ensures
        first_colon(text) == n,
    decreases n,
{
    if n > 0 {
        let rest = text.skip(1);
        assert forall|i: int| 0 <= i < n - 1 implies rest[i] != ':' by {
            assert(rest[i] == text[i + 1]);
        }
        if n < text.len() {
            assert(rest[n - 1] == text[n]);
        }
        lemma_first_colon(rest, n - 1);
    }
}

/// Whether two texts are the same.
fn same_text(a: &str, b: &str) -> (same: bool)
    ensures
        same <==> a@ == b@,
{
    proof {
        encode_utf8_decode_utf8(a@);
        encode_utf8_decode_utf8(b@);
    }
    same_bytes(a.as_bytes(), b.as_bytes())
}

/// The port that a bind address without a port stands for.
pub fn default_port() -> (port: String)
    ensures
        port@ == "4123"@,
{
    "4123".to_owned()
}

/// Splits a bind address at its first colon into host and port; an address
/// without a colon is all host and gets the default port.
pub fn split_bind(bind: &str) -> (parts: (String, String))
    ensures
        parts.0@ == bind_host(bind@),
        parts.1@ == bind_port(bind@),
{
    let len = bind.unicode_len();
    let mut i: usize = 0;
    while i < len
        invariant
            i <= len,
            len == bind@.len(),
            forall|j: int| 0 <= j < i ==> bind@[j] != ':',
        decreases len - i,
    {
        if bind.get_char(i) == ':' {
            proof {
                lemma_first_colon(bind@, i as int);
                assert(bind@.subrange(0, i as int) =~= bind@.take(i as int));
                assert(bind@.subrange(i + 1, len as int) =~= bind@.skip(i + 1));
            }
            let host = bind.substring_char(0, i);
            let port = bind.substring_char(i + 1, len);
            return (host.to_owned(), port.to_owned());
        }
        i = i + 1;
    }
    proof {
        lemma_first_colon(bind@, len as int);
        assert(bind@.take(len as int) =~= bind@);
    }
    (bind.to_owned(), default_port())
}

impl Backend {
    /// The backend that `name` stands for: `rocksdb`, `bredis` or
    /// `surrealkv`; `None` for any other name.
    pub fn from_name(name: &str) -> (backend: Option<Backend>)
        ensures
            backend == backend_named(name@),
    {
        if same_text(name, "rocksdb") {
            Some(Backend::Rocksdb)
        } else if same_text(name, "bredis") {
            Some(Backend::Bredis)
        } else if same_text(name, "surrealkv") {
            Some(Backend::SurrealKV)
        } else {
            None
        }
    }

    /// The name that the backend is shown under.
    pub fn name(&self) -> (text: String)
        ensures
            text@ == (match self {
                Backend::Rocksdb => "Rocksdb"@,
                Backend::Bredis => "Bredis"@,
                Backend::SurrealKV => "SurrealKV"@,
            }),
    {
        match self {
            Backend::Rocksdb => "Rocksdb".to_owned(),
            Backend::Bredis => "Bredis".to_owned(),
            Backend::SurrealKV => "SurrealKV".to_owned(),
        }
    }
}

} // verus!
