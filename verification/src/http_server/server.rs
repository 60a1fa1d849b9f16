//! The server before it listens: the store it serves and what it says of
//! itself.

use crate::http_server::models::InfoResponse;
use crate::info::Info;
use vstd::prelude::*;
use vstd::string::*;

verus! {

/// A server over one store.
#[derive(Clone)]
pub struct Server<S> {
    db: S,
}

/// What a server mounts: its info, the title of its interface, and the store
/// that answers the requests on keys.
pub struct App<S> {
    pub info: Info,
    pub title: String,
    pub db: S,
}

/// The response to a request for the server's info.
pub fn info_response(info: &Info) -> (response: InfoResponse)
    ensures
        response.version@ == info.version@,
        response.rustc@ == info.rustc@,
        response.build_date@ == info.build_date@,
        response.backend@ == info.backend@,
{
    InfoResponse {
        version: info.version.clone(),
        rustc: info.rustc.clone(),
        build_date: info.build_date.clone(),
        backend: info.backend.clone(),
    }
}

impl<S> Server<S> {
    /// The store of the server.
    pub closed spec fn store(&self) -> S {
        self.db
    }

    /// A server over `db`.
    pub fn new(db: S) -> (server: Self)
        ensures
            server.store() == db,
    {
        Server { db }
    }

    /// What the server mounts when it runs over the backend called
    /// `backend_name`: the build's info with the backend named in it, the
    /// title of the interface, and the store.
    pub fn make_app(self, build: Info, backend_name: String) -> (app: App<S>)
        ensures
            app.info.version@ == build.version@,
            app.info.rustc@ == build.rustc@,
            app.info.build_date@ == build.build_date@,
            app.info.backend@ == backend_name@,
            app.title@ == "Bredis API"@,
            app.db == self.store(),
    {
        let info = Info {
            version: build.version,
            rustc: build.rustc,
            build_date: build.build_date,
            backend: backend_name,
        };
        App { info, title: "Bredis API".to_owned(), db: self.db }
    }
}

} // verus!
