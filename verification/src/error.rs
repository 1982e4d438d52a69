//! Why a fetch failed, as plain values.

use vstd::prelude::*;

use nzb_nntp::error::NntpError::{
    AllServersExhausted, ArticleNotFound, Auth, AuthRequired, Connection, Io, NoArticleSelected,
    NoConnectionsAvailable, NoSuchGroup, Protocol, ServiceUnavailable, Shutdown, Timeout, Tls,
};
use FetchError as E;

verus! {

/// `std::io::ErrorKind`, carried through unread.
#[verifier::external_type_specification]
#[verifier::external_body]
pub struct ExErrorKind(std::io::ErrorKind);

/// Why a connection or a fetch failed: the variants of
/// `nzb_nntp::error::NntpError`, with the kind and the text of an I/O error
/// in place of the error itself.
#[derive(Debug)]
pub enum FetchError {
    /// TCP or connection-level failure.
    Connection(String),
    /// TLS handshake or configuration failure.
    Tls(String),
    /// Authentication failure (481, 482).
    Auth(String),
    /// Server requires authentication (480).
    AuthRequired(String),
    /// Service permanently unavailable (502).
    ServiceUnavailable(String),
    /// Article not found (430).
    ArticleNotFound(String),
    /// No such newsgroup (411).
    NoSuchGroup(String),
    /// No article selected / no article in group (412, 420).
    NoArticleSelected(String),
    /// NNTP protocol violation or unexpected response.
    Protocol(String),
    /// Underlying I/O error.
    Io(std::io::ErrorKind, String),
    /// The connection pool has no available connections.
    NoConnectionsAvailable(String),
    /// A timeout expired.
    Timeout(String),
    /// All servers have been tried for this article.
    AllServersExhausted(String),
    /// The downloader has been shut down.
    Shutdown,
}

/// The message of an error.
pub open spec fn error_text(err: FetchError) -> Seq<char> {
    match err {
        FetchError::Connection(m) => "Connection error: "@ + m@,
        FetchError::Tls(m) => "TLS error: "@ + m@,
        FetchError::Auth(m) => "Authentication failed: "@ + m@,
        FetchError::AuthRequired(m) => "Authentication required: "@ + m@,
        FetchError::ServiceUnavailable(m) => "Service unavailable: "@ + m@,
        FetchError::ArticleNotFound(m) => "Article not found: "@ + m@,
        FetchError::NoSuchGroup(m) => "No such group: "@ + m@,
        FetchError::NoArticleSelected(m) => "No article selected: "@ + m@,
        FetchError::Protocol(m) => "Protocol error: "@ + m@,
        FetchError::Io(_, m) => "I/O error: "@ + m@,
        FetchError::NoConnectionsAvailable(m) => "No connections available for server "@ + m@,
        FetchError::Timeout(m) => "Timeout: "@ + m@,
        FetchError::AllServersExhausted(m) => "All servers exhausted for article "@ + m@,
        FetchError::Shutdown => "Downloader shut down"@,
    }
}

/// `<nzb_nntp::error::NntpError as Display>::fmt` on the same error: a fixed
/// phrase for each variant, followed by the text that the error carries.
#[verifier::external_body]
fn display(err: FetchError) -> (text: String)
    ensures
        text@ == error_text(err),
{
    match err {
        E::Connection(m) => Connection(m), E::Tls(m) => Tls(m),
        E::Auth(m) => Auth(m), E::AuthRequired(m) => AuthRequired(m),
        E::ServiceUnavailable(m) => ServiceUnavailable(m),
        E::ArticleNotFound(m) => ArticleNotFound(m),
        E::NoSuchGroup(m) => NoSuchGroup(m), E::NoArticleSelected(m) => NoArticleSelected(m),
        E::Protocol(m) => Protocol(m), E::Io(k, m) => Io(std::io::Error::new(k, m)),
        E::NoConnectionsAvailable(m) => NoConnectionsAvailable(m),
        E::Timeout(m) => Timeout(m), E::AllServersExhausted(m) => AllServersExhausted(m),
        E::Shutdown => Shutdown,
    }.to_string()
}

/// A second error like the first, for a second article that it hit.
pub fn clone_err(err: &FetchError) -> (copy: FetchError)
    ensures
        copy == *err,
{
    match err {
        FetchError::Connection(m) => FetchError::Connection(m.clone()),
        FetchError::Tls(m) => FetchError::Tls(m.clone()),
        FetchError::Auth(m) => FetchError::Auth(m.clone()),
        FetchError::AuthRequired(m) => FetchError::AuthRequired(m.clone()),
        FetchError::ServiceUnavailable(m) => FetchError::ServiceUnavailable(m.clone()),
        FetchError::ArticleNotFound(m) => FetchError::ArticleNotFound(m.clone()),
        FetchError::NoSuchGroup(m) => FetchError::NoSuchGroup(m.clone()),
        FetchError::NoArticleSelected(m) => FetchError::NoArticleSelected(m.clone()),
        FetchError::Protocol(m) => FetchError::Protocol(m.clone()),
        FetchError::Io(kind, m) => FetchError::Io(*kind, m.clone()),
        FetchError::NoConnectionsAvailable(m) => FetchError::NoConnectionsAvailable(m.clone()),
        FetchError::Timeout(m) => FetchError::Timeout(m.clone()),
        FetchError::AllServersExhausted(m) => FetchError::AllServersExhausted(m.clone()),
        FetchError::Shutdown => FetchError::Shutdown,
    }
}

/// An error that a provider keeps giving until the account or the service
/// changes: a connection that fails with it is not worth many attempts.
pub open spec fn is_terminal(err: FetchError) -> bool {
    err is Auth || err is AuthRequired || err is ServiceUnavailable
}

/// An error after which the connection answers no further request.
pub open spec fn is_fatal(err: FetchError) -> bool {
    err is Auth || err is AuthRequired || err is ServiceUnavailable || err is Connection
        || err is Io
}

impl FetchError {
    /// Does the connection answer no further request after the error?
    pub fn fatal(&self) -> (fatal: bool)
        ensures
            fatal == is_fatal(*self),
    {
        match self {
            FetchError::Auth(_) | FetchError::AuthRequired(_) | FetchError::ServiceUnavailable(_)
            | FetchError::Connection(_) | FetchError::Io(_, _) => true,
            _ => false,
        }
    }

    /// The message of the error.
    pub fn text(&self) -> (text: String)
        ensures
            text@ == error_text(*self),
    {
        display(clone_err(self))
    }

    /// Is it of the terminal class (auth, service unavailable, account cap)?
    pub fn terminal(&self) -> (terminal: bool)
        ensures
            terminal == is_terminal(*self),
    {
        match self {
            FetchError::Auth(_) | FetchError::AuthRequired(_) | FetchError::ServiceUnavailable(
                _,
            ) => true,
            _ => false,
        }
    }

    /// May the server that gave the error still have the article?
    pub fn transient(&self) -> (transient: bool)
        ensures
            transient == !(self is ArticleNotFound),
    {
        match self {
            FetchError::ArticleNotFound(_) => false,
            _ => true,
        }
    }
}

/// Which errors are of which class, whatever they say.
pub proof fn law_error_classes(err: FetchError)
    ensures
        is_terminal(err) <==> match err {
            FetchError::Auth(_) => true,
            FetchError::AuthRequired(_) => true,
            FetchError::ServiceUnavailable(_) => true,
            _ => false,
        },
        is_fatal(err) <==> match err {
            FetchError::Connection(_) => true,
            FetchError::Io(_, _) => true,
            _ => is_terminal(err),
        },
{
}

} // verus!
