use nzb_news::error::{clone_err, FetchError};
use nzb_nntp::error::NntpError;

fn every_error() -> Vec<(FetchError, NntpError, &'static str)> {
    let m = || "m1".to_string();
    let kind = std::io::ErrorKind::BrokenPipe;
    vec![
        (FetchError::Connection(m()), NntpError::Connection(m()), "Connection error: m1"),
        (FetchError::Tls(m()), NntpError::Tls(m()), "TLS error: m1"),
        (FetchError::Auth(m()), NntpError::Auth(m()), "Authentication failed: m1"),
        (FetchError::AuthRequired(m()), NntpError::AuthRequired(m()), "Authentication required: m1"),
        (
            FetchError::ServiceUnavailable(m()),
            NntpError::ServiceUnavailable(m()),
            "Service unavailable: m1",
        ),
        (FetchError::ArticleNotFound(m()), NntpError::ArticleNotFound(m()), "Article not found: m1"),
        (FetchError::NoSuchGroup(m()), NntpError::NoSuchGroup(m()), "No such group: m1"),
        (
            FetchError::NoArticleSelected(m()),
            NntpError::NoArticleSelected(m()),
            "No article selected: m1",
        ),
        (FetchError::Protocol(m()), NntpError::Protocol(m()), "Protocol error: m1"),
        (
            FetchError::Io(kind, m()),
            NntpError::Io(std::io::Error::new(kind, m())),
            "I/O error: m1",
        ),
        (
            FetchError::NoConnectionsAvailable(m()),
            NntpError::NoConnectionsAvailable(m()),
            "No connections available for server m1",
        ),
        (FetchError::Timeout(m()), NntpError::Timeout(m()), "Timeout: m1"),
        (
            FetchError::AllServersExhausted(m()),
            NntpError::AllServersExhausted(m()),
            "All servers exhausted for article m1",
        ),
        (FetchError::Shutdown, NntpError::Shutdown, "Downloader shut down"),
    ]
}

#[test]
fn errors_read_as_the_client_writes_them() {
    for (ours, theirs, text) in every_error() {
        assert_eq!(ours.text(), text);
        assert_eq!(theirs.to_string(), text);
    }
}

#[test]
fn a_cloned_error_is_the_same() {
    for (ours, _, _) in every_error() {
        let copy = clone_err(&ours);
        assert_eq!(format!("{copy:?}"), format!("{ours:?}"));
    }
}

#[test]
fn auth_and_service_errors_are_terminal() {
    let terminal: Vec<bool> = every_error().iter().map(|e| e.0.terminal()).collect();
    let expected: Vec<bool> = (0..14).map(|i| i == 2 || i == 3 || i == 4).collect();
    assert_eq!(terminal, expected);
}

#[test]
fn only_a_missing_article_is_not_transient() {
    let transient: Vec<bool> = every_error().iter().map(|e| e.0.transient()).collect();
    let expected: Vec<bool> = (0..14).map(|i| i != 5).collect();
    assert_eq!(transient, expected);
}

#[test]
fn errors_that_end_a_connection_are_fatal() {
    let fatal: Vec<bool> = every_error().iter().map(|e| e.0.fatal()).collect();
    let expected: Vec<bool> = (0..14).map(|i| [0, 2, 3, 4, 9].contains(&i)).collect();
    assert_eq!(fatal, expected);
}
