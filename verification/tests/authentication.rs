use base64::engine::general_purpose::STANDARD as BASE64_ENGINE;
use base64::Engine;
use endpoint_accounts::authentication::client::Client;
use endpoint_accounts::authentication::reloadable::ReloadableAuthenticator;
use endpoint_accounts::authentication::{Authenticator, Source, Status};
use std::borrow::Cow;
use std::collections::HashSet;

fn client(username: &str, password: &str) -> Client {
    Client {
        username: username.to_string(),
        password: password.to_string(),
        max_http2_conns: None,
        max_http3_conns: None,
    }
}

fn creds(username: &str, password: &str) -> Source<'static> {
    Source::ProxyBasic(Cow::Owned(
        BASE64_ENGINE.encode(format!("{username}:{password}")),
    ))
}

fn check(auth: &ReloadableAuthenticator, source: &Source<'_>) -> Status {
    auth.authenticate(source)
}

#[test]
fn accepts_a_known_client_and_rejects_others() {
    let auth = ReloadableAuthenticator::new(&[client("alice", "pw1")]);

    assert!(check(&auth, &creds("alice", "pw1")) == Status::Pass);
    assert!(check(&auth, &creds("alice", "wrong")) == Status::Reject);
    assert!(check(&auth, &creds("bob", "pw1")) == Status::Reject);
}

/// An authenticator that reads its clients once.
struct FixedRegistry {
    credentials: HashSet<String>,
}

impl FixedRegistry {
    fn new(clients: &[Client]) -> Self {
        FixedRegistry {
            credentials: clients
                .iter()
                .map(|x| BASE64_ENGINE.encode(format!("{}:{}", x.username, x.password)))
                .collect(),
        }
    }

    fn authenticate(&self, source: &Source<'_>) -> Status {
        let text = match source {
            Source::ProxyBasic(text) => text,
            Source::Sni(text) => text,
        };
        if self.credentials.contains(text.as_ref()) {
            Status::Pass
        } else {
            Status::Reject
        }
    }
}

#[test]
fn encodes_credentials_the_same_way_as_the_registry_authenticator() {
    // The two must stay interchangeable: a client that authenticates against one has to
    // authenticate against the other unchanged.
    let clients = [client("alice", "pw1"), client("bob", "pw2")];
    let reloadable = ReloadableAuthenticator::new(&clients);
    let registry = FixedRegistry::new(&clients);

    for source in [
        creds("alice", "pw1"),
        creds("bob", "pw2"),
        creds("eve", "x"),
    ] {
        assert!(
            reloadable.authenticate(&source) == registry.authenticate(&source),
            "the two authenticators disagreed"
        );
    }
}

#[test]
fn a_reload_adds_and_removes_clients() {
    let mut auth = ReloadableAuthenticator::new(&[client("alice", "pw1")]);

    assert_eq!(auth.reload(&[client("bob", "pw2")]), 1);

    // The point of the type: the new user works and the old one stops working, with no restart in
    // between.
    assert!(check(&auth, &creds("bob", "pw2")) == Status::Pass);
    assert!(check(&auth, &creds("alice", "pw1")) == Status::Reject);
}

#[test]
fn a_password_change_takes_effect() {
    let mut auth = ReloadableAuthenticator::new(&[client("alice", "old")]);
    auth.reload(&[client("alice", "new")]);

    assert!(check(&auth, &creds("alice", "new")) == Status::Pass);
    assert!(check(&auth, &creds("alice", "old")) == Status::Reject);
}

#[test]
fn reloading_to_an_empty_list_rejects_everyone() {
    // Not a recommended thing to do - it is exactly what a truncated credentials file would
    // produce - but it must be predictable rather than accidentally permissive.
    let mut auth = ReloadableAuthenticator::new(&[client("alice", "pw1")]);

    assert_eq!(auth.reload(&[]), 0);
    assert!(auth.is_empty());
    assert!(check(&auth, &creds("alice", "pw1")) == Status::Reject);
}

#[test]
fn credentials_resolve_to_a_username() {
    // Traffic can only be billed once it has a name attached, and the credentials are all a
    // connection carries.
    let auth = ReloadableAuthenticator::new(&[client("alice", "pw1"), client("bob", "pw2")]);

    assert_eq!(
        auth.username_for(&creds("alice", "pw1")).as_deref(),
        Some("alice")
    );
    assert_eq!(
        auth.username_for(&creds("bob", "pw2")).as_deref(),
        Some("bob")
    );
    assert!(auth.username_for(&creds("eve", "pw")).is_none());
}

#[test]
fn a_username_survives_the_user_being_removed() {
    // A connection is attributed for as long as it lives, so the name a caller is holding must not
    // dangle when a reload drops the user.
    let mut auth = ReloadableAuthenticator::new(&[client("alice", "pw1")]);
    let held = auth.username_for(&creds("alice", "pw1")).expect("known");

    auth.reload(&[]);

    assert_eq!(&*held, "alice");
    assert!(auth.username_for(&creds("alice", "pw1")).is_none());
}

#[test]
fn a_password_change_keeps_the_same_username() {
    let mut auth = ReloadableAuthenticator::new(&[client("alice", "old")]);
    auth.reload(&[client("alice", "new")]);

    assert_eq!(
        auth.username_for(&creds("alice", "new")).as_deref(),
        Some("alice")
    );
    assert!(auth.username_for(&creds("alice", "old")).is_none());
}

#[test]
fn duplicate_clients_collapse() {
    let auth = ReloadableAuthenticator::new(&[client("alice", "pw1"), client("alice", "pw1")]);
    assert_eq!(auth.len(), 1);
}

#[test]
fn sni_credentials_are_accepted_too() {
    let auth = ReloadableAuthenticator::new(&[client("alice", "pw1")]);
    let encoded = BASE64_ENGINE.encode("alice:pw1");

    assert!(check(&auth, &Source::Sni(Cow::Owned(encoded))) == Status::Pass);
}

#[test]
fn credentials_are_padded_base64_of_the_pair() {
    // One pair for each amount of padding, one with both characters that are neither letters nor
    // digits, and one beyond ASCII.
    let auth = ReloadableAuthenticator::new(&[
        client("alice", "pw1"),
        client("alice", "pw10"),
        client("alice", "pw100"),
        client("user", "??>~~"),
        client("zoë", "€"),
    ]);
    for text in [
        "YWxpY2U6cHcx",
        "YWxpY2U6cHcxMA==",
        "YWxpY2U6cHcxMDA=",
        "dXNlcjo/Pz5+fg==",
        "em/Dqzrigqw=",
    ] {
        assert!(check(&auth, &Source::ProxyBasic(Cow::Borrowed(text))) == Status::Pass);
    }
    assert!(check(&auth, &Source::ProxyBasic(Cow::Borrowed("alice:pw1"))) == Status::Reject);
    assert!(check(&auth, &Source::ProxyBasic(Cow::Borrowed("YWxpY2U6cHcxMA"))) == Status::Reject);
    assert_eq!(
        auth.username_for(&Source::Sni(Cow::Borrowed("em/Dqzrigqw=")))
            .as_deref(),
        Some("zoë")
    );
}

#[test]
fn the_later_of_two_clients_with_one_pair_gives_the_username() {
    let mut auth = ReloadableAuthenticator::new(&[client("a:b", "c"), client("a", "b:c")]);
    assert_eq!(auth.len(), 1);
    assert_eq!(auth.username_for(&creds("a:b", "c")).as_deref(), Some("a"));
    assert_eq!(auth.reload(&[client("a", "b:c"), client("a:b", "c")]), 1);
    assert_eq!(
        auth.username_for(&creds("a", "b:c")).as_deref(),
        Some("a:b")
    );
}

#[test]
fn a_list_put_together_from_two_knows_both() {
    let auth = ReloadableAuthenticator::new(&[
        client("alice", "pw1"),
        client("bob", "pw2"),
        client("bob", "pw2"),
        client("carol", "pw3"),
    ]);
    assert_eq!(auth.len(), 3);
    for (name, password) in [("alice", "pw1"), ("bob", "pw2"), ("carol", "pw3")] {
        assert_eq!(
            auth.username_for(&creds(name, password)).as_deref(),
            Some(name)
        );
    }
}

#[test]
fn an_encoded_list_maps_credentials_to_names() {
    let encoded = ReloadableAuthenticator::encode(&[client("alice", "pw1"), client("bob", "pw2")]);
    assert_eq!(encoded.len(), 2);
    assert_eq!(
        encoded.get("YWxpY2U6cHcx").map(|name| &**name),
        Some("alice")
    );
    assert!(encoded.get("alice:pw1").is_none());
    assert!(ReloadableAuthenticator::encode(&[]).is_empty());
}

#[test]
fn an_empty_name_and_password_are_credentials_too() {
    let auth = ReloadableAuthenticator::new(&[client("", "")]);
    assert!(!auth.is_empty());
    assert!(check(&auth, &creds("", "")) == Status::Pass);
    assert!(check(&auth, &Source::Sni(Cow::Borrowed(""))) == Status::Reject);
}
