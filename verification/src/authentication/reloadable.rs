//! An authenticator whose client list can be replaced while the endpoint is running.

use crate::authentication::base64_reading;
use crate::authentication::basic_credentials;
use crate::authentication::basic_credentials::encode_credentials;
use crate::authentication::client::Client;
use crate::authentication::laws;
use crate::authentication::{Authenticator, Source, Status};
use crate::shared_str::shared_str;
use std::borrow::Cow;
use std::sync::Arc;
use vstd::hash_map::StringHashMap;
use vstd::prelude::*;
use vstd::utf8::*;

verus! {

/// The credentials of a client as they arrive on the wire.
pub open spec fn client_credentials(client: Client) -> Seq<char> {
    basic_credentials::credential(client.username@, client.password@)
}

/// Credentials as they arrive on the wire, mapped to the username behind them.
///
/// Where two clients have the same credentials, the username is that of the later one.
pub open spec fn registry(clients: Seq<Client>) -> Map<Seq<char>, Seq<char>>
    decreases clients.len(),
{
    if clients.len() == 0 {
        Map::empty()
    } else {
        registry(clients.drop_last()).insert(
            client_credentials(clients.last()),
            clients.last().username@,
        )
    }
}

/// An [`Authenticator`] whose client list can be replaced while the endpoint is running.
///
/// An authenticator that reads its clients once at startup has to be restarted to add or remove a
/// user, and every live connection drops with it. That is fine for a hand-edited deployment, but
/// not for one driven by a panel that re-syncs its user list on a timer.
///
/// The username behind the credentials is only ever used to attribute traffic, so it is kept as an
/// `Arc<str>`: a metric label can hold a cheap clone that stays valid even if the user is removed
/// by a reload halfway through the connection.
pub struct ReloadableAuthenticator {
    clients: StringHashMap<Arc<str>>,
}

impl View for ReloadableAuthenticator {
    type V = Map<Seq<char>, Seq<char>>;

    /// The known credentials, mapped to the username behind them.
    closed spec fn view(&self) -> Map<Seq<char>, Seq<char>> {
        usernames(self.clients@)
    }
}

/// An encoded client list by its characters.
pub open spec fn usernames(clients: Map<Seq<char>, Arc<str>>) -> Map<Seq<char>, Seq<char>> {
    clients.map_values(|username: Arc<str>| username@)
}

proof fn lemma_registry_reads_as_the_list(clients: Seq<Client>)
    ensures
        forall|text: Seq<char>| #[trigger]
            registry(clients).contains_key(text) <==> exists|i: int|
                0 <= i < clients.len() && base64_reading::read_base64(text) == Some(
                    encode_utf8(
                        (#[trigger] clients[i]).username@ + seq![':'] + clients[i].password@,
                    ),
                ),
{
    assert forall|text: Seq<char>| #[trigger]
        registry(clients).contains_key(text) <==> exists|i: int|
            0 <= i < clients.len() && base64_reading::read_base64(text) == Some(
                encode_utf8((#[trigger] clients[i]).username@ + seq![':'] + clients[i].password@),
            ) by {
        laws::law_known_credentials_read_as_a_listed_pair(clients, text);
    }
}

impl ReloadableAuthenticator {
    #[verifier::type_invariant]
    spec fn is_finite(&self) -> bool {
        self.clients@.dom().finite()
    }

    /// An authenticator that knows the given clients.
    pub fn new(clients: &[Client]) -> (auth: ReloadableAuthenticator)
        ensures
            auth@ == registry(clients@),
            forall|text: Seq<char>| #[trigger]
                auth@.contains_key(text) <==> exists|i: int|
                    0 <= i < clients@.len() && base64_reading::read_base64(text) == Some(
                        encode_utf8(
                            (#[trigger] clients@[i]).username@ + seq![':'] + clients@[i].password@,
                        ),
                    ),
    {
        proof {
            lemma_registry_reads_as_the_list(clients@);
        }
        ReloadableAuthenticator { clients: Self::encode(clients) }
    }

    /// Replaces the client list, returning how many clients are now known.
    ///
    /// Callers are expected to keep the previous list on a parse failure rather than reloading an
    /// empty one: this is reachable from a periodic sync, and a truncated or half-written file
    /// must not be able to lock every user out.
    pub fn reload(&mut self, clients: &[Client]) -> (count: usize)
        ensures
            final(self)@ == registry(clients@),
            count == registry(clients@).len(),
            count == final(self)@.len(),
            forall|text: Seq<char>| #[trigger]
                final(self)@.contains_key(text) <==> exists|i: int|
                    0 <= i < clients@.len() && base64_reading::read_base64(text) == Some(
                        encode_utf8(
                            (#[trigger] clients@[i]).username@ + seq![':'] + clients@[i].password@,
                        ),
                    ),
    {
        proof {
            lemma_registry_reads_as_the_list(clients@);
        }
        let next = Self::encode(clients);
        assert(usernames(next@).dom() =~= next@.dom());
        let count: usize = next.len();
        self.clients = next;
        count
    }

    /// How many clients are known.
    pub fn len(&self) -> (count: usize)
        ensures
            count == self@.len(),
    {
        assert(self@.dom() =~= self.clients@.dom());
        self.clients.len()
    }

    /// Tells whether no client is known.
    pub fn is_empty(&self) -> (empty: bool)
        ensures
            empty == (self@ == Map::<Seq<char>, Seq<char>>::empty()),
    {
        proof {
            use_type_invariant(self);
            assert(self@.dom() =~= self.clients@.dom());
            if self@.len() == 0 {
                assert(self@ =~= Map::empty());
            }
        }
        self.len() == 0
    }

    /// The username the given credentials belong to, if they are known.
    ///
    /// Traffic has to be attributed to a user before it can be billed, and the credentials are the
    /// only thing a connection carries: nothing downstream of authentication knows which account
    /// it is serving. Returning the name here keeps that lookup in the one place that already
    /// holds the mapping.
    pub fn username_for(&self, source: &Source<'_>) -> (username: Option<Arc<str>>)
        ensures
            match username {
                Some(name) => self@.contains_pair(source.credentials(), name@),
                None => !self@.contains_key(source.credentials()),
            },
            username is Some <==> self.knows(source.credentials()),
            match source {
                Source::ProxyBasic(text) => username is Some <==> self@.contains_key(text@),
                Source::Sni(text) => username is Some <==> self@.contains_key(text@),
            },
    {
        match self.clients.get(Self::credentials(source)) {
            Some(username) => Some(username.clone()),
            None => None,
        }
    }

    /// The client list by credentials, in the encoding that arrives in a `Proxy-Authorization`
    /// header.
    pub fn encode(clients: &[Client]) -> (encoded: StringHashMap<Arc<str>>)
        ensures
            usernames(encoded@) == registry(clients@),
            encoded@.dom().finite(),
    {
        let mut encoded: StringHashMap<Arc<str>> = StringHashMap::new();
        for i in 0..clients.len()
            invariant
                encoded@.dom().finite(),
                usernames(encoded@) =~= registry(clients@.take(i as int)),
        {
            let client = &clients[i];
            encoded.insert(
                encode_credentials(client.username.as_str(), client.password.as_str()),
                shared_str(client.username.as_str()),
            );
            assert(clients@.take(i + 1).drop_last() =~= clients@.take(i as int));
        }
        assert(clients@.take(clients@.len() as int) =~= clients@);
        encoded
    }

    fn credentials<'a>(source: &'a Source<'_>) -> (text: &'a str)
        ensures
            text@ == source.credentials(),
    {
        let text = match source {
            Source::ProxyBasic(text) => text,
            Source::Sni(text) => text,
        };
        match text {
            Cow::Borrowed(borrowed) => borrowed,
            Cow::Owned(owned) => owned.as_str(),
        }
    }
}

impl Authenticator for ReloadableAuthenticator {
    open spec fn knows(&self, credentials: Seq<char>) -> bool {
        self@.contains_key(credentials)
    }

    fn authenticate(&self, source: &Source<'_>) -> (status: Status)
        ensures
            match source {
                Source::ProxyBasic(text) => status == Status::Pass <==> self@.contains_key(text@),
                Source::Sni(text) => status == Status::Pass <==> self@.contains_key(text@),
            },
    {
        if self.clients.contains_key(Self::credentials(source)) {
            Status::Pass
        } else {
            Status::Reject
        }
    }
}

} // verus!
