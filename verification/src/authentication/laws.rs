//! What the client list decides.

use crate::authentication::base64_reading;
use crate::authentication::basic_credentials;
use crate::authentication::client::Client;
use crate::authentication::reloadable;
use crate::authentication::reloadable::ReloadableAuthenticator;
use crate::authentication::{Authenticator, Source};
use std::borrow::Cow;
use vstd::prelude::*;
use vstd::utf8::*;

verus! {

/// A client of the list goes by this name and password.
pub open spec fn lists_client(
    clients: Seq<Client>,
    username: Seq<char>,
    password: Seq<char>,
) -> bool {
    exists|i: int|
        0 <= i < clients.len() && (#[trigger] clients[i]).username@ == username
            && clients[i].password@ == password
}

/// No client of the list but one of this name and password has the same `username:password`.
pub open spec fn is_unambiguous(
    clients: Seq<Client>,
    username: Seq<char>,
    password: Seq<char>,
) -> bool {
    forall|i: int|
        0 <= i < clients.len() && basic_credentials::user_pass(
            (#[trigger] clients[i]).username@,
            clients[i].password@,
        ) == basic_credentials::user_pass(username, password) ==> clients[i].username@ == username
            && clients[i].password@ == password
}

/// The known credentials are those of the listed clients, and no others.
pub proof fn law_only_listed_clients_are_known(clients: Seq<Client>, credentials: Seq<char>)
    ensures
        reloadable::registry(clients).contains_key(credentials) <==> exists|i: int|
            0 <= i < clients.len() && reloadable::client_credentials(#[trigger] clients[i])
                == credentials,
    decreases clients.len(),
{
    if clients.len() > 0 {
        let front = clients.drop_last();
        law_only_listed_clients_are_known(front, credentials);
        assert(clients.last() == clients[clients.len() - 1]);
        if exists|i: int|
            0 <= i < front.len() && reloadable::client_credentials(#[trigger] front[i])
                == credentials {
            let i = choose|i: int|
                0 <= i < front.len() && reloadable::client_credentials(#[trigger] front[i])
                    == credentials;
            assert(clients[i] == front[i]);
        }
        if exists|i: int|
            0 <= i < clients.len() && reloadable::client_credentials(#[trigger] clients[i])
                == credentials {
            let i = choose|i: int|
                0 <= i < clients.len() && reloadable::client_credentials(#[trigger] clients[i])
                    == credentials;
            if i < front.len() {
                assert(front[i] == clients[i]);
            }
        }
    }
}

/// Known credentials resolve to the username of the last client that has them.
pub proof fn law_the_last_client_gives_the_username(clients: Seq<Client>, i: int)
    requires
        0 <= i < clients.len(),
        forall|j: int|
            i < j < clients.len() ==> reloadable::client_credentials(#[trigger] clients[j])
                != reloadable::client_credentials(clients[i]),
    ensures
        reloadable::registry(clients).contains_pair(
            reloadable::client_credentials(clients[i]),
            clients[i].username@,
        ),
    decreases clients.len(),
{
    if i < clients.len() - 1 {
        let front = clients.drop_last();
        assert forall|j: int| i < j < front.len() implies reloadable::client_credentials(
            #[trigger] front[j],
        ) != reloadable::client_credentials(front[i]) by {
            assert(front[j] == clients[j]);
        }
        law_the_last_client_gives_the_username(front, i);
        assert(clients.last() == clients[clients.len() - 1]);
    }
}

/// A name and password are known exactly when some listed client has the same
/// `username:password`.
pub proof fn law_the_pair_decides(clients: Seq<Client>, username: Seq<char>, password: Seq<char>)
    ensures
        reloadable::registry(clients).contains_key(
            basic_credentials::credential(username, password),
        ) <==> exists|i: int|
            0 <= i < clients.len() && basic_credentials::user_pass(
                (#[trigger] clients[i]).username@,
                clients[i].password@,
            ) == basic_credentials::user_pass(username, password),
{
    law_only_listed_clients_are_known(
        clients,
        basic_credentials::credential(username, password),
    );
    assert forall|i: int| 0 <= i < clients.len() implies (reloadable::client_credentials(
        #[trigger] clients[i],
    ) == basic_credentials::credential(username, password) <==> basic_credentials::user_pass(
        clients[i].username@,
        clients[i].password@,
    ) == basic_credentials::user_pass(username, password)) by {
        basic_credentials::law_credentials_are_faithful(
            clients[i].username@,
            clients[i].password@,
            username,
            password,
        );
    }
}

/// A listed name and password are let in, and all others are rejected; they resolve to the name.
///
/// Left out are names and passwords that run into those of another client: `a:b` with `c` is
/// told from `a` with `b:c` by nothing.
pub proof fn law_the_list_decides(
    clients: Seq<Client>,
    username: Seq<char>,
    password: Seq<char>,
)
    requires
        is_unambiguous(clients, username, password),
    ensures
        reloadable::registry(clients).contains_key(
            basic_credentials::credential(username, password),
        ) <==> lists_client(clients, username, password),
        lists_client(clients, username, password) ==> reloadable::registry(
            clients,
        )[basic_credentials::credential(username, password)] == username,
    decreases clients.len(),
{
    if clients.len() > 0 {
        let front = clients.drop_last();
        let last = clients.last();
        assert(last == clients[clients.len() - 1]);
        assert forall|i: int|
            0 <= i < front.len() && basic_credentials::user_pass(
                (#[trigger] front[i]).username@,
                front[i].password@,
            ) == basic_credentials::user_pass(username, password) implies front[i].username@
            == username && front[i].password@ == password by {
            assert(front[i] == clients[i]);
        }
        law_the_list_decides(front, username, password);
        if lists_client(front, username, password) {
            let i = choose|i: int|
                0 <= i < front.len() && (#[trigger] front[i]).username@ == username
                    && front[i].password@ == password;
            assert(clients[i] == front[i]);
        }
        basic_credentials::law_credentials_are_faithful(
            last.username@,
            last.password@,
            username,
            password,
        );
        if lists_client(clients, username, password) {
            let i = choose|i: int|
                0 <= i < clients.len() && (#[trigger] clients[i]).username@ == username
                    && clients[i].password@ == password;
            if i < front.len() {
                assert(front[i] == clients[i]);
            }
        }
    }
}

/// Where no username holds a colon, no client runs into another.
pub proof fn law_plain_usernames_are_unambiguous(
    clients: Seq<Client>,
    username: Seq<char>,
    password: Seq<char>,
)
    requires
        !username.contains(':'),
        forall|i: int| 0 <= i < clients.len() ==> !(#[trigger] clients[i]).username@.contains(':'),
    ensures
        is_unambiguous(clients, username, password),
{
    assert forall|i: int|
        0 <= i < clients.len() && basic_credentials::user_pass(
            (#[trigger] clients[i]).username@,
            clients[i].password@,
        ) == basic_credentials::user_pass(username, password) implies clients[i].username@
        == username && clients[i].password@ == password by {
        basic_credentials::law_credentials_settle_the_client(
            clients[i].username@,
            clients[i].password@,
            username,
            password,
        );
    }
}

/// A password change takes effect and keeps the username: of a client whose name is listed once,
/// only the password in the list is let in.
pub proof fn law_a_password_change_takes_effect(
    clients: Seq<Client>,
    i: int,
    password: Seq<char>,
)
    requires
        0 <= i < clients.len(),
        forall|j: int|
            0 <= j < clients.len() && (#[trigger] clients[j]).username@ == clients[i].username@
                ==> j == i,
        is_unambiguous(clients, clients[i].username@, clients[i].password@),
        is_unambiguous(clients, clients[i].username@, password),
    ensures
        reloadable::registry(clients).contains_key(
            basic_credentials::credential(clients[i].username@, password),
        ) <==> password == clients[i].password@,
        reloadable::registry(clients).contains_pair(
            reloadable::client_credentials(clients[i]),
            clients[i].username@,
        ),
{
    law_the_list_decides(clients, clients[i].username@, password);
    law_the_list_decides(clients, clients[i].username@, clients[i].password@);
    assert(lists_client(clients, clients[i].username@, clients[i].password@));
}

/// An empty list rejects everyone.
pub proof fn law_an_empty_list_rejects_everyone(credentials: Seq<char>)
    ensures
        !reloadable::registry(Seq::<Client>::empty()).contains_key(credentials),
        reloadable::registry(Seq::<Client>::empty()).len() == 0,
{
}

/// A text is known exactly when it is the Base64 of the name, a colon and the password of some
/// listed client, and it resolves to the name of the last such client.
pub proof fn law_known_credentials_read_as_a_listed_pair(clients: Seq<Client>, text: Seq<char>)
    ensures
        reloadable::registry(clients).contains_key(text) <==> exists|i: int|
            0 <= i < clients.len() && base64_reading::read_base64(text) == Some(
                encode_utf8((#[trigger] clients[i]).username@ + seq![':'] + clients[i].password@),
            ),
        forall|i: int|
            0 <= i < clients.len() && base64_reading::read_base64(text) == Some(
                encode_utf8((#[trigger] clients[i]).username@ + seq![':'] + clients[i].password@),
            ) && (forall|j: int|
                i < j < clients.len() ==> base64_reading::read_base64(text) != Some(
                    encode_utf8(
                        (#[trigger] clients[j]).username@ + seq![':'] + clients[j].password@,
                    ),
                )) ==> reloadable::registry(clients)[text] == clients[i].username@,
{
    assert forall|i: int| 0 <= i < clients.len() implies (base64_reading::read_base64(text) == Some(
        encode_utf8((#[trigger] clients[i]).username@ + seq![':'] + clients[i].password@),
    ) <==> reloadable::client_credentials(clients[i]) == text) by {
        base64_reading::law_credentials_read_as_the_pair(
            clients[i].username@,
            clients[i].password@,
            text,
        );
    }
    law_only_listed_clients_are_known(clients, text);
    assert forall|i: int|
        0 <= i < clients.len() && base64_reading::read_base64(text) == Some(
            encode_utf8((#[trigger] clients[i]).username@ + seq![':'] + clients[i].password@),
        ) && (forall|j: int|
            i < j < clients.len() ==> base64_reading::read_base64(text) != Some(
                encode_utf8((#[trigger] clients[j]).username@ + seq![':'] + clients[j].password@),
            )) implies reloadable::registry(clients)[text] == clients[i].username@ by {
        law_the_last_client_gives_the_username(clients, i);
    }
}

/// A connection that brings the Base64 of a listed client's name, colon and password is let in,
/// whichever way it brings it, and one that brings anything else is not.
pub proof fn law_a_listed_client_is_let_in(
    auth: ReloadableAuthenticator,
    clients: Seq<Client>,
    text: Cow<'_, str>,
)
    requires
        auth@ == reloadable::registry(clients),
    ensures
        auth.knows(Source::ProxyBasic(text).credentials()) <==> exists|i: int|
            0 <= i < clients.len() && base64_reading::read_base64(text@) == Some(
                encode_utf8((#[trigger] clients[i]).username@ + seq![':'] + clients[i].password@),
            ),
        auth.knows(Source::Sni(text).credentials()) <==> exists|i: int|
            0 <= i < clients.len() && base64_reading::read_base64(text@) == Some(
                encode_utf8((#[trigger] clients[i]).username@ + seq![':'] + clients[i].password@),
            ),
{
    law_known_credentials_read_as_a_listed_pair(clients, text@);
}

/// The credentials of a source are the whole text that arrived.
pub proof fn law_credentials_are_the_whole_text(text: Cow<'_, str>)
    ensures
        Source::ProxyBasic(text).credentials() == text@,
        Source::Sni(text).credentials() == text@,
{
}

/// A list put together from two knows what either knows; where both know the same credentials,
/// the second gives the username.
pub proof fn law_lists_are_joined(first: Seq<Client>, second: Seq<Client>)
    ensures
        reloadable::registry(first + second) == reloadable::registry(first).union_prefer_right(
            reloadable::registry(second),
        ),
    decreases second.len(),
{
    if second.len() == 0 {
        assert(first + second =~= first);
    } else {
        law_lists_are_joined(first, second.drop_last());
        assert((first + second).drop_last() =~= first + second.drop_last());
    }
    assert(reloadable::registry(first + second) =~= reloadable::registry(
        first,
    ).union_prefer_right(reloadable::registry(second)));
}

/// Giving a list twice changes nothing.
pub proof fn law_a_list_given_twice_is_the_list(clients: Seq<Client>)
    ensures
        reloadable::registry(clients + clients) == reloadable::registry(clients),
{
    law_lists_are_joined(clients, clients);
    assert(reloadable::registry(clients).union_prefer_right(reloadable::registry(clients))
        =~= reloadable::registry(clients));
}

/// Each set of credentials is known once, however many clients share it: there are never more
/// known clients than listed ones, and as many where no two share their credentials.
pub proof fn law_duplicate_clients_collapse(clients: Seq<Client>)
    ensures
        reloadable::registry(clients).dom() == clients.map_values(
            |client: Client| reloadable::client_credentials(client),
        ).to_set(),
        reloadable::registry(clients).dom().finite(),
        reloadable::registry(clients).len() <= clients.len(),
        clients.map_values(|client: Client| reloadable::client_credentials(client)).no_duplicates()
            ==> reloadable::registry(clients).len() == clients.len(),
{
    let all = clients.map_values(|client: Client| reloadable::client_credentials(client));
    assert forall|credentials: Seq<char>| #[trigger]
        reloadable::registry(clients).dom().contains(credentials) <==> all.to_set().contains(
            credentials,
        ) by {
        law_only_listed_clients_are_known(clients, credentials);
        if exists|i: int|
            0 <= i < clients.len() && reloadable::client_credentials(#[trigger] clients[i])
                == credentials {
            let i = choose|i: int|
                0 <= i < clients.len() && reloadable::client_credentials(#[trigger] clients[i])
                    == credentials;
            assert(all[i] == credentials);
        }
        if all.contains(credentials) {
            let i = all.index_of(credentials);
            assert(reloadable::client_credentials(clients[i]) == credentials);
        }
    }
    assert(reloadable::registry(clients).dom() =~= all.to_set());
    all.lemma_cardinality_of_set();
    if all.no_duplicates() {
        all.unique_seq_to_set();
    }
}

/// It makes no difference where the credentials come from.
pub proof fn law_sni_credentials_count_too(text: Cow<'_, str>)
    ensures
        Source::Sni(text).credentials() == Source::ProxyBasic(text).credentials(),
{
}

} // verus!
