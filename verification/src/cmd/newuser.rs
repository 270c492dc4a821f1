//! `xrayctl newuser`: adds a client with a fresh UUID.

use vstd::prelude::*;
use crate::error::XrayError;
use crate::json::{
    clients_of, edit_clients, is_first_key, lemma_clients_of_with_clients, lemma_key_index,
    lemma_members_model, members_model, with_clients, ClientEdit, Json, JsonModel,
    keys_distinct, model_wf,
};
use crate::text::chars_of;
use crate::utils::config::{client_email, client_id, get_clients};
use crate::utils::display::config_link;
use crate::utils::entities::Keys;

verus! {

/// Why `name` cannot be a username: it is empty, or it holds a space.
pub open spec fn username_problem(name: Seq<char>) -> Option<XrayError> {
    if name.len() == 0 {
        Some(XrayError::EmptyUsername)
    } else if name.contains(' ') {
        Some(XrayError::UsernameHasSpaces)
    } else {
        None
    }
}

/// Some client of `cs` has the email `name`.
pub open spec fn is_registered(cs: Seq<JsonModel>, name: Seq<char>) -> bool {
    exists|i: int| 0 <= i < cs.len() && #[trigger] client_email(cs[i]) == name
}

/// The client entry for `email` with UUID `uuid`.
pub open spec fn new_client_model(email: Seq<char>, uuid: Seq<char>) -> JsonModel {
    JsonModel::Object(
        seq![
            ("email"@, JsonModel::Str(email)),
            ("id"@, JsonModel::Str(uuid)),
            ("flow"@, JsonModel::Str("xtls-rprx-vision"@)),
        ],
    )
}

/// Checks that `name` can be a username.
pub fn check_username(name: &str) -> (r: Result<(), XrayError>)
    ensures
        match username_problem(name@) {
            Some(e) => r matches Err(f) && f == e,
            None => r is Ok,
        },
{
    let cs = chars_of(name);
    if cs.len() == 0 {
        return Err(XrayError::EmptyUsername);
    }
    let mut i: usize = 0;
    while i < cs.len()
        invariant
            i <= cs@.len(),
            cs@ == name@,
            forall|j: int| 0 <= j < i ==> cs@[j] != ' ',
        decreases cs@.len() - i,
    {
        if cs[i] == ' ' {
            assert(name@[i as int] == ' ');
            return Err(XrayError::UsernameHasSpaces);
        }
        i = i + 1;
    }
    assert(!name@.contains(' '));
    Ok(())
}

/// Checks that the configuration has a client list without a client named
/// `name`.
pub fn check_new_user(config: &Json, name: &str) -> (r: Result<(), XrayError>)
    ensures
        match clients_of(config@) {
            None => r matches Err(XrayError::NoClientsArray),
            Some(cs) => if is_registered(cs, name@) {
                r matches Err(XrayError::UserExists(n)) && n@ == name@
            } else {
                r is Ok
            },
        },
{
    let rows = match get_clients(config) {
        Ok(rows) => rows,
        Err(e) => return Err(e),
    };
    let ghost cs = clients_of(config@)->0;
    let wanted: String = name.to_owned();
    let mut i: usize = 0;
    while i < rows.len()
        invariant
            i <= rows@.len(),
            rows@.len() == cs.len(),
            clients_of(config@) == Some(cs),
            wanted@ == name@,
            forall|j: int| 0 <= j < cs.len() ==> (#[trigger] rows@[j]).1@ == client_email(cs[j]),
            forall|j: int| 0 <= j < i ==> client_email(cs[j]) != name@,
        decreases rows@.len() - i,
    {
        if rows[i].1 == wanted {
            assert(client_email(cs[i as int]) == name@);
            assert(is_registered(cs, name@));
            return Err(XrayError::UserExists(wanted));
        }
        i = i + 1;
    }
    Ok(())
}

/// The client entry for `email` with UUID `uuid`.
pub fn new_client(email: &str, uuid: &str) -> (r: Json)
    ensures
        r@ == new_client_model(email@, uuid@),
        model_wf(r@),
{
    proof {
        reveal_strlit("email");
        reveal_strlit("id");
        reveal_strlit("flow");
        let ms = new_client_model(email@, uuid@)->Object_0;
        assert("email"@.len() != "id"@.len() && "email"@.len() != "flow"@.len());
        assert("id"@.len() != "flow"@.len());
        assert(ms[0].0 != ms[1].0 && ms[0].0 != ms[2].0 && ms[1].0 != ms[2].0);
        assert(keys_distinct(ms));
        assert forall|i: int| 0 <= i < ms.len() implies model_wf(#[trigger] ms[i].1) by {
            assert(ms[i].1 is Str);
        }
        assert(model_wf(new_client_model(email@, uuid@)));
    }
    let members: Vec<(String, Json)> = vec![
        ("email".to_owned(), Json::Str(email.to_owned())),
        ("id".to_owned(), Json::Str(uuid.to_owned())),
        ("flow".to_owned(), Json::Str("xtls-rprx-vision".to_owned())),
    ];
    proof {
        lemma_members_model(members@);
        assert(members_model(members@) =~= new_client_model(email@, uuid@)->Object_0);
    }
    Json::Object(members)
}

/// Adds the client `email` with UUID `uuid` at the end of the client list.
/// Refuses an empty username or one with a space, a configuration without
/// a client list, and a name already in use; `config` is then unchanged.
pub fn run(config: &mut Json, email: &str, uuid: &str) -> (r: Result<(), XrayError>)
    ensures
        match username_problem(email@) {
            Some(e) => r matches Err(f) && f == e && final(config)@ == old(config)@,
            None => match clients_of(old(config)@) {
                None => r matches Err(XrayError::NoClientsArray) && final(config)@ == old(
                    config,
                )@,
                Some(cs) => if is_registered(cs, email@) {
                    &&& r matches Err(XrayError::UserExists(n)) && n@ == email@
                    &&& final(config)@ == old(config)@
                } else {
                    &&& r is Ok
                    &&& final(config)@ == with_clients(
                        old(config)@,
                        cs.push(new_client_model(email@, uuid@)),
                    )
                },
            },
        },
        model_wf(old(config)@) ==> model_wf(final(config)@),
{
    check_username(email)?;
    check_new_user(config, email)?;
    let client = new_client(email, uuid);
    let mut taken = Json::Null;
    std::mem::swap(config, &mut taken);
    let edited = edit_clients(taken, ClientEdit::Append(client));
    *config = edited;
    Ok(())
}

/// The new client entry has the given email and id.
pub proof fn lemma_new_client_fields(email: Seq<char>, uuid: Seq<char>)
    ensures
        client_email(new_client_model(email, uuid)) == email,
        client_id(new_client_model(email, uuid)) == uuid,
{
    reveal_strlit("email");
    reveal_strlit("id");
    let ms = new_client_model(email, uuid)->Object_0;
    assert(is_first_key(ms, "email"@, 0));
    lemma_key_index(ms, "email"@, 0);
    assert("email"@.len() != "id"@.len());
    assert(ms[0].0 != "id"@);
    assert(is_first_key(ms, "id"@, 1));
    lemma_key_index(ms, "id"@, 1);
}

/// Adding a user appends exactly one client, with the new email and UUID,
/// after the clients that were there, which stay as they were.
pub proof fn law_added_client_is_listed(config: JsonModel, email: Seq<char>, uuid: Seq<char>)
    requires
        clients_of(config) is Some,
    ensures
        ({
            let cs = clients_of(config)->0;
            let after = with_clients(config, cs.push(new_client_model(email, uuid)));
            &&& clients_of(after) is Some
            &&& clients_of(after)->0.len() == cs.len() + 1
            &&& forall|i: int| 0 <= i < cs.len() ==> clients_of(after)->0[i] == cs[i]
            &&& client_email(clients_of(after)->0[cs.len() as int]) == email
            &&& client_id(clients_of(after)->0[cs.len() as int]) == uuid
        }),
{
    let cs = clients_of(config)->0;
    lemma_clients_of_with_clients(config, cs.push(new_client_model(email, uuid)));
    lemma_new_client_fields(email, uuid);
}

/// Once a user is added, the same name is refused as taken.
pub proof fn law_added_name_is_taken(config: JsonModel, email: Seq<char>, uuid: Seq<char>)
    requires
        clients_of(config) is Some,
    ensures
        ({
            let cs = clients_of(config)->0;
            let after = with_clients(config, cs.push(new_client_model(email, uuid)));
            is_registered(clients_of(after)->0, email)
        }),
{
    let cs = clients_of(config)->0;
    law_added_client_is_listed(config, email, uuid);
    let after = with_clients(config, cs.push(new_client_model(email, uuid)));
    assert(client_email(clients_of(after)->0[cs.len() as int]) == email);
}

/// The link shown for a new user is the link later shared for the client
/// at the new user's place in the list.
pub proof fn law_new_user_link_is_shared(
    config: JsonModel,
    keys: Keys,
    email: Seq<char>,
    uuid: Seq<char>,
    ip: Seq<char>,
)
    requires
        clients_of(config) is Some,
    ensures
        ({
            let cs = clients_of(config)->0;
            let after = with_clients(config, cs.push(new_client_model(email, uuid)));
            let added = clients_of(after)->0[cs.len() as int];
            config_link(after, keys, client_email(added), client_id(added), ip) == config_link(
                after,
                keys,
                email,
                uuid,
                ip,
            )
        }),
{
    law_added_client_is_listed(config, email, uuid);
}

/// Only an empty name and a name with a space are refused: every other name,
/// `@` and any other character included, is a valid username.
pub proof fn law_names_without_spaces_are_accepted(name: Seq<char>)
    ensures
        name.len() > 0 && !name.contains(' ') ==> username_problem(name) is None,
        name.len() == 0 ==> username_problem(name) == Some(XrayError::EmptyUsername),
        name.len() > 0 && name.contains(' ') ==> username_problem(name) == Some(
            XrayError::UsernameHasSpaces,
        ),
{
}

} // verus!
