//! `xrayctl sharelink`: the connection link of a client chosen by number.

use vstd::prelude::*;
use crate::cmd::listusers::{numbered_client_lines, numbered_clients, strings_view};
use crate::cmd::rmuser::{choice_of, prompt_number};
use crate::error::XrayError;
use crate::json::{clients_of, member, str_of, Json, JsonModel};
use crate::cmd::mainuser::main_link;
use crate::utils::config::{client_email, client_id, get_clients};
use crate::utils::display::{build_vless_link, config_link};
use crate::utils::entities::Keys;

verus! {

/// The lines shown before asking which client to share: one numbered line
/// per client.  Fails where there is no client array, or no client.
pub fn client_list(config: &Json) -> (r: Result<Vec<String>, XrayError>)
    ensures
        match clients_of(config@) {
            None => r matches Err(XrayError::NoClientsArray),
            Some(cs) => if cs.len() == 0 {
                r matches Err(XrayError::NoClientsFound)
            } else {
                r matches Ok(lines) && strings_view(lines@) == numbered_clients(cs)
            },
        },
{
    let numbered = numbered_client_lines(config)?;
    assert(strings_view(numbered@).len() == numbered@.len());
    if numbered.len() == 0 {
        return Err(XrayError::NoClientsFound);
    }
    Ok(numbered)
}

/// The connection link of the client whose number `input` gives, with the
/// client's email and id (the empty string where it has none).
pub fn run(config: &Json, keys: &Keys, input: &str, ip: &str) -> (r: Result<String, XrayError>)
    ensures
        match clients_of(config@) {
            None => r matches Err(XrayError::NoClientsArray),
            Some(cs) => if cs.len() == 0 {
                r matches Err(XrayError::NoClientsFound)
            } else {
                match choice_of(input@, cs.len() as usize) {
                    Err(e) => r matches Err(f) && f == e,
                    Ok(n) => r matches Ok(link) && link@ == config_link(
                        config@,
                        *keys,
                        client_email(cs[n - 1]),
                        client_id(cs[n - 1]),
                        ip@,
                    ),
                }
            },
        },
{
    let rows = get_clients(config)?;
    if rows.len() == 0 {
        return Err(XrayError::NoClientsFound);
    }
    let choice = prompt_number(input, rows.len())?;
    let row = &rows[choice - 1];
    build_vless_link(config, keys, row.1.as_str(), row.2.as_str(), ip)
}

/// The link shared for the first client is the main user's link, where the
/// first client has a string `email` and `id`.
pub proof fn law_first_link_is_main_link(config: JsonModel, keys: Keys, ip: Seq<char>)
    requires
        clients_of(config) is Some,
        clients_of(config)->0.len() > 0,
        str_of(member(clients_of(config)->0[0], "email"@)) is Some,
        str_of(member(clients_of(config)->0[0], "id"@)) is Some,
    ensures
        config_link(
            config,
            keys,
            client_email(clients_of(config)->0[0]),
            client_id(clients_of(config)->0[0]),
            ip,
        ) == main_link(config, keys, ip),
{
}

} // verus!
