//! `xrayctl mainuser`: the connection link of the first (main) user.

use vstd::prelude::*;
use crate::error::XrayError;
use crate::json::{as_str, clients, clients_of, lemma_items_model, member, member_ref, str_of, Json, JsonModel};
use crate::utils::display::{build_vless_link, config_link};
use crate::utils::entities::Keys;

verus! {

/// The string member `key` of `v`, or `default` where it has none.
pub open spec fn str_or(v: JsonModel, key: Seq<char>, default: Seq<char>) -> Seq<char> {
    match str_of(member(v, key)) {
        Some(s) => s,
        None => default,
    }
}

/// The link of the main user of `config`: the first client, with its `id`
/// (else the UUID of `keys`) and its `email` (else `main`).
pub open spec fn main_link(config: JsonModel, keys: Keys, ip: Seq<char>) -> Seq<char> {
    let first = clients_of(config)->0[0];
    config_link(
        config,
        keys,
        str_or(first, "email"@, "main"@),
        str_or(first, "id"@, keys.uuid@),
        ip,
    )
}

/// The connection link of the main user, the first client of the first
/// inbound.  Fails where the configuration lists no client.
pub fn run(config: &Json, keys: &Keys, ip: &str) -> (r: Result<String, XrayError>)
    ensures
        match clients_of(config@) {
            Some(cs) if cs.len() > 0 => r matches Ok(link) && link@ == main_link(config@, *keys, ip@),
            _ => r matches Err(XrayError::NoClientsInConfig),
        },
{
    let items = match clients(config) {
        Some(items) => items,
        None => return Err(XrayError::NoClientsInConfig),
    };
    proof {
        lemma_items_model(items@);
    }
    if items.len() == 0 {
        return Err(XrayError::NoClientsInConfig);
    }
    let first = &items[0];
    let uuid: &str = match member_ref(first, "id") {
        Some(v) => match as_str(v) {
            Some(s) => s.as_str(),
            None => keys.uuid.as_str(),
        },
        None => keys.uuid.as_str(),
    };
    let email: &str = match member_ref(first, "email") {
        Some(v) => match as_str(v) {
            Some(s) => s.as_str(),
            None => "main",
        },
        None => "main",
    };
    build_vless_link(config, keys, email, uuid, ip)
}

} // verus!
