//! Reading the client list of the configuration.

use vstd::prelude::*;
use crate::error::XrayError;
use crate::json::{
    as_str, clients, clients_of, items_model, lemma_items_model, member, member_ref, model_wf,
    parse_json, parsed_json, pretty_json, pretty_text, str_of, Json, JsonModel,
};

verus! {

/// The string `v`, or the empty string where `v` is no string.
pub open spec fn str_or_empty(v: JsonModel) -> Seq<char> {
    match str_of(v) {
        Some(s) => s,
        None => Seq::empty(),
    }
}

/// The `email` of a client, or the empty string.
pub open spec fn client_email(c: JsonModel) -> Seq<char> {
    str_or_empty(member(c, "email"@))
}

/// The `id` (UUID) of a client, or the empty string.
pub open spec fn client_id(c: JsonModel) -> Seq<char> {
    str_or_empty(member(c, "id"@))
}

/// `rows` lists the clients `cs` in order as `(index, email, id)`.
pub open spec fn rows_of(rows: Seq<(usize, String, String)>, cs: Seq<JsonModel>) -> bool {
    &&& rows.len() == cs.len()
    &&& forall|i: int|
        0 <= i < cs.len() ==> {
            &&& (#[trigger] rows[i]).0 == i
            &&& rows[i].1@ == client_email(cs[i])
            &&& rows[i].2@ == client_id(cs[i])
        }
}

/// The string member `key` of `v`, or the empty string.
pub fn str_member(v: &Json, key: &str) -> (r: String)
    ensures
        r@ == str_or_empty(member(v@, key@)),
{
    match member_ref(v, key) {
        Some(x) => match as_str(x) {
            Some(s) => s.clone(),
            None => String::new(),
        },
        None => String::new(),
    }
}

/// The clients of the first inbound as `(index, email, id)`, with the empty
/// string where a client has no string `email` or `id`.
pub fn get_clients(config: &Json) -> (r: Result<Vec<(usize, String, String)>, XrayError>)
    ensures
        match clients_of(config@) {
            None => r matches Err(XrayError::NoClientsArray),
            Some(cs) => r matches Ok(rows) && rows_of(rows@, cs),
        },
{
    let items = match clients(config) {
        Some(items) => items,
        None => return Err(XrayError::NoClientsArray),
    };
    let ghost cs = items_model(items@);
    proof {
        lemma_items_model(items@);
    }
    let mut rows: Vec<(usize, String, String)> = Vec::new();
    let mut i: usize = 0;
    while i < items.len()
        invariant
            i <= items@.len(),
            cs == items_model(items@),
            cs.len() == items@.len(),
            forall|j: int| 0 <= j < items@.len() ==> #[trigger] cs[j] == items@[j]@,
            rows_of(rows@, cs.take(i as int)),
        decreases items@.len() - i,
    {
        let c = &items[i];
        let email = str_member(c, "email");
        let id = str_member(c, "id");
        rows.push((i, email, id));
        i = i + 1;
        assert(rows_of(rows@, cs.take(i as int)));
    }
    assert(cs.take(i as int) == cs);
    Ok(rows)
}

/// Reads the text of `config.json` as JSON.
pub fn read_config(content: &str) -> (r: Result<Json, XrayError>)
    ensures
        match parsed_json(content@) {
            Some(m) => r matches Ok(j) && j@ == m && model_wf(m),
            None => r matches Err(XrayError::ConfigParse),
        },
{
    match parse_json(content) {
        Some(j) => Ok(j),
        None => Err(XrayError::ConfigParse),
    }
}

/// The text written to `config.json`: the configuration as pretty JSON.
pub fn write_config(config: &Json) -> (r: Result<String, XrayError>)
    ensures
        match pretty_json(config@) {
            Some(t) => r matches Ok(s) && s@ == t,
            None => r matches Err(XrayError::ConfigUnwritable),
        },
{
    match pretty_text(config) {
        Some(t) => Ok(t),
        None => Err(XrayError::ConfigUnwritable),
    }
}

} // verus!
