//! A JSON document held as plain values, with the reads that the
//! configuration logic makes and the one edit it makes: replacing the
//! client list of the first inbound.

use vstd::prelude::*;

verus! {

/// A JSON number: a non-negative integer, a negative integer, or any other
/// number, kept as its decimal text.
#[derive(Debug)]
pub enum JsonNumber {
    PosInt(u64),
    NegInt(i64),
    Float(String),
}

/// A JSON value.  Object members keep their order; a lookup by key finds the
/// first member with that key.
#[derive(Debug)]
pub enum Json {
    Null,
    Bool(bool),
    Number(JsonNumber),
    Str(String),
    Array(Vec<Json>),
    Object(Vec<(String, Json)>),
}

/// The mathematical form of a [`JsonNumber`].
pub enum NumberModel {
    PosInt(u64),
    NegInt(i64),
    Float(Seq<char>),
}

/// The mathematical form of a [`Json`] value.
pub enum JsonModel {
    Null,
    Bool(bool),
    Number(NumberModel),
    Str(Seq<char>),
    Array(Seq<JsonModel>),
    Object(Seq<(Seq<char>, JsonModel)>),
}

impl View for JsonNumber {
    type V = NumberModel;

    open spec fn view(&self) -> NumberModel {
        match self {
            JsonNumber::PosInt(n) => NumberModel::PosInt(*n),
            JsonNumber::NegInt(n) => NumberModel::NegInt(*n),
            JsonNumber::Float(t) => NumberModel::Float(t@),
        }
    }
}

/// The model of a JSON value.
pub open spec fn json_model(j: Json) -> JsonModel
    decreases j,
{
    match j {
        Json::Null => JsonModel::Null,
        Json::Bool(b) => JsonModel::Bool(b),
        Json::Number(n) => JsonModel::Number(n@),
        Json::Str(s) => JsonModel::Str(s@),
        Json::Array(items) => JsonModel::Array(items_model(items@)),
        Json::Object(members) => JsonModel::Object(members_model(members@)),
    }
}

/// The models of a list of values.
pub open spec fn items_model(items: Seq<Json>) -> Seq<JsonModel>
    decreases items,
{
    if items.len() == 0 {
        Seq::empty()
    } else {
        items_model(items.drop_last()).push(json_model(items.last()))
    }
}

/// The models of a list of object members.
pub open spec fn members_model(members: Seq<(String, Json)>) -> Seq<(Seq<char>, JsonModel)>
    decreases members,
{
    if members.len() == 0 {
        Seq::empty()
    } else {
        members_model(members.drop_last()).push(
            (members.last().0@, json_model(members.last().1)),
        )
    }
}

impl View for Json {
    type V = JsonModel;

    open spec fn view(&self) -> JsonModel {
        json_model(*self)
    }
}

/// No two members of `ms` share a name.
pub open spec fn keys_distinct(ms: Seq<(Seq<char>, JsonModel)>) -> bool {
    forall|i: int, j: int| 0 <= i < j < ms.len() ==> #[trigger] ms[i].0 != #[trigger] ms[j].0
}

/// The invariant of a JSON document, as a JSON object map keeps it: no
/// object, at any depth, has two members with the same name.
pub open spec fn model_wf(j: JsonModel) -> bool
    decreases j,
{
    match j {
        JsonModel::Array(items) => forall|i: int| 0 <= i < items.len() ==> model_wf(#[trigger] items[i]),
        JsonModel::Object(ms) => keys_distinct(ms) && forall|i: int|
            0 <= i < ms.len() ==> model_wf(#[trigger] ms[i].1),
        _ => true,
    }
}

/// `i` is the position of the first member named `key`.
pub open spec fn is_first_key(ms: Seq<(Seq<char>, JsonModel)>, key: Seq<char>, i: int) -> bool {
    &&& 0 <= i < ms.len()
    &&& ms[i].0 == key
    &&& forall|j: int| 0 <= j < i ==> ms[j].0 != key
}

/// Some member is named `key`.
pub open spec fn has_key(ms: Seq<(Seq<char>, JsonModel)>, key: Seq<char>) -> bool {
    exists|i: int| is_first_key(ms, key, i)
}

/// The position of the first member named `key`.
pub open spec fn key_index(ms: Seq<(Seq<char>, JsonModel)>, key: Seq<char>) -> int {
    choose|i: int| is_first_key(ms, key, i)
}

/// `v[key]`: the first member named `key` of an object, else null.
pub open spec fn member(v: JsonModel, key: Seq<char>) -> JsonModel {
    match v {
        JsonModel::Object(ms) => if has_key(ms, key) {
            ms[key_index(ms, key)].1
        } else {
            JsonModel::Null
        },
        _ => JsonModel::Null,
    }
}

/// `v[i]`: an array's item at `i`, else null.
pub open spec fn item(v: JsonModel, i: int) -> JsonModel {
    match v {
        JsonModel::Array(items) => if 0 <= i < items.len() {
            items[i]
        } else {
            JsonModel::Null
        },
        _ => JsonModel::Null,
    }
}

/// `v.as_str()`.
pub open spec fn str_of(v: JsonModel) -> Option<Seq<char>> {
    match v {
        JsonModel::Str(s) => Some(s),
        _ => None,
    }
}

/// `v.as_array()`.
pub open spec fn array_of(v: JsonModel) -> Option<Seq<JsonModel>> {
    match v {
        JsonModel::Array(items) => Some(items),
        _ => None,
    }
}

/// `v.as_u64()`: only non-negative integers give a value.
pub open spec fn u64_of(v: JsonModel) -> Option<u64> {
    match v {
        JsonModel::Number(NumberModel::PosInt(n)) => Some(n),
        _ => None,
    }
}

/// `v` with the value of its first member named `key` replaced by `new`;
/// `v` itself where it has no such member.
pub open spec fn with_member(v: JsonModel, key: Seq<char>, new: JsonModel) -> JsonModel {
    match v {
        JsonModel::Object(ms) => if has_key(ms, key) {
            JsonModel::Object(ms.update(key_index(ms, key), (key, new)))
        } else {
            v
        },
        _ => v,
    }
}

/// `v` with its item at `i` replaced by `new`; `v` itself where it has none.
pub open spec fn with_item(v: JsonModel, i: int, new: JsonModel) -> JsonModel {
    match v {
        JsonModel::Array(items) => if 0 <= i < items.len() {
            JsonModel::Array(items.update(i, new))
        } else {
            v
        },
        _ => v,
    }
}

/// `config["inbounds"][0]`.
pub open spec fn first_inbound(config: JsonModel) -> JsonModel {
    item(member(config, "inbounds"@), 0)
}

/// `config["inbounds"][0]["settings"]["clients"].as_array()`: the client list.
pub open spec fn clients_of(config: JsonModel) -> Option<Seq<JsonModel>> {
    array_of(member(member(first_inbound(config), "settings"@), "clients"@))
}

/// `settings` with its client list replaced by `clients`.
pub open spec fn settings_with(settings: JsonModel, clients: Seq<JsonModel>) -> JsonModel {
    with_member(settings, "clients"@, JsonModel::Array(clients))
}

/// `inbound` with its client list replaced by `clients`.
pub open spec fn inbound_with(inbound: JsonModel, clients: Seq<JsonModel>) -> JsonModel {
    with_member(inbound, "settings"@, settings_with(member(inbound, "settings"@), clients))
}

/// `inbounds` with the client list of its first entry replaced by `clients`.
pub open spec fn inbounds_with(inbounds: JsonModel, clients: Seq<JsonModel>) -> JsonModel {
    with_item(inbounds, 0, inbound_with(item(inbounds, 0), clients))
}

/// `config` with the client list of its first inbound replaced by `clients`;
/// every other part is left as it was.
pub open spec fn with_clients(config: JsonModel, clients: Seq<JsonModel>) -> JsonModel {
    with_member(config, "inbounds"@, inbounds_with(member(config, "inbounds"@), clients))
}

/// The list models have one entry per element, each the element's model.
pub proof fn lemma_items_model(items: Seq<Json>)
    ensures
        items_model(items).len() == items.len(),
        forall|i: int| 0 <= i < items.len() ==> #[trigger] items_model(items)[i] == items[i]@,
    decreases items.len(),
{
    if items.len() > 0 {
        lemma_items_model(items.drop_last());
    }
}

/// The member models have one entry per member, each its name and model.
pub proof fn lemma_members_model(members: Seq<(String, Json)>)
    ensures
        members_model(members).len() == members.len(),
        forall|i: int|
            0 <= i < members.len() ==> #[trigger] members_model(members)[i] == (
                members[i].0@,
                members[i].1@,
            ),
    decreases members.len(),
{
    if members.len() > 0 {
        lemma_members_model(members.drop_last());
    }
}

/// The first member named `key` is at one place only.
pub proof fn lemma_key_index(ms: Seq<(Seq<char>, JsonModel)>, key: Seq<char>, i: int)
    requires
        is_first_key(ms, key, i),
    ensures
        has_key(ms, key),
        key_index(ms, key) == i,
{
    let j = key_index(ms, key);
    assert(is_first_key(ms, key, j));
    if j < i {
        assert(ms[j].0 != key);
    } else if i < j {
        assert(ms[i].0 != key);
    }
}

/// The value of the first member named `key`.
pub proof fn lemma_member_at(ms: Seq<(Seq<char>, JsonModel)>, key: Seq<char>, i: int)
    requires
        is_first_key(ms, key, i),
    ensures
        member(JsonModel::Object(ms), key) == ms[i].1,
{
    lemma_key_index(ms, key, i);
}

/// Replacing the value of a member keeps the member names, so the member
/// is found where it was and holds the new value.
pub proof fn lemma_with_member(v: JsonModel, key: Seq<char>, new: JsonModel)
    requires
        v is Object,
        has_key(v->Object_0, key),
    ensures
        with_member(v, key, new) is Object,
        has_key(with_member(v, key, new)->Object_0, key),
        member(with_member(v, key, new), key) == new,
{
    let ms = v->Object_0;
    let i = key_index(ms, key);
    let ms2 = ms.update(i, (key, new));
    assert(is_first_key(ms2, key, i));
    lemma_key_index(ms2, key, i);
}

/// Finds the first member of `members` named `key`.
pub fn find_member(members: &Vec<(String, Json)>, key: &str) -> (r: Option<usize>)
    ensures
        match r {
            Some(i) => is_first_key(members_model(members@), key@, i as int),
            None => !has_key(members_model(members@), key@),
        },
{
    let k: String = key.to_owned();
    let ghost ms = members_model(members@);
    proof {
        lemma_members_model(members@);
    }
    let mut i: usize = 0;
    while i < members.len()
        invariant
            i <= members@.len(),
            ms == members_model(members@),
            ms.len() == members@.len(),
            forall|j: int| 0 <= j < members@.len() ==> #[trigger] ms[j] == (members@[j].0@, members@[j].1@),
            k@ == key@,
            forall|j: int| 0 <= j < i ==> ms[j].0 != key@,
        decreases members@.len() - i,
    {
        if members[i].0 == k {
            return Some(i);
        }
        i = i + 1;
    }
    assert forall|j: int| !is_first_key(ms, key@, j) by {
        if is_first_key(ms, key@, j) {
            assert(ms[j].0 != key@);
        }
    }
    None
}

/// `v[key]`, where `None` stands for null.
pub fn member_ref<'a>(v: &'a Json, key: &str) -> (r: Option<&'a Json>)
    ensures
        match r {
            Some(x) => x@ == member(v@, key@),
            None => member(v@, key@) == JsonModel::Null,
        },
{
    match v {
        Json::Object(members) => {
            proof {
                lemma_members_model(members@);
            }
            match find_member(members, key) {
                Some(i) => {
                    proof {
                        lemma_key_index(members_model(members@), key@, i as int);
                    }
                    Some(&members[i].1)
                },
                None => None,
            }
        },
        _ => None,
    }
}

/// `v[i]`, where `None` stands for null.
pub fn item_ref<'a>(v: &'a Json, i: usize) -> (r: Option<&'a Json>)
    ensures
        match r {
            Some(x) => x@ == item(v@, i as int),
            None => item(v@, i as int) == JsonModel::Null,
        },
{
    match v {
        Json::Array(items) => {
            proof {
                lemma_items_model(items@);
            }
            if i < items.len() {
                Some(&items[i])
            } else {
                None
            }
        },
        _ => None,
    }
}

/// `v.as_str()`.
pub fn as_str(v: &Json) -> (r: Option<&String>)
    ensures
        match r {
            Some(s) => str_of(v@) == Some(s@),
            None => str_of(v@) is None,
        },
{
    match v {
        Json::Str(s) => Some(s),
        _ => None,
    }
}

/// `v.as_array()`.
pub fn as_array(v: &Json) -> (r: Option<&Vec<Json>>)
    ensures
        match r {
            Some(items) => array_of(v@) == Some(items_model(items@)),
            None => array_of(v@) is None,
        },
{
    match v {
        Json::Array(items) => {
            proof {
                lemma_items_model(items@);
            }
            Some(items)
        },
        _ => None,
    }
}

/// `v.as_u64()`.
pub fn as_u64(v: &Json) -> (r: Option<u64>)
    ensures
        r == u64_of(v@),
{
    match v {
        Json::Number(JsonNumber::PosInt(n)) => Some(*n),
        _ => None,
    }
}

/// `config["inbounds"][0]["settings"]["clients"].as_array()`.
pub fn clients(config: &Json) -> (r: Option<&Vec<Json>>)
    ensures
        match r {
            Some(items) => clients_of(config@) == Some(items_model(items@)),
            None => clients_of(config@) is None,
        },
{
    let inbounds = match member_ref(config, "inbounds") {
        Some(x) => x,
        None => return None,
    };
    let inbound = match item_ref(inbounds, 0) {
        Some(x) => x,
        None => return None,
    };
    let settings = match member_ref(inbound, "settings") {
        Some(x) => x,
        None => return None,
    };
    let list = match member_ref(settings, "clients") {
        Some(x) => x,
        None => return None,
    };
    as_array(list)
}

/// An edit of the client list.
pub enum ClientEdit {
    /// Add a client at the end.
    Append(Json),
    /// Take out the client at this position.
    RemoveAt(usize),
}

/// The client list `cs` after `edit`; removing at a position past the end
/// changes nothing.
pub open spec fn edited(cs: Seq<JsonModel>, edit: ClientEdit) -> Seq<JsonModel> {
    match edit {
        ClientEdit::Append(c) => cs.push(c@),
        ClientEdit::RemoveAt(i) => if i < cs.len() {
            cs.remove(i as int)
        } else {
            cs
        },
    }
}

/// Replacing one element of a list replaces its model.
pub proof fn lemma_items_update(old: Seq<Json>, new: Seq<Json>, i: int, x: Json)
    requires
        0 <= i < old.len(),
        new == old.update(i, x),
    ensures
        items_model(new) == items_model(old).update(i, x@),
{
    lemma_items_model(old);
    lemma_items_model(new);
    assert(items_model(new) =~= items_model(old).update(i, x@));
}

/// Replacing one member of an object replaces its model.
pub proof fn lemma_members_update(
    old: Seq<(String, Json)>,
    new: Seq<(String, Json)>,
    i: int,
    x: (String, Json),
)
    requires
        0 <= i < old.len(),
        new == old.update(i, x),
    ensures
        members_model(new) == members_model(old).update(i, (x.0@, x.1@)),
{
    lemma_members_model(old);
    lemma_members_model(new);
    assert(members_model(new) =~= members_model(old).update(i, (x.0@, x.1@)));
}

/// Appending to a list appends to its model.
pub proof fn lemma_items_push(items: Seq<Json>, x: Json)
    ensures
        items_model(items.push(x)) == items_model(items).push(x@),
{
    assert(items.push(x).drop_last() == items);
}

/// Applies `edit` to a client list.
pub fn apply_edit(items: Vec<Json>, edit: ClientEdit) -> (r: Vec<Json>)
    ensures
        items_model(r@) == edited(items_model(items@), edit),
{
    match edit {
        ClientEdit::Append(c) => {
            let mut items = items;
            let ghost before = items@;
            proof {
                lemma_items_push(before, c);
            }
            items.push(c);
            items
        },
        ClientEdit::RemoveAt(i) => {
            let mut items = items;
            let ghost before = items@;
            proof {
                lemma_items_model(before);
            }
            if i < items.len() {
                items.remove(i);
                proof {
                    lemma_items_model(items@);
                    assert(items_model(items@) =~= items_model(before).remove(i as int));
                }
            }
            items
        },
    }
}

/// `settings` with `edit` applied to its client list.
fn edit_settings(settings: Json, edit: ClientEdit) -> (r: Json)
    requires
        array_of(member(settings@, "clients"@)) is Some,
    ensures
        r@ == settings_with(
            settings@,
            edited(array_of(member(settings@, "clients"@))->0, edit),
        ),
{
    match settings {
        Json::Object(members) => {
            let mut members = members;
            let ghost old = members@;
            proof {
                lemma_members_model(old);
            }
            let i = match find_member(&members, "clients") {
                Some(i) => i,
                None => {
                    assert(false);
                    return Json::Null;
                },
            };
            proof {
                lemma_key_index(members_model(old), "clients"@, i as int);
            }
            let (name, value) = members.remove(i);
            match value {
                Json::Array(items) => {
                    let ghost cs = items_model(items@);
                    let new_items = apply_edit(items, edit);
                    let entry = (name, Json::Array(new_items));
                    let ghost e = entry;
                    members.insert(i, entry);
                    proof {
                        assert(members@ == old.update(i as int, e));
                        lemma_members_update(old, members@, i as int, e);
                    }
                    Json::Object(members)
                },
                _ => {
                    assert(false);
                    Json::Null
                },
            }
        },
        _ => {
            assert(false);
            Json::Null
        },
    }
}

/// `inbound` with `edit` applied to its client list.
fn edit_inbound(inbound: Json, edit: ClientEdit) -> (r: Json)
    requires
        array_of(member(member(inbound@, "settings"@), "clients"@)) is Some,
    ensures
        r@ == inbound_with(
            inbound@,
            edited(array_of(member(member(inbound@, "settings"@), "clients"@))->0, edit),
        ),
{
    match inbound {
        Json::Object(members) => {
            let mut members = members;
            let ghost old = members@;
            proof {
                lemma_members_model(old);
            }
            let i = match find_member(&members, "settings") {
                Some(i) => i,
                None => {
                    assert(false);
                    return Json::Null;
                },
            };
            proof {
                lemma_key_index(members_model(old), "settings"@, i as int);
            }
            let (name, value) = members.remove(i);
            let new_value = edit_settings(value, edit);
            let entry = (name, new_value);
            let ghost e = entry;
            members.insert(i, entry);
            proof {
                assert(members@ == old.update(i as int, e));
                lemma_members_update(old, members@, i as int, e);
            }
            Json::Object(members)
        },
        _ => {
            assert(false);
            Json::Null
        },
    }
}

/// `inbounds` with `edit` applied to the client list of its first entry.
fn edit_inbounds(inbounds: Json, edit: ClientEdit) -> (r: Json)
    requires
        array_of(member(member(item(inbounds@, 0), "settings"@), "clients"@)) is Some,
    ensures
        r@ == inbounds_with(
            inbounds@,
            edited(array_of(member(member(item(inbounds@, 0), "settings"@), "clients"@))->0, edit),
        ),
{
    match inbounds {
        Json::Array(items) => {
            let mut items = items;
            let ghost old = items@;
            proof {
                lemma_items_model(old);
            }
            if items.len() == 0 {
                assert(false);
                return Json::Null;
            }
            let first = items.remove(0);
            let new_first = edit_inbound(first, edit);
            let ghost e = new_first;
            items.insert(0, new_first);
            proof {
                assert(items@ == old.update(0, e));
                lemma_items_update(old, items@, 0, e);
            }
            Json::Array(items)
        },
        _ => {
            assert(false);
            Json::Null
        },
    }
}

/// `config` with `edit` applied to the client list of its first inbound.
pub fn edit_clients(config: Json, edit: ClientEdit) -> (r: Json)
    requires
        clients_of(config@) is Some,
    ensures
        r@ == with_clients(config@, edited(clients_of(config@)->0, edit)),
        model_wf(config@) && edit_wf(edit) ==> model_wf(r@),
{
    proof {
        if model_wf(config@) && edit_wf(edit) {
            let cs = clients_of(config@)->0;
            lemma_wf_clients(config@);
            let ncs = edited(cs, edit);
            assert forall|i: int| 0 <= i < ncs.len() implies model_wf(#[trigger] ncs[i]) by {
                match edit {
                    ClientEdit::Append(c) => {
                        if i < cs.len() {
                            assert(ncs[i] == cs[i]);
                        }
                    },
                    ClientEdit::RemoveAt(k) => {
                        if k < cs.len() {
                            if i < k {
                                assert(ncs[i] == cs[i]);
                            } else {
                                assert(ncs[i] == cs[i + 1]);
                            }
                        }
                    },
                }
            }
            lemma_wf_with_clients(config@, ncs);
        }
    }
    match config {
        Json::Object(members) => {
            let mut members = members;
            let ghost old = members@;
            proof {
                lemma_members_model(old);
            }
            let i = match find_member(&members, "inbounds") {
                Some(i) => i,
                None => {
                    assert(false);
                    return Json::Null;
                },
            };
            proof {
                lemma_key_index(members_model(old), "inbounds"@, i as int);
            }
            let (name, value) = members.remove(i);
            let new_value = edit_inbounds(value, edit);
            let entry = (name, new_value);
            let ghost e = entry;
            members.insert(i, entry);
            proof {
                assert(members@ == old.update(i as int, e));
                lemma_members_update(old, members@, i as int, e);
            }
            Json::Object(members)
        },
        _ => {
            assert(false);
            Json::Null
        },
    }
}

/// Reading the client list back after replacing it gives the new list.
pub proof fn lemma_clients_of_with_clients(config: JsonModel, cs: Seq<JsonModel>)
    requires
        clients_of(config) is Some,
    ensures
        clients_of(with_clients(config, cs)) == Some(cs),
{
    let inbounds = member(config, "inbounds"@);
    let inbound = item(inbounds, 0);
    let settings = member(inbound, "settings"@);
    lemma_with_member(settings, "clients"@, JsonModel::Array(cs));
    let settings2 = settings_with(settings, cs);
    lemma_with_member(inbound, "settings"@, settings2);
    let inbound2 = inbound_with(inbound, cs);
    let inbounds2 = inbounds_with(inbounds, cs);
    assert(item(inbounds2, 0) == inbound2);
    lemma_with_member(config, "inbounds"@, inbounds2);
}

/// The members and items of a well-formed document are well-formed.
pub proof fn lemma_wf_parts(v: JsonModel, key: Seq<char>, i: int)
    requires
        model_wf(v),
    ensures
        model_wf(member(v, key)),
        model_wf(item(v, i)),
{
    if let JsonModel::Object(ms) = v {
        if has_key(ms, key) {
            let k = key_index(ms, key);
            assert(is_first_key(ms, key, k));
            assert(model_wf(ms[k].1));
        }
    }
    if let JsonModel::Array(items) = v {
        if 0 <= i < items.len() {
            assert(model_wf(items[i]));
        }
    }
}

/// Replacing a member's value, or an item, by a well-formed value keeps a
/// document well-formed.
pub proof fn lemma_wf_replace(v: JsonModel, key: Seq<char>, i: int, new: JsonModel)
    requires
        model_wf(v),
        model_wf(new),
    ensures
        model_wf(with_member(v, key, new)),
        model_wf(with_item(v, i, new)),
{
    if let JsonModel::Object(ms) = v {
        if has_key(ms, key) {
            let k = key_index(ms, key);
            assert(is_first_key(ms, key, k));
            let ms2 = ms.update(k, (key, new));
            assert forall|a: int, b: int| 0 <= a < b < ms2.len() implies #[trigger] ms2[a].0
                != #[trigger] ms2[b].0 by {
                assert(ms2[a].0 == ms[a].0);
                assert(ms2[b].0 == ms[b].0);
                assert(ms[a].0 != ms[b].0);
            }
            assert forall|a: int| 0 <= a < ms2.len() implies model_wf(#[trigger] ms2[a].1) by {
                if a != k {
                    assert(model_wf(ms[a].1));
                }
            }
        }
    }
    if let JsonModel::Array(items) = v {
        if 0 <= i < items.len() {
            let items2 = items.update(i, new);
            assert forall|a: int| 0 <= a < items2.len() implies model_wf(#[trigger] items2[a]) by {
                if a != i {
                    assert(model_wf(items[a]));
                }
            }
        }
    }
}

/// The clients of a well-formed configuration are well-formed.
pub proof fn lemma_wf_clients(config: JsonModel)
    requires
        model_wf(config),
        clients_of(config) is Some,
    ensures
        forall|i: int|
            0 <= i < clients_of(config)->0.len() ==> model_wf(#[trigger] clients_of(config)->0[i]),
{
    let inbounds = member(config, "inbounds"@);
    lemma_wf_parts(config, "inbounds"@, 0);
    let inbound = item(inbounds, 0);
    lemma_wf_parts(inbounds, "inbounds"@, 0);
    let settings = member(inbound, "settings"@);
    lemma_wf_parts(inbound, "settings"@, 0);
    lemma_wf_parts(settings, "clients"@, 0);
}

/// Replacing the client list of a well-formed configuration by well-formed
/// clients keeps it well-formed.
pub proof fn lemma_wf_with_clients(config: JsonModel, cs: Seq<JsonModel>)
    requires
        model_wf(config),
        forall|i: int| 0 <= i < cs.len() ==> model_wf(#[trigger] cs[i]),
    ensures
        model_wf(with_clients(config, cs)),
{
    let inbounds = member(config, "inbounds"@);
    lemma_wf_parts(config, "inbounds"@, 0);
    let inbound = item(inbounds, 0);
    lemma_wf_parts(inbounds, "inbounds"@, 0);
    let settings = member(inbound, "settings"@);
    lemma_wf_parts(inbound, "settings"@, 0);
    let list = JsonModel::Array(cs);
    assert(model_wf(list));
    lemma_wf_replace(settings, "clients"@, 0, list);
    lemma_wf_replace(inbound, "settings"@, 0, settings_with(settings, cs));
    lemma_wf_replace(inbounds, "inbounds"@, 0, inbound_with(inbound, cs));
    lemma_wf_replace(config, "inbounds"@, 0, inbounds_with(inbounds, cs));
}

/// An edit that brings in only well-formed clients.
pub open spec fn edit_wf(edit: ClientEdit) -> bool {
    match edit {
        ClientEdit::Append(c) => model_wf(c@),
        ClientEdit::RemoveAt(_) => true,
    }
}

#[verifier::external_type_specification]
#[verifier::external_body]
pub struct ExJsonValue(serde_json::Value);

#[verifier::external_type_specification]
#[verifier::external_body]
pub struct ExJsonNumber(serde_json::Number);

/// The document that `serde_json::from_str::<serde_json::Value>` reads from
/// `text`; `None` where the text is no JSON.
pub uninterp spec fn parsed_json(text: Seq<char>) -> Option<JsonModel>;

/// The text that `serde_json::to_string_pretty` writes for the document
/// `v`; `None` where a number of `v` that is no integer has text that
/// `serde_json::Number` does not read.
pub uninterp spec fn pretty_json(v: JsonModel) -> Option<Seq<char>>;

/// The model of a `serde_json::Number`: by `as_u64`, else `as_i64`, else
/// its text (`Display`).  Nothing is stated of it.
#[verifier::external_body]
fn number_of(n: &serde_json::Number) -> JsonNumber {
    match (n.as_u64(), n.as_i64()) {
        (Some(u), _) => JsonNumber::PosInt(u),
        (None, Some(i)) => JsonNumber::NegInt(i),
        (None, None) => JsonNumber::Float(n.to_string()),
    }
}

/// The model of a `serde_json::Value`, variant by variant, members in the
/// order in which its map yields them.  Nothing is stated of it.
#[verifier::external_body]
fn json_of_value(v: &serde_json::Value) -> Json {
    match v {
        serde_json::Value::Null => Json::Null,
        serde_json::Value::Bool(b) => Json::Bool(*b),
        serde_json::Value::Number(n) => Json::Number(number_of(n)),
        serde_json::Value::String(s) => Json::Str(s.clone()),
        serde_json::Value::Array(items) => Json::Array(items.iter().map(json_of_value).collect()),
        serde_json::Value::Object(map) => Json::Object(
            map.iter().map(|(k, x)| (k.clone(), json_of_value(x))).collect(),
        ),
    }
}

/// `serde_json::from_str::<serde_json::Value>`, then the model of the value.
/// The contract claims that the result is the named document, and that its
/// objects have distinct member names, as a `serde_json::Map` keeps them.
#[verifier::external_body]
pub(crate) fn parse_json(text: &str) -> (r: Option<Json>)
    ensures
        match r {
            Some(j) => parsed_json(text@) == Some(j@) && model_wf(j@),
            None => parsed_json(text@) is None,
        },
{
    serde_json::from_str::<serde_json::Value>(text).ok().map(|v| json_of_value(&v))
}

/// The `serde_json::Value` of a number; `None` where a number's text is not
/// read by `serde_json::Number`.  Nothing is stated of it.
#[verifier::external_body]
fn number_value(n: &JsonNumber) -> Option<serde_json::Value> {
    match n {
        JsonNumber::PosInt(u) => Some(serde_json::Value::from(*u)),
        JsonNumber::NegInt(i) => Some(serde_json::Value::from(*i)),
        JsonNumber::Float(t) => t.parse().ok().map(serde_json::Value::Number),
    }
}

/// The `serde_json::Value` of a document, variant by variant; `None` where a
/// number's text is not read by `serde_json::Number`.  Nothing is stated of it.
#[verifier::external_body]
fn value_of_json(j: &Json) -> Option<serde_json::Value> {
    Some(match j {
        Json::Null => serde_json::Value::Null,
        Json::Bool(b) => serde_json::Value::Bool(*b),
        Json::Number(n) => number_value(n)?,
        Json::Str(s) => serde_json::Value::String(s.clone()),
        Json::Array(xs) => serde_json::Value::Array(xs.iter().map(value_of_json).collect::<Option<_>>()?),
        Json::Object(ms) => serde_json::Value::Object(
            ms.iter().map(|(k, x)| Some((k.clone(), value_of_json(x)?))).collect::<Option<_>>()?,
        ),
    })
}

/// `serde_json::to_string_pretty` of the value of `config`.  The contract
/// claims that the result is the named text.
#[verifier::external_body]
pub(crate) fn pretty_text(config: &Json) -> (r: Option<String>)
    ensures
        match r {
            Some(t) => pretty_json(config@) == Some(t@),
            None => pretty_json(config@) is None,
        },
{
    let v = value_of_json(config)?;
    serde_json::to_string_pretty(&v).ok()
}

} // verus!
