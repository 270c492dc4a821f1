//! `xrayctl install`: the initial configuration, the credential file and
//! the BBR congestion-control check.

use vstd::prelude::*;
use crate::cmd::mainuser::main_link;
use crate::json::{
    clients_of, first_inbound, is_first_key, lemma_items_model, lemma_member_at,
    lemma_members_model, items_model, member, members_model, model_wf, Json, JsonModel,
    JsonNumber,
    NumberModel,
};
use crate::utils::display::{link_port, link_protocol, link_sni, vless_link};
use crate::text::{
    chars_of, has_piece, is_ws, lemma_split_lines_concat, lemma_split_lines_single,
    lemma_trim_keeps, lemma_trimmed_ends, piece_contains, split_lines, starts_with, trim_seq,
};
use crate::utils::keys::{key_line, last_value, lemma_last_value_concat};
use crate::utils::entities::{KeyField, Keys};

verus! {

/// The line `line` of `sysctl -a` output shows BBR as the TCP congestion
/// control.
pub open spec fn shows_bbr(line: Seq<char>) -> bool {
    has_piece(line, "net.ipv4.tcp_congestion_control"@) && has_piece(line, "bbr"@)
}

/// Some line of `output` shows BBR as the TCP congestion control.
pub open spec fn bbr_active(output: Seq<char>) -> bool {
    exists|j: int| 0 <= j < split_lines(output).len() && shows_bbr(#[trigger] split_lines(output)[j])
}

/// Whether the `sysctl -a` output `output` shows that BBR is already on:
/// some line names `net.ipv4.tcp_congestion_control` and `bbr`.
pub fn bbr_enabled(output: &str) -> (r: bool)
    ensures
        r == bbr_active(output@),
{
    let cs = chars_of(output);
    let key = chars_of("net.ipv4.tcp_congestion_control");
    let bbr = chars_of("bbr");
    let n = cs.len();
    let ghost mut done: Seq<Seq<char>> = Seq::empty();
    let mut start: usize = 0;
    let mut i: usize = 0;
    assert(cs@.take(0) == Seq::<char>::empty());
    assert(cs@.subrange(0, 0) == Seq::<char>::empty());
    assert(done.push(Seq::<char>::empty()) == seq![Seq::<char>::empty()]);
    while i < n
        invariant
            n == cs@.len(),
            cs@ == output@,
            key@ == "net.ipv4.tcp_congestion_control"@,
            bbr@ == "bbr"@,
            start <= i <= n,
            split_lines(cs@.take(i as int)) == done.push(cs@.subrange(start as int, i as int)),
            forall|j: int| 0 <= j < done.len() ==> !shows_bbr(#[trigger] done[j]),
        decreases n - i,
    {
        let ghost cur = cs@.subrange(start as int, i as int);
        assert(cs@.take(i + 1).drop_last() == cs@.take(i as int));
        assert(cs@.take(i + 1).last() == cs@[i as int]);
        if cs[i] == '\n' {
            if piece_contains(&cs, start, i, &key) && piece_contains(&cs, start, i, &bbr) {
                let ghost whole = split_lines(cs@.take(i as int));
                let ghost t = cs@.take(i as int);
                proof {
                    assert(whole[done.len() as int] == cur);
                    crate::text::lemma_split_lines_len(t);
                    lemma_lines_prefix(cs@, i as int, done.len() as int);
                }
                return true;
            }
            proof {
                done = done.push(cur);
                assert(cs@.subrange(i + 1, i + 1) == Seq::<char>::empty());
            }
            start = i + 1;
        } else {
            assert(cur.push(cs@[i as int]) == cs@.subrange(start as int, i + 1));
            assert(done.push(cur).update(done.len() as int, cur.push(cs@[i as int])) == done.push(
                cs@.subrange(start as int, i + 1),
            ));
        }
        i = i + 1;
    }
    assert(cs@.take(n as int) == cs@);
    let ghost cur = cs@.subrange(start as int, n as int);
    let found = piece_contains(&cs, start, n, &key) && piece_contains(&cs, start, n, &bbr);
    proof {
        let lines = split_lines(output@);
        assert(lines == done.push(cur));
        if !found {
            assert forall|j: int| 0 <= j < lines.len() implies !shows_bbr(#[trigger] lines[j]) by {
                if j < done.len() {
                    assert(lines[j] == done[j]);
                }
            }
        } else {
            assert(shows_bbr(lines[done.len() as int]));
        }
    }
    found
}

/// The lines of the text before position `i` are those of the whole text,
/// but for the last, which the whole text may extend.
proof fn lemma_lines_prefix(s: Seq<char>, i: int, k: int)
    requires
        0 <= i < s.len(),
        s[i] == '\n',
        0 <= k < split_lines(s.take(i)).len(),
    ensures
        split_lines(s)[k] == split_lines(s.take(i))[k],
        k < split_lines(s).len(),
{
    let a = s.take(i);
    let b = s.skip(i + 1);
    assert(s == a + seq!['\n'] + b);
    crate::text::lemma_split_lines_concat(a, b);
    crate::text::lemma_split_lines_len(b);
}

/// The lines appended to `/etc/sysctl.conf` to turn BBR on.
pub fn bbr_settings() -> (r: String)
    ensures
        r@ == "net.core.default_qdisc=fq\nnet.ipv4.tcp_congestion_control=bbr\n"@,
{
    "net.core.default_qdisc=fq\nnet.ipv4.tcp_congestion_control=bbr\n".to_owned()
}

/// The text of the `.keys` file: the short ID line, the UUID line, then the
/// output of `xray x25519` as it came.
pub open spec fn keys_file_text(short_id: Seq<char>, uuid: Seq<char>, x25519: Seq<char>) -> Seq<
    char,
> {
    "shortsid: "@ + short_id + "\n"@ + "uuid: "@ + uuid + "\n"@ + x25519
}

/// The text of the `.keys` file written at installation.
pub fn keys_file_content(short_id: &str, uuid: &str, x25519: &str) -> (r: String)
    ensures
        r@ == keys_file_text(short_id@, uuid@, x25519@),
{
    let mut text = "shortsid: ".to_owned();
    text.append(short_id);
    text.append("\n");
    text.append("uuid: ");
    text.append(uuid);
    text.append("\n");
    text.append(x25519);
    text
}

/// A string value.
pub open spec fn jstr(s: Seq<char>) -> JsonModel {
    JsonModel::Str(s)
}

/// A non-negative integer value.
pub open spec fn jint(n: u64) -> JsonModel {
    JsonModel::Number(NumberModel::PosInt(n))
}

/// `{"loglevel": "warning"}`.
pub open spec fn log_model() -> JsonModel {
    JsonModel::Object(seq![("loglevel"@, jstr("warning"@))])
}

/// The routing section: block the ads category.
pub open spec fn routing_model() -> JsonModel {
    JsonModel::Object(
        seq![
            ("domainStrategy"@, jstr("IPIfNonMatch"@)),
            (
                "rules"@,
                JsonModel::Array(
                    seq![
                        JsonModel::Object(
                            seq![
                                ("type"@, jstr("field"@)),
                                (
                                    "domain"@,
                                    JsonModel::Array(seq![jstr("geosite:category-ads-all"@)]),
                                ),
                                ("outboundTag"@, jstr("block"@)),
                            ],
                        ),
                    ],
                ),
            ),
        ],
    )
}

/// The main client.
pub open spec fn main_client_model(uuid: Seq<char>) -> JsonModel {
    JsonModel::Object(
        seq![
            ("email"@, jstr("main"@)),
            ("id"@, jstr(uuid)),
            ("flow"@, jstr("xtls-rprx-vision"@)),
        ],
    )
}

/// The VLESS settings: the main client, no decryption.
pub open spec fn settings_model(uuid: Seq<char>) -> JsonModel {
    JsonModel::Object(
        seq![
            ("clients"@, JsonModel::Array(seq![main_client_model(uuid)])),
            ("decryption"@, jstr("none"@)),
        ],
    )
}

/// The Reality settings, with `github.com` as destination.
pub open spec fn reality_model(private_key: Seq<char>, short_id: Seq<char>) -> JsonModel {
    JsonModel::Object(
        seq![
            ("show"@, JsonModel::Bool(false)),
            ("dest"@, jstr("github.com:443"@)),
            ("xver"@, jint(0)),
            (
                "serverNames"@,
                JsonModel::Array(seq![jstr("github.com"@), jstr("www.github.com"@)]),
            ),
            ("privateKey"@, jstr(private_key)),
            ("minClientVer"@, jstr(""@)),
            ("maxClientVer"@, jstr(""@)),
            ("maxTimeDiff"@, jint(0)),
            ("shortIds"@, JsonModel::Array(seq![jstr(short_id)])),
        ],
    )
}

/// TCP transport with Reality security.
pub open spec fn stream_model(private_key: Seq<char>, short_id: Seq<char>) -> JsonModel {
    JsonModel::Object(
        seq![
            ("network"@, jstr("tcp"@)),
            ("security"@, jstr("reality"@)),
            ("realitySettings"@, reality_model(private_key, short_id)),
        ],
    )
}

/// Sniffing of HTTP and TLS.
pub open spec fn sniffing_model() -> JsonModel {
    JsonModel::Object(
        seq![
            ("enabled"@, JsonModel::Bool(true)),
            ("destOverride"@, JsonModel::Array(seq![jstr("http"@), jstr("tls"@)])),
        ],
    )
}

/// The one inbound: VLESS on port 443 of every address.
pub open spec fn inbound_model(uuid: Seq<char>, private_key: Seq<char>, short_id: Seq<char>) -> JsonModel {
    JsonModel::Object(
        seq![
            ("listen"@, jstr("0.0.0.0"@)),
            ("port"@, jint(443)),
            ("protocol"@, jstr("vless"@)),
            ("settings"@, settings_model(uuid)),
            ("streamSettings"@, stream_model(private_key, short_id)),
            ("sniffing"@, sniffing_model()),
        ],
    )
}

/// The outbounds: direct, and a blackhole tagged `block`.
pub open spec fn outbounds_model() -> JsonModel {
    JsonModel::Array(
        seq![
            JsonModel::Object(seq![("protocol"@, jstr("freedom"@)), ("tag"@, jstr("direct"@))]),
            JsonModel::Object(seq![("protocol"@, jstr("blackhole"@)), ("tag"@, jstr("block"@))]),
        ],
    )
}

/// The policy of level 0.
pub open spec fn policy_model() -> JsonModel {
    JsonModel::Object(
        seq![
            (
                "levels"@,
                JsonModel::Object(
                    seq![
                        (
                            "0"@,
                            JsonModel::Object(
                                seq![("handshake"@, jint(3)), ("connIdle"@, jint(180))],
                            ),
                        ),
                    ],
                ),
            ),
        ],
    )
}

/// The configuration written at installation.
pub open spec fn initial_config_model(
    uuid: Seq<char>,
    private_key: Seq<char>,
    short_id: Seq<char>,
) -> JsonModel {
    JsonModel::Object(
        seq![
            ("log"@, log_model()),
            ("routing"@, routing_model()),
            ("inbounds"@, JsonModel::Array(seq![inbound_model(uuid, private_key, short_id)])),
            ("outbounds"@, outbounds_model()),
            ("policy"@, policy_model()),
        ],
    )
}

/// A string value.
fn text_value(s: &str) -> (r: Json)
    ensures
        r@ == jstr(s@),
{
    Json::Str(s.to_owned())
}

/// An integer value.
fn int_value(n: u64) -> (r: Json)
    ensures
        r@ == jint(n),
{
    Json::Number(JsonNumber::PosInt(n))
}

/// An object member.
fn entry(name: &str, value: Json) -> (r: (String, Json))
    ensures
        r.0@ == name@,
        r.1 == value,
{
    (name.to_owned(), value)
}

fn log_value() -> (r: Json)
    ensures
        r@ == log_model(),
{
    let ms = vec![entry("loglevel", text_value("warning"))];
    proof {
        lemma_members_model(ms@);
        assert(members_model(ms@) =~= log_model()->Object_0);
    }
    Json::Object(ms)
}

fn routing_value() -> (r: Json)
    ensures
        r@ == routing_model(),
{
    let domains = vec![text_value("geosite:category-ads-all")];
    proof {
        lemma_items_model(domains@);
    }
    let rule = vec![
        entry("type", text_value("field")),
        entry("domain", Json::Array(domains)),
        entry("outboundTag", text_value("block")),
    ];
    let ghost rule_model = routing_model()->Object_0[1].1->Array_0[0];
    proof {
        lemma_members_model(rule@);
        assert(rule@[1].1@->Array_0 =~= rule_model->Object_0[1].1->Array_0);
        assert(members_model(rule@) =~= rule_model->Object_0);
    }
    let rules = vec![Json::Object(rule)];
    proof {
        lemma_items_model(rules@);
        assert(items_model(rules@) =~= routing_model()->Object_0[1].1->Array_0);
    }
    let ms = vec![
        entry("domainStrategy", text_value("IPIfNonMatch")),
        entry("rules", Json::Array(rules)),
    ];
    proof {
        lemma_members_model(ms@);
        assert(members_model(ms@) =~= routing_model()->Object_0);
    }
    Json::Object(ms)
}

fn main_client_value(uuid: &str) -> (r: Json)
    ensures
        r@ == main_client_model(uuid@),
{
    let ms = vec![
        entry("email", text_value("main")),
        entry("id", text_value(uuid)),
        entry("flow", text_value("xtls-rprx-vision")),
    ];
    proof {
        lemma_members_model(ms@);
        assert(members_model(ms@) =~= main_client_model(uuid@)->Object_0);
    }
    Json::Object(ms)
}

fn settings_value(uuid: &str) -> (r: Json)
    ensures
        r@ == settings_model(uuid@),
{
    let clients = vec![main_client_value(uuid)];
    proof {
        lemma_items_model(clients@);
        assert(items_model(clients@) =~= seq![main_client_model(uuid@)]);
    }
    let ms = vec![entry("clients", Json::Array(clients)), entry("decryption", text_value("none"))];
    proof {
        lemma_members_model(ms@);
        assert(members_model(ms@) =~= settings_model(uuid@)->Object_0);
    }
    Json::Object(ms)
}

fn reality_value(private_key: &str, short_id: &str) -> (r: Json)
    ensures
        r@ == reality_model(private_key@, short_id@),
{
    let names = vec![text_value("github.com"), text_value("www.github.com")];
    proof {
        lemma_items_model(names@);
        assert(items_model(names@) =~= seq![jstr("github.com"@), jstr("www.github.com"@)]);
    }
    let ids = vec![text_value(short_id)];
    proof {
        lemma_items_model(ids@);
        assert(items_model(ids@) =~= seq![jstr(short_id@)]);
    }
    let ms = vec![
        entry("show", Json::Bool(false)),
        entry("dest", text_value("github.com:443")),
        entry("xver", int_value(0)),
        entry("serverNames", Json::Array(names)),
        entry("privateKey", text_value(private_key)),
        entry("minClientVer", text_value("")),
        entry("maxClientVer", text_value("")),
        entry("maxTimeDiff", int_value(0)),
        entry("shortIds", Json::Array(ids)),
    ];
    proof {
        lemma_members_model(ms@);
        assert(members_model(ms@) =~= reality_model(private_key@, short_id@)->Object_0);
    }
    Json::Object(ms)
}

fn stream_value(private_key: &str, short_id: &str) -> (r: Json)
    ensures
        r@ == stream_model(private_key@, short_id@),
{
    let ms = vec![
        entry("network", text_value("tcp")),
        entry("security", text_value("reality")),
        entry("realitySettings", reality_value(private_key, short_id)),
    ];
    proof {
        lemma_members_model(ms@);
        assert(members_model(ms@) =~= stream_model(private_key@, short_id@)->Object_0);
    }
    Json::Object(ms)
}

fn sniffing_value() -> (r: Json)
    ensures
        r@ == sniffing_model(),
{
    let kinds = vec![text_value("http"), text_value("tls")];
    proof {
        lemma_items_model(kinds@);
        assert(items_model(kinds@) =~= seq![jstr("http"@), jstr("tls"@)]);
    }
    let ms = vec![entry("enabled", Json::Bool(true)), entry("destOverride", Json::Array(kinds))];
    proof {
        lemma_members_model(ms@);
        assert(members_model(ms@) =~= sniffing_model()->Object_0);
    }
    Json::Object(ms)
}

fn inbound_value(keys: &Keys) -> (r: Json)
    ensures
        r@ == inbound_model(keys.uuid@, keys.private_key@, keys.short_id@),
{
    let ms = vec![
        entry("listen", text_value("0.0.0.0")),
        entry("port", int_value(443)),
        entry("protocol", text_value("vless")),
        entry("settings", settings_value(keys.uuid.as_str())),
        entry("streamSettings", stream_value(keys.private_key.as_str(), keys.short_id.as_str())),
        entry("sniffing", sniffing_value()),
    ];
    proof {
        lemma_members_model(ms@);
        assert(members_model(ms@) =~= inbound_model(
            keys.uuid@,
            keys.private_key@,
            keys.short_id@,
        )->Object_0);
    }
    Json::Object(ms)
}

fn outbound_value(protocol: &str, tag: &str) -> (r: Json)
    ensures
        r@ == JsonModel::Object(seq![("protocol"@, jstr(protocol@)), ("tag"@, jstr(tag@))]),
{
    let ms = vec![entry("protocol", text_value(protocol)), entry("tag", text_value(tag))];
    proof {
        lemma_members_model(ms@);
        assert(members_model(ms@) =~= seq![("protocol"@, jstr(protocol@)), ("tag"@, jstr(tag@))]);
    }
    Json::Object(ms)
}

fn outbounds_value() -> (r: Json)
    ensures
        r@ == outbounds_model(),
{
    let items = vec![outbound_value("freedom", "direct"), outbound_value("blackhole", "block")];
    proof {
        lemma_items_model(items@);
        assert(items_model(items@) =~= outbounds_model()->Array_0);
    }
    Json::Array(items)
}

fn policy_value() -> (r: Json)
    ensures
        r@ == policy_model(),
{
    let level = vec![entry("handshake", int_value(3)), entry("connIdle", int_value(180))];
    let ghost level_model = policy_model()->Object_0[0].1->Object_0[0].1;
    proof {
        lemma_members_model(level@);
        assert(members_model(level@) =~= level_model->Object_0);
    }
    let levels = vec![entry("0", Json::Object(level))];
    proof {
        lemma_members_model(levels@);
        assert(members_model(levels@) =~= policy_model()->Object_0[0].1->Object_0);
    }
    let ms = vec![entry("levels", Json::Object(levels))];
    proof {
        lemma_members_model(ms@);
        assert(members_model(ms@) =~= policy_model()->Object_0);
    }
    Json::Object(ms)
}

/// The configuration that installation writes for `keys`: VLESS on port
/// 443 with the main client, Reality towards `github.com`, ad blocking,
/// direct and blackhole outbounds.
pub fn initial_config(keys: &Keys) -> (r: Json)
    ensures
        r@ == initial_config_model(keys.uuid@, keys.private_key@, keys.short_id@),
        model_wf(r@),
{
    proof {
        lemma_initial_config_wf(keys.uuid@, keys.private_key@, keys.short_id@);
    }
    let inbounds = vec![inbound_value(keys)];
    proof {
        lemma_items_model(inbounds@);
        assert(items_model(inbounds@) =~= seq![
            inbound_model(keys.uuid@, keys.private_key@, keys.short_id@),
        ]);
    }
    let ms = vec![
        entry("log", log_value()),
        entry("routing", routing_value()),
        entry("inbounds", Json::Array(inbounds)),
        entry("outbounds", outbounds_value()),
        entry("policy", policy_value()),
    ];
    proof {
        lemma_members_model(ms@);
        assert(members_model(ms@) =~= initial_config_model(
            keys.uuid@,
            keys.private_key@,
            keys.short_id@,
        )->Object_0);
    }
    Json::Object(ms)
}

/// A line `prefix + value`, where `prefix` starts with a character other
/// than whitespace and `value` is non-empty, trimmed, and without newlines,
/// has no newline and is left as it is by trimming.
proof fn lemma_keys_line(prefix: Seq<char>, value: Seq<char>)
    requires
        prefix.len() > 0,
        !is_ws(prefix[0]),
        !prefix.contains('\n'),
        value.len() > 0,
        trim_seq(value) == value,
        !value.contains('\n'),
    ensures
        trim_seq(prefix + value) == prefix + value,
        !(prefix + value).contains('\n'),
        starts_with(prefix + value, prefix),
        (prefix + value).skip(prefix.len() as int) == value,
{
    let line = prefix + value;
    lemma_trimmed_ends(value);
    assert(line[0] == prefix[0]);
    assert(line.last() == value.last());
    lemma_trim_keeps(line);
    if line.contains('\n') {
        let k = choose|k: int| 0 <= k < line.len() && line[k] == '\n';
        if k < prefix.len() {
            assert(prefix[k] == '\n');
        } else {
            assert(value[k - prefix.len()] == '\n');
        }
    }
    assert(line.take(prefix.len() as int) == prefix);
    assert(line.skip(prefix.len() as int) == value);
}

/// A line that starts with `c` does not start with a prefix whose first
/// character is another.
proof fn lemma_not_prefix(line: Seq<char>, p: Seq<char>)
    requires
        line.len() > 0,
        p.len() > 0,
        line[0] != p[0],
    ensures
        !starts_with(line, p),
{
    if starts_with(line, p) {
        assert(line.take(p.len() as int)[0] == p[0]);
    }
}

/// The credential file that installation writes reads back as written: the
/// UUID and short ID are those written, provided they are non-empty,
/// trimmed, without newlines, and not overridden by a line of the
/// `xray x25519` output; the keys are those that the output gives.
pub proof fn law_keys_file_roundtrip(short_id: Seq<char>, uuid: Seq<char>, x25519: Seq<char>)
    requires
        short_id.len() > 0,
        uuid.len() > 0,
        trim_seq(short_id) == short_id,
        trim_seq(uuid) == uuid,
        !short_id.contains('\n'),
        !uuid.contains('\n'),
        last_value(split_lines(x25519), KeyField::Uuid) is None,
        last_value(split_lines(x25519), KeyField::ShortId) is None,
    ensures
        ({
            let lines = split_lines(keys_file_text(short_id, uuid, x25519));
            &&& last_value(lines, KeyField::Uuid) == Some(uuid)
            &&& last_value(lines, KeyField::ShortId) == Some(short_id)
            &&& last_value(lines, KeyField::PrivateKey) == last_value(
                split_lines(x25519),
                KeyField::PrivateKey,
            )
            &&& last_value(lines, KeyField::PublicKey) == last_value(
                split_lines(x25519),
                KeyField::PublicKey,
            )
        }),
{
    reveal_strlit("shortsid: ");
    reveal_strlit("uuid: ");
    reveal_strlit("\n");
    reveal_strlit("PrivateKey: ");
    reveal_strlit("Private key: ");
    reveal_strlit("Password: ");
    reveal_strlit("Public key: ");
    let sp = "shortsid: "@;
    let up = "uuid: "@;
    assert(!sp.contains('\n'));
    assert(!up.contains('\n'));
    let a = sp + short_id;
    let b = up + uuid;
    lemma_keys_line(sp, short_id);
    lemma_keys_line(up, uuid);
    let nl = seq!['\n'];
    assert("\n"@ == nl);
    let text = keys_file_text(short_id, uuid, x25519);
    assert(text == a + nl + (b + nl + x25519));
    lemma_split_lines_concat(a, b + nl + x25519);
    lemma_split_lines_concat(b, x25519);
    lemma_split_lines_single(a);
    lemma_split_lines_single(b);
    let head = seq![a, b];
    let xs = split_lines(x25519);
    assert(split_lines(text) == head + xs);
    // The first line sets the short ID, the second the UUID.
    lemma_not_prefix(a, "uuid: "@);
    lemma_not_prefix(a, "PrivateKey: "@);
    lemma_not_prefix(a, "Private key: "@);
    lemma_not_prefix(a, "Password: "@);
    lemma_not_prefix(a, "Public key: "@);
    assert(key_line(trim_seq(a)) == Some((KeyField::ShortId, short_id)));
    assert(key_line(trim_seq(b)) == Some((KeyField::Uuid, uuid)));
    assert(head.drop_last() == seq![a]);
    assert(seq![a].drop_last() == Seq::<Seq<char>>::empty());
    assert(head.last() == b);
    assert(seq![a].last() == a);
    let none = Seq::<Seq<char>>::empty();
    assert(last_value(none, KeyField::PrivateKey) is None);
    assert(last_value(none, KeyField::PublicKey) is None);
    assert(last_value(seq![a], KeyField::ShortId) == Some(short_id));
    assert(last_value(seq![a], KeyField::PrivateKey) is None);
    assert(last_value(seq![a], KeyField::PublicKey) is None);
    assert(last_value(head, KeyField::Uuid) == Some(uuid));
    assert(last_value(head, KeyField::ShortId) == Some(short_id));
    assert(last_value(head, KeyField::PrivateKey) is None);
    assert(last_value(head, KeyField::PublicKey) is None);
    lemma_last_value_concat(head, xs, KeyField::Uuid);
    lemma_last_value_concat(head, xs, KeyField::ShortId);
    lemma_last_value_concat(head, xs, KeyField::PrivateKey);
    lemma_last_value_concat(head, xs, KeyField::PublicKey);
}

/// Installation leaves one client, the main user, and the main user's link
/// is a VLESS link to port 443 with `github.com` as server name.
pub proof fn law_initial_config_main_user(keys: Keys, ip: Seq<char>)
    ensures
        ({
            let config = initial_config_model(keys.uuid@, keys.private_key@, keys.short_id@);
            &&& clients_of(config) == Some(seq![main_client_model(keys.uuid@)])
            &&& main_link(config, keys, ip) == vless_link(
                "vless"@,
                keys.uuid@,
                ip,
                443,
                "github.com"@,
                keys.public_key@,
                keys.short_id@,
                "main"@,
            )
        }),
{
    let (u, p, s) = (keys.uuid@, keys.private_key@, keys.short_id@);
    reveal_strlit("log");
    reveal_strlit("routing");
    reveal_strlit("inbounds");
    reveal_strlit("listen");
    reveal_strlit("port");
    reveal_strlit("protocol");
    reveal_strlit("settings");
    reveal_strlit("streamSettings");
    reveal_strlit("network");
    reveal_strlit("security");
    reveal_strlit("realitySettings");
    reveal_strlit("show");
    reveal_strlit("dest");
    reveal_strlit("xver");
    reveal_strlit("serverNames");
    reveal_strlit("clients");
    reveal_strlit("email");
    reveal_strlit("id");
    let config = initial_config_model(u, p, s);
    let top = config->Object_0;
    assert("log"@.len() != "inbounds"@.len() && "routing"@.len() != "inbounds"@.len());
    assert(top[0].0 != "inbounds"@ && top[1].0 != "inbounds"@);
    assert(is_first_key(top, "inbounds"@, 2));
    lemma_member_at(top, "inbounds"@, 2);
    let inbound = inbound_model(u, p, s);
    assert(first_inbound(config) == inbound);
    let ib = inbound->Object_0;
    assert("protocol"@[0] != "settings"@[0]);
    assert("protocol"@ != "settings"@);
    assert("listen"@.len() != "port"@.len() && "listen"@.len() != "protocol"@.len());
    assert("port"@.len() != "protocol"@.len() && "listen"@.len() != "settings"@.len());
    assert("port"@.len() != "settings"@.len());
    assert("listen"@.len() != "streamSettings"@.len() && "port"@.len() != "streamSettings"@.len());
    assert("protocol"@.len() != "streamSettings"@.len() && "settings"@.len() != "streamSettings"@.len());
    assert(ib[0].0 != "port"@);
    assert(ib[0].0 != "protocol"@ && ib[1].0 != "protocol"@);
    assert(ib[0].0 != "settings"@ && ib[1].0 != "settings"@ && ib[2].0 != "settings"@);
    assert(ib[0].0 != "streamSettings"@ && ib[1].0 != "streamSettings"@);
    assert(ib[2].0 != "streamSettings"@ && ib[3].0 != "streamSettings"@);
    assert(is_first_key(ib, "port"@, 1));
    assert(is_first_key(ib, "protocol"@, 2));
    assert(is_first_key(ib, "settings"@, 3));
    assert(is_first_key(ib, "streamSettings"@, 4));
    lemma_member_at(ib, "port"@, 1);
    lemma_member_at(ib, "protocol"@, 2);
    lemma_member_at(ib, "settings"@, 3);
    lemma_member_at(ib, "streamSettings"@, 4);
    let settings = settings_model(u)->Object_0;
    assert(is_first_key(settings, "clients"@, 0));
    lemma_member_at(settings, "clients"@, 0);
    let stream = stream_model(p, s)->Object_0;
    assert("network"@.len() != "realitySettings"@.len());
    assert("security"@.len() != "realitySettings"@.len());
    assert(stream[0].0 != "realitySettings"@ && stream[1].0 != "realitySettings"@);
    assert(is_first_key(stream, "realitySettings"@, 2));
    lemma_member_at(stream, "realitySettings"@, 2);
    let reality = reality_model(p, s)->Object_0;
    assert("show"@.len() != "serverNames"@.len() && "dest"@.len() != "serverNames"@.len());
    assert("xver"@.len() != "serverNames"@.len());
    assert(reality[0].0 != "serverNames"@ && reality[1].0 != "serverNames"@);
    assert(reality[2].0 != "serverNames"@);
    assert(is_first_key(reality, "serverNames"@, 3));
    lemma_member_at(reality, "serverNames"@, 3);
    assert(link_protocol(config) == "vless"@);
    assert(link_port(config) == 443);
    assert(link_sni(config) == "github.com"@);
    let client = main_client_model(u)->Object_0;
    assert(is_first_key(client, "email"@, 0));
    assert("email"@.len() != "id"@.len());
    assert(is_first_key(client, "id"@, 1));
    lemma_member_at(client, "email"@, 0);
    lemma_member_at(client, "id"@, 1);
}

/// The log section is well-formed.
proof fn lemma_log_wf()
    ensures
        model_wf(log_model()),
{
    reveal_strlit("loglevel");
    let ms = log_model()->Object_0;
    assert forall|i: int| 0 <= i < ms.len() implies model_wf(#[trigger] ms[i].1) by {
        assert(i == 0);
    }
}

/// The blocked domains are well-formed.
proof fn lemma_domains_wf()
    ensures
        model_wf(routing_model()->Object_0[1].1->Array_0[0]->Object_0[1].1),
{
    let items = routing_model()->Object_0[1].1->Array_0[0]->Object_0[1].1->Array_0;
    assert forall|i: int| 0 <= i < items.len() implies model_wf(#[trigger] items[i]) by {
        assert(i == 0);
    }
}

/// The routing rule is well-formed.
proof fn lemma_rule_wf()
    ensures
        model_wf(routing_model()->Object_0[1].1->Array_0[0]),
{
    reveal_strlit("domain");
    reveal_strlit("outboundTag");
    reveal_strlit("type");
    lemma_domains_wf();
    let ms = routing_model()->Object_0[1].1->Array_0[0]->Object_0;
    assert("type"@.len() != "domain"@.len());
    assert("type"@.len() != "outboundTag"@.len());
    assert("domain"@.len() != "outboundTag"@.len());
    assert forall|i: int, j: int| 0 <= i < j < ms.len() implies #[trigger] ms[i].0 != #[trigger] ms[j].0 by {
        assert(i == 0 || i == 1 || i == 2);
        assert(j == 0 || j == 1 || j == 2);
    }
    assert forall|i: int| 0 <= i < ms.len() implies model_wf(#[trigger] ms[i].1) by {
        assert(i == 0 || i == 1 || i == 2);
    }
}

/// The routing rules are well-formed.
proof fn lemma_rules_wf()
    ensures
        model_wf(routing_model()->Object_0[1].1),
{
    lemma_rule_wf();
    let items = routing_model()->Object_0[1].1->Array_0;
    assert forall|i: int| 0 <= i < items.len() implies model_wf(#[trigger] items[i]) by {
        assert(i == 0);
    }
}

/// The routing section is well-formed.
proof fn lemma_routing_wf()
    ensures
        model_wf(routing_model()),
{
    reveal_strlit("domainStrategy");
    reveal_strlit("rules");
    lemma_rules_wf();
    let ms = routing_model()->Object_0;
    assert("domainStrategy"@.len() != "rules"@.len());
    assert forall|i: int, j: int| 0 <= i < j < ms.len() implies #[trigger] ms[i].0 != #[trigger] ms[j].0 by {
        assert(i == 0 || i == 1);
        assert(j == 0 || j == 1);
    }
    assert forall|i: int| 0 <= i < ms.len() implies model_wf(#[trigger] ms[i].1) by {
        assert(i == 0 || i == 1);
    }
}

/// The main client is well-formed.
proof fn lemma_main_client_wf(uuid: Seq<char>)
    ensures
        model_wf(main_client_model(uuid)),
{
    reveal_strlit("email");
    reveal_strlit("flow");
    reveal_strlit("id");
    let ms = main_client_model(uuid)->Object_0;
    assert("email"@.len() != "id"@.len());
    assert("email"@.len() != "flow"@.len());
    assert("id"@.len() != "flow"@.len());
    assert forall|i: int, j: int| 0 <= i < j < ms.len() implies #[trigger] ms[i].0 != #[trigger] ms[j].0 by {
        assert(i == 0 || i == 1 || i == 2);
        assert(j == 0 || j == 1 || j == 2);
    }
    assert forall|i: int| 0 <= i < ms.len() implies model_wf(#[trigger] ms[i].1) by {
        assert(i == 0 || i == 1 || i == 2);
    }
}

/// The client list is well-formed.
proof fn lemma_main_clients_wf(uuid: Seq<char>)
    ensures
        model_wf(settings_model(uuid)->Object_0[0].1),
{
    lemma_main_client_wf(uuid);
    let items = settings_model(uuid)->Object_0[0].1->Array_0;
    assert forall|i: int| 0 <= i < items.len() implies model_wf(#[trigger] items[i]) by {
        assert(i == 0);
    }
}

/// The VLESS settings are well-formed.
proof fn lemma_settings_wf(uuid: Seq<char>)
    ensures
        model_wf(settings_model(uuid)),
{
    reveal_strlit("clients");
    reveal_strlit("decryption");
    lemma_main_clients_wf(uuid);
    let ms = settings_model(uuid)->Object_0;
    assert("clients"@.len() != "decryption"@.len());
    assert forall|i: int, j: int| 0 <= i < j < ms.len() implies #[trigger] ms[i].0 != #[trigger] ms[j].0 by {
        assert(i == 0 || i == 1);
        assert(j == 0 || j == 1);
    }
    assert forall|i: int| 0 <= i < ms.len() implies model_wf(#[trigger] ms[i].1) by {
        assert(i == 0 || i == 1);
    }
}

/// The server names are well-formed.
proof fn lemma_server_names_wf(p: Seq<char>, s: Seq<char>)
    ensures
        model_wf(reality_model(p, s)->Object_0[3].1),
{
    let items = reality_model(p, s)->Object_0[3].1->Array_0;
    assert forall|i: int| 0 <= i < items.len() implies model_wf(#[trigger] items[i]) by {
        assert(i == 0 || i == 1);
    }
}

/// The short IDs are well-formed.
proof fn lemma_short_ids_wf(p: Seq<char>, s: Seq<char>)
    ensures
        model_wf(reality_model(p, s)->Object_0[8].1),
{
    let items = reality_model(p, s)->Object_0[8].1->Array_0;
    assert forall|i: int| 0 <= i < items.len() implies model_wf(#[trigger] items[i]) by {
        assert(i == 0);
    }
}

/// The Reality settings are well-formed.
proof fn lemma_reality_wf(p: Seq<char>, s: Seq<char>)
    ensures
        model_wf(reality_model(p, s)),
{
    reveal_strlit("dest");
    reveal_strlit("maxClientVer");
    reveal_strlit("maxTimeDiff");
    reveal_strlit("minClientVer");
    reveal_strlit("privateKey");
    reveal_strlit("serverNames");
    reveal_strlit("shortIds");
    reveal_strlit("show");
    reveal_strlit("xver");
    lemma_server_names_wf(p, s);
    lemma_short_ids_wf(p, s);
    let ms = reality_model(p, s)->Object_0;
    assert("show"@[0] != "dest"@[0]);
    assert("show"@[0] != "xver"@[0]);
    assert("show"@.len() != "serverNames"@.len());
    assert("show"@.len() != "privateKey"@.len());
    assert("show"@.len() != "minClientVer"@.len());
    assert("show"@.len() != "maxClientVer"@.len());
    assert("show"@.len() != "maxTimeDiff"@.len());
    assert("show"@.len() != "shortIds"@.len());
    assert("dest"@[0] != "xver"@[0]);
    assert("dest"@.len() != "serverNames"@.len());
    assert("dest"@.len() != "privateKey"@.len());
    assert("dest"@.len() != "minClientVer"@.len());
    assert("dest"@.len() != "maxClientVer"@.len());
    assert("dest"@.len() != "maxTimeDiff"@.len());
    assert("dest"@.len() != "shortIds"@.len());
    assert("xver"@.len() != "serverNames"@.len());
    assert("xver"@.len() != "privateKey"@.len());
    assert("xver"@.len() != "minClientVer"@.len());
    assert("xver"@.len() != "maxClientVer"@.len());
    assert("xver"@.len() != "maxTimeDiff"@.len());
    assert("xver"@.len() != "shortIds"@.len());
    assert("serverNames"@.len() != "privateKey"@.len());
    assert("serverNames"@.len() != "minClientVer"@.len());
    assert("serverNames"@.len() != "maxClientVer"@.len());
    assert("serverNames"@[0] != "maxTimeDiff"@[0]);
    assert("serverNames"@.len() != "shortIds"@.len());
    assert("privateKey"@.len() != "minClientVer"@.len());
    assert("privateKey"@.len() != "maxClientVer"@.len());
    assert("privateKey"@.len() != "maxTimeDiff"@.len());
    assert("privateKey"@.len() != "shortIds"@.len());
    assert("minClientVer"@[1] != "maxClientVer"@[1]);
    assert("minClientVer"@.len() != "maxTimeDiff"@.len());
    assert("minClientVer"@.len() != "shortIds"@.len());
    assert("maxClientVer"@.len() != "maxTimeDiff"@.len());
    assert("maxClientVer"@.len() != "shortIds"@.len());
    assert("maxTimeDiff"@.len() != "shortIds"@.len());
    assert forall|i: int, j: int| 0 <= i < j < ms.len() implies #[trigger] ms[i].0 != #[trigger] ms[j].0 by {
        assert(i == 0 || i == 1 || i == 2 || i == 3 || i == 4 || i == 5 || i == 6 || i == 7 || i == 8);
        assert(j == 0 || j == 1 || j == 2 || j == 3 || j == 4 || j == 5 || j == 6 || j == 7 || j == 8);
    }
    assert forall|i: int| 0 <= i < ms.len() implies model_wf(#[trigger] ms[i].1) by {
        assert(i == 0 || i == 1 || i == 2 || i == 3 || i == 4 || i == 5 || i == 6 || i == 7 || i == 8);
    }
}

/// The stream settings are well-formed.
proof fn lemma_stream_wf(p: Seq<char>, s: Seq<char>)
    ensures
        model_wf(stream_model(p, s)),
{
    reveal_strlit("network");
    reveal_strlit("realitySettings");
    reveal_strlit("security");
    lemma_reality_wf(p, s);
    let ms = stream_model(p, s)->Object_0;
    assert("network"@.len() != "security"@.len());
    assert("network"@.len() != "realitySettings"@.len());
    assert("security"@.len() != "realitySettings"@.len());
    assert forall|i: int, j: int| 0 <= i < j < ms.len() implies #[trigger] ms[i].0 != #[trigger] ms[j].0 by {
        assert(i == 0 || i == 1 || i == 2);
        assert(j == 0 || j == 1 || j == 2);
    }
    assert forall|i: int| 0 <= i < ms.len() implies model_wf(#[trigger] ms[i].1) by {
        assert(i == 0 || i == 1 || i == 2);
    }
}

/// The sniffed protocols are well-formed.
proof fn lemma_overrides_wf()
    ensures
        model_wf(sniffing_model()->Object_0[1].1),
{
    let items = sniffing_model()->Object_0[1].1->Array_0;
    assert forall|i: int| 0 <= i < items.len() implies model_wf(#[trigger] items[i]) by {
        assert(i == 0 || i == 1);
    }
}

/// The sniffing settings are well-formed.
proof fn lemma_sniffing_wf()
    ensures
        model_wf(sniffing_model()),
{
    reveal_strlit("destOverride");
    reveal_strlit("enabled");
    lemma_overrides_wf();
    let ms = sniffing_model()->Object_0;
    assert("enabled"@.len() != "destOverride"@.len());
    assert forall|i: int, j: int| 0 <= i < j < ms.len() implies #[trigger] ms[i].0 != #[trigger] ms[j].0 by {
        assert(i == 0 || i == 1);
        assert(j == 0 || j == 1);
    }
    assert forall|i: int| 0 <= i < ms.len() implies model_wf(#[trigger] ms[i].1) by {
        assert(i == 0 || i == 1);
    }
}

/// The inbound is well-formed.
proof fn lemma_inbound_wf(u: Seq<char>, p: Seq<char>, s: Seq<char>)
    ensures
        model_wf(inbound_model(u, p, s)),
{
    reveal_strlit("listen");
    reveal_strlit("port");
    reveal_strlit("protocol");
    reveal_strlit("settings");
    reveal_strlit("sniffing");
    reveal_strlit("streamSettings");
    lemma_settings_wf(u);
    lemma_stream_wf(p, s);
    lemma_sniffing_wf();
    let ms = inbound_model(u, p, s)->Object_0;
    assert("listen"@.len() != "port"@.len());
    assert("listen"@.len() != "protocol"@.len());
    assert("listen"@.len() != "settings"@.len());
    assert("listen"@.len() != "streamSettings"@.len());
    assert("listen"@.len() != "sniffing"@.len());
    assert("port"@.len() != "protocol"@.len());
    assert("port"@.len() != "settings"@.len());
    assert("port"@.len() != "streamSettings"@.len());
    assert("port"@.len() != "sniffing"@.len());
    assert("protocol"@[0] != "settings"@[0]);
    assert("protocol"@.len() != "streamSettings"@.len());
    assert("protocol"@[0] != "sniffing"@[0]);
    assert("settings"@.len() != "streamSettings"@.len());
    assert("settings"@[1] != "sniffing"@[1]);
    assert("streamSettings"@.len() != "sniffing"@.len());
    assert forall|i: int, j: int| 0 <= i < j < ms.len() implies #[trigger] ms[i].0 != #[trigger] ms[j].0 by {
        assert(i == 0 || i == 1 || i == 2 || i == 3 || i == 4 || i == 5);
        assert(j == 0 || j == 1 || j == 2 || j == 3 || j == 4 || j == 5);
    }
    assert forall|i: int| 0 <= i < ms.len() implies model_wf(#[trigger] ms[i].1) by {
        assert(i == 0 || i == 1 || i == 2 || i == 3 || i == 4 || i == 5);
    }
}

/// The inbound list is well-formed.
proof fn lemma_inbounds_wf(u: Seq<char>, p: Seq<char>, s: Seq<char>)
    ensures
        model_wf(initial_config_model(u, p, s)->Object_0[2].1),
{
    lemma_inbound_wf(u, p, s);
    let items = initial_config_model(u, p, s)->Object_0[2].1->Array_0;
    assert forall|i: int| 0 <= i < items.len() implies model_wf(#[trigger] items[i]) by {
        assert(i == 0);
    }
}

/// The direct outbound is well-formed.
proof fn lemma_freedom_wf()
    ensures
        model_wf(outbounds_model()->Array_0[0]),
{
    reveal_strlit("protocol");
    reveal_strlit("tag");
    let ms = outbounds_model()->Array_0[0]->Object_0;
    assert("protocol"@.len() != "tag"@.len());
    assert forall|i: int, j: int| 0 <= i < j < ms.len() implies #[trigger] ms[i].0 != #[trigger] ms[j].0 by {
        assert(i == 0 || i == 1);
        assert(j == 0 || j == 1);
    }
    assert forall|i: int| 0 <= i < ms.len() implies model_wf(#[trigger] ms[i].1) by {
        assert(i == 0 || i == 1);
    }
}

/// The blackhole outbound is well-formed.
proof fn lemma_blackhole_wf()
    ensures
        model_wf(outbounds_model()->Array_0[1]),
{
    reveal_strlit("protocol");
    reveal_strlit("tag");
    let ms = outbounds_model()->Array_0[1]->Object_0;
    assert("protocol"@.len() != "tag"@.len());
    assert forall|i: int, j: int| 0 <= i < j < ms.len() implies #[trigger] ms[i].0 != #[trigger] ms[j].0 by {
        assert(i == 0 || i == 1);
        assert(j == 0 || j == 1);
    }
    assert forall|i: int| 0 <= i < ms.len() implies model_wf(#[trigger] ms[i].1) by {
        assert(i == 0 || i == 1);
    }
}

/// The outbounds are well-formed.
proof fn lemma_outbounds_wf()
    ensures
        model_wf(outbounds_model()),
{
    lemma_freedom_wf();
    lemma_blackhole_wf();
    let items = outbounds_model()->Array_0;
    assert forall|i: int| 0 <= i < items.len() implies model_wf(#[trigger] items[i]) by {
        assert(i == 0 || i == 1);
    }
}

/// The level-0 policy is well-formed.
proof fn lemma_level_wf()
    ensures
        model_wf(policy_model()->Object_0[0].1->Object_0[0].1),
{
    reveal_strlit("connIdle");
    reveal_strlit("handshake");
    let ms = policy_model()->Object_0[0].1->Object_0[0].1->Object_0;
    assert("handshake"@.len() != "connIdle"@.len());
    assert forall|i: int, j: int| 0 <= i < j < ms.len() implies #[trigger] ms[i].0 != #[trigger] ms[j].0 by {
        assert(i == 0 || i == 1);
        assert(j == 0 || j == 1);
    }
    assert forall|i: int| 0 <= i < ms.len() implies model_wf(#[trigger] ms[i].1) by {
        assert(i == 0 || i == 1);
    }
}

/// The policy levels are well-formed.
proof fn lemma_levels_wf()
    ensures
        model_wf(policy_model()->Object_0[0].1),
{
    reveal_strlit("0");
    lemma_level_wf();
    let ms = policy_model()->Object_0[0].1->Object_0;
    assert forall|i: int| 0 <= i < ms.len() implies model_wf(#[trigger] ms[i].1) by {
        assert(i == 0);
    }
}

/// The policy section is well-formed.
proof fn lemma_policy_wf()
    ensures
        model_wf(policy_model()),
{
    reveal_strlit("levels");
    lemma_levels_wf();
    let ms = policy_model()->Object_0;
    assert forall|i: int| 0 <= i < ms.len() implies model_wf(#[trigger] ms[i].1) by {
        assert(i == 0);
    }
}

/// The installed configuration is well-formed.
proof fn lemma_initial_config_wf(u: Seq<char>, p: Seq<char>, s: Seq<char>)
    ensures
        model_wf(initial_config_model(u, p, s)),
{
    reveal_strlit("inbounds");
    reveal_strlit("log");
    reveal_strlit("outbounds");
    reveal_strlit("policy");
    reveal_strlit("routing");
    lemma_log_wf();
    lemma_routing_wf();
    lemma_inbounds_wf(u, p, s);
    lemma_outbounds_wf();
    lemma_policy_wf();
    let ms = initial_config_model(u, p, s)->Object_0;
    assert("log"@.len() != "routing"@.len());
    assert("log"@.len() != "inbounds"@.len());
    assert("log"@.len() != "outbounds"@.len());
    assert("log"@.len() != "policy"@.len());
    assert("routing"@.len() != "inbounds"@.len());
    assert("routing"@.len() != "outbounds"@.len());
    assert("routing"@.len() != "policy"@.len());
    assert("inbounds"@.len() != "outbounds"@.len());
    assert("inbounds"@.len() != "policy"@.len());
    assert("outbounds"@.len() != "policy"@.len());
    assert forall|i: int, j: int| 0 <= i < j < ms.len() implies #[trigger] ms[i].0 != #[trigger] ms[j].0 by {
        assert(i == 0 || i == 1 || i == 2 || i == 3 || i == 4);
        assert(j == 0 || j == 1 || j == 2 || j == 3 || j == 4);
    }
    assert forall|i: int| 0 <= i < ms.len() implies model_wf(#[trigger] ms[i].1) by {
        assert(i == 0 || i == 1 || i == 2 || i == 3 || i == 4);
    }
}

/// Wherever it stands, a line that names `net.ipv4.tcp_congestion_control`
/// and `bbr` shows BBR as on.
pub proof fn law_bbr_line_anywhere(output: Seq<char>, j: int)
    requires
        0 <= j < split_lines(output).len(),
        shows_bbr(split_lines(output)[j]),
    ensures
        bbr_active(output),
{
}

/// Lines added before or after an output do not change that it shows BBR.
pub proof fn law_bbr_more_lines(a: Seq<char>, b: Seq<char>)
    ensures
        bbr_active(b) ==> bbr_active(a + seq!['\n'] + b),
        bbr_active(a) ==> bbr_active(a + seq!['\n'] + b),
{
    let whole = a + seq!['\n'] + b;
    lemma_split_lines_concat(a, b);
    let la = split_lines(a);
    let lb = split_lines(b);
    assert(split_lines(whole) == la + lb);
    if bbr_active(b) {
        let j = choose|j: int| 0 <= j < lb.len() && shows_bbr(#[trigger] lb[j]);
        assert((la + lb)[la.len() + j] == lb[j]);
        law_bbr_line_anywhere(whole, la.len() + j);
    }
    if bbr_active(a) {
        let j = choose|j: int| 0 <= j < la.len() && shows_bbr(#[trigger] la[j]);
        assert((la + lb)[j] == la[j]);
        law_bbr_line_anywhere(whole, j);
    }
}

} // verus!
