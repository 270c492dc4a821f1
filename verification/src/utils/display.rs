//! Connection links.

use vstd::prelude::*;
use crate::error::XrayError;
use crate::json::{as_str, as_u64, first_inbound, item, item_ref, member, member_ref, str_of, u64_of, Json, JsonModel};
use crate::text::{decimal, push_decimal};
use crate::utils::entities::Keys;

verus! {

/// `config["inbounds"][0]`, where `None` stands for null.
pub fn first_inbound_ref(config: &Json) -> (r: Option<&Json>)
    ensures
        match r {
            Some(x) => x@ == first_inbound(config@),
            None => first_inbound(config@) == JsonModel::Null,
        },
{
    match member_ref(config, "inbounds") {
        Some(inbounds) => item_ref(inbounds, 0),
        None => None,
    }
}

/// The protocol of the first inbound, `vless` where it names none.
pub open spec fn link_protocol(config: JsonModel) -> Seq<char> {
    match str_of(member(first_inbound(config), "protocol"@)) {
        Some(s) => s,
        None => "vless"@,
    }
}

/// The port of the first inbound, 443 where it gives no non-negative integer.
pub open spec fn link_port(config: JsonModel) -> u64 {
    match u64_of(member(first_inbound(config), "port"@)) {
        Some(p) => p,
        None => 443,
    }
}

/// The first Reality server name of the first inbound, `github.com` where
/// it has none.
pub open spec fn link_sni(config: JsonModel) -> Seq<char> {
    let reality = member(member(first_inbound(config), "streamSettings"@), "realitySettings"@);
    match str_of(item(member(reality, "serverNames"@), 0)) {
        Some(s) => s,
        None => "github.com"@,
    }
}

/// A `vless://` link of VLESS + TCP + Reality with the given parts.
pub open spec fn vless_link(
    protocol: Seq<char>,
    uuid: Seq<char>,
    ip: Seq<char>,
    port: u64,
    sni: Seq<char>,
    public_key: Seq<char>,
    short_id: Seq<char>,
    email: Seq<char>,
) -> Seq<char> {
    protocol + "://"@ + uuid + "@"@ + ip + ":"@ + decimal(port as nat) + "?security=reality&sni="@
        + sni + "&fp=firefox&pbk="@ + public_key + "&sid="@ + short_id
        + "&spx=/&type=tcp&flow=xtls-rprx-vision&encryption=none#"@ + email
}

/// The link of the user `email` with UUID `uuid` to the server at `ip`,
/// taking protocol, port and server name from `config` and the public key
/// and short ID from `keys`.
pub open spec fn config_link(
    config: JsonModel,
    keys: Keys,
    email: Seq<char>,
    uuid: Seq<char>,
    ip: Seq<char>,
) -> Seq<char> {
    vless_link(
        link_protocol(config),
        uuid,
        ip,
        link_port(config),
        link_sni(config),
        keys.public_key@,
        keys.short_id@,
        email,
    )
}

/// The `vless://` connection link of a user; it never fails.
pub fn build_vless_link(config: &Json, keys: &Keys, email: &str, uuid: &str, ip: &str) -> (r:
    Result<String, XrayError>)
    ensures
        r matches Ok(link) && link@ == config_link(config@, *keys, email@, uuid@, ip@),
{
    let inbound = first_inbound_ref(config);
    let mut link: String = match inbound {
        Some(ib) => match member_ref(ib, "protocol") {
            Some(p) => match as_str(p) {
                Some(s) => s.clone(),
                None => "vless".to_owned(),
            },
            None => "vless".to_owned(),
        },
        None => "vless".to_owned(),
    };
    let port: u64 = match inbound {
        Some(ib) => match member_ref(ib, "port") {
            Some(p) => match as_u64(p) {
                Some(n) => n,
                None => 443,
            },
            None => 443,
        },
        None => 443,
    };
    let sni: String = match inbound {
        Some(ib) => match member_ref(ib, "streamSettings") {
            Some(stream) => match member_ref(stream, "realitySettings") {
                Some(reality) => match member_ref(reality, "serverNames") {
                    Some(names) => match item_ref(names, 0) {
                        Some(first) => match as_str(first) {
                            Some(s) => s.clone(),
                            None => "github.com".to_owned(),
                        },
                        None => "github.com".to_owned(),
                    },
                    None => "github.com".to_owned(),
                },
                None => "github.com".to_owned(),
            },
            None => "github.com".to_owned(),
        },
        None => "github.com".to_owned(),
    };
    link.append("://");
    link.append(uuid);
    link.append("@");
    link.append(ip);
    link.append(":");
    push_decimal(&mut link, port);
    link.append("?security=reality&sni=");
    link.append(sni.as_str());
    link.append("&fp=firefox&pbk=");
    link.append(keys.public_key.as_str());
    link.append("&sid=");
    link.append(keys.short_id.as_str());
    link.append("&spx=/&type=tcp&flow=xtls-rprx-vision&encryption=none#");
    link.append(email);
    Ok(link)
}

/// The link carries the user and the keys whole: it begins with the
/// protocol, `://`, the user's UUID, `@`, the address, `:`, the port and
/// the server name, and it ends with the public key between `&pbk=` and
/// `&sid=`, the whole short ID between `&sid=` and `&spx=/`, and the email
/// after `#`.
pub proof fn law_link_carries_user_and_keys(
    config: JsonModel,
    keys: Keys,
    email: Seq<char>,
    uuid: Seq<char>,
    ip: Seq<char>,
)
    ensures
        exists|tail: Seq<char>|
            config_link(config, keys, email, uuid, ip) == link_protocol(config) + "://"@ + uuid
                + "@"@ + ip + ":"@ + decimal(link_port(config) as nat) + "?security=reality&sni="@
                + link_sni(config) + tail,
        exists|head: Seq<char>|
            config_link(config, keys, email, uuid, ip) == head + "&pbk="@ + keys.public_key@
                + "&sid="@ + keys.short_id@
                + "&spx=/&type=tcp&flow=xtls-rprx-vision&encryption=none#"@ + email,
{
    let link = config_link(config, keys, email, uuid, ip);
    let front = link_protocol(config) + "://"@ + uuid + "@"@ + ip + ":"@ + decimal(
        link_port(config) as nat,
    ) + "?security=reality&sni="@ + link_sni(config);
    let tail = "&fp=firefox&pbk="@ + keys.public_key@ + "&sid="@ + keys.short_id@
        + "&spx=/&type=tcp&flow=xtls-rprx-vision&encryption=none#"@ + email;
    assert(link =~= front + tail);
    let head = front + "&fp=firefox"@;
    reveal_strlit("&fp=firefox&pbk=");
    reveal_strlit("&fp=firefox");
    reveal_strlit("&pbk=");
    assert("&fp=firefox&pbk="@ =~= "&fp=firefox"@ + "&pbk="@);
    assert(link =~= head + "&pbk="@ + keys.public_key@ + "&sid="@ + keys.short_id@
        + "&spx=/&type=tcp&flow=xtls-rprx-vision&encryption=none#"@ + email);
}

} // verus!
