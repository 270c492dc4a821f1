use serde_json::Value;
use xrayctl::cmd::install::{bbr_enabled, bbr_settings, initial_config};
use xrayctl::cmd::{listusers, mainuser, newuser, rmuser, sharelink};
use xrayctl::error::XrayError;
use xrayctl::json::{Json, JsonNumber};
use xrayctl::utils::config::{read_config, write_config};
use xrayctl::utils::config::get_clients;
use xrayctl::utils::display::build_vless_link;
use xrayctl::utils::entities::{KeyField, Keys};

fn parse(text: &str) -> Json {
    read_config(text).unwrap()
}

/// The configuration as it would be written, read back by serde_json.
fn to_value(j: &Json) -> Value {
    serde_json::from_str::<Value>(&write_config(j).unwrap()).unwrap()
}

fn keys() -> Keys {
    Keys {
        uuid: "main-uuid".to_string(),
        private_key: "privKEY".to_string(),
        public_key: "pubKEY".to_string(),
        short_id: "a1b2c3d4".to_string(),
    }
}

const SAMPLE: &str = r#"{
  "inbounds": [
    {
      "port": 8443,
      "protocol": "vless",
      "settings": {
        "clients": [
          {"email": "main", "id": "id-main", "flow": "xtls-rprx-vision"},
          {"email": "alice", "id": "id-alice"},
          {"id": "id-anon"},
          {"email": "bob", "id": 5}
        ],
        "decryption": "none"
      },
      "streamSettings": {"realitySettings": {"serverNames": ["example.org", "www.example.org"]}}
    }
  ],
  "outbounds": [{"protocol": "freedom"}]
}"#;

const INITIAL_EXPECTED: &str = r#"{
  "log": {"loglevel": "warning"},
  "routing": {
    "domainStrategy": "IPIfNonMatch",
    "rules": [{"type": "field", "domain": ["geosite:category-ads-all"], "outboundTag": "block"}]
  },
  "inbounds": [{
    "listen": "0.0.0.0",
    "port": 443,
    "protocol": "vless",
    "settings": {
      "clients": [{"email": "main", "id": "main-uuid", "flow": "xtls-rprx-vision"}],
      "decryption": "none"
    },
    "streamSettings": {
      "network": "tcp",
      "security": "reality",
      "realitySettings": {
        "show": false,
        "dest": "github.com:443",
        "xver": 0,
        "serverNames": ["github.com", "www.github.com"],
        "privateKey": "privKEY",
        "minClientVer": "",
        "maxClientVer": "",
        "maxTimeDiff": 0,
        "shortIds": ["a1b2c3d4"]
      }
    },
    "sniffing": {"enabled": true, "destOverride": ["http", "tls"]}
  }],
  "outbounds": [
    {"protocol": "freedom", "tag": "direct"},
    {"protocol": "blackhole", "tag": "block"}
  ],
  "policy": {"levels": {"0": {"handshake": 3, "connIdle": 180}}}
}"#;

#[test]
fn initial_config_has_the_installed_layout() {
    let cfg = initial_config(&keys());
    let expected: Value = serde_json::from_str(INITIAL_EXPECTED).unwrap();
    assert_eq!(to_value(&cfg), expected);
}

#[test]
fn initial_config_lists_the_main_user() {
    let cfg = initial_config(&keys());
    let rows = get_clients(&cfg).unwrap();
    assert_eq!(rows, vec![(0, "main".to_string(), "main-uuid".to_string())]);
}

#[test]
fn main_user_link_of_initial_config() {
    let cfg = initial_config(&keys());
    let link = mainuser::run(&cfg, &keys(), "203.0.113.7").unwrap();
    assert_eq!(
        link,
        "vless://main-uuid@203.0.113.7:443?security=reality&sni=github.com&fp=firefox\
         &pbk=pubKEY&sid=a1b2c3d4&spx=/&type=tcp&flow=xtls-rprx-vision&encryption=none#main"
    );
}

#[test]
fn link_uses_config_values() {
    let cfg = parse(SAMPLE);
    let link = build_vless_link(&cfg, &keys(), "alice", "id-alice", "198.51.100.1").unwrap();
    assert_eq!(
        link,
        "vless://id-alice@198.51.100.1:8443?security=reality&sni=example.org&fp=firefox\
         &pbk=pubKEY&sid=a1b2c3d4&spx=/&type=tcp&flow=xtls-rprx-vision&encryption=none#alice"
    );
}

#[test]
fn link_falls_back_to_defaults() {
    let cfg = parse(r#"{"inbounds": [{"port": -1, "protocol": 3}]}"#);
    let link = build_vless_link(&cfg, &keys(), "e", "u", "ip").unwrap();
    assert_eq!(
        link,
        "vless://u@ip:443?security=reality&sni=github.com&fp=firefox\
         &pbk=pubKEY&sid=a1b2c3d4&spx=/&type=tcp&flow=xtls-rprx-vision&encryption=none#e"
    );
    let cfg = parse(r#"{"inbounds": [{"port": 8443.5}]}"#);
    let link = build_vless_link(&cfg, &keys(), "e", "u", "ip").unwrap();
    assert!(link.starts_with("vless://u@ip:443?"));
    let link = build_vless_link(&Json::Null, &keys(), "e", "u", "ip").unwrap();
    assert!(link.starts_with("vless://u@ip:443?security=reality&sni=github.com&"));
}

#[test]
fn get_clients_uses_empty_strings_for_missing_fields() {
    let cfg = parse(SAMPLE);
    let rows = get_clients(&cfg).unwrap();
    assert_eq!(
        rows,
        vec![
            (0, "main".to_string(), "id-main".to_string()),
            (1, "alice".to_string(), "id-alice".to_string()),
            (2, "".to_string(), "id-anon".to_string()),
            (3, "bob".to_string(), "".to_string()),
        ]
    );
}

#[test]
fn get_clients_needs_a_client_array() {
    for text in [
        r#"{}"#,
        r#"{"inbounds": []}"#,
        r#"{"inbounds": [{"settings": {}}]}"#,
        r#"{"inbounds": [{"settings": {"clients": {}}}]}"#,
        r#"[1, 2]"#,
    ] {
        assert!(matches!(get_clients(&parse(text)), Err(XrayError::NoClientsArray)));
    }
    let rows = get_clients(&parse(r#"{"inbounds": [{"settings": {"clients": []}}]}"#)).unwrap();
    assert!(rows.is_empty());
}

#[test]
fn first_member_with_a_key_is_read() {
    let cfg = Json::Object(vec![
        (
            "inbounds".to_string(),
            Json::Array(vec![Json::Object(vec![(
                "settings".to_string(),
                Json::Object(vec![(
                    "clients".to_string(),
                    Json::Array(vec![Json::Object(vec![
                        ("email".to_string(), Json::Str("first".to_string())),
                        ("email".to_string(), Json::Str("second".to_string())),
                    ])]),
                )]),
            )])]),
        ),
        ("inbounds".to_string(), Json::Null),
    ]);
    let rows = get_clients(&cfg).unwrap();
    assert_eq!(rows[0].1, "first");
}

#[test]
fn listusers_numbers_clients_from_one() {
    let lines = listusers::run(&parse(SAMPLE)).unwrap();
    assert_eq!(lines, vec!["Client list:", "1. main", "2. alice", "3. ", "4. bob"]);
    let empty = parse(r#"{"inbounds": [{"settings": {"clients": []}}]}"#);
    let e = listusers::run(&empty).unwrap_err();
    assert!(matches!(e, XrayError::NoClientsConfigured));
    assert_eq!(e.message(), "No clients configured");
    let e = listusers::run(&Json::Null).unwrap_err();
    assert_eq!(e.message(), "No clients array in config");
}

#[test]
fn mainuser_uses_first_client_and_defaults() {
    let cfg = parse(SAMPLE);
    let link = mainuser::run(&cfg, &keys(), "1.2.3.4").unwrap();
    assert!(link.starts_with("vless://id-main@1.2.3.4:8443?"));
    assert!(link.ends_with("#main"));
    let cfg = parse(r#"{"inbounds": [{"settings": {"clients": [{"email": 1}]}}]}"#);
    let link = mainuser::run(&cfg, &keys(), "1.2.3.4").unwrap();
    assert!(link.starts_with("vless://main-uuid@1.2.3.4:443?"));
    assert!(link.ends_with("#main"));
    let cfg = parse(r#"{"inbounds": [{"settings": {"clients": []}}]}"#);
    let e = mainuser::run(&cfg, &keys(), "ip").unwrap_err();
    assert_eq!(e.message(), "No clients found in config");
    let e = mainuser::run(&Json::Null, &keys(), "ip").unwrap_err();
    assert!(matches!(e, XrayError::NoClientsInConfig));
}

#[test]
fn prompt_number_accepts_one_to_max() {
    assert_eq!(rmuser::prompt_number("2\n", 3).unwrap(), 2);
    assert_eq!(rmuser::prompt_number("  3  ", 3).unwrap(), 3);
    assert_eq!(rmuser::prompt_number("+1\r\n", 3).unwrap(), 1);
    let e = rmuser::prompt_number("0\n", 3).unwrap_err();
    assert_eq!(e.message(), "Number must be between 1 and 3");
    let e = rmuser::prompt_number("4", 3).unwrap_err();
    assert!(matches!(e, XrayError::NumberOutOfRange(3)));
    let e = rmuser::prompt_number("two", 3).unwrap_err();
    assert_eq!(e.message(), "Please enter a valid number");
    let e = rmuser::prompt_number("", 3).unwrap_err();
    assert!(matches!(e, XrayError::InvalidNumber));
}

#[test]
fn rmuser_removes_the_chosen_client() {
    let mut cfg = parse(SAMPLE);
    let removed = rmuser::run(&mut cfg, "2\n").unwrap();
    assert_eq!(removed, "alice");
    let rows = get_clients(&cfg).unwrap();
    let emails: Vec<&str> = rows.iter().map(|r| r.1.as_str()).collect();
    assert_eq!(emails, vec!["main", "", "bob"]);
    let v = to_value(&cfg);
    assert_eq!(v["outbounds"][0]["protocol"], "freedom");
    assert_eq!(v["inbounds"][0]["settings"]["decryption"], "none");
    assert_eq!(v["inbounds"][0]["port"], 8443);
}

#[test]
fn rmuser_removes_only_the_chosen_client() {
    let mut cfg = parse(
        r#"{"inbounds": [{"settings": {"clients": [
            {"email": "x", "id": "1"}, {"email": "y"}, {"email": "x", "id": "2"}]}}]}"#,
    );
    assert_eq!(rmuser::run(&mut cfg, "1").unwrap(), "x");
    let rows = get_clients(&cfg).unwrap();
    assert_eq!(
        rows,
        vec![
            (0, "y".to_string(), "".to_string()),
            (1, "x".to_string(), "2".to_string()),
        ]
    );
}

#[test]
fn rmuser_removes_a_client_without_email() {
    let mut cfg = parse(SAMPLE);
    assert_eq!(rmuser::run(&mut cfg, "3").unwrap(), "");
    let rows = get_clients(&cfg).unwrap();
    let ids: Vec<&str> = rows.iter().map(|r| r.2.as_str()).collect();
    assert_eq!(ids, vec!["id-main", "id-alice", ""]);
    assert_eq!(rows[2].1, "bob");
}

#[test]
fn rmuser_refusals_leave_config_unchanged() {
    let mut cfg = parse(SAMPLE);
    let before = to_value(&cfg);
    let e = rmuser::run(&mut cfg, "9").unwrap_err();
    assert_eq!(e.message(), "Number must be between 1 and 4");
    assert_eq!(to_value(&cfg), before);
    let mut empty = parse(r#"{"inbounds": [{"settings": {"clients": []}}]}"#);
    let e = rmuser::run(&mut empty, "1").unwrap_err();
    assert_eq!(e.message(), "No clients to remove");
    let mut none = parse("{}");
    assert!(matches!(rmuser::run(&mut none, "1"), Err(XrayError::NoClientsArray)));
}

#[test]
fn rmuser_client_list_has_heading() {
    let lines = rmuser::client_list(&parse(SAMPLE)).unwrap();
    assert_eq!(lines[0], "Client list:");
    assert_eq!(lines[2], "2. alice");
    let empty = parse(r#"{"inbounds": [{"settings": {"clients": []}}]}"#);
    assert!(matches!(rmuser::client_list(&empty), Err(XrayError::NoClientsToRemove)));
}

#[test]
fn sharelink_builds_link_of_chosen_client() {
    let cfg = parse(SAMPLE);
    let lines = sharelink::client_list(&cfg).unwrap();
    assert_eq!(lines, vec!["1. main", "2. alice", "3. ", "4. bob"]);
    let link = sharelink::run(&cfg, &keys(), "2\n", "9.9.9.9").unwrap();
    assert_eq!(
        link,
        "vless://id-alice@9.9.9.9:8443?security=reality&sni=example.org&fp=firefox\
         &pbk=pubKEY&sid=a1b2c3d4&spx=/&type=tcp&flow=xtls-rprx-vision&encryption=none#alice"
    );
    let link = sharelink::run(&cfg, &keys(), "4", "ip").unwrap();
    assert!(link.starts_with("vless://@ip:8443?"));
    let e = sharelink::run(&cfg, &keys(), "x", "ip").unwrap_err();
    assert!(matches!(e, XrayError::InvalidNumber));
    let empty = parse(r#"{"inbounds": [{"settings": {"clients": []}}]}"#);
    let e = sharelink::run(&empty, &keys(), "1", "ip").unwrap_err();
    assert_eq!(e.message(), "No clients found");
}

#[test]
fn first_shared_link_is_main_user_link() {
    let cfg = parse(SAMPLE);
    let shared = sharelink::run(&cfg, &keys(), "1", "ip").unwrap();
    let main = mainuser::run(&cfg, &keys(), "ip").unwrap();
    assert_eq!(shared, main);
}

#[test]
fn newuser_validates_the_name() {
    assert!(matches!(newuser::check_username(""), Err(XrayError::EmptyUsername)));
    let e = newuser::check_username("a b").unwrap_err();
    assert_eq!(e.message(), "Username cannot contain spaces");
    assert!(newuser::check_username("a\tb").is_ok());
    assert!(newuser::check_username("carol").is_ok());
}

#[test]
fn newuser_appends_a_client() {
    let mut cfg = parse(SAMPLE);
    newuser::run(&mut cfg, "carol", "id-carol").unwrap();
    let rows = get_clients(&cfg).unwrap();
    assert_eq!(rows.len(), 5);
    assert_eq!(rows[4], (4, "carol".to_string(), "id-carol".to_string()));
    let v = to_value(&cfg);
    assert_eq!(v["inbounds"][0]["settings"]["clients"][4]["flow"], "xtls-rprx-vision");
    assert_eq!(v["outbounds"][0]["protocol"], "freedom");
}

#[test]
fn newuser_refuses_taken_names_and_keeps_config() {
    let mut cfg = parse(SAMPLE);
    let before = to_value(&cfg);
    let e = newuser::run(&mut cfg, "alice", "x").unwrap_err();
    assert_eq!(e.message(), "A user named 'alice' already exists");
    assert_eq!(to_value(&cfg), before);
    assert!(matches!(newuser::check_new_user(&cfg, "alice"), Err(XrayError::UserExists(_))));
    assert!(newuser::check_new_user(&cfg, "dave").is_ok());
    let e = newuser::run(&mut cfg, "", "x").unwrap_err();
    assert_eq!(e.message(), "Username cannot be empty");
    let mut none = parse("{}");
    assert!(matches!(newuser::run(&mut none, "z", "x"), Err(XrayError::NoClientsArray)));
}

#[test]
fn added_user_is_then_taken_and_can_be_removed() {
    let mut cfg = initial_config(&keys());
    newuser::run(&mut cfg, "erin", "id-erin").unwrap();
    assert!(matches!(newuser::run(&mut cfg, "erin", "id-2"), Err(XrayError::UserExists(_))));
    assert_eq!(rmuser::run(&mut cfg, "2").unwrap(), "erin");
    assert!(newuser::check_new_user(&cfg, "erin").is_ok());
    assert_eq!(get_clients(&cfg).unwrap().len(), 1);
}

#[test]
fn bbr_detection_reads_sysctl_lines() {
    assert!(bbr_enabled("net.core.somaxconn = 4096\nnet.ipv4.tcp_congestion_control = bbr\n"));
    assert!(!bbr_enabled("net.ipv4.tcp_congestion_control = cubic\nnet.ipv4.tcp_available_congestion_control = reno cubic bbr\n"));
    assert!(!bbr_enabled(""));
    assert!(bbr_enabled("net.ipv4.tcp_congestion_control=bbr"));
    assert!(!bbr_enabled("net.ipv4.tcp_congestion_control = b\nbr"));
    assert!(bbr_enabled(&bbr_settings()));
    assert_eq!(
        bbr_settings(),
        "net.core.default_qdisc=fq\nnet.ipv4.tcp_congestion_control=bbr\n"
    );
}

#[test]
fn missing_key_messages() {
    assert_eq!(XrayError::MissingKey(KeyField::Uuid).message(), "uuid not found in .keys");
    assert_eq!(
        XrayError::MissingKey(KeyField::PrivateKey).message(),
        "PrivateKey not found in .keys"
    );
    assert_eq!(
        XrayError::MissingKey(KeyField::PublicKey).message(),
        "Password/PublicKey not found in .keys"
    );
    assert_eq!(XrayError::MissingKey(KeyField::ShortId).message(), "shortsid not found in .keys");
}

#[test]
fn new_user_link_matches_shared_link() {
    let mut cfg = parse(SAMPLE);
    newuser::run(&mut cfg, "frank", "id-frank").unwrap();
    let shown = build_vless_link(&cfg, &keys(), "frank", "id-frank", "ip").unwrap();
    let shared = sharelink::run(&cfg, &keys(), "5", "ip").unwrap();
    assert_eq!(shown, shared);
}

#[test]
fn read_config_parses_json_text() {
    let cfg = read_config(r#"{"a": [1, -2, 2.5, true, null, "s"], "b": {}}"#).unwrap();
    match &cfg {
        Json::Object(members) => {
            assert_eq!(members.len(), 2);
            assert_eq!(members[0].0, "a");
            match &members[0].1 {
                Json::Array(items) => {
                    assert!(matches!(items[0], Json::Number(JsonNumber::PosInt(1))));
                    assert!(matches!(items[1], Json::Number(JsonNumber::NegInt(-2))));
                    assert!(matches!(&items[2], Json::Number(JsonNumber::Float(t)) if t == "2.5"));
                    assert!(matches!(items[3], Json::Bool(true)));
                    assert!(matches!(items[4], Json::Null));
                    assert!(matches!(&items[5], Json::Str(s) if s == "s"));
                }
                _ => panic!("not an array"),
            }
        }
        _ => panic!("not an object"),
    }
}

#[test]
fn read_config_refuses_bad_text() {
    let e = read_config("{not json").unwrap_err();
    assert!(matches!(e, XrayError::ConfigParse));
    assert_eq!(e.message(), "Failed to parse config.json");
    assert!(read_config("").is_err());
}

#[test]
fn read_config_keeps_the_last_of_repeated_keys() {
    let cfg = read_config(r#"{"k": 1, "k": 2}"#).unwrap();
    match cfg {
        Json::Object(members) => {
            assert_eq!(members.len(), 1);
            assert!(matches!(members[0].1, Json::Number(JsonNumber::PosInt(2))));
        }
        _ => panic!("not an object"),
    }
}

#[test]
fn write_config_is_pretty_json() {
    let text = write_config(&parse(r#"{"b": [1, 2.5], "a": "x"}"#)).unwrap();
    assert_eq!(text, "{\n  \"a\": \"x\",\n  \"b\": [\n    1,\n    2.5\n  ]\n}");
    let text = write_config(&parse(SAMPLE)).unwrap();
    let expected = serde_json::to_string_pretty(&serde_json::from_str::<Value>(SAMPLE).unwrap()).unwrap();
    assert_eq!(text, expected);
}

#[test]
fn write_config_refuses_bad_number_text() {
    let cfg = Json::Array(vec![Json::Number(JsonNumber::Float("abc".to_string()))]);
    let e = write_config(&cfg).unwrap_err();
    assert!(matches!(e, XrayError::ConfigUnwritable));
}
