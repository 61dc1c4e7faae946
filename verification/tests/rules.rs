//! Credentials and ingress rules.

use mini_cloudflared::config::{
    checked_secret, decode_token, first_ok, IngressRule, SecretError, TokenCreds, TokenError,
    TunnelConfig,
};
use mini_cloudflared::ingress::{
    config_format, default_config_path, load_from_file, loaded_rules, print_rules, reload, resolve,
    validate_rules,
    ConfigFormat, ConfigPlace, LoadError, RulesError,
};

fn rule(hostname: &str, path: &str, service: &str) -> IngressRule {
    IngressRule {
        hostname: hostname.to_string(),
        path: path.to_string(),
        service: service.to_string(),
    }
}

fn creds(s: &str) -> TokenCreds {
    TokenCreds { a: "acc".to_string(), s: s.to_string(), t: "tun".to_string() }
}

#[test]
fn token_is_decoded_before_it_is_read() {
    // {"a":"x","s":"y","t":"z"} and ">>>???" in the two alphabets
    let document = "eyJhIjoieCIsInMiOiJ5IiwidCI6InoifQ==";
    for token in [document.to_string(), format!(" \t{}\n", document), document.replace('=', "")] {
        let got = TokenCreds::from_token(&token, |bytes| {
            assert_eq!(bytes, br#"{"a":"x","s":"y","t":"z"}"#);
            Ok(creds("y"))
        });
        assert_eq!(got.unwrap().s, "y");
    }
    assert_eq!(decode_token("Pj4+Pz8/").unwrap(), b">>>???");
    assert_eq!(decode_token("Pj4-Pz8_").unwrap(), b">>>???");
    assert_eq!(decode_token("").unwrap(), b"");
}

#[test]
fn tokens_are_read_in_every_variant() {
    use_variants(b"", "", "", "");
    use_variants(b"\xfb", "+w==", "-w==", "-w");
    use_variants(b"\xff\xef", "/+8=", "_-8=", "_-8");
    use_variants(b"\xff\xff\xfe", "///+", "___-", "___-");
    use_variants(b"abcd", "YWJjZA==", "YWJjZA==", "YWJjZA");
    // Bits behind the last byte, and filling that is not wanted.
    for token in ["YWJjZB==", "YWJjZA=", "YWJjZB", "Y", "YQ===", "+-==", "YW Jj"] {
        assert!(decode_token(token).is_err(), "{}", token);
    }
}

fn use_variants(bytes: &[u8], standard: &str, url_safe: &str, no_pad: &str) {
    for token in [standard, url_safe, no_pad] {
        assert_eq!(decode_token(token).unwrap(), bytes);
        let around = format!("\u{3000}\r\n{}\u{85} \t", token);
        assert_eq!(decode_token(&around).unwrap(), bytes);
    }
}

#[test]
fn token_that_is_none() {
    let e = TokenCreds::from_token("****", |_| Ok(creds(""))).unwrap_err();
    assert!(matches!(e, TokenError::Base64(_)));
    assert!(e.message().contains("Invalid symbol"));
    let e = TokenCreds::from_token("eA==", |_| Err("no document".to_string())).unwrap_err();
    assert!(matches!(e, TokenError::Json(_)));
    assert_eq!(e.message(), "no document");
}

#[test]
fn first_result_that_is_no_error() {
    let a = || Ok(vec![1]);
    let b = || Ok(vec![2]);
    let e = |t: &str| Err(t.to_string());
    assert_eq!(first_ok(a(), b()), Ok(vec![1]));
    assert_eq!(first_ok(e("x"), b()), Ok(vec![2]));
    assert_eq!(first_ok(e("x"), e("y")), Err("y".to_string()));
}

#[test]
fn secret_has_at_least_32_bytes() {
    let full = format!("{}=", "A".repeat(43));
    assert_eq!(creds(&full).secret_bytes().unwrap(), vec![0; 32]);
    assert_eq!(creds(&"A".repeat(43)).secret_bytes().unwrap(), vec![0; 32]);
    let e = creds(&format!("{}==", "A".repeat(42))).secret_bytes().unwrap_err();
    assert_eq!(e.message(), "Tunnel secret too short");
    let e = creds("?").secret_bytes().unwrap_err();
    assert!(matches!(e, SecretError::Base64(_)));
    assert!(matches!(checked_secret(Ok(vec![0; 31])), Err(SecretError::TooShort)));
    assert_eq!(checked_secret(Ok(vec![5; 32])).unwrap(), vec![5; 32]);
    assert_eq!(checked_secret(Err("e".to_string())).unwrap_err().message(), "e");
}

#[test]
fn rule_for_one_host() {
    let r = rule("Example.COM", "", "s");
    assert!(r.matches("example.com", "/"));
    assert!(r.matches("EXAMPLE.com:8443", "/any"));
    assert!(!r.matches("www.example.com", "/"));
    assert!(!r.matches("", "/"));
    assert!(!r.matches("example.com.", "/"));
}

#[test]
fn rule_for_subdomains() {
    let r = rule("*.Example.com", "", "s");
    assert!(r.matches("a.example.com", "/"));
    assert!(r.matches("A.B.EXAMPLE.COM:1", "/"));
    assert!(r.matches(".example.com", "/"));
    assert!(!r.matches("example.com", "/"));
    assert!(!r.matches("badexample.com", "/"));
}

#[test]
fn rule_for_other_scripts() {
    let r = rule("STRA\u{df}E.\u{c4}.de", "", "s");
    assert!(r.matches("stra\u{df}e.\u{e4}.de", "/"));
    assert!(!r.matches("stra\u{df}e.a.de", "/"));
    // A Kelvin sign in the rule is a small k.
    let r = rule("\u{212a}.de", "", "s");
    assert!(r.matches("k.de", "/"));
    assert!(r.matches("K.DE:1", "/x"));
}

#[test]
fn rule_for_a_path() {
    let r = rule("h", "/api", "s");
    assert!(r.matches("h", "/api"));
    assert!(r.matches("h", "/apis/1"));
    assert!(!r.matches("h", "/ap"));
    assert!(!r.matches("h", "/API"));
    // Without a host the path does not count.
    assert!(rule("", "/api", "s").matches("h", "/"));
}

#[test]
fn status_code_of_a_service() {
    let code = |s: &str| rule("", "", s).status_code();
    assert_eq!(code("http_status:404"), Some(404));
    assert_eq!(code("http_status:0"), Some(0));
    assert_eq!(code("http_status:+65535"), Some(65535));
    assert_eq!(code("http_status:000200"), Some(200));
    assert_eq!(code("http_status:65536"), None);
    assert_eq!(code("http_status:99999999999999999999999"), None);
    assert_eq!(code("http_status:"), None);
    assert_eq!(code("http_status:+"), None);
    assert_eq!(code("http_status:-1"), None);
    assert_eq!(code("http_status: 1"), None);
    assert_eq!(code("http_status:1x"), None);
    assert_eq!(code("http_status"), None);
    assert_eq!(code("http://localhost"), None);
}

#[test]
fn rules_that_can_be_used() {
    assert_eq!(validate_rules(&[]), Err(RulesError::Empty));
    assert_eq!(validate_rules(&[rule("", "", "s")]), Ok(()));
    assert_eq!(validate_rules(&[rule("", "", "s"), rule("h", "", "s")]), Err(RulesError::NoCatchAll));
    assert_eq!(RulesError::Empty.message(), "Config file has no ingress rules");
    assert_eq!(
        RulesError::NoCatchAll.message(),
        "Last ingress rule must be a catch-all (no hostname). Add:\n  - service: http_status:404"
    );
}

#[test]
fn rules_that_were_loaded() {
    let load = |parsed| loaded_rules("f.yaml", ConfigFormat::Yaml, parsed);
    assert_eq!(load(Ok(vec![rule("", "", "s")])).unwrap()[0].service, "s");
    let e = load(Ok(vec![])).unwrap_err();
    assert_eq!(e.message(), "Config file has no ingress rules");
    assert_eq!(e.cause(), None);
    let e = load(Ok(vec![rule("h", "", "s")])).unwrap_err();
    assert!(matches!(e, LoadError::Rules(RulesError::NoCatchAll)));
    let e = load(Err("line 3".to_string())).unwrap_err();
    assert_eq!(e.message(), "Invalid YAML in f.yaml");
    assert_eq!(e.cause().as_deref(), Some("line 3"));
    let e = loaded_rules("f.json", ConfigFormat::Json, Err("x".to_string())).unwrap_err();
    assert_eq!(e.message(), "Invalid JSON in f.json");
}

#[test]
fn rules_from_a_file() {
    let one = |service: &'static str| move |_: String| Ok(vec![rule("", "", service)]);
    let content = || Ok("text".to_string());
    let r = load_from_file("c.json", Some("json"), content(), one("j"), one("y")).unwrap();
    assert_eq!(r[0].service, "j");
    let r = load_from_file("c.yaml", Some("yaml"), content(), one("j"), one("y")).unwrap();
    assert_eq!(r[0].service, "y");
    let r = load_from_file("c", None, content(), one("j"), |t| {
        assert_eq!(t, "text");
        Ok(vec![rule("h", "", "a"), rule("", "", "b")])
    });
    assert_eq!(r.unwrap().len(), 2);
    let e = load_from_file("c", None, Err("denied".to_string()), one("j"), one("y")).unwrap_err();
    assert_eq!(e.message(), "Cannot read config file: c");
    assert_eq!(e.cause().as_deref(), Some("denied"));
    let e = load_from_file("c", None, content(), one("j"), |_| Err("bad".to_string())).unwrap_err();
    assert_eq!(e.message(), "Invalid YAML in c");
    assert_eq!(e.cause().as_deref(), Some("bad"));
    let e = load_from_file("c.json", Some("json"), content(), |_| Ok(vec![]), one("y"));
    assert!(matches!(e, Err(LoadError::Rules(RulesError::Empty))));
}

#[test]
fn first_rule_wins() {
    let rules = [rule("a", "/x", "1"), rule("a", "", "2"), rule("*.b", "", "3"), rule("", "", "4")];
    let service = |host: &str, path: &str| resolve(&rules, host, path).unwrap().service;
    assert_eq!(service("a", "/x/y"), "1");
    assert_eq!(service("a", "/"), "2");
    assert_eq!(service("c.b", "/"), "3");
    assert_eq!(service("b", "/"), "4");
    assert!(resolve(&rules[..3], "b", "/").is_none());
    assert!(resolve(&[], "b", "/").is_none());
}

#[test]
fn reloading_keeps_rules_that_can_be_used() {
    let now = || vec![rule("", "", "old")];
    let r = reload(now(), Ok(vec![rule("h", "", "a"), rule("", "", "b")]));
    assert_eq!(r.rules.len(), 2);
    assert!(r.error.is_none());
    let e = LoadError::Read { path: "p".to_string(), cause: "c".to_string() };
    let r = reload(now(), Err(e));
    assert_eq!(r.rules[0].service, "old");
    assert!(r.error.is_some());
}

#[test]
fn format_by_extension() {
    assert_eq!(config_format(Some("json")), ConfigFormat::Json);
    assert_eq!(config_format(Some("JSON")), ConfigFormat::Yaml);
    assert_eq!(config_format(Some("yml")), ConfigFormat::Yaml);
    assert_eq!(config_format(None), ConfigFormat::Yaml);
}

#[test]
fn default_configuration_file() {
    assert_eq!(default_config_path(true, true), Some(ConfigPlace::Home));
    assert_eq!(default_config_path(true, false), Some(ConfigPlace::Home));
    assert_eq!(default_config_path(false, true), Some(ConfigPlace::System));
    assert_eq!(default_config_path(false, false), None);
}

#[test]
fn rules_in_words() {
    let rules = [rule("a", "", "s1"), rule("b", "p", "s2"), rule("", "q", "s3")];
    assert_eq!(
        print_rules(&rules),
        [
            "Loaded 3 ingress rule(s):",
            "  Rule 1: a  \u{2192}  s1",
            "  Rule 2: b/p  \u{2192}  s2",
            "  Rule 3: (catch-all) \u{2192} s3",
        ]
    );
}

#[test]
fn tunnel_configuration_is_plain_data() {
    let c = TunnelConfig { token: "t".to_string(), quick_tunnel: false, config_file: None };
    assert_eq!(c.clone().token, "t");
}
