use remote_bind::oneport::{
    config_candidates, config_file_text, dereference, load_config, match_rule, ConfigError, Rule,
};

fn rule(pattern: &[u8], address: &str) -> Rule {
    Rule { pattern: pattern.to_vec(), address: address.to_string() }
}

const README_CONFIG: &str = "config:
  # 监听地址
  listen: 0.0.0.0:1111

rules:
    # 字符串匹配
  - rule: GET
    address: 127.0.0.1:80
    # 首字节匹配
  - rule: 3
    address: 127.0.0.1:3389
    # 多字节匹配
  - rule: [0x53, 0x53]
    address: 127.0.0.1:22
    # 内置规则
  - rule: $SSH
    address: 127.0.0.1:22
    # 内置规则可能是多个规则的集合，比如 $HTTP 匹配 GET、POST 等多个字符串
  - rule: $HTTP
    address: 127.0.0.1:80
    # 通配规则
  - rule: []
    address: 127.0.0.1:4444
";

#[test]
fn readme_config_loads_in_order() {
    let c = load_config(README_CONFIG).expect("valid config");
    assert_eq!(c.listen, "0.0.0.0:1111");
    assert_eq!(c.api, "127.0.0.111:11111");
    let got: Vec<(Vec<u8>, String)> = c.rules.iter().map(|r| (r.pattern.clone(), r.address.clone())).collect();
    let expected: Vec<(Vec<u8>, String)> = vec![
        (b"GET".to_vec(), "127.0.0.1:80".into()),
        (vec![3], "127.0.0.1:3389".into()),
        (vec![0x53, 0x53], "127.0.0.1:22".into()),
        (vec![83], "127.0.0.1:22".into()),
        (b"GET".to_vec(), "127.0.0.1:80".into()),
        (b"POST".to_vec(), "127.0.0.1:80".into()),
        (b"OPTIONS".to_vec(), "127.0.0.1:80".into()),
        (b"DELETE".to_vec(), "127.0.0.1:80".into()),
        (b"PUT".to_vec(), "127.0.0.1:80".into()),
        (b"HEAD".to_vec(), "127.0.0.1:80".into()),
        (vec![], "127.0.0.1:4444".into()),
    ];
    assert_eq!(got, expected);
}

#[test]
fn readme_rules_route_requests() {
    let c = load_config(README_CONFIG).unwrap();
    assert_eq!(match_rule(&c.rules, b"GET / HTTP/1.1"), Some("127.0.0.1:80".to_string()));
    assert_eq!(match_rule(&c.rules, &[3, 0, 0, 19]), Some("127.0.0.1:3389".to_string()));
    assert_eq!(match_rule(&c.rules, b"SSH-2.0-OpenSSH"), Some("127.0.0.1:22".to_string()));
    assert_eq!(match_rule(&c.rules, b"DELETE /x"), Some("127.0.0.1:80".to_string()));
    assert_eq!(match_rule(&c.rules, b"\x16\x03\x01"), Some("127.0.0.1:4444".to_string()));
}

#[test]
fn config_defaults_and_errors() {
    let c = load_config("config:\n  api: 1.2.3.4:5\n").unwrap();
    assert_eq!(c.listen, "0.0.0.0:1111");
    assert_eq!(c.api, "1.2.3.4:5");
    assert!(c.rules.is_empty());
    assert_eq!(load_config("").err(), Some(ConfigError::InvalidData));
    assert_eq!(load_config("a: [").err(), Some(ConfigError::InvalidData));
}

#[test]
fn config_items_without_address_are_skipped() {
    let c = load_config("rules:\n  - rule: 1\n  - rule: [1, x, 258]\n    address: a\n  - address: b\n").unwrap();
    let got: Vec<(Vec<u8>, String)> = c.rules.iter().map(|r| (r.pattern.clone(), r.address.clone())).collect();
    assert_eq!(got, vec![(vec![1, 0, 2], "a".to_string()), (vec![], "b".to_string())]);
}

#[test]
fn builtin_rules() {
    assert_eq!(dereference("$SSH"), vec![vec![83]]);
    assert_eq!(dereference("$RDP"), vec![vec![3]]);
    assert_eq!(dereference("$HTTP").len(), 6);
    assert_eq!(dereference("GET"), vec![b"GET".to_vec()]);
    assert_eq!(dereference("$$SSH"), vec![b"$SSH".to_vec()]);
    assert_eq!(dereference("$a$$b"), vec![b"$a$b".to_vec()]);
    assert_eq!(dereference("$other"), vec![b"$other".to_vec()]);
    assert_eq!(dereference(""), vec![Vec::<u8>::new()]);
}

#[test]
fn first_rule_wins() {
    let rules = vec![rule(b"GE", "first"), rule(b"GET", "second"), rule(b"", "any")];
    assert_eq!(match_rule(&rules, b"GET /"), Some("first".to_string()));
    assert_eq!(match_rule(&rules, b"G"), Some("any".to_string()));
    let strict = vec![rule(b"GET", "web")];
    assert_eq!(match_rule(&strict, b"GE"), None);
    assert_eq!(match_rule(&strict, b"POST"), None);
}

#[test]
fn config_file_bytes() {
    assert_eq!(config_file_text(b"\xEF\xBB\xBFrules: []"), "rules: []");
    assert_eq!(config_file_text(b"abc"), "abc");
    assert_eq!(config_file_text(b"ab\xff"), "ab\u{fffd}");
    assert_eq!(config_file_text(b""), "");
    assert_eq!(config_file_text(b"a"), "a");
    assert_eq!(config_file_text(b"\xEF\xBB"), "\u{fffd}");
    assert_eq!(config_file_text(b"\xEF\xBB\xBF"), "");
}

#[test]
fn config_search_order() {
    assert_eq!(config_candidates(Some("x.yml".into())), vec!["x.yml".to_string()]);
    assert_eq!(
        config_candidates(None),
        vec!["config.yml", "oneport.yml", "oneport/config.yml", "oneport/oneport.yml"]
    );
}
