//! The port multiplexer: forwarding rules, matched against the first bytes a visitor
//! sends, pick the service each connection goes to.

use vstd::prelude::*;
use vstd::utf8::encode_utf8;

use crate::text::{
    bytes_equal, chars_equal, decode_utf8_lossy, lossy_text, push_bytes, str_chars, string_from_chars,
};

use yaml_rust::{Yaml, YamlLoader};

verus! {

/// A forwarding rule: connections whose first bytes start with `pattern` go to `address`.
#[derive(Clone, Debug)]
pub struct Rule {
    pub pattern: Vec<u8>,
    pub address: String,
}

impl View for Rule {
    type V = (Seq<u8>, Seq<char>);

    open spec fn view(&self) -> (Seq<u8>, Seq<char>) {
        (self.pattern@, self.address@)
    }
}

/// The views of a list of rules.
pub open spec fn rules_view(rules: Seq<Rule>) -> Seq<(Seq<u8>, Seq<char>)> {
    rules.map_values(|r: Rule| r@)
}

/// Whether `pattern` is a prefix of `msg`.
pub open spec fn is_prefix(pattern: Seq<u8>, msg: Seq<u8>) -> bool {
    pattern.len() <= msg.len() && msg.take(pattern.len() as int) == pattern
}

/// The position of the first rule whose pattern starts `msg`: rules are tried in order,
/// and an earlier rule wins.
pub open spec fn first_match(rules: Seq<(Seq<u8>, Seq<char>)>, msg: Seq<u8>) -> Option<int>
    decreases rules.len(),
{
    if rules.len() == 0 {
        None
    } else {
        match first_match(rules.drop_last(), msg) {
            Some(i) => Some(i),
            None => if is_prefix(rules.last().0, msg) {
                Some(rules.len() - 1)
            } else {
                None
            },
        }
    }
}

/// The address of the first rule that matches `msg`.
pub open spec fn route(rules: Seq<(Seq<u8>, Seq<char>)>, msg: Seq<u8>) -> Option<Seq<char>> {
    match first_match(rules, msg) {
        Some(i) => Some(rules[i].1),
        None => None,
    }
}

fn starts_with(msg: &[u8], pattern: &[u8]) -> (r: bool)
    ensures
        r == is_prefix(pattern@, msg@),
{
    if pattern.len() > msg.len() {
        return false;
    }
    let n = pattern.len();
    let mut i: usize = 0;
    while i < n
        invariant
            i <= n,
            n == pattern@.len(),
            n <= msg@.len(),
            forall|k: int| 0 <= k < i ==> msg@[k] == pattern@[k],
        decreases n - i,
    {
        if msg[i] != pattern[i] {
            assert(msg@.take(n as int)[i as int] != pattern@[i as int]);
            return false;
        }
        i = i + 1;
    }
    assert(msg@.take(n as int) =~= pattern@);
    true
}

/// The service that a connection whose first bytes are `msg` goes to: the address of the
/// first rule whose pattern starts `msg`, if any.
pub fn match_rule(rules: &Vec<Rule>, msg: &[u8]) -> (r: Option<String>)
    ensures
        match r {
            Some(a) => route(rules_view(rules@), msg@) == Some(a@),
            None => route(rules_view(rules@), msg@) is None,
        },
{
    let ghost rv = rules_view(rules@);
    let n = rules.len();
    let mut i: usize = 0;
    while i < n
        invariant
            i <= n,
            n == rules@.len(),
            rv == rules_view(rules@),
            first_match(rv.take(i as int), msg@) is None,
        decreases n - i,
    {
        let ghost pre = rv.take(i as int);
        let ghost post = rv.take(i + 1);
        assert(post.drop_last() =~= pre);
        assert(post.last() == rules@[i as int]@);
        if starts_with(msg, rules[i].pattern.as_slice()) {
            proof {
                lemma_first_match_extend(rv, msg@, i as int);
            }
            return Some(rules[i].address.clone());
        }
        i = i + 1;
    }
    assert(rv.take(n as int) =~= rv);
    None
}

/// A match found in the first rules stays the first match however many rules follow.
proof fn lemma_first_match_prefix(rules: Seq<(Seq<u8>, Seq<char>)>, msg: Seq<u8>, k: int)
    requires
        0 <= k <= rules.len(),
        first_match(rules.take(k), msg) is Some,
    ensures
        first_match(rules, msg) == first_match(rules.take(k), msg),
    decreases rules.len() - k,
{
    if k < rules.len() {
        let t = rules.take(k + 1);
        assert(t.drop_last() =~= rules.take(k));
        lemma_first_match_prefix(rules, msg, k + 1);
    } else {
        assert(rules.take(k) =~= rules);
    }
}

proof fn lemma_first_match_extend(rules: Seq<(Seq<u8>, Seq<char>)>, msg: Seq<u8>, i: int)
    requires
        0 <= i < rules.len(),
        first_match(rules.take(i), msg) is None,
        is_prefix(rules[i].0, msg),
    ensures
        first_match(rules, msg) == Some(i),
{
    let t = rules.take(i + 1);
    assert(t.drop_last() =~= rules.take(i));
    assert(t.last() == rules[i]);
    lemma_first_match_prefix(rules, msg, i + 1);
}

/// Rules are tried in order: the rule that routes a connection matches it, and no earlier
/// rule does.
pub proof fn lemma_first_rule_wins(rules: Seq<(Seq<u8>, Seq<char>)>, msg: Seq<u8>)
    ensures
        match first_match(rules, msg) {
            Some(i) => 0 <= i < rules.len() && is_prefix(rules[i].0, msg) && forall|j: int|
                0 <= j < i ==> !is_prefix(#[trigger] rules[j].0, msg),
            None => forall|j: int| 0 <= j < rules.len() ==> !is_prefix(#[trigger] rules[j].0, msg),
        },
    decreases rules.len(),
{
    if rules.len() > 0 {
        let r = rules.drop_last();
        lemma_first_rule_wins(r, msg);
        assert forall|j: int| 0 <= j < r.len() implies #[trigger] rules[j] == r[j] by {}
    }
}

/// A rule with an empty pattern matches every connection.
pub proof fn lemma_empty_pattern_matches_all(rules: Seq<(Seq<u8>, Seq<char>)>, msg: Seq<u8>, i: int)
    requires
        0 <= i < rules.len(),
        rules[i].0.len() == 0,
    ensures
        first_match(rules, msg) is Some,
{
    lemma_first_rule_wins(rules, msg);
    assert(msg.take(0) =~= rules[i].0);
}

/// The bytes of a text with its first `$$` written as `$` (what `replacen("$$", "$", 1)`
/// does to the text).
pub open spec fn unescape_dollar(b: Seq<u8>) -> Seq<u8>
    decreases b.len(),
{
    if b.len() < 2 {
        b
    } else if b[0] == 0x24 && b[1] == 0x24 {
        seq![0x24u8] + b.skip(2)
    } else {
        seq![b[0]] + unescape_dollar(b.drop_first())
    }
}

/// `GET`, `POST`, `OPTIONS`, `DELETE`, `PUT` and `HEAD`, the first bytes of HTTP requests.
pub open spec fn http_methods() -> Seq<Seq<u8>> {
    seq![
        seq![0x47u8, 0x45, 0x54],
        seq![0x50u8, 0x4f, 0x53, 0x54],
        seq![0x4fu8, 0x50, 0x54, 0x49, 0x4f, 0x4e, 0x53],
        seq![0x44u8, 0x45, 0x4c, 0x45, 0x54, 0x45],
        seq![0x50u8, 0x55, 0x54],
        seq![0x48u8, 0x45, 0x41, 0x44],
    ]
}

/// The patterns that a rule's text stands for: a text that does not start with `$` is
/// matched as it is; `$SSH`, `$RDP` and `$HTTP` are built-in rules; any other text that
/// starts with `$` is taken as it is with its first `$$` written as `$`, so that `$$SSH`
/// matches the text `$SSH`.
pub open spec fn dereference_spec(key: Seq<u8>) -> Seq<Seq<u8>> {
    if !(key.len() > 0 && key[0] == 0x24) {
        seq![key]
    } else if key == seq![0x24u8, 0x53, 0x53, 0x48] {
        seq![seq![83u8]]
    } else if key == seq![0x24u8, 0x52, 0x44, 0x50] {
        seq![seq![3u8]]
    } else if key == seq![0x24u8, 0x48, 0x54, 0x54, 0x50] {
        http_methods()
    } else {
        seq![unescape_dollar(key)]
    }
}

/// A rule text that does not start with `$` is matched literally, and `$$` at the start
/// escapes a `$`: `$$SSH` matches the text `$SSH` rather than the built-in rule.
pub proof fn lemma_dereference_literal_and_escape(key: Seq<u8>, rest: Seq<u8>)
    ensures
        !(key.len() > 0 && key[0] == 0x24) ==> dereference_spec(key) == seq![key],
        dereference_spec(seq![0x24u8, 0x24u8] + rest) == seq![seq![0x24u8] + rest],
{
    let k = seq![0x24u8, 0x24u8] + rest;
    assert(k[1] == 0x24);
    assert(k != seq![0x24u8, 0x53, 0x53, 0x48]) by {
        if k == seq![0x24u8, 0x53, 0x53, 0x48] {
            assert(seq![0x24u8, 0x53, 0x53, 0x48][1] == 0x53);
        }
    }
    assert(k != seq![0x24u8, 0x52, 0x44, 0x50]) by {
        if k == seq![0x24u8, 0x52, 0x44, 0x50] {
            assert(seq![0x24u8, 0x52, 0x44, 0x50][1] == 0x52);
        }
    }
    assert(k != seq![0x24u8, 0x48, 0x54, 0x54, 0x50]) by {
        if k == seq![0x24u8, 0x48, 0x54, 0x54, 0x50] {
            assert(seq![0x24u8, 0x48, 0x54, 0x54, 0x50][1] == 0x48);
        }
    }
    assert(k.skip(2) =~= rest);
}

/// The views of a list of byte vectors.
pub open spec fn byte_views(v: Seq<Vec<u8>>) -> Seq<Seq<u8>> {
    v.map_values(|b: Vec<u8>| b@)
}

fn unescape_dollar_exec(b: &[u8]) -> (r: Vec<u8>)
    ensures
        r@ == unescape_dollar(b@),
{
    let n = b.len();
    let mut out: Vec<u8> = Vec::new();
    let mut i: usize = 0;
    assert(b@.skip(0) =~= b@);
    while n - i >= 2
        invariant
            i <= n,
            n == b@.len(),
            out@ + unescape_dollar(b@.skip(i as int)) == unescape_dollar(b@),
        decreases n - i,
    {
        let ghost rest = b@.skip(i as int);
        assert(rest[0] == b@[i as int] && rest[1] == b@[i + 1]);
        if b[i] == 0x24 && b[i + 1] == 0x24 {
            let ghost before = out@;
            out.push(0x24);
            push_bytes(&mut out, vstd::slice::slice_subrange(b, i + 2, n));
            assert(rest.skip(2) =~= b@.skip(i + 2));
            assert(out@ =~= before + unescape_dollar(rest));
            return out;
        }
        assert(rest.drop_first() =~= b@.skip(i + 1));
        let ghost before = out@;
        out.push(b[i]);
        assert(before + unescape_dollar(rest) =~= out@ + unescape_dollar(b@.skip(i + 1)));
        i = i + 1;
    }
    let ghost before = out@;
    push_bytes(&mut out, vstd::slice::slice_subrange(b, i, n));
    assert(out@ =~= before + unescape_dollar(b@.skip(i as int)));
    out
}

/// The patterns that the text of a rule stands for (see [`dereference_spec`]).
pub fn dereference(key: &str) -> (r: Vec<Vec<u8>>)
    ensures
        byte_views(r@) == dereference_spec(encode_utf8(key@)),
{
    let b = key.as_bytes();
    let ghost k = encode_utf8(key@);
    let mut out: Vec<Vec<u8>> = Vec::new();
    assert(b@ == k);
    if !(b.len() > 0 && b[0] == 0x24) {
        out.push(vstd::slice::slice_to_vec(b));
        assert(byte_views(out@) =~= seq![k]);
    } else if bytes_equal(b, &[0x24, 0x53, 0x53, 0x48]) {
        let v: Vec<u8> = vec![83u8];
        assert(v@ =~= seq![83u8]);
        out.push(v);
        assert(byte_views(out@) =~= seq![seq![83u8]]);
    } else if bytes_equal(b, &[0x24, 0x52, 0x44, 0x50]) {
        let v: Vec<u8> = vec![3u8];
        assert(v@ =~= seq![3u8]);
        out.push(v);
        assert(byte_views(out@) =~= seq![seq![3u8]]);
    } else if bytes_equal(b, &[0x24, 0x48, 0x54, 0x54, 0x50]) {
        out.push(vec![0x47u8, 0x45, 0x54]);
        out.push(vec![0x50u8, 0x4f, 0x53, 0x54]);
        out.push(vec![0x4fu8, 0x50, 0x54, 0x49, 0x4f, 0x4e, 0x53]);
        out.push(vec![0x44u8, 0x45, 0x4c, 0x45, 0x54, 0x45]);
        out.push(vec![0x50u8, 0x55, 0x54]);
        out.push(vec![0x48u8, 0x45, 0x41, 0x44]);
        assert(byte_views(out@) =~= http_methods());
    } else {
        out.push(unescape_dollar_exec(b));
        assert(byte_views(out@) =~= seq![unescape_dollar(k)]);
    }
    assert(byte_views(out@) =~= dereference_spec(k));
    out
}

/// A YAML value as the YAML loader gives it, node for node.
#[derive(Debug)]
pub enum YamlNode {
    Real(String),
    Integer(i64),
    Str(String),
    Boolean(bool),
    Array(Vec<YamlNode>),
    /// The entries of a mapping, in the order of the document.
    Hash(Vec<(YamlNode, YamlNode)>),
    Alias(usize),
    Null,
    /// What indexing a missing key or a non-mapping gives.
    BadValue,
}

/// The abstract value of a [`YamlNode`].
pub enum YamlValue {
    Real(Seq<char>),
    Integer(i64),
    Str(Seq<char>),
    Boolean(bool),
    Array(Seq<YamlValue>),
    Hash(Seq<(YamlValue, YamlValue)>),
    Alias(usize),
    Null,
    BadValue,
}

impl YamlNode {
    /// The abstract value of this node.
    pub open spec fn value(&self) -> YamlValue
        decreases self,
    {
        match self {
            YamlNode::Real(s) => YamlValue::Real(s@),
            YamlNode::Integer(i) => YamlValue::Integer(*i),
            YamlNode::Str(s) => YamlValue::Str(s@),
            YamlNode::Boolean(b) => YamlValue::Boolean(*b),
            YamlNode::Array(v) => YamlValue::Array(
                Seq::new(
                    v.len() as nat,
                    |i: int|
                        if 0 <= i < v.len() {
                            v[i].value()
                        } else {
                            YamlValue::Null
                        },
                ),
            ),
            YamlNode::Hash(v) => YamlValue::Hash(
                Seq::new(
                    v.len() as nat,
                    |i: int|
                        if 0 <= i < v.len() {
                            (v[i].0.value(), v[i].1.value())
                        } else {
                            (YamlValue::Null, YamlValue::Null)
                        },
                ),
            ),
            YamlNode::Alias(n) => YamlValue::Alias(*n),
            YamlNode::Null => YamlValue::Null,
            YamlNode::BadValue => YamlValue::BadValue,
        }
    }
}

/// The values of a list of nodes.
pub open spec fn node_values(v: Seq<YamlNode>) -> Seq<YamlValue> {
    v.map_values(|n: YamlNode| n.value())
}

/// The documents that `yaml_rust::YamlLoader::load_from_str` reads from a text, or `None`
/// where it reports a scan error.
pub uninterp spec fn yaml_documents(text: Seq<char>) -> Option<Seq<YamlValue>>;

/// The YAML values of `yaml_rust`, opaque here: [`yaml_node`] copies them into
/// [`YamlNode`]s.
#[verifier::external_type_specification]
#[verifier::external_body]
pub struct ExYaml(Yaml);

/// Copies a `yaml_rust::Yaml` into a [`YamlNode`], variant for variant, mapping entries
/// in their order. Used only by [`load_yaml`], whose contract covers its result.
#[verifier::external_body]
fn yaml_node(y: &Yaml) -> YamlNode {
    match y {
        Yaml::Real(s) => YamlNode::Real(s.clone()),
        Yaml::Integer(i) => YamlNode::Integer(*i),
        Yaml::String(s) => YamlNode::Str(s.clone()),
        Yaml::Boolean(b) => YamlNode::Boolean(*b),
        Yaml::Array(a) => YamlNode::Array(a.iter().map(yaml_node).collect()),
        Yaml::Hash(h) => YamlNode::Hash(h.iter().map(|(k, v)| (yaml_node(k), yaml_node(v))).collect()),
        Yaml::Alias(n) => YamlNode::Alias(*n),
        Yaml::Null => YamlNode::Null,
        Yaml::BadValue => YamlNode::BadValue,
    }
}

/// Reads the YAML documents of `text` with `yaml_rust::YamlLoader::load_from_str`.
/// Trusted: the result is `yaml_documents(text)`, node for node; `None` when the loader
/// reports an error. What the loader makes of a text is not stated beyond that name.
#[verifier::external_body]
fn load_yaml(text: &str) -> (r: Option<Vec<YamlNode>>)
    ensures
        match r {
            Some(d) => yaml_documents(text@) == Some(node_values(d@)),
            None => yaml_documents(text@) is None,
        },
{
    match YamlLoader::load_from_str(text) {
        Ok(docs) => Some(docs.iter().map(yaml_node).collect()),
        Err(_) => None,
    }
}

/// The keys of the configuration document.
pub open spec fn key_rules() -> Seq<char> {
    seq!['r', 'u', 'l', 'e', 's']
}

pub open spec fn key_rule() -> Seq<char> {
    seq!['r', 'u', 'l', 'e']
}

pub open spec fn key_address() -> Seq<char> {
    seq!['a', 'd', 'd', 'r', 'e', 's', 's']
}

pub open spec fn key_config() -> Seq<char> {
    seq!['c', 'o', 'n', 'f', 'i', 'g']
}

pub open spec fn key_listen() -> Seq<char> {
    seq!['l', 'i', 's', 't', 'e', 'n']
}

pub open spec fn key_api() -> Seq<char> {
    seq!['a', 'p', 'i']
}

/// The value under `key` in the entries of a mapping, `BadValue` when there is none
/// (what `yaml[key]` gives).
pub open spec fn lookup_entries(entries: Seq<(YamlValue, YamlValue)>, key: Seq<char>) -> YamlValue
    decreases entries.len(),
{
    if entries.len() == 0 {
        YamlValue::BadValue
    } else if entries[0].0 == YamlValue::Str(key) {
        entries[0].1
    } else {
        lookup_entries(entries.drop_first(), key)
    }
}

/// The value under `key` in `v`, `BadValue` when `v` is not a mapping or has no such key.
pub open spec fn lookup(v: YamlValue, key: Seq<char>) -> YamlValue {
    match v {
        YamlValue::Hash(entries) => lookup_entries(entries, key),
        _ => YamlValue::BadValue,
    }
}

/// The byte of an array element of a rule: an integer truncated to a byte, 0 otherwise.
pub open spec fn rule_byte(v: YamlValue) -> u8 {
    match v {
        YamlValue::Integer(n) => n as u8,
        _ => 0,
    }
}

/// The patterns a rule value gives: an integer is its single byte, an array its bytes,
/// a text what it stands for, and anything else the empty pattern, which matches all.
pub open spec fn rule_patterns(rule: YamlValue) -> Seq<Seq<u8>> {
    match rule {
        YamlValue::Integer(n) => seq![seq![n as u8]],
        YamlValue::Array(items) => seq![items.map_values(|e: YamlValue| rule_byte(e))],
        YamlValue::Str(s) => dereference_spec(encode_utf8(s)),
        _ => seq![Seq::<u8>::empty()],
    }
}

/// The rules one item of the `rules` list gives: each of its patterns leads to its
/// `address`; an item without a textual address gives none.
pub open spec fn item_rules(item: YamlValue) -> Seq<(Seq<u8>, Seq<char>)> {
    match lookup(item, key_address()) {
        YamlValue::Str(a) => rule_patterns(lookup(item, key_rule())).map_values(
            |p: Seq<u8>| (p, a),
        ),
        _ => seq![],
    }
}

/// The rules of a list of items, in order.
pub open spec fn items_rules(items: Seq<YamlValue>) -> Seq<(Seq<u8>, Seq<char>)>
    decreases items.len(),
{
    if items.len() == 0 {
        seq![]
    } else {
        items_rules(items.drop_last()) + item_rules(items.last())
    }
}

/// The rules of a configuration document: those of the `rules` list, none when there is
/// no such list.
pub open spec fn config_rules(doc: YamlValue) -> Seq<(Seq<u8>, Seq<char>)> {
    match lookup(doc, key_rules()) {
        YamlValue::Array(items) => items_rules(items),
        _ => seq![],
    }
}

/// The text under `config.{key}`, or `default` when it is missing or not a text.
pub open spec fn config_text(doc: YamlValue, key: Seq<char>, default: Seq<char>) -> Seq<char> {
    match lookup(lookup(doc, key_config()), key) {
        YamlValue::Str(s) => s,
        _ => default,
    }
}

/// The default listening address of the multiplexer.
pub open spec fn default_listen() -> Seq<char> {
    "0.0.0.0:1111"@
}

/// The default address of the reload service.
pub open spec fn default_api() -> Seq<char> {
    "127.0.0.111:11111"@
}

/// What a configuration file holds.
#[derive(Debug)]
pub struct LoadedConfig {
    /// The forwarding rules, in order.
    pub rules: Vec<Rule>,
    /// The address the multiplexer listens on.
    pub listen: String,
    /// The address of the reload service.
    pub api: String,
}

/// Why a configuration could not be loaded.
#[derive(Debug, PartialEq, Eq, Structural)]
pub enum ConfigError {
    /// The text is not YAML, or holds no document.
    InvalidData,
}

/// The rules, listening address and reload address of the first of the documents;
/// `None` when there is no document.
pub open spec fn config_of(docs: Seq<YamlValue>) -> Option<
    (Seq<(Seq<u8>, Seq<char>)>, Seq<char>, Seq<char>),
> {
    if docs.len() < 1 {
        None
    } else {
        let d = docs[0];
        Some(
            (
                config_rules(d),
                config_text(d, key_listen(), default_listen()),
                config_text(d, key_api(), default_api()),
            ),
        )
    }
}

/// The value of an optional node, `BadValue` for none.
pub open spec fn opt_value(n: Option<&YamlNode>) -> YamlValue {
    match n {
        Some(x) => x.value(),
        None => YamlValue::BadValue,
    }
}

/// Whether the node is the text `key`.
fn is_key(n: &YamlNode, key: &[char]) -> (r: bool)
    ensures
        r == (n.value() == YamlValue::Str(key@)),
{
    match n {
        YamlNode::Str(s) => chars_equal(str_chars(s.as_str()).as_slice(), key),
        _ => false,
    }
}

/// The node under `key` in `v`, as `v[key]` finds it; `None` for `BadValue`.
fn lookup_node<'a>(v: Option<&'a YamlNode>, key: &[char]) -> (r: Option<&'a YamlNode>)
    ensures
        opt_value(r) == lookup(opt_value(v), key@),
{
    match v {
        Some(YamlNode::Hash(entries)) => {
            let ghost ev = match opt_value(v) {
                YamlValue::Hash(e) => e,
                _ => Seq::empty(),
            };
            let n = entries.len();
            assert(ev.skip(0) =~= ev);
            let mut i: usize = 0;
            while i < n
                invariant
                    i <= n,
                    n == entries@.len(),
                    ev.len() == n,
                    opt_value(v) == YamlValue::Hash(ev),
                    forall|j: int|
                        0 <= j < n ==> #[trigger] ev[j] == (entries@[j].0.value(), entries@[j].1.value()),
                    lookup_entries(ev, key@) == lookup_entries(ev.skip(i as int), key@),
                decreases n - i,
            {
                assert(ev.skip(i as int)[0] == ev[i as int]);
                assert(ev.skip(i as int).drop_first() =~= ev.skip(i + 1));
                if is_key(&entries[i].0, key) {
                    assert(ev[i as int].0 == YamlValue::Str(key@));
                    assert(lookup_entries(ev.skip(i as int), key@) == ev[i as int].1);
                    return Some(&entries[i].1);
                }
                i = i + 1;
            }
            None
        },
        _ => None,
    }
}

/// The patterns that a rule node gives (see [`rule_patterns`]).
fn patterns_of(rule: Option<&YamlNode>) -> (r: Vec<Vec<u8>>)
    ensures
        byte_views(r@) == rule_patterns(opt_value(rule)),
{
    let mut out: Vec<Vec<u8>> = Vec::new();
    match rule {
        Some(YamlNode::Integer(n)) => {
            let mut p: Vec<u8> = Vec::new();
            p.push(*n as u8);
            out.push(p);
            assert(byte_views(out@) =~= rule_patterns(opt_value(rule)));
        },
        Some(YamlNode::Array(items)) => {
            let ghost iv = match opt_value(rule) {
                YamlValue::Array(e) => e,
                _ => Seq::empty(),
            };
            let mut p: Vec<u8> = Vec::new();
            let n = items.len();
            let mut i: usize = 0;
            while i < n
                invariant
                    i <= n,
                    n == items@.len(),
                    iv.len() == n,
                    forall|j: int| 0 <= j < n ==> #[trigger] iv[j] == items@[j].value(),
                    p@ == iv.take(i as int).map_values(|e: YamlValue| rule_byte(e)),
                decreases n - i,
            {
                let b: u8 = match &items[i] {
                    YamlNode::Integer(v) => *v as u8,
                    _ => 0,
                };
                assert(b == rule_byte(iv[i as int]));
                p.push(b);
                i = i + 1;
                assert(p@ =~= iv.take(i as int).map_values(|e: YamlValue| rule_byte(e)));
            }
            assert(iv.take(n as int) =~= iv);
            out.push(p);
            assert(byte_views(out@) =~= rule_patterns(opt_value(rule)));
        },
        Some(YamlNode::Str(s)) => {
            out = dereference(s.as_str());
        },
        _ => {
            out.push(Vec::new());
            assert(byte_views(out@) =~= rule_patterns(opt_value(rule)));
        },
    }
    out
}

/// The rules that one item of the `rules` list gives, appended to `rules`.
fn push_item_rules(rules: &mut Vec<Rule>, item: &YamlNode)
    ensures
        rules_view(final(rules)@) == rules_view(old(rules)@) + item_rules(item.value()),
{
    let address = lookup_node(Some(item), &['a', 'd', 'd', 'r', 'e', 's', 's']);
    let rule = lookup_node(Some(item), &['r', 'u', 'l', 'e']);
    proof {
        assert(['a', 'd', 'd', 'r', 'e', 's', 's']@ =~= key_address());
        assert(['r', 'u', 'l', 'e']@ =~= key_rule());
    }
    match address {
        Some(YamlNode::Str(a)) => {
            let patterns = patterns_of(rule);
            let ghost pv = byte_views(patterns@);
            let n = patterns.len();
            let mut i: usize = 0;
            while i < n
                invariant
                    i <= n,
                    n == patterns@.len(),
                    pv == byte_views(patterns@),
                    pv == rule_patterns(opt_value(rule)),
                    rules_view(rules@) == rules_view(old(rules)@) + pv.take(i as int).map_values(
                        |p: Seq<u8>| (p, a@),
                    ),
                decreases n - i,
            {
                let ghost before = rules_view(rules@);
                rules.push(
                    Rule {
                        pattern: vstd::slice::slice_to_vec(patterns[i].as_slice()),
                        address: a.clone(),
                    },
                );
                assert(pv[i as int] == patterns@[i as int]@);
                assert(rules_view(rules@) =~= before.push((pv[i as int], a@)));
                i = i + 1;
                assert(rules_view(rules@) =~= rules_view(old(rules)@) + pv.take(i as int).map_values(
                    |p: Seq<u8>| (p, a@),
                ));
            }
            assert(pv.take(n as int) =~= pv);
        },
        _ => {
            assert(rules_view(rules@) =~= rules_view(old(rules)@) + item_rules(item.value()));
        },
    }
}

/// The configuration that a list of YAML documents describes: the first document's
/// rules, listening address and reload address; an error when there is no document.
pub fn config_from_documents(docs: &Vec<YamlNode>) -> (r: Result<LoadedConfig, ConfigError>)
    ensures
        match r {
            Ok(c) => config_of(node_values(docs@)) == Some(
                (rules_view(c.rules@), c.listen@, c.api@),
            ),
            Err(_) => config_of(node_values(docs@)) is None,
        },
{
    if docs.len() < 1 {
        return Err(ConfigError::InvalidData);
    }
    let doc = &docs[0];
    assert(node_values(docs@)[0] == doc.value());
    let mut rules: Vec<Rule> = Vec::new();
    let items_node = lookup_node(Some(doc), &['r', 'u', 'l', 'e', 's']);
    proof {
        assert(['r', 'u', 'l', 'e', 's']@ =~= key_rules());
    }
    match items_node {
        Some(YamlNode::Array(items)) => {
            let ghost iv = match opt_value(items_node) {
                YamlValue::Array(e) => e,
                _ => Seq::empty(),
            };
            let n = items.len();
            let mut i: usize = 0;
            while i < n
                invariant
                    i <= n,
                    n == items@.len(),
                    iv.len() == n,
                    forall|j: int| 0 <= j < n ==> #[trigger] iv[j] == items@[j].value(),
                    rules_view(rules@) == items_rules(iv.take(i as int)),
                decreases n - i,
            {
                let ghost t = iv.take(i + 1);
                assert(t.drop_last() =~= iv.take(i as int));
                assert(t.last() == items@[i as int].value());
                push_item_rules(&mut rules, &items[i]);
                i = i + 1;
            }
            assert(iv.take(n as int) =~= iv);
        },
        _ => {
            assert(rules_view(rules@) =~= config_rules(doc.value()));
        },
    }
    let config = lookup_node(Some(doc), &['c', 'o', 'n', 'f', 'i', 'g']);
    let listen_node = lookup_node(config, &['l', 'i', 's', 't', 'e', 'n']);
    let api_node = lookup_node(config, &['a', 'p', 'i']);
    proof {
        assert(['c', 'o', 'n', 'f', 'i', 'g']@ =~= key_config());
        assert(['l', 'i', 's', 't', 'e', 'n']@ =~= key_listen());
        assert(['a', 'p', 'i']@ =~= key_api());
    }
    let listen = match listen_node {
        Some(YamlNode::Str(s)) => s.clone(),
        _ => String::from_str("0.0.0.0:1111"),
    };
    let api = match api_node {
        Some(YamlNode::Str(s)) => s.clone(),
        _ => String::from_str("127.0.0.111:11111"),
    };
    Ok(LoadedConfig { rules, listen, api })
}

/// Loads the configuration from the text of a configuration file.
pub fn load_config(config: &str) -> (r: Result<LoadedConfig, ConfigError>)
    ensures
        match r {
            Ok(c) => yaml_documents(config@) matches Some(d) && config_of(d) == Some(
                (rules_view(c.rules@), c.listen@, c.api@),
            ),
            Err(_) => yaml_documents(config@) is None || config_of(
                yaml_documents(config@)->0,
            ) is None,
        },
{
    match load_yaml(config) {
        Some(docs) => config_from_documents(&docs),
        None => Err(ConfigError::InvalidData),
    }
}

/// The bytes of a file without the UTF-8 byte order mark `EF BB BF` it may start with.
pub open spec fn strip_bom(b: Seq<u8>) -> Seq<u8> {
    if b.len() >= 3 && b.take(3) == seq![0xEFu8, 0xBB, 0xBF] {
        b.skip(3)
    } else {
        b
    }
}

/// The text of a configuration file: its bytes without a leading byte order mark, decoded
/// as UTF-8 with invalid sequences replaced.
pub fn config_file_text(bytes: &[u8]) -> (r: String)
    ensures
        r@ == lossy_text(strip_bom(bytes@)),
{
    let has_bom = bytes.len() >= 3 && bytes[0] == 0xEF && bytes[1] == 0xBB && bytes[2] == 0xBF;
    assert(has_bom == (bytes@.len() >= 3 && bytes@.take(3) == seq![0xEFu8, 0xBB, 0xBF])) by {
        if bytes@.len() >= 3 && bytes@.take(3) == seq![0xEFu8, 0xBB, 0xBF] {
            assert(bytes@.take(3)[0] == bytes@[0]);
            assert(bytes@.take(3)[1] == bytes@[1]);
            assert(bytes@.take(3)[2] == bytes@[2]);
        }
        if has_bom {
            assert(bytes@.take(3) =~= seq![0xEFu8, 0xBB, 0xBF]);
        }
    }
    let content = if has_bom {
        vstd::slice::slice_subrange(bytes, 3, bytes.len())
    } else {
        bytes
    };
    assert(content@ =~= strip_bom(bytes@));
    let chars = decode_utf8_lossy(content);
    string_from_chars(chars.as_slice())
}

/// The configuration files to try, in order: the one named on the command line, or else
/// `config.yml`, `oneport.yml`, `oneport/config.yml` and `oneport/oneport.yml`.
pub open spec fn config_candidates_spec(file: Option<Seq<char>>) -> Seq<Seq<char>> {
    match file {
        Some(f) => seq![f],
        None => seq![
            "config.yml"@,
            "oneport.yml"@,
            "oneport/config.yml"@,
            "oneport/oneport.yml"@,
        ],
    }
}

/// The configuration files to try, in order.
pub fn config_candidates(file: Option<String>) -> (r: Vec<String>)
    ensures
        r@.map_values(|s: String| s@) == config_candidates_spec(
            match file {
                Some(f) => Some(f@),
                None => None,
            },
        ),
{
    let mut out: Vec<String> = Vec::new();
    match file {
        Some(f) => {
            out.push(f);
        },
        None => {
            out.push(String::from_str("config.yml"));
            out.push(String::from_str("oneport.yml"));
            out.push(String::from_str("oneport/config.yml"));
            out.push(String::from_str("oneport/oneport.yml"));
        },
    }
    assert(out@.map_values(|s: String| s@) =~= config_candidates_spec(
        match file {
            Some(f) => Some(f@),
            None => None,
        },
    ));
    out
}

} // verus!
