//! What the command lines of the server, the client and the multiplexer ask for, and
//! the public address that an HTTP echo service reports.

use vstd::prelude::*;
use vstd::utf8::encode_utf8;

use crate::text::{parse_u16, parse_u16_spec, str_chars, string_from_chars, text_is};

verus! {

/// The views of a list of strings.
pub open spec fn strings_view(v: Seq<String>) -> Seq<Seq<char>> {
    v.map_values(|s: String| s@)
}

/// The view of an optional string.
pub open spec fn opt_view(o: Option<String>) -> Option<Seq<char>> {
    match o {
        Some(s) => Some(s@),
        None => None,
    }
}

/// The password the server uses when none is given.
pub open spec fn default_password() -> Seq<char> {
    "test"@
}

/// The port the server listens on when none is given.
pub open spec fn default_port() -> u16 {
    1234
}

/// What the server's command line asks for.
#[derive(Debug)]
pub enum ServerLaunch {
    /// Print the help text.
    Help,
    /// Serve on `port` with `password`.
    Run { port: u16, password: String },
    /// A password of 1024 bytes or more, which the server cannot store.
    PasswordTooLong,
}

pub open spec fn is_help(a: Seq<char>) -> bool {
    a == seq!['-', 'h'] || a == seq!['-', '-', 'h', 'e', 'l', 'p']
}

/// The port the server's first argument gives: the argument itself when it is a port
/// number, the default port otherwise.
pub open spec fn launch_port(first: Option<Seq<char>>) -> u16 {
    match first {
        Some(a) => match parse_u16_spec(a) {
            Some(p) => p,
            None => default_port(),
        },
        None => default_port(),
    }
}

/// The password the server's first argument gives: the argument when it is not a port
/// number, the default password otherwise.
pub open spec fn first_password(first: Option<Seq<char>>) -> Seq<char> {
    match first {
        Some(a) => match parse_u16_spec(a) {
            Some(p) => default_password(),
            None => a,
        },
        None => default_password(),
    }
}

/// The password the server's arguments give: the second argument when there is one.
pub open spec fn launch_password(first: Option<Seq<char>>, second: Option<Seq<char>>) -> Seq<char> {
    match second {
        Some(b) => b,
        None => first_password(first),
    }
}

/// What the server's arguments `[port] [password]` ask for: a first argument that is not
/// a port is the password; a second argument is the password. Each password set must be
/// shorter than 1024 bytes.
pub open spec fn server_launch_spec(first: Option<Seq<char>>, second: Option<Seq<char>>) -> Option<
    (u16, Seq<char>),
> {
    if encode_utf8(first_password(first)).len() >= 1024 || encode_utf8(
        launch_password(first, second),
    ).len() >= 1024 {
        None
    } else {
        Some((launch_port(first), launch_password(first, second)))
    }
}

/// Reads the server's command line (its arguments after the program name).
pub fn server_launch(first: Option<String>, second: Option<String>) -> (r: ServerLaunch)
    ensures
        match first {
            Some(a) => is_help(a@) ==> r is Help,
            None => true,
        },
        !(first matches Some(a) && is_help(a@)) ==> match r {
            ServerLaunch::Run { port, password } => server_launch_spec(
                opt_view(first),
                opt_view(second),
            ) == Some((port, password@)),
            ServerLaunch::PasswordTooLong => server_launch_spec(
                opt_view(first),
                opt_view(second),
            ) is None,
            ServerLaunch::Help => false,
        },
{
    let mut port: u16 = 1234;
    let mut password = String::from_str("test");
    let ghost f = opt_view(first);
    let ghost g = opt_view(second);
    match first {
        Some(a) => {
            if text_is(a.as_str(), &['-', 'h']) || text_is(
                a.as_str(),
                &['-', '-', 'h', 'e', 'l', 'p'],
            ) {
                proof {
                    assert(['-', 'h']@ =~= seq!['-', 'h']);
                    assert(['-', '-', 'h', 'e', 'l', 'p']@ =~= seq!['-', '-', 'h', 'e', 'l', 'p']);
                }
                return ServerLaunch::Help;
            }
            proof {
                assert(['-', 'h']@ =~= seq!['-', 'h']);
                assert(['-', '-', 'h', 'e', 'l', 'p']@ =~= seq!['-', '-', 'h', 'e', 'l', 'p']);
            }
            let chars = str_chars(a.as_str());
            match parse_u16(chars.as_slice()) {
                Some(p) => {
                    port = p;
                },
                None => {
                    password = a;
                },
            }
        },
        None => {},
    }
    assert(port == launch_port(f));
    assert(password@ == first_password(f));
    if password.as_str().as_bytes().len() >= 1024 {
        assert(server_launch_spec(f, g) is None);
        return ServerLaunch::PasswordTooLong;
    }
    match second {
        Some(b) => {
            if b.as_str().as_bytes().len() >= 1024 {
                return ServerLaunch::PasswordTooLong;
            }
            password = b;
        },
        None => {},
    }
    assert(password@ == launch_password(f, g));
    assert(server_launch_spec(f, g) == Some((port, password@)));
    ServerLaunch::Run { port, password }
}

/// What the client's command line asks for.
#[derive(Debug)]
pub enum ClientLaunch {
    /// Print the help text.
    Help,
    /// The port argument is not a port number.
    BadPort(String),
    /// Bind `port` on the relay `server` and serve `local_service` through it.
    Relay { server: String, port: u16, password: String, local_service: String },
    /// Listen on `local_service` and connect directly to the service bound on `port`.
    Direct { server: String, port: u16, local_service: String },
}

/// Reads the client's command line, program name included:
/// `[server:port] [bind_port] [password] [local_service:port]` or
/// `p2p [server:port] [bind_port] [local_listen:port]`.
pub fn client_launch(args: &Vec<String>) -> (r: ClientLaunch)
    ensures
        ({
            let a = strings_view(args@);
            if a.len() < 5 {
                r is Help
            } else {
                let p2p = a[1] == seq!['p', '2', 'p'];
                let first = if p2p { 2int } else { 1int };
                match parse_u16_spec(a[first + 1]) {
                    None => r matches ClientLaunch::BadPort(t) && t@ == a[first + 1],
                    Some(port) => if p2p {
                        r matches ClientLaunch::Direct { server, port: q, local_service } && server@
                            == a[2] && q == port && local_service@ == a[4]
                    } else {
                        r matches ClientLaunch::Relay {
                            server,
                            port: q,
                            password,
                            local_service,
                        } && server@ == a[1] && q == port && password@ == a[3] && local_service@
                            == a[4]
                    },
                }
            }
        }),
{
    if args.len() < 5 {
        return ClientLaunch::Help;
    }
    let ghost a = strings_view(args@);
    assert(forall|i: int| 0 <= i < args@.len() ==> #[trigger] a[i] == args@[i]@);
    let p2p = text_is(args[1].as_str(), &['p', '2', 'p']);
    proof {
        assert(['p', '2', 'p']@ =~= seq!['p', '2', 'p']);
    }
    let first: usize = if p2p {
        2
    } else {
        1
    };
    let port_text = str_chars(args[first + 1].as_str());
    match parse_u16(port_text.as_slice()) {
        None => ClientLaunch::BadPort(args[first + 1].clone()),
        Some(port) => {
            if p2p {
                ClientLaunch::Direct {
                    server: args[2].clone(),
                    port,
                    local_service: args[4].clone(),
                }
            } else {
                ClientLaunch::Relay {
                    server: args[1].clone(),
                    port,
                    password: args[3].clone(),
                    local_service: args[4].clone(),
                }
            }
        },
    }
}

/// What the multiplexer's command line asks for.
#[derive(Debug)]
pub enum OneportLaunch {
    /// Run the multiplexer with this configuration file, or the default ones.
    Serve { config_file: Option<String> },
    /// Ask a running multiplexer to reload its configuration.
    Reload { config_file: Option<String> },
}

pub open spec fn is_config_flag(a: Seq<char>) -> bool {
    ||| a == seq!['-', '-', 'c', 'o', 'n', 'f', 'i', 'g']
    ||| a == seq!['-', 'c', 'o', 'n', 'f', 'i', 'g']
    ||| a == seq!['-', '-', 'c']
    ||| a == seq!['-', 'c']
}

pub open spec fn is_reload_flag(a: Seq<char>) -> bool {
    ||| a == seq!['-', '-', 'r', 'e', 'l', 'o', 'a', 'd']
    ||| a == seq!['-', 'r', 'e', 'l', 'o', 'a', 'd']
    ||| a == seq!['-', '-', 'r']
    ||| a == seq!['-', 'r']
}

/// Scans the multiplexer's arguments from position `i` on: a configuration flag takes the
/// next argument as the file (none when there is no next argument); a reload flag stops
/// the scan and asks for a reload; anything else is skipped. The result tells whether a
/// reload is asked for, and the configuration file.
pub open spec fn oneport_scan(args: Seq<Seq<char>>, i: int, file: Option<Seq<char>>) -> (
    bool,
    Option<Seq<char>>,
)
    decreases args.len() + 2 - i,
{
    if i < 0 || i >= args.len() {
        (false, file)
    } else if is_config_flag(args[i]) {
        oneport_scan(
            args,
            i + 2,
            if i + 1 < args.len() {
                Some(args[i + 1])
            } else {
                None
            },
        )
    } else if is_reload_flag(args[i]) {
        (true, file)
    } else {
        oneport_scan(args, i + 1, file)
    }
}

fn is_config_flag_exec(a: &str) -> (r: bool)
    ensures
        r == is_config_flag(a@),
{
    proof {
        assert(['-', '-', 'c', 'o', 'n', 'f', 'i', 'g']@ =~= seq!['-', '-', 'c', 'o', 'n', 'f', 'i', 'g']);
        assert(['-', 'c', 'o', 'n', 'f', 'i', 'g']@ =~= seq!['-', 'c', 'o', 'n', 'f', 'i', 'g']);
        assert(['-', '-', 'c']@ =~= seq!['-', '-', 'c']);
        assert(['-', 'c']@ =~= seq!['-', 'c']);
    }
    text_is(a, &['-', '-', 'c', 'o', 'n', 'f', 'i', 'g']) || text_is(
        a,
        &['-', 'c', 'o', 'n', 'f', 'i', 'g'],
    ) || text_is(a, &['-', '-', 'c']) || text_is(a, &['-', 'c'])
}

fn is_reload_flag_exec(a: &str) -> (r: bool)
    ensures
        r == is_reload_flag(a@),
{
    proof {
        assert(['-', '-', 'r', 'e', 'l', 'o', 'a', 'd']@ =~= seq!['-', '-', 'r', 'e', 'l', 'o', 'a', 'd']);
        assert(['-', 'r', 'e', 'l', 'o', 'a', 'd']@ =~= seq!['-', 'r', 'e', 'l', 'o', 'a', 'd']);
        assert(['-', '-', 'r']@ =~= seq!['-', '-', 'r']);
        assert(['-', 'r']@ =~= seq!['-', 'r']);
    }
    text_is(a, &['-', '-', 'r', 'e', 'l', 'o', 'a', 'd']) || text_is(
        a,
        &['-', 'r', 'e', 'l', 'o', 'a', 'd'],
    ) || text_is(a, &['-', '-', 'r']) || text_is(a, &['-', 'r'])
}

/// A text of `n` characters takes at most four bytes per character in UTF-8.
proof fn lemma_utf8_length_bound(s: Seq<char>)
    ensures
        encode_utf8(s).len() <= 4 * s.len(),
    decreases s.len(),
{
    if s.len() > 0 {
        lemma_utf8_length_bound(s.drop_first());
    }
}

/// The server's arguments `[port] [password]`: a first argument that is a port number
/// sets the port and leaves the password at `test`; one that is not sets the password and
/// leaves the port at 1234; a second argument always sets the password; with none, the
/// server serves on 1234 with `test`. A password of 1024 bytes or more is refused.
pub proof fn lemma_server_arguments(first: Seq<char>, second: Seq<char>)
    ensures
        encode_utf8(first).len() < 1024 ==> match parse_u16_spec(first) {
            Some(p) => server_launch_spec(Some(first), None) == Some((p, "test"@)),
            None => server_launch_spec(Some(first), None) == Some((1234u16, first)),
        },
        encode_utf8(first).len() < 1024 && encode_utf8(second).len() < 1024 ==> match parse_u16_spec(
            first,
        ) {
            Some(p) => server_launch_spec(Some(first), Some(second)) == Some((p, second)),
            None => server_launch_spec(Some(first), Some(second)) == Some((1234u16, second)),
        },
        server_launch_spec(None, None) == Some((1234u16, "test"@)),
        encode_utf8(second).len() < 1024 ==> server_launch_spec(None, Some(second)) == Some(
            (1234u16, second),
        ),
        encode_utf8(second).len() >= 1024 ==> server_launch_spec(Some(first), Some(second)) is None,
        encode_utf8(second).len() >= 1024 ==> server_launch_spec(None, Some(second)) is None,
        parse_u16_spec(first) is None && encode_utf8(first).len() >= 1024 ==> server_launch_spec(
            Some(first),
            None,
        ) is None,
{
    reveal_strlit("test");
    lemma_utf8_length_bound("test"@);
}

/// The server prints its help for `-h` and `--help`, and for no other first argument.
pub proof fn lemma_help_words(first: Seq<char>)
    ensures
        is_help(first) <==> (first == "-h"@ || first == "--help"@),
{
    reveal_strlit("-h");
    reveal_strlit("--help");
    assert("-h"@ =~= seq!['-', 'h']);
    assert("--help"@ =~= seq!['-', '-', 'h', 'e', 'l', 'p']);
}

/// Each of `--config`, `-config`, `--c` and `-c` names the configuration file that
/// follows it; each of `--reload`, `-reload`, `--r` and `-r` asks a running multiplexer
/// to reload, with the configuration file named before it.
pub proof fn lemma_oneport_flags(file: Seq<char>)
    ensures
        oneport_scan(seq![seq!['-', '-', 'c', 'o', 'n', 'f', 'i', 'g'], file], 0, None) == (
            false,
            Some(file),
        ),
        oneport_scan(seq![seq!['-', 'c', 'o', 'n', 'f', 'i', 'g'], file], 0, None) == (
            false,
            Some(file),
        ),
        oneport_scan(seq![seq!['-', '-', 'c'], file], 0, None) == (false, Some(file)),
        oneport_scan(seq![seq!['-', 'c'], file], 0, None) == (false, Some(file)),
        oneport_scan(seq![seq!['-', '-', 'r', 'e', 'l', 'o', 'a', 'd']], 0, None) == (true, None::<Seq<char>>),
        oneport_scan(seq![seq!['-', 'r', 'e', 'l', 'o', 'a', 'd']], 0, None) == (true, None::<Seq<char>>),
        oneport_scan(seq![seq!['-', '-', 'r']], 0, None) == (true, None::<Seq<char>>),
        oneport_scan(seq![seq!['-', 'r']], 0, None) == (true, None::<Seq<char>>),
        oneport_scan(seq![seq!['-', 'c'], file, seq!['-', 'r']], 0, None) == (true, Some(file)),
{
    let r1 = seq!['-', '-', 'r', 'e', 'l', 'o', 'a', 'd'];
    let r2 = seq!['-', 'r', 'e', 'l', 'o', 'a', 'd'];
    let r3 = seq!['-', '-', 'r'];
    let r4 = seq!['-', 'r'];
    assert(r1[2] != 'c');
    assert(r2[1] != 'c');
    assert(r3[2] != 'c');
    assert(r4[1] != 'c');
    assert(!is_config_flag(r1)) by {
        assert(r1[2] != seq!['-', '-', 'c', 'o', 'n', 'f', 'i', 'g'][2]);
    }
    assert(!is_config_flag(r2)) by {
        assert(r2[1] != seq!['-', 'c', 'o', 'n', 'f', 'i', 'g'][1]);
    }
    assert(!is_config_flag(r3)) by {
        assert(r3[2] != seq!['-', '-', 'c'][2]);
    }
    assert(!is_config_flag(r4)) by {
        assert(r4[1] != seq!['-', 'c'][1]);
    }
    let c1 = seq![seq!['-', '-', 'c', 'o', 'n', 'f', 'i', 'g'], file];
    assert(is_config_flag(c1[0]));
    assert(oneport_scan(c1, 2, Some(file)) == (false, Some(file)));
    let c2 = seq![seq!['-', 'c', 'o', 'n', 'f', 'i', 'g'], file];
    assert(is_config_flag(c2[0]));
    assert(oneport_scan(c2, 2, Some(file)) == (false, Some(file)));
    let c3 = seq![seq!['-', '-', 'c'], file];
    assert(oneport_scan(c3, 2, Some(file)) == (false, Some(file)));
    let c4 = seq![seq!['-', 'c'], file];
    assert(oneport_scan(c4, 2, Some(file)) == (false, Some(file)));
    let s = seq![seq!['-', 'c'], file, r4];
    assert(oneport_scan(s, 2, Some(file)) == (true, Some(file)));
}

/// Reads the multiplexer's command line (its arguments after the program name):
/// `-c FILE` / `--config FILE` names the configuration file, `-r` / `--reload` asks a
/// running multiplexer to reload.
pub fn oneport_launch(args: &Vec<String>) -> (r: OneportLaunch)
    ensures
        ({
            let (reload, file) = oneport_scan(strings_view(args@), 0, None);
            match r {
                OneportLaunch::Serve { config_file } => !reload && opt_view(config_file) == file,
                OneportLaunch::Reload { config_file } => reload && opt_view(config_file) == file,
            }
        }),
{
    let ghost a = strings_view(args@);
    let n = args.len();
    let mut i: usize = 0;
    let mut file: Option<String> = None;
    while i < n
        invariant
            n == args@.len(),
            a == strings_view(args@),
            oneport_scan(a, i as int, opt_view(file)) == oneport_scan(a, 0, None),
        decreases n - i,
    {
        assert(a[i as int] == args@[i as int]@);
        if is_config_flag_exec(args[i].as_str()) {
            let ghost next_file = if i + 1 < n {
                Some(a[i + 1])
            } else {
                None
            };
            assert(oneport_scan(a, i as int, opt_view(file)) == oneport_scan(a, i + 2, next_file));
            if i + 1 < n {
                assert(a[i + 1] == args@[i + 1]@);
                file = Some(args[i + 1].clone());
            } else {
                file = None;
            }
            assert(opt_view(file) == next_file);
            if n - i < 2 {
                assert(oneport_scan(a, i + 2, next_file) == oneport_scan(a, n as int, next_file));
                i = n;
            } else {
                i = i + 2;
            }
        } else if is_reload_flag_exec(args[i].as_str()) {
            return OneportLaunch::Reload { config_file: file };
        } else {
            i = i + 1;
        }
    }
    OneportLaunch::Serve { config_file: file }
}

/// The four characters that end the head of an HTTP message.
pub open spec fn head_end() -> Seq<char> {
    seq!['\r', '\n', '\r', '\n']
}

/// Where the next `\r\n\r\n` starts at or after `from`, or `s.len()` when there is none.
pub open spec fn next_head_end(s: Seq<char>, from: int) -> int
    decreases s.len() - from,
{
    if from < 0 || from + 4 > s.len() {
        s.len() as int
    } else if s.subrange(from, from + 4) == head_end() {
        from
    } else {
        next_head_end(s, from + 1)
    }
}

/// The second piece of `s` split at `\r\n\r\n` (the body of an HTTP response up to any
/// further `\r\n\r\n`), or `None` when `s` holds no `\r\n\r\n`.
pub open spec fn http_body_spec(s: Seq<char>) -> Option<Seq<char>> {
    let m = next_head_end(s, 0);
    if m >= s.len() {
        None
    } else {
        Some(s.subrange(m + 4, next_head_end(s, m + 4)))
    }
}

fn find_head_end(s: &[char], from: usize) -> (r: usize)
    requires
        from <= s@.len(),
    ensures
        r == next_head_end(s@, from as int),
        from <= r,
        r == s@.len() || r + 4 <= s@.len(),
{
    let n = s.len();
    let mut i = from;
    while n >= 4 && i <= n - 4
        invariant
            from <= i <= n,
            n == s@.len(),
            next_head_end(s@, i as int) == next_head_end(s@, from as int),
        decreases n - i,
    {
        if s[i] == '\r' && s[i + 1] == '\n' && s[i + 2] == '\r' && s[i + 3] == '\n' {
            assert(s@.subrange(i as int, i + 4) =~= head_end());
            return i;
        }
        assert(s@.subrange(i as int, i + 4) != head_end()) by {
            if s@.subrange(i as int, i + 4) == head_end() {
                assert(s@.subrange(i as int, i + 4)[0] == s@[i as int]);
                assert(s@.subrange(i as int, i + 4)[1] == s@[i + 1]);
                assert(s@.subrange(i as int, i + 4)[2] == s@[i + 2]);
                assert(s@.subrange(i as int, i + 4)[3] == s@[i + 3]);
            }
        }
        i = i + 1;
    }
    n
}

/// The body of the HTTP response `resp`: the second piece of `resp` split at
/// `\r\n\r\n`.
pub fn http_body(resp: &str) -> (r: Option<String>)
    ensures
        match r {
            Some(b) => http_body_spec(resp@) == Some(b@),
            None => http_body_spec(resp@) is None,
        },
{
    let s = str_chars(resp);
    let m = find_head_end(s.as_slice(), 0);
    if m >= s.len() {
        return None;
    }
    let e = find_head_end(s.as_slice(), m + 4);
    let body = vstd::slice::slice_subrange(s.as_slice(), m + 4, e);
    Some(string_from_chars(body))
}

} // verus!
