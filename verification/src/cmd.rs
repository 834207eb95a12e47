//! The command protocol between relay server and agents.
//!
//! A frame is `0xba 0xbe len_password len_cmd password cmd`, where `cmd` is a line of
//! whitespace-separated words such as `bind 9833` or `accept 9833 <id> <addr>`.

use vstd::prelude::*;
use vstd::utf8::{encode_utf8, encode_utf8_decode_utf8, encode_utf8_valid_utf8};

use crate::text::{
    decimal, decode_utf8_lossy, is_ws, lemma_decimal_digits, lemma_parse_u16_decimal,
    lemma_split_ws_concat, lemma_split_ws_word, no_ws, parse_u16, parse_u16_spec, push_decimal, split_whitespace, split_ws,
    bytes_equal, chars_equal, lossy_text, push_bytes, push_chars, str_chars, string_from_chars,
    views,
};




verus! {

/// Why a command could not be read.
#[derive(Debug)]
pub enum CommandError {
    /// The frame or the command in it is malformed.
    InvalidData,
    /// The frame carried a wrong password.
    PermissionDenied,
    /// The connection failed; the text describes the failure.
    Io(String),
}

/// A command of the protocol.
#[derive(Debug)]
pub enum Command {
    /// An agent asks the server to listen on `port` for it.
    Bind { port: u16 },
    /// A visitor arrived on the bound `port`: session `id`, visitor address `addr`.
    Accept { port: u16, id: String, addr: String },
    /// A peer asks for a direct connection to the service bound on `port`,
    /// telling its public UDP address.
    P2pRequest { port: u16, udp_addr: String },
    /// Answer to a direct-connection request: the requester's TCP address and the
    /// UDP address to punch towards.
    AcceptP2P { addr: String, udp_addr: String },
    /// Keep-alive; also what an unknown or empty command reads as.
    Nothing,
    Success,
    Failure { reason: String },
    /// Only produced when reading; it cannot be written as a command.
    Error(CommandError),
}

/// The abstract value of a [`CommandError`].
pub enum ErrorView {
    InvalidData,
    PermissionDenied,
    Io(Seq<char>),
}

/// The abstract value of a [`Command`]: its text fields as character sequences.
pub enum CommandView {
    Bind { port: u16 },
    Accept { port: u16, id: Seq<char>, addr: Seq<char> },
    P2pRequest { port: u16, udp_addr: Seq<char> },
    AcceptP2P { addr: Seq<char>, udp_addr: Seq<char> },
    Nothing,
    Success,
    Failure { reason: Seq<char> },
    Error(ErrorView),
}

impl View for CommandError {
    type V = ErrorView;

    open spec fn view(&self) -> ErrorView {
        match self {
            CommandError::InvalidData => ErrorView::InvalidData,
            CommandError::PermissionDenied => ErrorView::PermissionDenied,
            CommandError::Io(s) => ErrorView::Io(s@),
        }
    }
}

impl View for Command {
    type V = CommandView;

    open spec fn view(&self) -> CommandView {
        match self {
            Command::Bind { port } => CommandView::Bind { port: *port },
            Command::Accept { port, id, addr } => CommandView::Accept {
                port: *port,
                id: id@,
                addr: addr@,
            },
            Command::P2pRequest { port, udp_addr } => CommandView::P2pRequest {
                port: *port,
                udp_addr: udp_addr@,
            },
            Command::AcceptP2P { addr, udp_addr } => CommandView::AcceptP2P {
                addr: addr@,
                udp_addr: udp_addr@,
            },
            Command::Nothing => CommandView::Nothing,
            Command::Success => CommandView::Success,
            Command::Failure { reason } => CommandView::Failure { reason: reason@ },
            Command::Error(e) => CommandView::Error(e@),
        }
    }
}

/// The text of an error, as `std::io::Error`'s `Display` gives it for these kinds.
pub open spec fn error_text(e: ErrorView) -> Seq<char> {
    match e {
        ErrorView::InvalidData => "invalid data"@,
        ErrorView::PermissionDenied => "permission denied"@,
        ErrorView::Io(s) => s,
    }
}

impl CommandError {
    /// The text of this error.
    pub fn message(&self) -> (r: String)
        ensures
            r@ == error_text(self@),
    {
        match self {
            CommandError::InvalidData => String::from_str("invalid data"),
            CommandError::PermissionDenied => String::from_str("permission denied"),
            CommandError::Io(s) => s.clone(),
        }
    }
}

impl Command {
    /// The error read from a malformed frame.
    pub fn invalid_data() -> (r: Command)
        ensures
            r@ == CommandView::Error(ErrorView::InvalidData),
    {
        Command::Error(CommandError::InvalidData)
    }

    /// The error read from a frame with a wrong password.
    pub fn permission_denied() -> (r: Command)
        ensures
            r@ == CommandView::Error(ErrorView::PermissionDenied),
    {
        Command::Error(CommandError::PermissionDenied)
    }

    pub fn success() -> (r: Command)
        ensures
            r@ == CommandView::Success,
    {
        Command::Success
    }

    pub fn failure(reason: String) -> (r: Command)
        ensures
            r@ == (CommandView::Failure { reason: reason@ }),
    {
        Command::Failure { reason }
    }
}


/// The first word of each command.
pub open spec fn word_bind() -> Seq<char> {
    seq!['b', 'i', 'n', 'd']
}

pub open spec fn word_accept() -> Seq<char> {
    seq!['a', 'c', 'c', 'e', 'p', 't']
}

pub open spec fn word_p2p_request() -> Seq<char> {
    seq!['p', '2', 'p', '_', 'r', 'e', 'q', 'u', 'e', 's', 't']
}

pub open spec fn word_accept_p2p() -> Seq<char> {
    seq!['a', 'c', 'c', 'e', 'p', 't', '_', 'p', '2', 'p']
}

pub open spec fn word_success() -> Seq<char> {
    seq!['s', 'u', 'c', 'c', 'e', 's', 's']
}

pub open spec fn word_failure() -> Seq<char> {
    seq!['f', 'a', 'i', 'l', 'u', 'r', 'e']
}

/// `w` followed by a space.
pub open spec fn sp(w: Seq<char>) -> Seq<char> {
    w.push(' ')
}

/// The text that carries a command in a frame: `bind {port}`, `accept {port} {id} {addr}`,
/// `p2p_request {port} {udp_addr}`, `accept_p2p {addr} {udp_addr}`, `success`,
/// `failure {reason}`, and nothing at all for the others.
pub open spec fn body_chars(c: CommandView) -> Seq<char> {
    match c {
        CommandView::Bind { port } => sp(word_bind()) + decimal(port as nat),
        CommandView::Accept { port, id, addr } => sp(sp(sp(word_accept()) + decimal(port as nat))
            + id) + addr,
        CommandView::P2pRequest { port, udp_addr } => sp(
            sp(word_p2p_request()) + decimal(port as nat),
        ) + udp_addr,
        CommandView::AcceptP2P { addr, udp_addr } => sp(sp(word_accept_p2p()) + addr) + udp_addr,
        CommandView::Success => word_success(),
        CommandView::Failure { reason } => sp(word_failure()) + reason,
        _ => seq![],
    }
}

/// The bytes of a frame that carries `c` with `password`. Each length is written in a
/// single byte, so a longer password or command wraps around.
pub open spec fn frame(password: Seq<char>, c: CommandView) -> Seq<u8> {
    let p = encode_utf8(password);
    let b = encode_utf8(body_chars(c));
    seq![0xbau8, 0xbeu8, p.len() as u8, b.len() as u8] + p + b
}

/// The text that carries `cmd` in a frame.
pub fn body_text(cmd: &Command) -> (r: Vec<char>)
    ensures
        r@ == body_chars(cmd@),
{
    let mut out: Vec<char> = Vec::new();
    match cmd {
        Command::Bind { port } => {
            push_chars(&mut out, &['b', 'i', 'n', 'd', ' ']);
            push_decimal(&mut out, *port as u32);
        },
        Command::Accept { port, id, addr } => {
            push_chars(&mut out, &['a', 'c', 'c', 'e', 'p', 't', ' ']);
            push_decimal(&mut out, *port as u32);
            out.push(' ');
            push_chars(&mut out, &str_chars(id.as_str()));
            out.push(' ');
            push_chars(&mut out, &str_chars(addr.as_str()));
        },
        Command::P2pRequest { port, udp_addr } => {
            push_chars(&mut out, &['p', '2', 'p', '_', 'r', 'e', 'q', 'u', 'e', 's', 't', ' ']);
            push_decimal(&mut out, *port as u32);
            out.push(' ');
            push_chars(&mut out, &str_chars(udp_addr.as_str()));
        },
        Command::AcceptP2P { addr, udp_addr } => {
            push_chars(&mut out, &['a', 'c', 'c', 'e', 'p', 't', '_', 'p', '2', 'p', ' ']);
            push_chars(&mut out, &str_chars(addr.as_str()));
            out.push(' ');
            push_chars(&mut out, &str_chars(udp_addr.as_str()));
        },
        Command::Success => {
            push_chars(&mut out, &['s', 'u', 'c', 'c', 'e', 's', 's']);
        },
        Command::Failure { reason } => {
            push_chars(&mut out, &['f', 'a', 'i', 'l', 'u', 'r', 'e', ' ']);
            push_chars(&mut out, &str_chars(reason.as_str()));
        },
        _ => {},
    }
    assert(out@ =~= body_chars(cmd@));
    out
}

/// The bytes of the frame that carries `cmd` with `password`.
pub fn encode_command(cmd: &Command, password: &str) -> (r: Vec<u8>)
    ensures
        r@ == frame(password@, cmd@),
{
    let body = string_from_chars(body_text(cmd).as_slice());
    let body_bytes = body.as_str().as_bytes();
    let password_bytes = password.as_bytes();
    let mut out: Vec<u8> = Vec::new();
    out.push(0xba);
    out.push(0xbe);
    out.push(password_bytes.len() as u8);
    out.push(body_bytes.len() as u8);
    push_bytes(&mut out, password_bytes);
    push_bytes(&mut out, body_bytes);
    assert(out@ =~= frame(password@, cmd@));
    out
}


/// Words joined with single spaces, as `Vec<&str>::join(" ")` does.
pub open spec fn join_words(ws: Seq<Seq<char>>) -> Seq<char>
    decreases ws.len(),
{
    if ws.len() == 0 {
        seq![]
    } else if ws.len() == 1 {
        ws[0]
    } else {
        sp(join_words(ws.drop_last())) + ws.last()
    }
}

/// The word at `i`, or nothing when there are fewer words.
pub open spec fn word_or_empty(ws: Seq<Seq<char>>, i: int) -> Seq<char> {
    if i < ws.len() {
        ws[i]
    } else {
        seq![]
    }
}

/// The command that the text of a frame reads as. `incorrect` tells that the frame's
/// password was wrong: only a `p2p_request` is read then, anything else is refused.
pub open spec fn command_from_text(text: Seq<char>, incorrect: bool) -> CommandView {
    let w = split_ws(text);
    if w.len() > 0 && w[0] == word_p2p_request() {
        if w.len() >= 3 && parse_u16_spec(w[1]) is Some {
            CommandView::P2pRequest { port: parse_u16_spec(w[1])->0, udp_addr: w[2] }
        } else {
            CommandView::Error(ErrorView::InvalidData)
        }
    } else if incorrect {
        CommandView::Error(ErrorView::PermissionDenied)
    } else if w.len() == 0 {
        CommandView::Nothing
    } else if w[0] == word_bind() {
        if w.len() >= 2 && parse_u16_spec(w[1]) is Some {
            CommandView::Bind { port: parse_u16_spec(w[1])->0 }
        } else {
            CommandView::Error(ErrorView::InvalidData)
        }
    } else if w[0] == word_accept() {
        if w.len() >= 3 && parse_u16_spec(w[1]) is Some {
            CommandView::Accept {
                port: parse_u16_spec(w[1])->0,
                id: w[2],
                addr: word_or_empty(w, 3),
            }
        } else {
            CommandView::Error(ErrorView::InvalidData)
        }
    } else if w[0] == word_accept_p2p() {
        CommandView::AcceptP2P { addr: word_or_empty(w, 1), udp_addr: word_or_empty(w, 2) }
    } else if w[0] == word_success() {
        CommandView::Success
    } else if w[0] == word_failure() {
        CommandView::Failure { reason: join_words(w.skip(1)) }
    } else {
        CommandView::Nothing
    }
}

/// The words `ws[from..]` joined with single spaces.
fn join_from(ws: &Vec<Vec<char>>, from: usize) -> (r: String)
    requires
        from <= ws@.len(),
    ensures
        r@ == join_words(views(ws@).skip(from as int)),
{
    let n = ws.len();
    let ghost v = views(ws@);
    let mut out: Vec<char> = Vec::new();
    let mut i = from;
    while i < n
        invariant
            from <= i <= n,
            n == ws@.len(),
            v == views(ws@),
            out@ == join_words(v.subrange(from as int, i as int)),
        decreases n - i,
    {
        let ghost before = v.subrange(from as int, i as int);
        let ghost after = v.subrange(from as int, i + 1);
        assert(after.drop_last() =~= before);
        assert(after.last() == ws@[i as int]@);
        if i > from {
            out.push(' ');
        }
        push_chars(&mut out, ws[i].as_slice());
        assert(out@ =~= join_words(after));
        i = i + 1;
    }
    assert(v.subrange(from as int, n as int) =~= v.skip(from as int));
    string_from_chars(out.as_slice())
}

/// Reads the text of a frame as a command; `incorrect` tells that the frame's password
/// was wrong.
pub fn parse_command_text(text: &[char], incorrect: bool) -> (r: Command)
    ensures
        r@ == command_from_text(text@, incorrect),
{
    let words = split_whitespace(text);
    let ghost w = split_ws(text@);
    let n = words.len();
    assert(forall|i: int| 0 <= i < n ==> #[trigger] words@[i]@ == w[i]);
    if n > 0 && chars_equal(
        words[0].as_slice(),
        &['p', '2', 'p', '_', 'r', 'e', 'q', 'u', 'e', 's', 't'],
    ) {
        if n >= 3 {
            if let Some(port) = parse_u16(words[1].as_slice()) {
                return Command::P2pRequest {
                    port,
                    udp_addr: string_from_chars(words[2].as_slice()),
                };
            }
        }
        return Command::invalid_data();
    }
    if incorrect {
        return Command::permission_denied();
    }
    if n == 0 {
        return Command::Nothing;
    }
    let first = words[0].as_slice();
    if chars_equal(first, &['b', 'i', 'n', 'd']) {
        if n >= 2 {
            if let Some(port) = parse_u16(words[1].as_slice()) {
                return Command::Bind { port };
            }
        }
        Command::invalid_data()
    } else if chars_equal(first, &['a', 'c', 'c', 'e', 'p', 't']) {
        if n >= 3 {
            if let Some(port) = parse_u16(words[1].as_slice()) {
                let id = string_from_chars(words[2].as_slice());
                let addr = if n >= 4 {
                    string_from_chars(words[3].as_slice())
                } else {
                    String::new()
                };
                return Command::Accept { port, id, addr };
            }
        }
        Command::invalid_data()
    } else if chars_equal(first, &['a', 'c', 'c', 'e', 'p', 't', '_', 'p', '2', 'p']) {
        let addr = if n >= 2 {
            string_from_chars(words[1].as_slice())
        } else {
            String::new()
        };
        let udp_addr = if n >= 3 {
            string_from_chars(words[2].as_slice())
        } else {
            String::new()
        };
        Command::AcceptP2P { addr, udp_addr }
    } else if chars_equal(first, &['s', 'u', 'c', 'c', 'e', 's', 's']) {
        Command::Success
    } else if chars_equal(first, &['f', 'a', 'i', 'l', 'u', 'r', 'e']) {
        Command::Failure { reason: join_from(&words, 1) }
    } else {
        Command::Nothing
    }
}

/// Reads the command bytes of a frame: decoded as UTF-8 with `String::from_utf8_lossy`,
/// then read by [`parse_command_text`].
pub fn decode_body(bytes: &[u8], incorrect: bool) -> (r: Command)
    ensures
        r@ == command_from_text(lossy_text(bytes@), incorrect),
{
    let text = decode_utf8_lossy(bytes);
    parse_command_text(text.as_slice(), incorrect)
}


/// What the start of a byte stream reads as, for a reader whose password has the bytes
/// `password`: the number of bytes the frame takes and the command it holds, or `None`
/// while the stream is too short to hold a whole frame.
///
/// The first two bytes must be `0xba 0xbe`; the next two give the lengths of the password
/// and of the command text. A reader with an empty password reads no password bytes.
pub open spec fn decode_frame(s: Seq<u8>, password: Seq<u8>) -> Option<(int, CommandView)> {
    if s.len() < 2 {
        None
    } else if s[0] != 0xba || s[1] != 0xbe {
        Some((2, CommandView::Error(ErrorView::InvalidData)))
    } else if s.len() < 4 {
        None
    } else {
        let lp = s[2] as int;
        let lc = s[3] as int;
        let off = if password.len() != 0 {
            4 + lp
        } else {
            4
        };
        if s.len() < off + lc {
            None
        } else {
            let incorrect = password.len() != 0 && s.subrange(4, 4 + lp) != password;
            Some((off + lc, command_from_text(lossy_text(s.subrange(off, off + lc)), incorrect)))
        }
    }
}

/// Where a [`CommandReader`] stands in a frame.
pub enum ReadPhase {
    Magic,
    Lengths,
    Password { len_password: u8, len_cmd: u8 },
    Body { len_cmd: u8, incorrect: bool },
    Finished,
}

/// What a [`CommandReader`] asks for next.
pub enum ReadStep {
    /// Read exactly this many more bytes and feed them.
    Read(usize),
    /// The frame is complete.
    Done(Command),
}

/// Reads one frame from a stream, a few bytes at a time: the caller reads exactly the
/// number of bytes that [`CommandReader::want`] asks for and hands them to
/// [`CommandReader::feed`], until it answers with a command.
pub struct CommandReader {
    phase: ReadPhase,
    password: Vec<u8>,
    fed: Ghost<Seq<u8>>,
}

impl CommandReader {
    /// The bytes fed so far.
    pub closed spec fn fed(&self) -> Seq<u8> {
        self.fed@
    }

    /// The bytes of the password that frames must carry.
    pub closed spec fn password(&self) -> Seq<u8> {
        self.password@
    }

    /// Whether the frame has been read to its end.
    pub closed spec fn finished(&self) -> bool {
        self.phase is Finished
    }

    /// The number of bytes to read next.
    pub closed spec fn spec_want(&self) -> nat {
        match self.phase {
            ReadPhase::Magic => 2,
            ReadPhase::Lengths => 2,
            ReadPhase::Password { len_password, .. } => len_password as nat,
            ReadPhase::Body { len_cmd, .. } => len_cmd as nat,
            ReadPhase::Finished => 0,
        }
    }

    /// The reader's phase agrees with the bytes fed so far.
    pub closed spec fn wf(&self) -> bool {
        let f = self.fed@;
        let pw = self.password@;
        let magic = f.len() >= 2 && f[0] == 0xba && f[1] == 0xbe;
        match self.phase {
            ReadPhase::Magic => f.len() == 0,
            ReadPhase::Lengths => f.len() == 2 && magic,
            ReadPhase::Password { len_password, len_cmd } => {
                &&& pw.len() != 0
                &&& f.len() == 4
                &&& magic
                &&& f[2] == len_password
                &&& f[3] == len_cmd
            },
            ReadPhase::Body { len_cmd, incorrect } => {
                &&& f.len() >= 4
                &&& magic
                &&& f[3] == len_cmd
                &&& f.len() == if pw.len() != 0 {
                    4 + f[2]
                } else {
                    4
                }
                &&& incorrect == (pw.len() != 0 && f.subrange(4, f.len() as int) != pw)
            },
            ReadPhase::Finished => decode_frame(f, pw) is Some,
        }
    }

    /// A stream that starts with the bytes fed so far but stops before the bytes asked for
    /// next holds no whole frame.
    pub proof fn lemma_short_stream(&self, t: Seq<u8>)
        requires
            self.wf(),
            !self.finished(),
            self.fed().len() <= t.len(),
            t.take(self.fed().len() as int) == self.fed(),
            t.len() < self.fed().len() + self.spec_want(),
        ensures
            decode_frame(t, self.password()) is None,
    {
        let f = self.fed@;
        assert(forall|i: int| 0 <= i < f.len() ==> t[i] == #[trigger] f[i]) by {
            assert forall|i: int| 0 <= i < f.len() implies t[i] == #[trigger] f[i] by {
                assert(t.take(f.len() as int)[i] == t[i]);
            }
        }
        if f.len() >= 4 {
            assert(t[2] == f[2] && t[3] == f[3]);
        }
        if f.len() >= 2 {
            assert(t[0] == f[0] && t[1] == f[1]);
        }
    }

    /// A reader for one frame that must carry `password` (nothing is checked when it is empty).
    pub fn new(password: &str) -> (r: CommandReader)
        ensures
            r.wf(),
            r.fed() == Seq::<u8>::empty(),
            r.password() == encode_utf8(password@),
            !r.finished(),
            r.spec_want() == 2,
    {
        let mut pw: Vec<u8> = Vec::new();
        push_bytes(&mut pw, password.as_bytes());
        CommandReader { phase: ReadPhase::Magic, password: pw, fed: Ghost(Seq::empty()) }
    }

    /// The number of bytes to read next.
    pub fn want(&self) -> (r: usize)
        ensures
            r == self.spec_want(),
    {
        match self.phase {
            ReadPhase::Magic => 2,
            ReadPhase::Lengths => 2,
            ReadPhase::Password { len_password, .. } => len_password as usize,
            ReadPhase::Body { len_cmd, .. } => len_cmd as usize,
            ReadPhase::Finished => 0,
        }
    }

    /// Takes the next `want()` bytes of the stream.
    pub fn feed(&mut self, bytes: &[u8]) -> (r: ReadStep)
        requires
            old(self).wf(),
            !old(self).finished(),
            bytes@.len() == old(self).spec_want(),
        ensures
            final(self).wf(),
            final(self).fed() == old(self).fed() + bytes@,
            final(self).password() == old(self).password(),
            match r {
                ReadStep::Read(n) => {
                    &&& !final(self).finished()
                    &&& n > 0
                    &&& n == final(self).spec_want()
                    &&& decode_frame(final(self).fed(), final(self).password()) is None
                },
                ReadStep::Done(c) => {
                    &&& final(self).finished()
                    &&& decode_frame(final(self).fed(), final(self).password()) == Some(
                        (final(self).fed().len() as int, c@),
                    )
                },
            },
    {
        let ghost f = self.fed@ + bytes@;
        let ghost pw = self.password@;
        self.fed = Ghost(f);
        match self.phase {
            ReadPhase::Magic => {
                assert(f =~= bytes@);
                if bytes[0] == 0xba && bytes[1] == 0xbe {
                    self.phase = ReadPhase::Lengths;
                    ReadStep::Read(2)
                } else {
                    self.phase = ReadPhase::Finished;
                    ReadStep::Done(Command::invalid_data())
                }
            },
            ReadPhase::Lengths => {
                let len_password = bytes[0];
                let len_cmd = bytes[1];
                if self.password.len() != 0 && len_password == 0 {
                    assert(f.subrange(4, 4) =~= Seq::<u8>::empty());
                    self.phase = ReadPhase::Body { len_cmd, incorrect: true };
                    if len_cmd == 0 {
                        self.phase = ReadPhase::Finished;
                        let empty: Vec<u8> = Vec::new();
                        ReadStep::Done(decode_body(empty.as_slice(), true))
                    } else {
                        ReadStep::Read(len_cmd as usize)
                    }
                } else if self.password.len() != 0 {
                    self.phase = ReadPhase::Password { len_password, len_cmd };
                    ReadStep::Read(len_password as usize)
                } else {
                    assert(f.subrange(4, 4) =~= Seq::<u8>::empty());
                    self.phase = ReadPhase::Body { len_cmd, incorrect: false };
                    if len_cmd == 0 {
                        self.phase = ReadPhase::Finished;
                        assert(f.subrange(4, 4) =~= Seq::<u8>::empty());
                        let empty: Vec<u8> = Vec::new();
                        ReadStep::Done(decode_body(empty.as_slice(), false))
                    } else {
                        ReadStep::Read(len_cmd as usize)
                    }
                }
            },
            ReadPhase::Password { len_password, len_cmd } => {
                let incorrect = !bytes_equal(bytes, self.password.as_slice());
                assert(f.subrange(4, f.len() as int) =~= bytes@);
                self.phase = ReadPhase::Body { len_cmd, incorrect };
                if len_cmd == 0 {
                    self.phase = ReadPhase::Finished;
                    assert(f.subrange(f.len() as int, f.len() as int) =~= Seq::<u8>::empty());
                    assert(f.subrange(4, 4 + len_password) =~= bytes@);
                    let empty: Vec<u8> = Vec::new();
                    ReadStep::Done(decode_body(empty.as_slice(), incorrect))
                } else {
                    ReadStep::Read(len_cmd as usize)
                }
            },
            ReadPhase::Body { len_cmd, incorrect } => {
                let ghost off = old(self).fed@.len() as int;
                assert(f.subrange(off, off + len_cmd) =~= bytes@);
                assert(f.subrange(4, off) =~= old(self).fed@.subrange(4, off));
                self.phase = ReadPhase::Finished;
                ReadStep::Done(decode_body(bytes, incorrect))
            },
            ReadPhase::Finished => ReadStep::Read(0),
        }
    }
}

/// Once the start of a stream holds a whole frame, more bytes after it do not change
/// what it reads as.
pub proof fn lemma_decode_frame_prefix(s: Seq<u8>, t: Seq<u8>, password: Seq<u8>)
    requires
        s.len() <= t.len(),
        t.take(s.len() as int) == s,
        decode_frame(s, password) is Some,
    ensures
        decode_frame(t, password) == decode_frame(s, password),
{
    assert forall|i: int| 0 <= i < s.len() implies t[i] == #[trigger] s[i] by {
        assert(t.take(s.len() as int)[i] == t[i]);
    }
    if s.len() >= 4 && s[0] == 0xba && s[1] == 0xbe {
        let lp = s[2] as int;
        let lc = s[3] as int;
        let off = if password.len() != 0 {
            4 + lp
        } else {
            4
        };
        assert(t[2] == s[2] && t[3] == s[3]);
        if s.len() >= off + lc {
            assert(t.subrange(off, off + lc) =~= s.subrange(off, off + lc));
            if password.len() != 0 {
                assert(t.subrange(4, 4 + lp) =~= s.subrange(4, 4 + lp));
            }
        }
    } else if s.len() >= 2 {
        assert(t[0] == s[0] && t[1] == s[1]);
    }
}

/// Reads one frame from the start of `stream`:
/// the number of bytes the frame takes and its command, or `None` when `stream` ends
/// before the frame does.
pub fn decode_command(stream: &[u8], password: &str) -> (r: Option<(usize, Command)>)
    ensures
        match r {
            Some(p) => decode_frame(stream@, encode_utf8(password@)) == Some((p.0 as int, p.1@)),
            None => decode_frame(stream@, encode_utf8(password@)) is None,
        },
{
    let mut reader = CommandReader::new(password);
    let mut pos: usize = 0;
    let len = stream.len();
    let ghost pw = encode_utf8(password@);
    loop
        invariant
            reader.wf(),
            !reader.finished(),
            reader.password() == pw,
            pw == encode_utf8(password@),
            pos <= len,
            len == stream@.len(),
            reader.fed() == stream@.take(pos as int),
            reader.spec_want() > 0,
        decreases len - pos,
    {
        let n = reader.want();
        if len - pos < n {
            proof {
                reader.lemma_short_stream(stream@);
            }
            return None;
        }
        let chunk = vstd::slice::slice_subrange(stream, pos, pos + n);
        let ghost before = stream@.take(pos as int);
        match reader.feed(chunk) {
            ReadStep::Read(_) => {
                pos = pos + n;
                assert(before + chunk@ =~= stream@.take(pos as int));
            },
            ReadStep::Done(c) => {
                let end = pos + n;
                assert(before + chunk@ =~= stream@.take(end as int));
                proof {
                    lemma_decode_frame_prefix(stream@.take(end as int), stream@, pw);
                }
                return Some((end, c));
            },
        }
    }
}

/// A command that reads back as itself once written: its text fields hold no whitespace,
/// the fields that a reader needs are present, and a failure's reason is already in the
/// single-spaced form that reading produces. An error cannot be written at all.
pub open spec fn writable(c: CommandView) -> bool {
    match c {
        CommandView::Bind { .. } => true,
        CommandView::Accept { id, addr, .. } => id.len() > 0 && no_ws(id) && no_ws(addr),
        CommandView::P2pRequest { udp_addr, .. } => udp_addr.len() > 0 && no_ws(udp_addr),
        CommandView::AcceptP2P { addr, udp_addr } => no_ws(addr) && no_ws(udp_addr) && (
        addr.len() == 0 ==> udp_addr.len() == 0),
        CommandView::Nothing => true,
        CommandView::Success => true,
        CommandView::Failure { reason } => join_words(split_ws(reason)) == reason,
        CommandView::Error(_) => false,
    }
}

proof fn lemma_sp_split(a: Seq<char>, b: Seq<char>)
    ensures
        split_ws(sp(a) + b) == split_ws(a) + split_ws(b),
{
    assert(is_ws(' '));
    lemma_split_ws_concat(a, ' ', b);
}

proof fn lemma_keyword(w: Seq<char>)
    requires
        w.len() > 0,
        forall|i: int| 0 <= i < w.len() ==> 0x5f <= (#[trigger] w[i] as u32) <= 0x7a || 0x30 <= (
        w[i] as u32) <= 0x39,
    ensures
        split_ws(w) == seq![w],
{
    assert(no_ws(w));
    lemma_split_ws_word(w);
}

proof fn lemma_keywords()
    ensures
        split_ws(word_bind()) == seq![word_bind()],
        split_ws(word_accept()) == seq![word_accept()],
        split_ws(word_p2p_request()) == seq![word_p2p_request()],
        split_ws(word_accept_p2p()) == seq![word_accept_p2p()],
        split_ws(word_success()) == seq![word_success()],
        split_ws(word_failure()) == seq![word_failure()],
        word_bind() != word_p2p_request(),
        word_accept() != word_p2p_request(),
        word_accept_p2p() != word_p2p_request(),
        word_success() != word_p2p_request(),
        word_failure() != word_p2p_request(),
        word_accept() != word_bind(),
        word_accept_p2p() != word_bind(),
        word_accept_p2p() != word_accept(),
        word_success() != word_bind(),
        word_success() != word_accept(),
        word_success() != word_accept_p2p(),
        word_failure() != word_bind(),
        word_failure() != word_accept(),
        word_failure() != word_accept_p2p(),
        word_failure() != word_success(),
{
    lemma_keyword(word_bind());
    lemma_keyword(word_accept());
    lemma_keyword(word_p2p_request());
    lemma_keyword(word_accept_p2p());
    lemma_keyword(word_success());
    lemma_keyword(word_failure());
    assert(word_failure()[0] != word_success()[0]);
}

proof fn lemma_decimal_word(n: u16)
    ensures
        split_ws(decimal(n as nat)) == seq![decimal(n as nat)],
        parse_u16_spec(decimal(n as nat)) == Some(n),
{
    lemma_decimal_digits(n as nat);
    let d = decimal(n as nat);
    assert(no_ws(d)) by {
        assert forall|i: int| 0 <= i < d.len() implies !#[trigger] is_ws(d[i]) by {
            assert(crate::text::is_digit(d[i]));
        }
    }
    lemma_split_ws_word(d);
    lemma_parse_u16_decimal(n);
}

/// The words of a writable command's text.
proof fn lemma_body_words(c: CommandView)
    requires
        writable(c),
    ensures
        command_from_text(body_chars(c), false) == c,
{
    lemma_keywords();
    match c {
        CommandView::Bind { port } => {
            lemma_decimal_word(port);
            lemma_sp_split(word_bind(), decimal(port as nat));
            let w = split_ws(body_chars(c));
            assert(w =~= seq![word_bind(), decimal(port as nat)]);
            assert(command_from_text(body_chars(c), false) == c);
        },
        CommandView::Accept { port, id, addr } => {
            lemma_decimal_word(port);
            lemma_split_ws_word(id);
            lemma_split_ws_word(addr);
            let x1 = sp(word_accept()) + decimal(port as nat);
            let x2 = sp(x1) + id;
            lemma_sp_split(word_accept(), decimal(port as nat));
            lemma_sp_split(x1, id);
            lemma_sp_split(x2, addr);
            let w = split_ws(body_chars(c));
            if addr.len() == 0 {
                assert(addr =~= Seq::<char>::empty());
                assert(w =~= seq![word_accept(), decimal(port as nat), id]);
            } else {
                assert(w =~= seq![word_accept(), decimal(port as nat), id, addr]);
            }
            assert(command_from_text(body_chars(c), false) == c);
        },
        CommandView::P2pRequest { port, udp_addr } => {
            lemma_decimal_word(port);
            lemma_split_ws_word(udp_addr);
            let x1 = sp(word_p2p_request()) + decimal(port as nat);
            lemma_sp_split(word_p2p_request(), decimal(port as nat));
            lemma_sp_split(x1, udp_addr);
            let w = split_ws(body_chars(c));
            assert(w =~= seq![word_p2p_request(), decimal(port as nat), udp_addr]);
            assert(command_from_text(body_chars(c), false) == c);
        },
        CommandView::AcceptP2P { addr, udp_addr } => {
            lemma_split_ws_word(addr);
            lemma_split_ws_word(udp_addr);
            let x1 = sp(word_accept_p2p()) + addr;
            lemma_sp_split(word_accept_p2p(), addr);
            lemma_sp_split(x1, udp_addr);
            let w = split_ws(body_chars(c));
            if addr.len() == 0 {
                assert(addr =~= Seq::<char>::empty());
                assert(udp_addr =~= Seq::<char>::empty());
                assert(w =~= seq![word_accept_p2p()]);
            } else if udp_addr.len() == 0 {
                assert(udp_addr =~= Seq::<char>::empty());
                assert(w =~= seq![word_accept_p2p(), addr]);
            } else {
                assert(w =~= seq![word_accept_p2p(), addr, udp_addr]);
            }
            assert(command_from_text(body_chars(c), false) == c);
        },
        CommandView::Nothing => {
            assert(split_ws(body_chars(c)) =~= Seq::<Seq<char>>::empty());
            assert(command_from_text(body_chars(c), false) == c);
        },
        CommandView::Success => {
            assert(command_from_text(body_chars(c), false) == c);
        },
        CommandView::Failure { reason } => {
            lemma_sp_split(word_failure(), reason);
            let w = split_ws(body_chars(c));
            assert(w.skip(1) =~= split_ws(reason));
            assert(command_from_text(body_chars(c), false) == c);
        },
        CommandView::Error(_) => {},
    }
}

/// What is written is what is read: a frame that carries a writable command, read with
/// the password it was written with, reads back as that command and takes the whole frame.
/// Each length must fit in its one byte.
pub proof fn lemma_frame_roundtrip(c: CommandView, password: Seq<char>)
    requires
        writable(c),
        encode_utf8(password).len() <= 255,
        encode_utf8(body_chars(c)).len() <= 255,
    ensures
        decode_frame(frame(password, c), encode_utf8(password)) == Some(
            (frame(password, c).len() as int, c),
        ),
{
    let p = encode_utf8(password);
    let b = encode_utf8(body_chars(c));
    let s = frame(password, c);
    let lp = p.len() as int;
    let lc = b.len() as int;
    assert(s[2] as int == lp);
    assert(s[3] as int == lc);
    let off = if p.len() != 0 {
        4 + lp
    } else {
        4
    };
    assert(s.subrange(4, 4 + lp) =~= p);
    assert(s.subrange(off, off + lc) =~= b);
    encode_utf8_valid_utf8(body_chars(c));
    encode_utf8_decode_utf8(body_chars(c));
    lemma_body_words(c);
}

/// A wrong password refuses every command but a direct-connection request: a frame that
/// carries a writable command, read by a reader that expects other password bytes, reads
/// as `PermissionDenied`, unless the command is a `p2p_request`, which reads as itself.
pub proof fn lemma_wrong_password(c: CommandView, written: Seq<char>, expected: Seq<u8>)
    requires
        writable(c),
        encode_utf8(written).len() <= 255,
        encode_utf8(body_chars(c)).len() <= 255,
        expected.len() > 0,
        expected != encode_utf8(written),
    ensures
        decode_frame(frame(written, c), expected) == Some(
            (
                frame(written, c).len() as int,
                if c is P2pRequest {
                    c
                } else {
                    CommandView::Error(ErrorView::PermissionDenied)
                },
            ),
        ),
{
    let p = encode_utf8(written);
    let b = encode_utf8(body_chars(c));
    let s = frame(written, c);
    let lp = p.len() as int;
    let lc = b.len() as int;
    assert(s[2] as int == lp);
    assert(s[3] as int == lc);
    assert(s.subrange(4, 4 + lp) =~= p);
    assert(s.subrange(4 + lp, 4 + lp + lc) =~= b);
    encode_utf8_valid_utf8(body_chars(c));
    encode_utf8_decode_utf8(body_chars(c));
    lemma_body_words(c);
}

/// An error cannot be sent: a frame written for one carries no command text and reads
/// back as `Nothing`.
pub proof fn lemma_error_reads_as_nothing(e: ErrorView, password: Seq<char>)
    requires
        encode_utf8(password).len() <= 255,
    ensures
        decode_frame(frame(password, CommandView::Error(e)), encode_utf8(password)) == Some(
            (frame(password, CommandView::Error(e)).len() as int, CommandView::Nothing),
        ),
{
    let c = CommandView::Error(e);
    let p = encode_utf8(password);
    let s = frame(password, c);
    let lp = p.len() as int;
    assert(body_chars(c) =~= Seq::<char>::empty());
    assert(encode_utf8(body_chars(c)) =~= Seq::<u8>::empty());
    assert(s[2] as int == lp);
    assert(s[3] == 0);
    assert(s.subrange(4, 4 + lp) =~= p);
    let off = if p.len() != 0 {
        4 + lp
    } else {
        4
    };
    assert(s.subrange(off, off) =~= encode_utf8(Seq::<char>::empty()));
    encode_utf8_valid_utf8(Seq::<char>::empty());
    encode_utf8_decode_utf8(Seq::<char>::empty());
    assert(split_ws(Seq::<char>::empty()) =~= Seq::<Seq<char>>::empty());
}

/// The text of each command, spelled out: its keyword, then its fields in order, each
/// after one space, the port in decimal; `success` alone; nothing for the others.
pub proof fn lemma_command_texts(
    port: u16,
    id: Seq<char>,
    addr: Seq<char>,
    udp_addr: Seq<char>,
    reason: Seq<char>,
    e: ErrorView,
)
    ensures
        body_chars(CommandView::Bind { port }) == seq!['b', 'i', 'n', 'd', ' '] + decimal(
            port as nat,
        ),
        body_chars(CommandView::Accept { port, id, addr }) == seq![
            'a',
            'c',
            'c',
            'e',
            'p',
            't',
            ' ',
        ] + decimal(port as nat) + seq![' '] + id + seq![' '] + addr,
        body_chars(CommandView::P2pRequest { port, udp_addr }) == seq![
            'p',
            '2',
            'p',
            '_',
            'r',
            'e',
            'q',
            'u',
            'e',
            's',
            't',
            ' ',
        ] + decimal(port as nat) + seq![' '] + udp_addr,
        body_chars(CommandView::AcceptP2P { addr, udp_addr }) == seq![
            'a',
            'c',
            'c',
            'e',
            'p',
            't',
            '_',
            'p',
            '2',
            'p',
            ' ',
        ] + addr + seq![' '] + udp_addr,
        body_chars(CommandView::Success) == seq!['s', 'u', 'c', 'c', 'e', 's', 's'],
        body_chars(CommandView::Failure { reason }) == seq![
            'f',
            'a',
            'i',
            'l',
            'u',
            'r',
            'e',
            ' ',
        ] + reason,
        body_chars(CommandView::Nothing) == Seq::<char>::empty(),
        body_chars(CommandView::Error(e)) == Seq::<char>::empty(),
{
    assert(body_chars(CommandView::Bind { port }) =~= seq!['b', 'i', 'n', 'd', ' '] + decimal(
        port as nat,
    ));
    assert(body_chars(CommandView::Accept { port, id, addr }) =~= seq![
        'a',
        'c',
        'c',
        'e',
        'p',
        't',
        ' ',
    ] + decimal(port as nat) + seq![' '] + id + seq![' '] + addr);
    assert(body_chars(CommandView::P2pRequest { port, udp_addr }) =~= seq![
        'p',
        '2',
        'p',
        '_',
        'r',
        'e',
        'q',
        'u',
        'e',
        's',
        't',
        ' ',
    ] + decimal(port as nat) + seq![' '] + udp_addr);
    assert(body_chars(CommandView::AcceptP2P { addr, udp_addr }) =~= seq![
        'a',
        'c',
        'c',
        'e',
        'p',
        't',
        '_',
        'p',
        '2',
        'p',
        ' ',
    ] + addr + seq![' '] + udp_addr);
    assert(body_chars(CommandView::Failure { reason }) =~= seq![
        'f',
        'a',
        'i',
        'l',
        'u',
        'r',
        'e',
        ' ',
    ] + reason);
}

/// How the text of a command reads, spelled out: `p2p_request {port} {udp_addr}` is a
/// direct-connection request for that port and address, with the right password or not;
/// `bind {port}` and `accept {port} {id} {addr}` read as themselves with the right
/// password and are refused with a wrong one.
pub proof fn lemma_read_texts(port: u16, id: Seq<char>, addr: Seq<char>, incorrect: bool)
    ensures
        addr.len() > 0 && no_ws(addr) ==> command_from_text(
            seq!['p', '2', 'p', '_', 'r', 'e', 'q', 'u', 'e', 's', 't', ' '] + decimal(port as nat)
                + seq![' '] + addr,
            incorrect,
        ) == (CommandView::P2pRequest { port, udp_addr: addr }),
        command_from_text(seq!['b', 'i', 'n', 'd', ' '] + decimal(port as nat), incorrect) == (
        if incorrect {
            CommandView::Error(ErrorView::PermissionDenied)
        } else {
            CommandView::Bind { port }
        }),
        id.len() > 0 && no_ws(id) && no_ws(addr) ==> command_from_text(
            seq!['a', 'c', 'c', 'e', 'p', 't', ' '] + decimal(port as nat) + seq![' '] + id
                + seq![' '] + addr,
            incorrect,
        ) == (if incorrect {
            CommandView::Error(ErrorView::PermissionDenied)
        } else {
            CommandView::Accept { port, id, addr }
        }),
{
    lemma_command_texts(port, id, addr, addr, seq![], ErrorView::InvalidData);
    lemma_keywords();
    lemma_decimal_word(port);
    if addr.len() > 0 && no_ws(addr) {
        let c = CommandView::P2pRequest { port, udp_addr: addr };
        lemma_body_words(c);
        lemma_split_ws_word(addr);
        lemma_sp_split(word_p2p_request(), decimal(port as nat));
        lemma_sp_split(sp(word_p2p_request()) + decimal(port as nat), addr);
        assert(split_ws(body_chars(c))[0] == word_p2p_request());
    }
    let b = CommandView::Bind { port };
    lemma_body_words(b);
    lemma_sp_split(word_bind(), decimal(port as nat));
    assert(split_ws(body_chars(b)) =~= seq![word_bind(), decimal(port as nat)]);
    if id.len() > 0 && no_ws(id) && no_ws(addr) {
        let c = CommandView::Accept { port, id, addr };
        lemma_body_words(c);
        lemma_split_ws_word(id);
        lemma_split_ws_word(addr);
        let x1 = sp(word_accept()) + decimal(port as nat);
        lemma_sp_split(word_accept(), decimal(port as nat));
        lemma_sp_split(x1, id);
        lemma_sp_split(sp(x1) + id, addr);
        assert(split_ws(body_chars(c))[0] == word_accept());
    }
}

} // verus!
