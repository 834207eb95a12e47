//! Decisions of the direct (peer-to-peer) connection: what kind of NAT a host is behind,
//! which side of a pair listens, and which UDP ports to try.

use vstd::prelude::*;

use crate::text::{
    decimal, i32_text, lemma_parse_i32_decimal, lemma_parse_u16_decimal, parse_i32, parse_i32_spec, parse_u16,
    parse_u16_spec, push_decimal, signed_decimal, str_chars, string_from_chars, host_port_text,
};

verus! {

/// How a host can be reached from outside, as two STUN probes tell it.
#[derive(Clone, Copy, Debug, PartialEq, Eq, Structural)]
pub enum NatType {
    /// Both probes saw the same public address: the host can act as a QUIC server.
    Server,
    /// The public port moves by a small step between connections: listen by guessing it.
    Nat4Increment(i32),
    /// The public port cannot be predicted: the host cannot listen.
    Nat4Random,
}

pub open spec fn text_server() -> Seq<char> {
    seq!['S', 'e', 'r', 'v', 'e', 'r']
}

pub open spec fn text_nat4_random() -> Seq<char> {
    seq!['N', 'a', 't', '4', 'R', 'a', 'n', 'd', 'o', 'm']
}

pub open spec fn text_nat4_increment() -> Seq<char> {
    seq!['N', 'a', 't', '4', 'I', 'n', 'c', 'r', 'e', 'm', 'e', 'n', 't', ':']
}

/// The text of a NAT type: `Server`, `Nat4Increment:{increment}` or `Nat4Random`.
pub open spec fn nat_type_text(n: NatType) -> Seq<char> {
    match n {
        NatType::Server => text_server(),
        NatType::Nat4Increment(i) => text_nat4_increment() + signed_decimal(i as int),
        NatType::Nat4Random => text_nat4_random(),
    }
}

/// What follows the first `:` of `s`, or nothing when there is none (what
/// `s.split_once(":").unwrap_or_default().1` gives).
pub open spec fn after_first_colon(s: Seq<char>) -> Seq<char>
    decreases s.len(),
{
    if s.len() == 0 {
        seq![]
    } else if s[0] == ':' {
        s.drop_first()
    } else {
        after_first_colon(s.drop_first())
    }
}

/// What comes before the first `:` of `s`, or all of `s` when there is none.
pub open spec fn before_first_colon(s: Seq<char>) -> Seq<char>
    decreases s.len(),
{
    if s.len() == 0 {
        seq![]
    } else if s[0] == ':' {
        seq![]
    } else {
        seq![s[0]] + before_first_colon(s.drop_first())
    }
}

/// Whether `s` holds a `:`.
pub open spec fn has_colon(s: Seq<char>) -> bool {
    exists|i: int| 0 <= i < s.len() && s[i] == ':'
}

/// The NAT type a text names: `Server`, `Nat4Random`, and otherwise an increment read
/// from after the first `:`, 0 when that is not a number.
pub open spec fn nat_type_from_text(s: Seq<char>) -> NatType {
    if s == text_server() {
        NatType::Server
    } else if s == text_nat4_random() {
        NatType::Nat4Random
    } else {
        match parse_i32_spec(after_first_colon(s)) {
            Some(i) => NatType::Nat4Increment(i),
            None => NatType::Nat4Increment(0),
        }
    }
}

/// The position of the first `:` in `s[from..]`, or `s.len()` when there is none.
fn find_colon(s: &[char], from: usize) -> (r: usize)
    requires
        from <= s@.len(),
    ensures
        from <= r <= s@.len(),
        r < s@.len() ==> s@[r as int] == ':',
        forall|k: int| from <= k < r ==> s@[k] != ':',
{
    let mut i = from;
    while i < s.len()
        invariant
            from <= i <= s@.len(),
            forall|k: int| from <= k < i ==> s@[k] != ':',
        decreases s@.len() - i,
    {
        if s[i] == ':' {
            return i;
        }
        i = i + 1;
    }
    i
}

proof fn lemma_colon_split(s: Seq<char>, i: int)
    requires
        0 <= i <= s.len(),
        i < s.len() ==> s[i] == ':',
        forall|k: int| 0 <= k < i ==> s[k] != ':',
    ensures
        before_first_colon(s) == s.take(i),
        after_first_colon(s) == if i < s.len() {
            s.skip(i + 1)
        } else {
            Seq::<char>::empty()
        },
        has_colon(s) <==> i < s.len(),
    decreases s.len(),
{
    if s.len() == 0 {
        assert(s.take(i) =~= Seq::<char>::empty());
    } else if i == 0 {
        assert(s.take(0) =~= Seq::<char>::empty());
        assert(s.skip(1) =~= s.drop_first());
    } else {
        let t = s.drop_first();
        lemma_colon_split(t, i - 1);
        assert(seq![s[0]] + t.take(i - 1) =~= s.take(i));
        if i < s.len() {
            assert(t.skip(i) =~= s.skip(i + 1));
        } else {
            assert(!has_colon(s)) by {
                assert forall|k: int| 0 <= k < s.len() implies s[k] != ':' by {}
            }
        }
    }
    if i < s.len() {
        assert(s[i] == ':');
    }
}

impl NatType {
    /// The text of this NAT type, as its `Display` prints it.
    pub fn to_string(&self) -> (r: String)
        ensures
            r@ == nat_type_text(*self),
    {
        let mut out: Vec<char> = Vec::new();
        match self {
            NatType::Server => {
                out.push('S');
                out.push('e');
                out.push('r');
                out.push('v');
                out.push('e');
                out.push('r');
            },
            NatType::Nat4Increment(i) => {
                let head = ['N', 'a', 't', '4', 'I', 'n', 'c', 'r', 'e', 'm', 'e', 'n', 't', ':'];
                let mut k: usize = 0;
                while k < 14
                    invariant
                        k <= 14,
                        head@ == text_nat4_increment(),
                        out@ == head@.take(k as int),
                    decreases 14 - k,
                {
                    out.push(head[k]);
                    k = k + 1;
                    assert(out@ =~= head@.take(k as int));
                }
                let digits = i32_text(*i);
                let mut j: usize = 0;
                while j < digits.len()
                    invariant
                        j <= digits@.len(),
                        out@ == text_nat4_increment() + digits@.take(j as int),
                    decreases digits@.len() - j,
                {
                    out.push(digits[j]);
                    j = j + 1;
                    assert(out@ =~= text_nat4_increment() + digits@.take(j as int));
                }
                assert(digits@.take(digits@.len() as int) =~= digits@);
            },
            NatType::Nat4Random => {
                out.push('N');
                out.push('a');
                out.push('t');
                out.push('4');
                out.push('R');
                out.push('a');
                out.push('n');
                out.push('d');
                out.push('o');
                out.push('m');
            },
        }
        assert(out@ =~= nat_type_text(*self));
        string_from_chars(out.as_slice())
    }

    /// Reads a NAT type from its text.
    fn from_text(value: &str) -> (r: NatType)
        ensures
            r == nat_type_from_text(value@),
    {
        let s = str_chars(value);
        if s.len() == 6 && s[0] == 'S' && s[1] == 'e' && s[2] == 'r' && s[3] == 'v' && s[4] == 'e'
            && s[5] == 'r' {
            assert(s@ =~= text_server());
            return NatType::Server;
        }
        assert(s@ != text_server()) by {
            if s@ == text_server() {
                assert(s@[0] == 'S' && s@[1] == 'e' && s@[2] == 'r' && s@[3] == 'v');
                assert(s@[4] == 'e' && s@[5] == 'r');
            }
        }
        if s.len() == 10 && s[0] == 'N' && s[1] == 'a' && s[2] == 't' && s[3] == '4' && s[4] == 'R'
            && s[5] == 'a' && s[6] == 'n' && s[7] == 'd' && s[8] == 'o' && s[9] == 'm' {
            assert(s@ =~= text_nat4_random());
            return NatType::Nat4Random;
        }
        assert(s@ != text_nat4_random()) by {
            if s@ == text_nat4_random() {
                assert(s@[0] == 'N' && s@[1] == 'a' && s@[2] == 't' && s@[3] == '4');
                assert(s@[4] == 'R' && s@[5] == 'a' && s@[6] == 'n' && s@[7] == 'd');
                assert(s@[8] == 'o' && s@[9] == 'm');
            }
        }
        let c = find_colon(s.as_slice(), 0);
        proof {
            lemma_colon_split(s@, c as int);
        }
        let increment = if c < s.len() {
            let tail = vstd::slice::slice_subrange(s.as_slice(), c + 1, s.len());
            assert(tail@ =~= s@.skip(c + 1));
            parse_i32(tail)
        } else {
            let empty: Vec<char> = Vec::new();
            assert(empty@ =~= after_first_colon(s@));
            parse_i32(empty.as_slice())
        };
        match increment {
            Some(i) => NatType::Nat4Increment(i),
            None => NatType::Nat4Increment(0),
        }
    }
}

impl<'a> From<&'a str> for NatType {
    /// Reads a NAT type from its text: see [`nat_type_from_text`].
    fn from(value: &'a str) -> (r: NatType) {
        NatType::from_text(value)
    }
}

impl<'a> vstd::std_specs::convert::FromSpecImpl<&'a str> for NatType {
    open spec fn obeys_from_spec() -> bool {
        true
    }

    open spec fn from_spec(v: &'a str) -> NatType {
        nat_type_from_text(v@)
    }
}

/// A NAT type read back from its own text is the same NAT type.
pub proof fn lemma_nat_type_text_roundtrip(n: NatType)
    ensures
        nat_type_from_text(nat_type_text(n)) == n,
{
    match n {
        NatType::Server => {},
        NatType::Nat4Random => {
            assert(text_nat4_random() != text_server());
        },
        NatType::Nat4Increment(i) => {
            let t = nat_type_text(n);
            assert(t.len() != text_server().len() || t[0] != text_server()[0]);
            assert(t[4] != text_nat4_random()[4]);
            assert(t != text_nat4_random());
            assert(t != text_server());
            lemma_colon_split(t, 13);
            assert(t.skip(14) =~= signed_decimal(i as int));
            lemma_parse_i32_decimal(i);
        },
    }
}

/// The NAT type that two STUN probes reveal, given whether both saw the same public IP
/// and the public ports they saw: the same address means a reachable server, a small
/// forward or backward step means a guessable port, anything else an unpredictable one.
pub open spec fn nat_type_of(same_ip: bool, first_port: u16, second_port: u16) -> NatType {
    let increment = second_port as int - first_port as int;
    if same_ip && increment == 0 {
        NatType::Server
    } else if same_ip && increment < 10 {
        NatType::Nat4Increment(increment as i32)
    } else {
        NatType::Nat4Random
    }
}

/// Classifies the NAT from two STUN answers: whether both saw the same public IP, and
/// the public ports they saw.
pub fn classify_nat(same_ip: bool, first_port: u16, second_port: u16) -> (r: NatType)
    ensures
        r == nat_type_of(same_ip, first_port, second_port),
{
    let increment = second_port as i32 - first_port as i32;
    if same_ip && increment == 0 {
        NatType::Server
    } else if same_ip && increment < 10 {
        NatType::Nat4Increment(increment)
    } else {
        NatType::Nat4Random
    }
}

/// The address of the second STUN service, which listens one port above the first:
/// `None` when the address has no `:`, no port number after it, or no port above it.
pub open spec fn second_stun_address_spec(addr: Seq<char>) -> Option<Seq<char>> {
    if has_colon(addr) {
        match parse_u16_spec(after_first_colon(addr)) {
            Some(p) => if p < 65535 {
                Some(host_port_text(before_first_colon(addr), (p + 1) as u16))
            } else {
                None
            },
            None => None,
        }
    } else {
        None
    }
}

/// The address of the second STUN service for the first one at `server_addr`.
pub fn second_stun_address(server_addr: &str) -> (r: Option<String>)
    ensures
        r matches Some(a) ==> second_stun_address_spec(server_addr@) == Some(a@),
        r is None ==> second_stun_address_spec(server_addr@) is None,
{
    let s = str_chars(server_addr);
    let c = find_colon(s.as_slice(), 0);
    proof {
        lemma_colon_split(s@, c as int);
    }
    if c >= s.len() {
        return None;
    }
    let tail = vstd::slice::slice_subrange(s.as_slice(), c + 1, s.len());
    assert(tail@ =~= s@.skip(c + 1));
    match parse_u16(tail) {
        Some(p) => {
            if p < 65535 {
                let mut out = vstd::slice::slice_to_vec(vstd::slice::slice_subrange(s.as_slice(), 0, c));
                assert(out@ =~= s@.take(c as int));
                out.push(':');
                push_decimal(&mut out, (p + 1) as u32);
                Some(string_from_chars(out.as_slice()))
            } else {
                None
            }
        },
        None => None,
    }
}

/// Whether this side should listen as the QUIC server of a direct connection: when
/// only it can, or when both can and the tie-break says so, or when it can guess its
/// port and the peer cannot listen at all, or when both must guess and the tie-break
/// says so.
pub open spec fn should_be_server(my: NatType, peer: NatType, be_server_if_both_can: bool) -> bool {
    ||| my == NatType::Server && peer != NatType::Server
    ||| my == NatType::Server && peer == NatType::Server && be_server_if_both_can
    ||| my is Nat4Increment && peer == NatType::Nat4Random
    ||| my is Nat4Increment && peer is Nat4Increment && be_server_if_both_can
}

/// The part this side plays in a direct connection.
#[derive(Clone, Copy, Debug, PartialEq, Eq, Structural)]
pub enum BridgeRole {
    /// Neither side can listen: the connection is given up.
    GiveUp,
    /// Punch holes towards the peer and listen.
    Listen,
    /// Connect to the peer.
    Connect,
}

pub open spec fn bridge_role_spec(my: NatType, peer: NatType, be_server_if_both_can: bool) -> BridgeRole {
    if peer == NatType::Nat4Random && my == NatType::Nat4Random {
        BridgeRole::GiveUp
    } else if should_be_server(my, peer, be_server_if_both_can) {
        BridgeRole::Listen
    } else {
        BridgeRole::Connect
    }
}

/// Decides the part this side plays in a direct connection: give up, listen or connect.
pub fn bridge_role(my: NatType, peer: NatType, be_server_if_both_can: bool) -> (r: BridgeRole)
    ensures
        r == bridge_role_spec(my, peer, be_server_if_both_can),
{
    if peer == NatType::Nat4Random && my == NatType::Nat4Random {
        return BridgeRole::GiveUp;
    }
    let my_guess = match my {
        NatType::Nat4Increment(_) => true,
        _ => false,
    };
    let peer_guess = match peer {
        NatType::Nat4Increment(_) => true,
        _ => false,
    };
    let listen = (my == NatType::Server && peer != NatType::Server) || (my == NatType::Server
        && peer == NatType::Server && be_server_if_both_can) || (my_guess && peer
        == NatType::Nat4Random) || (my_guess && peer_guess && be_server_if_both_can);
    if listen {
        BridgeRole::Listen
    } else {
        BridgeRole::Connect
    }
}

/// When two peers run the election with opposite tie-breaks, exactly one of them listens,
/// unless neither can listen at all.
pub proof fn lemma_exactly_one_listens(a: NatType, b: NatType, tie_break: bool)
    requires
        !(a == NatType::Nat4Random && b == NatType::Nat4Random),
    ensures
        should_be_server(a, b, tie_break) != should_be_server(b, a, !tie_break),
        bridge_role_spec(a, b, tie_break) != BridgeRole::GiveUp,
        (bridge_role_spec(a, b, tie_break) == BridgeRole::Listen) != (bridge_role_spec(
            b,
            a,
            !tie_break,
        ) == BridgeRole::Listen),
{
}

/// The election, side by side: a side whose NAT is reachable listens against any peer
/// that is not, whatever the tie-break, and a peer that must guess its port then
/// connects; a side that can guess its port listens against one whose port is
/// unpredictable, which connects; two unpredictable sides give up; and between two
/// sides of the same kind the tie-break alone decides.
pub proof fn lemma_election_table(peer: NatType, step: i32, tie_break: bool)
    ensures
        peer != NatType::Server ==> bridge_role_spec(NatType::Server, peer, tie_break)
            == BridgeRole::Listen,
        peer != NatType::Server ==> bridge_role_spec(peer, NatType::Server, tie_break)
            != BridgeRole::Listen,
        bridge_role_spec(NatType::Nat4Increment(step), NatType::Server, tie_break)
            == BridgeRole::Connect,
        bridge_role_spec(NatType::Nat4Increment(step), NatType::Nat4Random, tie_break)
            == BridgeRole::Listen,
        bridge_role_spec(NatType::Nat4Random, NatType::Nat4Increment(step), tie_break)
            == BridgeRole::Connect,
        peer != NatType::Nat4Random ==> bridge_role_spec(NatType::Nat4Random, peer, tie_break)
            == BridgeRole::Connect,
        bridge_role_spec(NatType::Nat4Random, NatType::Nat4Random, tie_break)
            == BridgeRole::GiveUp,
        bridge_role_spec(NatType::Server, NatType::Server, tie_break) == (if tie_break {
            BridgeRole::Listen
        } else {
            BridgeRole::Connect
        }),
        peer is Nat4Increment ==> bridge_role_spec(NatType::Nat4Increment(step), peer, tie_break)
            == (if tie_break {
            BridgeRole::Listen
        } else {
            BridgeRole::Connect
        }),
{
}

/// What two STUN answers reveal: answers from different public IPs always mean an
/// unpredictable NAT; from the same IP, the same port means a reachable one, a step
/// below ten a guessable one that moves by exactly that step, and a larger step an
/// unpredictable one.
pub proof fn lemma_classification(same_ip: bool, first_port: u16, second_port: u16)
    ensures
        !same_ip ==> nat_type_of(same_ip, first_port, second_port) == NatType::Nat4Random,
        (nat_type_of(same_ip, first_port, second_port) == NatType::Server) == (same_ip
            && first_port == second_port),
        nat_type_of(same_ip, first_port, second_port) matches NatType::Nat4Increment(step) ==> {
            &&& same_ip
            &&& step as int == second_port as int - first_port as int
            &&& step != 0
            &&& step < 10
        },
        same_ip && first_port != second_port && (second_port as int - first_port as int) < 10
            ==> nat_type_of(same_ip, first_port, second_port) == NatType::Nat4Increment(
            (second_port as int - first_port as int) as i32,
        ),
        same_ip && (second_port as int - first_port as int) >= 10 ==> nat_type_of(
            same_ip,
            first_port,
            second_port,
        ) == NatType::Nat4Random,
{
}

/// `port` moved by `increment`, wrapping around the 16-bit range.
pub open spec fn moved_port(port: u16, increment: int) -> u16 {
    (port as int + increment) as u16
}

/// Moves a port by `increment`, wrapping around the 16-bit range. The sum is computed
/// as an `i32` and must fit in one.
pub fn increment_port(port: u16, increment: i32) -> (r: u16)
    requires
        port as int + increment <= i32::MAX,
    ensures
        r == moved_port(port, increment as int),
{
    (port as i32 + increment) as u16
}

/// Whether the ports to try towards a peer can be computed without overflow: the
/// guesses go four steps from the peer's port.
pub open spec fn peer_ports_fit(port: u16, peer: NatType) -> bool {
    match peer {
        NatType::Nat4Increment(inc) => i32::MIN <= 4 * inc && port as int + 4 * inc <= i32::MAX,
        _ => true,
    }
}

/// The UDP ports to punch towards or connect to: five guesses a step apart for a peer
/// whose port moves, and the peer's own port otherwise.
pub open spec fn peer_ports_spec(port: u16, peer: NatType) -> Seq<u16> {
    match peer {
        NatType::Nat4Increment(inc) => Seq::new(5, |i: int| moved_port(port, i * inc)),
        _ => seq![port],
    }
}

/// The UDP ports to try towards a peer whose address has port `port`.
pub fn peer_ports(port: u16, peer: NatType) -> (r: Vec<u16>)
    requires
        peer_ports_fit(port, peer),
    ensures
        r@ == peer_ports_spec(port, peer),
{
    let mut out: Vec<u16> = Vec::new();
    match peer {
        NatType::Nat4Increment(inc) => {
            let mut i: i32 = 0;
            while i < 5
                invariant
                    0 <= i <= 5,
                    i32::MIN <= 4 * inc,
                    port as int + 4 * inc <= i32::MAX,
                    out@ == Seq::new(i as nat, |k: int| moved_port(port, k * inc)),
                decreases 5 - i,
            {
                assert(i32::MIN <= i * inc <= i32::MAX && port as int + i * inc <= i32::MAX)
                    by (nonlinear_arith)
                    requires
                        0 <= i <= 4,
                        i32::MIN <= 4 * inc,
                        port as int + 4 * inc <= i32::MAX,
                        port >= 0,
                ;
                let step = i * inc;
                let p = increment_port(port, step);
                out.push(p);
                i = i + 1;
                assert(out@ =~= Seq::new(i as nat, |k: int| moved_port(port, k * inc)));
            }
        },
        _ => {
            out.push(port);
        },
    }
    assert(out@ =~= peer_ports_spec(port, peer));
    out
}

/// The second STUN service listens one port above the first: for an address `host:port`
/// whose host holds no `:`, the second address is `host:{port + 1}`, and there is none
/// when the port is the highest.
pub proof fn lemma_second_stun_one_port_up(host: Seq<char>, port: u16)
    requires
        forall|k: int| 0 <= k < host.len() ==> host[k] != ':',
    ensures
        port < 65535 ==> second_stun_address_spec(host + seq![':'] + decimal(port as nat)) == Some(
            host + seq![':'] + decimal(port as nat + 1),
        ),
        port == 65535 ==> second_stun_address_spec(host + seq![':'] + decimal(port as nat))
            is None,
{
    let s = host + seq![':'] + decimal(port as nat);
    lemma_colon_split(s, host.len() as int);
    assert(s.take(host.len() as int) =~= host);
    assert(s.skip(host.len() as int + 1) =~= decimal(port as nat));
    lemma_parse_u16_decimal(port);
    assert(host.push(':') =~= host + seq![':']);
}

/// The ports tried towards a peer whose port moves by `step`: five, the first the peer's
/// own port, the `k`-th `k` steps further on (within the 16-bit range); towards any
/// other peer, the peer's port alone.
pub proof fn lemma_peer_ports_steps(port: u16, step: i32, peer: NatType)
    ensures
        peer_ports_spec(port, NatType::Nat4Increment(step)).len() == 5,
        peer_ports_spec(port, NatType::Nat4Increment(step))[0] == port,
        forall|k: int|
            0 <= k < 5 && 0 <= port as int + k * step <= 65535 ==> #[trigger] peer_ports_spec(
                port,
                NatType::Nat4Increment(step),
            )[k] as int == port as int + k * step,
        !(peer is Nat4Increment) ==> peer_ports_spec(port, peer) == seq![port],
{
}

} // verus!
