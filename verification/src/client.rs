//! One registered node and how it is built from a discovery reply: the
//! name fields are cut at their null terminator and must be text, the
//! reported address is kept both as octets and in dotted-decimal form, and
//! a fresh node starts on a dim green static color.
use vstd::prelude::*;

verus! {

use vstd::utf8::{valid_utf8, decode_utf8};
use crate::codec::PollReply;
use crate::messages::{CommandError, Node};

/// The default color a freshly discovered node shows: dim green.
pub const DEFAULT_RED: u8 = 0;

/// Green channel of the default color.
pub const DEFAULT_GREEN: u8 = 100;

/// Blue channel of the default color.
pub const DEFAULT_BLUE: u8 = 0;

/// A network endpoint: the registry's key for a node.
#[derive(Debug, Clone, Copy, PartialEq, Eq)]
pub struct Address {
    pub ip: [u8; 4],
    pub port: u16,
}

impl Address {
    /// Whether two endpoints are the same.
    pub fn same(&self, other: &Address) -> (r: bool)
        ensures
            r == (*self == *other),
    {
        let r = self.ip[0] == other.ip[0] && self.ip[1] == other.ip[1] && self.ip[2]
            == other.ip[2] && self.ip[3] == other.ip[3] && self.port == other.port;
        proof {
            if r {
                assert(self.ip =~= other.ip);
            }
        }
        r
    }
}

/// What a node is showing: a static color or a stored animation, by name.
#[derive(Debug, Clone)]
pub enum RenderMode {
    Color(u8, u8, u8),
    Animation(String),
}

/// Mathematical image of a render mode.
pub ghost enum RenderModeV {
    Color(u8, u8, u8),
    Animation(Seq<char>),
}

impl View for RenderMode {
    type V = RenderModeV;

    open spec fn view(&self) -> RenderModeV {
        match self {
            RenderMode::Color(r, g, b) => RenderModeV::Color(*r, *g, *b),
            RenderMode::Animation(name) => RenderModeV::Animation(name@),
        }
    }
}

impl RenderMode {
    /// A copy with the same meaning.
    pub fn duplicate(&self) -> (r: RenderMode)
        ensures
            r@ == self@,
    {
        match self {
            RenderMode::Color(r, g, b) => RenderMode::Color(*r, *g, *b),
            RenderMode::Animation(name) => RenderMode::Animation(name.clone()),
        }
    }
}

/// One physical fixture known to the registry.
#[derive(Debug)]
pub struct Client {
    /// The endpoint the node's datagrams come from; the registry's key.
    pub socket_address: Address,
    /// The address octets the node reported about itself.
    pub addr: [u8; 4],
    /// `addr` in dotted-decimal form; what the control surface names.
    pub addr_string: String,
    /// Monotonic milliseconds when the last reply arrived.
    pub last_reply_received: u64,
    pub short_name: String,
    pub long_name: String,
    /// What the node is showing.
    pub current: RenderMode,
    /// Virtual milliseconds accumulated since the last frame advance.
    pub millis_since_last_frame: u64,
    /// Index into the active animation's frame sequence.
    pub current_animation_frame: usize,
}

/// Index of the first zero byte, or the length when there is none: where a
/// null-terminated name field ends.
pub open spec fn first_nul(s: Seq<u8>) -> int
    decreases s.len(),
{
    if s.len() == 0 {
        0
    } else if s[0] == 0 {
        0
    } else {
        1 + first_nul(s.drop_first())
    }
}

/// The name bytes before the null terminator.
pub open spec fn nul_prefix(s: Seq<u8>) -> Seq<u8> {
    s.take(first_nul(s))
}

pub proof fn lemma_first_nul_bounds(s: Seq<u8>)
    ensures
        0 <= first_nul(s) <= s.len(),
    decreases s.len(),
{
    if s.len() > 0 && s[0] != 0 {
        lemma_first_nul_bounds(s.drop_first());
    }
}

/// Relies on `String::from_utf8`: it succeeds exactly on valid UTF-8 and
/// returns the text those bytes spell.
#[verifier::external_body]
pub(crate) fn string_from_bytes(v: Vec<u8>) -> (r: Option<String>)
    ensures
        r is Some <==> valid_utf8(v@),
        r matches Some(s) ==> s@ == decode_utf8(v@),
{
    match String::from_utf8(v) {
        Ok(s) => Some(s),
        Err(_) => None,
    }
}

/// Relies on `String::push`: it appends one character.
#[verifier::external_body]
fn push_char(s: &mut String, c: char)
    ensures
        final(s)@ == old(s)@.push(c),
{
    s.push(c);
}

/// The character for one decimal digit.
pub open spec fn spec_digit_char(d: u8) -> char {
    if d == 0 {
        '0'
    } else if d == 1 {
        '1'
    } else if d == 2 {
        '2'
    } else if d == 3 {
        '3'
    } else if d == 4 {
        '4'
    } else if d == 5 {
        '5'
    } else if d == 6 {
        '6'
    } else if d == 7 {
        '7'
    } else if d == 8 {
        '8'
    } else {
        '9'
    }
}

/// Decimal spelling of a byte, without leading zeros.
pub open spec fn spec_decimal(n: u8) -> Seq<char> {
    if n >= 100 {
        seq![
            spec_digit_char((n / 100) as u8),
            spec_digit_char(((n / 10) % 10) as u8),
            spec_digit_char((n % 10) as u8),
        ]
    } else if n >= 10 {
        seq![spec_digit_char((n / 10) as u8), spec_digit_char((n % 10) as u8)]
    } else {
        seq![spec_digit_char(n)]
    }
}

/// Dotted-decimal spelling of four address octets.
pub open spec fn spec_dotted(a: Seq<u8>) -> Seq<char>
    recommends
        a.len() == 4,
{
    spec_decimal(a[0]) + seq!['.'] + spec_decimal(a[1]) + seq!['.'] + spec_decimal(a[2])
        + seq!['.'] + spec_decimal(a[3])
}

fn digit_char(d: u8) -> (c: char)
    requires
        d <= 9,
    ensures
        c == spec_digit_char(d),
{
    match d {
        0 => '0',
        1 => '1',
        2 => '2',
        3 => '3',
        4 => '4',
        5 => '5',
        6 => '6',
        7 => '7',
        8 => '8',
        _ => '9',
    }
}

fn push_decimal(s: &mut String, n: u8)
    ensures
        final(s)@ == old(s)@ + spec_decimal(n),
{
    if n >= 100 {
        push_char(s, digit_char(n / 100));
        push_char(s, digit_char((n / 10) % 10));
        push_char(s, digit_char(n % 10));
    } else if n >= 10 {
        push_char(s, digit_char(n / 10));
        push_char(s, digit_char(n % 10));
    } else {
        push_char(s, digit_char(n));
    }
    assert(final(s)@ =~= old(s)@ + spec_decimal(n));
}

/// The dotted-decimal form of four address octets.
pub fn dotted_string(a: &[u8; 4]) -> (r: String)
    ensures
        r@ == spec_dotted(a@),
{
    let mut s = String::new();
    push_decimal(&mut s, a[0]);
    push_char(&mut s, '.');
    push_decimal(&mut s, a[1]);
    push_char(&mut s, '.');
    push_decimal(&mut s, a[2]);
    push_char(&mut s, '.');
    push_decimal(&mut s, a[3]);
    assert(s@ =~= spec_dotted(a@));
    s
}

/// Cut a fixed-size name field at its null terminator.
fn name_field_bytes(field: &[u8], n: usize) -> (r: Vec<u8>)
    requires
        field@.len() == n,
    ensures
        r@ == nul_prefix(field@),
{
    let mut end: usize = 0;
    proof {
        assert(field@.skip(0) =~= field@);
    }
    loop
        invariant
            0 <= end <= n,
            field@.len() == n,
            forall|j: int| 0 <= j < end ==> field@[j] != 0,
            first_nul(field@.skip(end as int)) + end == first_nul(field@),
        ensures
            end == first_nul(field@),
        decreases n - end,
    {
        proof {
            lemma_first_nul_bounds(field@.skip(end as int));
        }
        if end >= n {
            break ;
        }
        if *vstd::slice::slice_index_get(field, end) == 0 {
            assert(field@.skip(end as int)[0] == 0);
            break ;
        }
        proof {
            assert(field@.skip(end as int).drop_first() =~= field@.skip(end as int + 1));
        }
        end = end + 1;
    }
    assert(end == first_nul(field@));
    let mut out: Vec<u8> = Vec::new();
    let mut k: usize = 0;
    while k < end
        invariant
            0 <= k <= end <= n,
            field@.len() == n,
            out@ == field@.take(end as int).take(k as int),
        decreases end - k,
    {
        out.push(*vstd::slice::slice_index_get(field, k));
        k = k + 1;
        assert(out@ =~= field@.take(end as int).take(k as int));
    }
    assert(out@ =~= nul_prefix(field@));
    out
}

/// Whether a reply's name fields, cut at their null terminators, are
/// valid text — the condition for registering the node at all.
pub open spec fn names_ok(reply: PollReply) -> bool {
    valid_utf8(nul_prefix(reply.short_name@)) && valid_utf8(nul_prefix(reply.long_name@))
}

/// Everything that holds of a node freshly built from a discovery reply:
/// identity taken from the reply, seen just now, showing the default
/// color, with playback state zeroed.
pub open spec fn is_fresh_client(c: Client, socket_address: Address, reply: PollReply, now: u64) -> bool {
    c.socket_address == socket_address && c.addr == reply.address && c.addr_string@ == spec_dotted(
        reply.address@,
    ) && c.last_reply_received == now && c.short_name@ == decode_utf8(nul_prefix(reply.short_name@))
        && c.long_name@ == decode_utf8(nul_prefix(reply.long_name@)) && c.current@
        == RenderModeV::Color(DEFAULT_RED, DEFAULT_GREEN, DEFAULT_BLUE)
        && c.millis_since_last_frame == 0 && c.current_animation_frame == 0
}

impl Client {
    /// Build a node from its discovery reply. Fails exactly when a name
    /// field, cut at its null terminator, is not valid text; the caller
    /// then skips registering the node.
    pub fn new(socket_address: Address, reply: &PollReply, now: u64) -> (r: Result<
        Client,
        CommandError,
    >)
        ensures
            r is Ok <==> names_ok(*reply),
            r matches Ok(c) ==> is_fresh_client(c, socket_address, *reply, now),
            r matches Err(e) ==> e == CommandError::InvalidInput,
    {
        let short_bytes = name_field_bytes(reply.short_name.as_slice(), 18);
        let long_bytes = name_field_bytes(reply.long_name.as_slice(), 64);
        let short_name = match string_from_bytes(short_bytes) {
            Some(s) => s,
            None => {
                return Err(CommandError::InvalidInput);
            },
        };
        let long_name = match string_from_bytes(long_bytes) {
            Some(s) => s,
            None => {
                return Err(CommandError::InvalidInput);
            },
        };
        Ok(
            Client {
                socket_address,
                addr: reply.address,
                addr_string: dotted_string(&reply.address),
                last_reply_received: now,
                short_name,
                long_name,
                current: RenderMode::Color(DEFAULT_RED, DEFAULT_GREEN, DEFAULT_BLUE),
                millis_since_last_frame: 0,
                current_animation_frame: 0,
            },
        )
    }

    /// The node's summary for the control surface.
    pub fn get_node(&self) -> (r: Node)
        ensures
            r.ip@ == self.addr_string@,
            r.short_name@ == self.short_name@,
            r.long_name@ == self.long_name@,
            r.current@ == self.current@,
    {
        Node {
            ip: self.addr_string.clone(),
            short_name: self.short_name.clone(),
            long_name: self.long_name.clone(),
            current: self.current.duplicate(),
        }
    }
}

} // verus!
