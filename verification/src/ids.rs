//! Opaque 128-bit identifiers and their canonical text form.

use vstd::prelude::*;
use vstd::string::*;

verus! {

/// A client, as the gateway knows it.
#[derive(Clone, Copy, Debug, PartialEq, Eq, Hash, Structural)]
pub struct ClientId(pub u128);

/// One WebSocket session of a client.
#[derive(Clone, Copy, Debug, PartialEq, Eq, Hash, Structural)]
pub struct SessionId(pub u128);

/// A game.
#[derive(Clone, Copy, Debug, PartialEq, Eq, Hash, Structural)]
pub struct GameId(pub u128);

/// The request that a reply answers.
#[derive(Clone, Copy, Debug, PartialEq, Eq, Hash, Structural)]
pub struct ReqId(pub u128);

/// One published event.
#[derive(Clone, Copy, Debug, PartialEq, Eq, Hash, Structural)]
pub struct EventId(pub u128);

/// The sixteen lower-case hexadecimal digits.
pub open spec fn hex_alphabet() -> Seq<char> {
    seq!['0', '1', '2', '3', '4', '5', '6', '7', '8', '9', 'a', 'b', 'c', 'd', 'e', 'f']
}

/// The lowest `n` hexadecimal digits of `v`, most significant first.
pub open spec fn hex_digits(v: nat, n: nat) -> Seq<char>
    decreases n,
{
    if n == 0 {
        Seq::empty()
    } else {
        hex_digits(v / 16, (n - 1) as nat).push(hex_alphabet()[(v % 16) as int])
    }
}

/// The canonical text of an identifier: 32 hexadecimal digits in groups of
/// 8, 4, 4, 4 and 12, joined by hyphens.
pub open spec fn hyphenated(id: u128) -> Seq<char> {
    let h = hex_digits(id as nat, 32);
    h.subrange(0, 8) + seq!['-'] + h.subrange(8, 12) + seq!['-'] + h.subrange(12, 16) + seq!['-']
        + h.subrange(16, 20) + seq!['-'] + h.subrange(20, 32)
}

/// The first eight characters of the canonical text.
pub open spec fn short_text(id: u128) -> Seq<char> {
    hyphenated(id).subrange(0, 8)
}

/// Whether `id` carries the marks of a random identifier: in its canonical
/// text `xxxxxxxx-xxxx-4xxx-yxxx-xxxxxxxxxxxx` the version digit is 4 and the
/// variant digit `y` is one of 8, 9, a and b.
pub open spec fn is_random_form(id: u128) -> bool {
    let h = hex_digits(id as nat, 32);
    &&& h[12] == '4'
    &&& h[16] == '8' || h[16] == '9' || h[16] == 'a' || h[16] == 'b'
}

/// As many digits are written as were asked for.
pub proof fn lemma_hex_digits_len(v: nat, n: nat)
    ensures
        hex_digits(v, n).len() == n,
    decreases n,
{
    if n > 0 {
        lemma_hex_digits_len(v / 16, (n - 1) as nat);
    }
}

/// The canonical text has 36 characters.
pub proof fn lemma_hyphenated_len(id: u128)
    ensures
        hyphenated(id).len() == 36,
        short_text(id).len() == 8,
{
    lemma_hex_digits_len(id as nat, 32);
}

/// What `uuid::Uuid::parse_str` makes of a text: the identifier it reads, or
/// `None` where it reports an error.
pub uninterp spec fn uuid_parse_result(text: Seq<char>) -> Option<u128>;

/// Calls `Display` of `uuid::Uuid`, which writes the hyphenated lower-case
/// form of the identifier's sixteen bytes, most significant first.
#[verifier::external_body]
fn uuid_text(id: u128) -> (text: String)
    ensures
        text@ == hyphenated(id),
{
    uuid::Uuid::from_u128(id).to_string()
}

/// Calls `uuid::Uuid::parse_str`. The parser accepts several layouts, so its
/// outcome is named rather than spelled out.
#[verifier::external_body]
fn uuid_parse(text: &str) -> (id: Option<u128>)
    ensures
        id == uuid_parse_result(text@),
{
    match uuid::Uuid::parse_str(text) {
        Ok(u) => Some(u.as_u128()),
        Err(_) => None,
    }
}

/// Calls `uuid::Uuid::new_v4`, which draws sixteen random bytes from the
/// operating system and stamps them with version 4 and the RFC 4122 variant.
/// It panics where the system has no source of randomness.
#[verifier::external_body]
fn uuid_random() -> (id: u128)
    ensures
        is_random_form(id),
{
    uuid::Uuid::new_v4().as_u128()
}

/// The canonical 36-character text of `id`.
pub fn id_text(id: u128) -> (text: String)
    ensures
        text@ == hyphenated(id),
        text@.len() == 36,
{
    proof {
        lemma_hyphenated_len(id);
    }
    uuid_text(id)
}

/// Reads an identifier from text, in any layout the parser knows.
pub fn parse_id(text: &str) -> (id: Option<u128>)
    ensures
        id == uuid_parse_result(text@),
{
    uuid_parse(text)
}

impl EventId {
    /// A fresh random event identifier.
    pub fn new() -> (id: Self)
        ensures
            is_random_form(id.0),
    {
        EventId(uuid_random())
    }
}

impl GameId {
    /// A fresh random game identifier.
    pub fn random() -> (id: Self)
        ensures
            is_random_form(id.0),
    {
        GameId(uuid_random())
    }

    /// The canonical text, which also serves as the partition key of
    /// commands about this game.
    pub fn to_string(&self) -> (text: String)
        ensures
            text@ == hyphenated(self.0),
    {
        id_text(self.0)
    }
}

impl ClientId {
    /// A fresh random client identifier.
    pub fn random() -> (id: Self)
        ensures
            is_random_form(id.0),
    {
        ClientId(uuid_random())
    }

    /// The canonical text, which also serves as the partition key of
    /// commands from this client.
    pub fn to_string(&self) -> (text: String)
        ensures
            text@ == hyphenated(self.0),
    {
        id_text(self.0)
    }
}

impl SessionId {
    /// A fresh random session identifier.
    pub fn random() -> (id: Self)
        ensures
            is_random_form(id.0),
    {
        SessionId(uuid_random())
    }
}

} // verus!
