use vstd::prelude::*;

use crate::scan::Token;
use crate::scan::tokens_of;

verus! {

/// The linefeed byte, the one control byte that is passed on.
pub const LINEFEED: u8 = 0x0A;

/// The UTF-8 encoding of a character.
pub open spec fn utf8(c: char) -> Seq<u8> {
    let v = c as u32 as int;
    if v < 0x80 {
        seq![v as u8]
    } else if v < 0x800 {
        seq![(0xC0 + v / 64) as u8, (0x80 + v % 64) as u8]
    } else if v < 0x10000 {
        seq![(0xE0 + v / 4096) as u8, (0x80 + (v / 64) % 64) as u8, (0x80 + v % 64) as u8]
    } else {
        seq![
            (0xF0 + v / 262144) as u8,
            (0x80 + (v / 4096) % 64) as u8,
            (0x80 + (v / 64) % 64) as u8,
            (0x80 + v % 64) as u8,
        ]
    }
}

/// The bytes that one token passes on: a printed character's encoding, a
/// linefeed for the linefeed control, and nothing for anything else.
pub open spec fn forwarded(t: Token) -> Seq<u8> {
    match t {
        Token::Print(c) => utf8(c),
        Token::Execute(b) => if b == LINEFEED {
            seq![LINEFEED]
        } else {
            Seq::empty()
        },
        _ => Seq::empty(),
    }
}

/// The bytes that a run of tokens passes on, in order.
pub open spec fn visible(ts: Seq<Token>) -> Seq<u8>
    decreases ts.len(),
{
    if ts.len() == 0 {
        Seq::empty()
    } else {
        visible(ts.drop_last()) + forwarded(ts.last())
    }
}

/// The visible part of a byte stream: what is left once every escape and
/// control sequence has been taken out.
pub open spec fn stripped(input: Seq<u8>) -> Seq<u8> {
    visible(tokens_of(input))
}

/// Passing on one more token appends what that token forwards.
pub proof fn lemma_visible_push(ts: Seq<Token>, t: Token)
    ensures
        visible(ts.push(t)) == visible(ts) + forwarded(t),
{
    assert(ts.push(t).drop_last() =~= ts);
}

/// Encodes a character as UTF-8.
pub fn encode_utf8(c: char) -> (r: Vec<u8>)
    ensures
        r@ == utf8(c),
{
    let v: u32 = c as u32;
    let mut r: Vec<u8> = Vec::new();
    if v < 0x80 {
        r.push(v as u8);
    } else if v < 0x800 {
        r.push((0xC0 + v / 64) as u8);
        r.push((0x80 + v % 64) as u8);
    } else if v < 0x10000 {
        r.push((0xE0 + v / 4096) as u8);
        r.push((0x80 + (v / 64) % 64) as u8);
        r.push((0x80 + v % 64) as u8);
    } else {
        r.push((0xF0 + v / 262144) as u8);
        r.push((0x80 + (v / 4096) % 64) as u8);
        r.push((0x80 + (v / 64) % 64) as u8);
        r.push((0x80 + v % 64) as u8);
    }
    assert(r@ =~= utf8(c));
    r
}

} // verus!
