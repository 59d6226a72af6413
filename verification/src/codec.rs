//! The wire form of a message.
//!
//! A frame starts with the message's kind as four bytes, least significant first.
//! The fields follow in the order of their declaration: a slot as one byte, a
//! coordinate, a score or a duration as four bytes, least significant first
//! (a coordinate in two's complement), a flag as one byte that is 0 or 1. The
//! datagram's end is the only framing; bytes after the frame are ignored.

use vstd::prelude::*;
use crate::message::{DecodeError, Message};
use crate::player::Player;
use crate::vec2::Vec2;

verus! {

/// Length of the longest frame.
pub const MAX_FRAME: usize = 26;

/// The four bytes of a number, least significant first.
pub open spec fn le_bytes(v: u32) -> Seq<u8> {
    seq![
        (v % 256) as u8,
        ((v / 256) % 256) as u8,
        ((v / 65536) % 256) as u8,
        (v / 16777216) as u8,
    ]
}

/// The number whose least significant byte is `b0`, and so on up to `b3`.
pub open spec fn le_value(b0: u8, b1: u8, b2: u8, b3: u8) -> u32 {
    (b0 + 256 * b1 + 65536 * b2 + 16777216 * b3) as u32
}

/// The number that the four bytes of `b` from `at` on stand for.
pub open spec fn le_at(b: Seq<u8>, at: int) -> u32 {
    le_value(b[at], b[at + 1], b[at + 2], b[at + 3])
}

/// A coordinate as an unsigned number, in two's complement.
pub open spec fn coord_bits(c: i32) -> u32 {
    if c >= 0 {
        c as u32
    } else {
        (c + 0x1_0000_0000) as u32
    }
}

/// The coordinate that an unsigned number stands for in two's complement.
pub open spec fn coord_of_bits(v: u32) -> i32 {
    if v < 0x8000_0000 {
        v as i32
    } else {
        (v - 0x1_0000_0000) as i32
    }
}

/// A flag as a byte.
pub open spec fn flag_byte(f: bool) -> u8 {
    if f {
        1
    } else {
        0
    }
}

/// The kind that starts the frame of a message.
pub open spec fn kind_of(m: Message) -> u32 {
    match m {
        Message::PlayerUpdate(_) => 0,
        Message::InverseControl { .. } => 1,
        Message::TrapEvent { .. } => 2,
        Message::GameReset => 3,
    }
}

/// Length of the frame of a message of the given kind.
pub open spec fn frame_len(kind: u32) -> int {
    if kind == 0 {
        26
    } else if kind == 1 {
        9
    } else if kind == 2 {
        5
    } else {
        4
    }
}

/// The frame of a message.
pub open spec fn encode_spec(m: Message) -> Seq<u8> {
    match m {
        Message::PlayerUpdate(p) => le_bytes(0) + seq![p.id] + le_bytes(coord_bits(p.pos.x))
            + le_bytes(coord_bits(p.pos.y)) + le_bytes(coord_bits(p.shadow_pos.x)) + le_bytes(
            coord_bits(p.shadow_pos.y),
        ) + le_bytes(p.score) + seq![flag_byte(p.is_trapped)],
        Message::InverseControl { active, time_left } => le_bytes(1) + seq![flag_byte(active)]
            + le_bytes(time_left),
        Message::TrapEvent { player_id } => le_bytes(2) + seq![player_id],
        Message::GameReset => le_bytes(3),
    }
}

/// What a buffer decodes to. The kind is read first, then the length is held against
/// the kind, then the slot is checked, then the flag.
pub open spec fn decode_spec(b: Seq<u8>) -> Result<Message, DecodeError> {
    if b.len() < 4 {
        Err(DecodeError::Truncated)
    } else if le_at(b, 0) > 3 {
        Err(DecodeError::UnknownKind)
    } else if b.len() < frame_len(le_at(b, 0)) {
        Err(DecodeError::Truncated)
    } else if le_at(b, 0) == 0 {
        if b[4] >= 2 {
            Err(DecodeError::InvalidSlot)
        } else if b[25] >= 2 {
            Err(DecodeError::InvalidFlag)
        } else {
            Ok(
                Message::PlayerUpdate(
                    Player {
                        id: b[4],
                        pos: Vec2 {
                            x: coord_of_bits(le_at(b, 5)),
                            y: coord_of_bits(le_at(b, 9)),
                        },
                        shadow_pos: Vec2 {
                            x: coord_of_bits(le_at(b, 13)),
                            y: coord_of_bits(le_at(b, 17)),
                        },
                        score: le_at(b, 21),
                        is_trapped: b[25] == 1,
                    },
                ),
            )
        }
    } else if le_at(b, 0) == 1 {
        if b[4] >= 2 {
            Err(DecodeError::InvalidFlag)
        } else {
            Ok(Message::InverseControl { active: b[4] == 1, time_left: le_at(b, 5) })
        }
    } else if le_at(b, 0) == 2 {
        if b[4] >= 2 {
            Err(DecodeError::InvalidSlot)
        } else {
            Ok(Message::TrapEvent { player_id: b[4] })
        }
    } else {
        Ok(Message::GameReset)
    }
}

/// Reading back the four bytes of a number gives the number.
pub proof fn lemma_le_round_trip(v: u32)
    ensures
        le_bytes(v).len() == 4,
        le_at(le_bytes(v), 0) == v,
{
}

/// Writing out the number that four bytes stand for gives the four bytes.
pub proof fn lemma_le_canonical(b0: u8, b1: u8, b2: u8, b3: u8)
    ensures
        le_bytes(le_value(b0, b1, b2, b3)) == seq![b0, b1, b2, b3],
{
    assert(le_bytes(le_value(b0, b1, b2, b3)) =~= seq![b0, b1, b2, b3]);
}

/// Two's complement loses nothing, in either direction.
pub proof fn lemma_coord_round_trip(c: i32, v: u32)
    ensures
        coord_of_bits(coord_bits(c)) == c,
        coord_bits(coord_of_bits(v)) == v,
{
}

proof fn lemma_reads_back(f: Seq<u8>, at: int, v: u32)
    requires
        f[at] == le_bytes(v)[0],
        f[at + 1] == le_bytes(v)[1],
        f[at + 2] == le_bytes(v)[2],
        f[at + 3] == le_bytes(v)[3],
    ensures
        le_at(f, at) == v,
{
}

proof fn lemma_field_at(head: Seq<u8>, v: u32, tail: Seq<u8>)
    ensures
        le_at(head + le_bytes(v) + tail, head.len() as int) == v,
        (head + le_bytes(v)).len() == head.len() + 4,
{
    let f = head + le_bytes(v) + tail;
    let at = head.len() as int;
    assert(f[at] == le_bytes(v)[0]);
    assert(f[at + 1] == le_bytes(v)[1]);
    assert(f[at + 2] == le_bytes(v)[2]);
    assert(f[at + 3] == le_bytes(v)[3]);
    lemma_reads_back(f, at, v);
}

proof fn lemma_byte_at(head: Seq<u8>, byte: u8, tail: Seq<u8>)
    ensures
        (head + seq![byte] + tail)[head.len() as int] == byte,
        (head + seq![byte]).len() == head.len() + 1,
{
}

proof fn lemma_round_trip_player(p: Player, rest: Seq<u8>)
    requires
        p.id < 2,
    ensures
        encode_spec(Message::PlayerUpdate(p)).len() == 26,
        decode_spec(encode_spec(Message::PlayerUpdate(p)) + rest) == Ok::<Message, DecodeError>(
            Message::PlayerUpdate(p),
        ),
{
    let s0 = le_bytes(0);
    let s1 = s0 + seq![p.id];
    let s2 = s1 + le_bytes(coord_bits(p.pos.x));
    let s3 = s2 + le_bytes(coord_bits(p.pos.y));
    let s4 = s3 + le_bytes(coord_bits(p.shadow_pos.x));
    let s5 = s4 + le_bytes(coord_bits(p.shadow_pos.y));
    let s6 = s5 + le_bytes(p.score);
    let s7 = s6 + seq![flag_byte(p.is_trapped)];
    let b = s7 + rest;
    assert(s7 == encode_spec(Message::PlayerUpdate(p)));
    let e = Seq::<u8>::empty();
    let flag = seq![flag_byte(p.is_trapped)];
    lemma_field_at(e, 0, b.subrange(4, b.len() as int));
    assert(b =~= e + le_bytes(0) + b.subrange(4, b.len() as int));
    lemma_byte_at(s0, p.id, b.subrange(5, b.len() as int));
    assert(b =~= s0 + seq![p.id] + b.subrange(5, b.len() as int));
    lemma_field_at(s1, coord_bits(p.pos.x), b.subrange(9, b.len() as int));
    assert(b =~= s1 + le_bytes(coord_bits(p.pos.x)) + b.subrange(9, b.len() as int));
    lemma_field_at(s2, coord_bits(p.pos.y), b.subrange(13, b.len() as int));
    assert(b =~= s2 + le_bytes(coord_bits(p.pos.y)) + b.subrange(13, b.len() as int));
    lemma_field_at(s3, coord_bits(p.shadow_pos.x), b.subrange(17, b.len() as int));
    assert(b =~= s3 + le_bytes(coord_bits(p.shadow_pos.x)) + b.subrange(17, b.len() as int));
    lemma_field_at(s4, coord_bits(p.shadow_pos.y), b.subrange(21, b.len() as int));
    assert(b =~= s4 + le_bytes(coord_bits(p.shadow_pos.y)) + b.subrange(21, b.len() as int));
    lemma_field_at(s5, p.score, b.subrange(25, b.len() as int));
    assert(b =~= s5 + le_bytes(p.score) + b.subrange(25, b.len() as int));
    lemma_byte_at(s6, flag_byte(p.is_trapped), rest);
    lemma_coord_round_trip(p.pos.x, 0);
    lemma_coord_round_trip(p.pos.y, 0);
    lemma_coord_round_trip(p.shadow_pos.x, 0);
    lemma_coord_round_trip(p.shadow_pos.y, 0);
}

proof fn lemma_round_trip_inverse(active: bool, time_left: u32, rest: Seq<u8>)
    ensures
        encode_spec(Message::InverseControl { active, time_left }).len() == 9,
        decode_spec(encode_spec(Message::InverseControl { active, time_left }) + rest) == Ok::<
            Message,
            DecodeError,
        >(Message::InverseControl { active, time_left }),
{
    let s0 = le_bytes(1);
    let s1 = s0 + seq![flag_byte(active)];
    let s2 = s1 + le_bytes(time_left);
    let b = s2 + rest;
    let e = Seq::<u8>::empty();
    lemma_field_at(e, 1, b.subrange(4, b.len() as int));
    assert(b =~= e + le_bytes(1) + b.subrange(4, b.len() as int));
    lemma_byte_at(s0, flag_byte(active), b.subrange(5, b.len() as int));
    assert(b =~= s0 + seq![flag_byte(active)] + b.subrange(5, b.len() as int));
    lemma_field_at(s1, time_left, rest);
}

proof fn lemma_round_trip_short(m: Message, rest: Seq<u8>)
    requires
        m.wf(),
        m is TrapEvent || m is GameReset,
    ensures
        encode_spec(m).len() == frame_len(kind_of(m)),
        decode_spec(encode_spec(m) + rest) == Ok::<Message, DecodeError>(m),
{
    let b = encode_spec(m) + rest;
    let e = Seq::<u8>::empty();
    lemma_field_at(e, kind_of(m), b.subrange(4, b.len() as int));
    assert(b =~= e + le_bytes(kind_of(m)) + b.subrange(4, b.len() as int));
    if let Message::TrapEvent { player_id } = m {
        lemma_byte_at(le_bytes(2), player_id, rest);
    }
}

/// Round trip: the frame of a well-formed message decodes to that message, whatever
/// bytes follow the frame in the buffer.
pub proof fn lemma_round_trip(m: Message, rest: Seq<u8>)
    requires
        m.wf(),
    ensures
        encode_spec(m).len() == frame_len(kind_of(m)),
        decode_spec(encode_spec(m)) == Ok::<Message, DecodeError>(m),
        decode_spec(encode_spec(m) + rest) == Ok::<Message, DecodeError>(m),
{
    let e = Seq::<u8>::empty();
    assert(encode_spec(m) + e =~= encode_spec(m));
    match m {
        Message::PlayerUpdate(p) => {
            lemma_round_trip_player(p, rest);
            lemma_round_trip_player(p, e);
        },
        Message::InverseControl { active, time_left } => {
            lemma_round_trip_inverse(active, time_left, rest);
            lemma_round_trip_inverse(active, time_left, e);
        },
        _ => {
            lemma_round_trip_short(m, rest);
            lemma_round_trip_short(m, e);
        },
    }
}

/// What decodes is framed: a buffer that decodes to a message starts with that
/// message's frame, and the message is well formed.
pub proof fn lemma_decoded_is_framed(b: Seq<u8>)
    ensures
        decode_spec(b) matches Ok(m) ==> m.wf() && frame_len(kind_of(m)) <= b.len()
            && b.subrange(0, frame_len(kind_of(m))) == encode_spec(m),
{
    if let Ok(m) = decode_spec(b) {
        let f = encode_spec(m);
        lemma_le_canonical(b[0], b[1], b[2], b[3]);
        match m {
            Message::PlayerUpdate(p) => {
                lemma_coord_round_trip(0, le_at(b, 5));
                lemma_coord_round_trip(0, le_at(b, 9));
                lemma_coord_round_trip(0, le_at(b, 13));
                lemma_coord_round_trip(0, le_at(b, 17));
                lemma_le_canonical(b[5], b[6], b[7], b[8]);
                lemma_le_canonical(b[9], b[10], b[11], b[12]);
                lemma_le_canonical(b[13], b[14], b[15], b[16]);
                lemma_le_canonical(b[17], b[18], b[19], b[20]);
                lemma_le_canonical(b[21], b[22], b[23], b[24]);
                assert(b.subrange(0, 26) =~= f);
            },
            Message::InverseControl { active, time_left } => {
                lemma_le_canonical(b[5], b[6], b[7], b[8]);
                assert(b.subrange(0, 9) =~= f);
            },
            Message::TrapEvent { player_id } => {
                assert(b.subrange(0, 5) =~= f);
            },
            Message::GameReset => {
                assert(b.subrange(0, 4) =~= f);
            },
        }
    }
}

fn put_u32(out: &mut Vec<u8>, v: u32)
    ensures
        final(out)@ == old(out)@ + le_bytes(v),
{
    out.push((v % 256) as u8);
    out.push(((v / 256) % 256) as u8);
    out.push(((v / 65536) % 256) as u8);
    out.push((v / 16777216) as u8);
    assert(out@ =~= old(out)@ + le_bytes(v));
}

fn put_coord(out: &mut Vec<u8>, c: i32)
    ensures
        final(out)@ == old(out)@ + le_bytes(coord_bits(c)),
{
    let bits: u32 = if c >= 0 {
        c as u32
    } else {
        (c as i64 + 0x1_0000_0000i64) as u32
    };
    put_u32(out, bits);
}

fn put_flag(out: &mut Vec<u8>, f: bool)
    ensures
        final(out)@ == old(out)@ + seq![flag_byte(f)],
{
    out.push(if f { 1u8 } else { 0u8 });
    assert(out@ =~= old(out)@ + seq![flag_byte(f)]);
}

fn put_slot(out: &mut Vec<u8>, slot: u8)
    ensures
        final(out)@ == old(out)@ + seq![slot],
{
    out.push(slot);
    assert(out@ =~= old(out)@ + seq![slot]);
}

fn read_u32(b: &[u8], at: usize) -> (v: u32)
    requires
        at + 4 <= b.len(),
    ensures
        v == le_at(b@, at as int),
{
    let b0: u32 = b[at] as u32;
    let b1: u32 = b[at + 1] as u32;
    let b2: u32 = b[at + 2] as u32;
    let b3: u32 = b[at + 3] as u32;
    b0 + 256 * b1 + 65536 * b2 + 16777216 * b3
}

fn read_coord(b: &[u8], at: usize) -> (c: i32)
    requires
        at + 4 <= b.len(),
    ensures
        c == coord_of_bits(le_at(b@, at as int)),
{
    let v: u32 = read_u32(b, at);
    if v < 0x8000_0000 {
        v as i32
    } else {
        (v as i64 - 0x1_0000_0000i64) as i32
    }
}

/// Writes the frame of a message. Every message has one, at most `MAX_FRAME` bytes long.
pub fn encode(m: &Message) -> (out: Vec<u8>)
    ensures
        out@ == encode_spec(*m),
        out@.len() == frame_len(kind_of(*m)),
        out@.len() <= MAX_FRAME,
{
    let mut out: Vec<u8> = Vec::new();
    assert(out@ =~= Seq::<u8>::empty());
    match m {
        Message::PlayerUpdate(p) => {
            put_u32(&mut out, 0);
            put_slot(&mut out, p.id);
            put_coord(&mut out, p.pos.x);
            put_coord(&mut out, p.pos.y);
            put_coord(&mut out, p.shadow_pos.x);
            put_coord(&mut out, p.shadow_pos.y);
            put_u32(&mut out, p.score);
            put_flag(&mut out, p.is_trapped);
        },
        Message::InverseControl { active, time_left } => {
            put_u32(&mut out, 1);
            put_flag(&mut out, *active);
            put_u32(&mut out, *time_left);
        },
        Message::TrapEvent { player_id } => {
            put_u32(&mut out, 2);
            put_slot(&mut out, *player_id);
        },
        Message::GameReset => {
            put_u32(&mut out, 3);
        },
    }
    assert(out@ =~= encode_spec(*m));
    out
}

/// Reads the message at the start of a buffer. A buffer that is too short for its
/// frame, or whose frame names a kind, a slot or a flag that does not exist, is
/// rejected; nothing of it is used. What is accepted is exactly a buffer that starts
/// with the frame of a well-formed message.
pub fn decode(bytes: &[u8]) -> (r: Result<Message, DecodeError>)
    ensures
        r == decode_spec(bytes@),
        r matches Ok(m) ==> m.wf() && frame_len(kind_of(m)) <= bytes@.len() && bytes@.subrange(
            0,
            frame_len(kind_of(m)),
        ) == encode_spec(m),
{
    proof {
        lemma_decoded_is_framed(bytes@);
    }
    if bytes.len() < 4 {
        return Err(DecodeError::Truncated);
    }
    let kind: u32 = read_u32(bytes, 0);
    if kind == 0 {
        if bytes.len() < 26 {
            return Err(DecodeError::Truncated);
        }
        let id: u8 = bytes[4];
        if id >= 2 {
            return Err(DecodeError::InvalidSlot);
        }
        let flag: u8 = bytes[25];
        if flag >= 2 {
            return Err(DecodeError::InvalidFlag);
        }
        let pos: Vec2 = Vec2 { x: read_coord(bytes, 5), y: read_coord(bytes, 9) };
        let shadow_pos: Vec2 = Vec2 { x: read_coord(bytes, 13), y: read_coord(bytes, 17) };
        let score: u32 = read_u32(bytes, 21);
        Ok(Message::PlayerUpdate(Player { id, pos, shadow_pos, score, is_trapped: flag == 1 }))
    } else if kind == 1 {
        if bytes.len() < 9 {
            return Err(DecodeError::Truncated);
        }
        let flag: u8 = bytes[4];
        if flag >= 2 {
            return Err(DecodeError::InvalidFlag);
        }
        let time_left: u32 = read_u32(bytes, 5);
        Ok(Message::InverseControl { active: flag == 1, time_left })
    } else if kind == 2 {
        if bytes.len() < 5 {
            return Err(DecodeError::Truncated);
        }
        let player_id: u8 = bytes[4];
        if player_id >= 2 {
            return Err(DecodeError::InvalidSlot);
        }
        Ok(Message::TrapEvent { player_id })
    } else if kind == 3 {
        Ok(Message::GameReset)
    } else {
        Err(DecodeError::UnknownKind)
    }
}

} // verus!
