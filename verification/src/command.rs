//! Commands exchanged between SFU instances, their wire encoding, and the
//! message subjects they travel on.
use vstd::prelude::*;
use vstd::utf8::encode_utf8;
use crate::text::{chars_of, find_first, find_first_in, find_from, occurs_at, substring};

verus! {

/// Command that instances send to each other about a room; some of them are
/// forwarded to the room's subscribers as text.
#[derive(Debug, Clone)]
pub enum Command {
    PubJoin(String),
    PubLeft(String),
}

/// Why a command could not be framed or read back.
#[derive(Debug, Clone, Copy, PartialEq, Eq, Structural)]
pub enum CommandCodecError {
    /// The encoded command does not fit the command frame.
    Encode,
    /// The bytes do not hold a command.
    Decode,
}

/// Bytes available for one encoded command.
pub const COMMAND_FRAME_CAPACITY: usize = 16;

impl Command {
    /// The variant index that the wire encoding carries.
    pub open spec fn tag(&self) -> u32 {
        match self {
            Command::PubJoin(_) => 0,
            Command::PubLeft(_) => 1,
        }
    }

    /// The user the command is about.
    pub open spec fn user(&self) -> Seq<char> {
        match self {
            Command::PubJoin(u) => u@,
            Command::PubLeft(u) => u@,
        }
    }

    /// The text forwarded to a subscriber for this command.
    pub open spec fn user_msg(&self) -> Seq<char> {
        match self {
            Command::PubJoin(u) => "PUB_JOIN "@ + u@,
            Command::PubLeft(u) => "PUB_LEFT "@ + u@,
        }
    }

    /// The wire encoding of this command.
    pub open spec fn encoding(&self) -> Seq<u8> {
        tag_text_encoding(self.tag(), self.user())
    }

    /// Convert into the message that is forwarded to the frontend.
    pub fn to_user_msg(&self) -> (r: String)
        ensures
            r@ == self.user_msg(),
    {
        match self {
            Command::PubJoin(user) => {
                let mut r = String::from_str("PUB_JOIN ");
                r.append(user.as_str());
                r
            },
            Command::PubLeft(user) => {
                let mut r = String::from_str("PUB_LEFT ");
                r.append(user.as_str());
                r
            },
        }
    }
}

/// `k` little-endian bytes of `n`.
pub open spec fn le_bytes(n: nat, k: nat) -> Seq<u8>
    decreases k,
{
    if k == 0 {
        seq![]
    } else {
        seq![(n % 256) as u8] + le_bytes(n / 256, (k - 1) as nat)
    }
}

/// Variable-length integer: one byte up to 250, otherwise a marker byte
/// followed by 2, 4 or 8 little-endian bytes.
pub open spec fn varint(n: nat) -> Seq<u8> {
    if n <= 250 {
        seq![n as u8]
    } else if n <= 0xffff {
        seq![251u8] + le_bytes(n, 2)
    } else if n <= 0xffff_ffff {
        seq![252u8] + le_bytes(n, 4)
    } else {
        seq![253u8] + le_bytes(n, 8)
    }
}

/// A variant index followed by a length-prefixed UTF-8 string.
pub open spec fn tag_text_encoding(tag: u32, text: Seq<char>) -> Seq<u8> {
    varint(tag as nat) + varint(encode_utf8(text).len()) + encode_utf8(text)
}

/// What `bincode::decode_from_slice::<(u32, String), _>` with the standard
/// configuration yields for `bytes`, if it succeeds.
pub uninterp spec fn bincode_pair_decoding(bytes: Seq<u8>) -> Option<(u32, Seq<char>)>;

#[verifier::external_type_specification]
#[verifier::external_body]
pub struct ExEncodeError(bincode::error::EncodeError);

#[verifier::external_type_specification]
#[verifier::external_body]
pub struct ExDecodeError(bincode::error::DecodeError);

/// Calls `bincode::encode_into_slice` on `(tag, text)` with
/// `bincode::config::standard()` (little endian, variable-length integers).
/// Claimed: the call succeeds exactly when the encoding fits in `buf`, and then
/// it returns the encoding's length and has written the encoding at the front of
/// `buf`; the length of `buf` never changes. What a failed call leaves in
/// `buf` is not stated.
#[verifier::external_body]
fn bincode_encode_pair(tag: u32, text: &str, buf: &mut Vec<u8>) -> (r: Result<
    usize,
    bincode::error::EncodeError,
>)
    ensures
        final(buf).len() == old(buf).len(),
        r is Ok <==> tag_text_encoding(tag, text@).len() <= old(buf).len(),
        r matches Ok(n) ==> n == tag_text_encoding(tag, text@).len() && final(buf)@.take(n as int)
            == tag_text_encoding(tag, text@),
{
    bincode::encode_into_slice((tag, text), buf.as_mut_slice(), bincode::config::standard())
}

/// `256^k`.
pub open spec fn pow256(k: nat) -> nat
    decreases k,
{
    if k == 0 {
        1
    } else {
        256 * pow256((k - 1) as nat)
    }
}

/// The value of little-endian bytes.
pub open spec fn le_value(b: Seq<u8>) -> nat
    decreases b.len(),
{
    if b.len() == 0 {
        0
    } else {
        b[0] as nat + 256 * le_value(b.drop_first())
    }
}

/// The variable-length integer at `pos` of `bytes`: its value and the position
/// after it, or `None` when the bytes end first or the marker byte is not one
/// of the integer's forms.  `wide` admits the 8-byte form, which a length has
/// and a `u32` tag does not.
pub open spec fn varint_at(bytes: Seq<u8>, pos: int, wide: bool) -> Option<(nat, int)> {
    if pos < 0 || pos >= bytes.len() {
        None
    } else {
        let b = bytes[pos];
        if b <= 250 {
            Some((b as nat, pos + 1))
        } else if b == 251 && pos + 3 <= bytes.len() {
            Some((le_value(bytes.subrange(pos + 1, pos + 3)), pos + 3))
        } else if b == 252 && pos + 5 <= bytes.len() {
            Some((le_value(bytes.subrange(pos + 1, pos + 5)), pos + 5))
        } else if b == 253 && wide && pos + 9 <= bytes.len() {
            Some((le_value(bytes.subrange(pos + 1, pos + 9)), pos + 9))
        } else {
            None
        }
    }
}

/// The text length that command bytes declare after their tag, and where the
/// text starts.
pub open spec fn declared_text(bytes: Seq<u8>) -> Option<(nat, int)> {
    match varint_at(bytes, 0, false) {
        Some((_, p)) => varint_at(bytes, p, true),
        None => None,
    }
}

/// The declared text does not run past the end of the bytes.
pub open spec fn text_in_bounds(bytes: Seq<u8>) -> bool {
    match declared_text(bytes) {
        Some((n, p)) => p + n <= bytes.len(),
        None => true,
    }
}

proof fn lemma_le_value_bound(b: Seq<u8>)
    ensures
        le_value(b) < pow256(b.len()),
    decreases b.len(),
{
    if b.len() > 0 {
        lemma_le_value_bound(b.drop_first());
    }
}

proof fn lemma_le_bytes_value(n: nat, k: nat)
    requires
        n < pow256(k),
    ensures
        le_bytes(n, k).len() == k,
        le_value(le_bytes(n, k)) == n,
    decreases k,
{
    if k > 0 {
        let q = n / 256;
        let p = pow256((k - 1) as nat);
        assert(q < p) by (nonlinear_arith)
            requires
                n < 256 * p,
                q == n / 256,
        ;
        lemma_le_bytes_value(q, (k - 1) as nat);
        let b = le_bytes(n, k);
        assert(b.drop_first() =~= le_bytes(q, (k - 1) as nat));
        assert(b[0] as nat == n % 256);
        assert(n == n % 256 + 256 * q) by (nonlinear_arith)
            requires
                q == n / 256,
        ;
    }
}

/// The variable-length integer written at `pos` reads back.
proof fn lemma_varint_reads_back(bytes: Seq<u8>, pos: int, n: nat, wide: bool)
    requires
        0 <= pos,
        pos + varint(n).len() <= bytes.len(),
        bytes.subrange(pos, pos + varint(n).len()) == varint(n),
        n < pow256(4) || (wide && n < pow256(8)),
    ensures
        varint_at(bytes, pos, wide) == Some((n, pos + varint(n).len())),
{
    reveal_with_fuel(pow256, 9);
    let v = varint(n);
    assert(bytes[pos] == v[0]);
    if n <= 250 {
    } else if n <= 0xffff {
        lemma_le_bytes_value(n, 2);
        assert(bytes.subrange(pos + 1, pos + 3) =~= v.subrange(1, 3));
        assert(v.subrange(1, 3) =~= le_bytes(n, 2));
    } else if n <= 0xffff_ffff {
        lemma_le_bytes_value(n, 4);
        assert(bytes.subrange(pos + 1, pos + 5) =~= v.subrange(1, 5));
        assert(v.subrange(1, 5) =~= le_bytes(n, 4));
    } else {
        lemma_le_bytes_value(n, 8);
        assert(bytes.subrange(pos + 1, pos + 9) =~= v.subrange(1, 9));
        assert(v.subrange(1, 9) =~= le_bytes(n, 8));
    }
}

/// The bytes of an encoded pair declare exactly the text that follows.
proof fn lemma_encoding_in_bounds(t: u32, s: Seq<char>)
    requires
        tag_text_encoding(t, s).len() < pow256(8),
    ensures
        text_in_bounds(tag_text_encoding(t, s)),
{
    reveal_with_fuel(pow256, 9);
    let e = tag_text_encoding(t, s);
    let vt = varint(t as nat);
    let n = encode_utf8(s).len();
    let vn = varint(n);
    assert(e == vt + vn + encode_utf8(s));
    assert(e.subrange(0, vt.len() as int) =~= vt);
    lemma_varint_reads_back(e, 0, t as nat, false);
    assert(e.subrange(vt.len() as int, (vt.len() + vn.len()) as int) =~= vn);
    lemma_varint_reads_back(e, vt.len() as int, n, true);
}

/// Read the variable-length integer at `pos`.
fn read_varint(bytes: &[u8], pos: usize, wide: bool) -> (r: Option<(u64, usize)>)
    ensures
        match r {
            Some((v, q)) => varint_at(bytes@, pos as int, wide) == Some((v as nat, q as int)),
            None => varint_at(bytes@, pos as int, wide) is None,
        },
{
    if pos >= bytes.len() {
        return None;
    }
    let b = bytes[pos];
    let width: usize = if b <= 250 {
        0
    } else if b == 251 {
        2
    } else if b == 252 {
        4
    } else if b == 253 && wide {
        8
    } else {
        return None;
    };
    if width == 0 {
        return Some((b as u64, pos + 1));
    }
    if width > bytes.len() - pos - 1 {
        return None;
    }
    let start = pos + 1;
    let end = start + width;
    let mut v: u64 = 0;
    let mut i: usize = end;
    proof {
        reveal_with_fuel(pow256, 9);
        assert(bytes@.subrange(end as int, end as int) =~= Seq::<u8>::empty());
    }
    while i > start
        invariant
            start <= i <= end,
            end == start + width,
            width <= 8,
            end <= bytes.len(),
            v as nat == le_value(bytes@.subrange(i as int, end as int)),
            (v as nat) < pow256((end - i) as nat),
        decreases i,
    {
        let ghost old_v = v as nat;
        proof {
            reveal_with_fuel(pow256, 9);
            assert(pow256(7) == 0x100_0000_0000_0000);
            assert(end - i <= 7);
            lemma_pow256_grows((end - i) as nat, 7);
        }
        let b = bytes[i - 1];
        v = (b as u64) + 256 * v;
        i = i - 1;
        proof {
            let sub = bytes@.subrange(i as int, end as int);
            assert(sub.drop_first() =~= bytes@.subrange(i + 1, end as int));
            assert(sub[0] == b);
        }
    }
    Some((v, end))
}

proof fn lemma_pow256_grows(a: nat, b: nat)
    requires
        a <= b,
    ensures
        pow256(a) <= pow256(b),
    decreases b,
{
    if a < b {
        lemma_pow256_grows(a, (b - 1) as nat);
    }
}

/// Whether the text that command bytes declare stays within them.
pub fn text_within_bytes(bytes: &[u8]) -> (r: bool)
    ensures
        r == text_in_bounds(bytes@),
{
    match read_varint(bytes, 0, false) {
        None => true,
        Some((_, p)) => match read_varint(bytes, p, true) {
            None => true,
            Some((n, q)) => n <= (bytes.len() - q) as u64,
        },
    }
}

/// Calls `bincode::decode_from_slice::<(u32, String), _>` with
/// `bincode::config::standard()`, dropping the count of bytes read.  The call
/// allocates for the text length the bytes declare before it reads the text,
/// so `requires` keeps that length within the bytes: a huge declared length
/// would make the allocation fail.
/// Claimed: the outcome is `bincode_pair_decoding` of the bytes, and bytes that
/// are exactly the encoding of a pair decode to that pair.
#[verifier::external_body]
fn bincode_decode_pair(bytes: &[u8]) -> (r: Result<(u32, String), bincode::error::DecodeError>)
    requires
        text_in_bounds(bytes@),
    ensures
        r is Ok <==> bincode_pair_decoding(bytes@) is Some,
        r matches Ok(p) ==> bincode_pair_decoding(bytes@) == Some((p.0, p.1@)),
        r is Err ==> forall|t: u32, s: Seq<char>| bytes@ != #[trigger] tag_text_encoding(t, s),
        r matches Ok(p) ==> forall|t: u32, s: Seq<char>|
            bytes@ == #[trigger] tag_text_encoding(t, s) ==> p.0 == t && p.1@ == s,
{
    bincode::decode_from_slice::<(u32, String), _>(bytes, bincode::config::standard()).map(|p| p.0)
}

/// Encode a command into its wire form; fails when the encoding is longer than
/// the command frame.
pub fn encode_command(cmd: &Command) -> (r: Result<Vec<u8>, CommandCodecError>)
    ensures
        r is Ok <==> cmd.encoding().len() <= COMMAND_FRAME_CAPACITY,
        r matches Ok(b) ==> b@ == cmd.encoding(),
        r matches Err(e) ==> e == CommandCodecError::Encode,
{
    let mut buf: Vec<u8> = Vec::new();
    let mut k: usize = 0;
    while k < COMMAND_FRAME_CAPACITY
        invariant
            k <= COMMAND_FRAME_CAPACITY,
            buf.len() == k,
        decreases COMMAND_FRAME_CAPACITY - k,
    {
        buf.push(0u8);
        k = k + 1;
    }
    let (tag, user): (u32, &String) = match cmd {
        Command::PubJoin(u) => (0, u),
        Command::PubLeft(u) => (1, u),
    };
    match bincode_encode_pair(tag, user.as_str(), &mut buf) {
        Ok(n) => {
            buf.truncate(n);
            Ok(buf)
        },
        Err(_) => Err(CommandCodecError::Encode),
    }
}

/// The command a decoded (tag, user) pair stands for: tag 0 is a join, tag 1 a
/// leave, and any other tag is refused.
pub open spec fn command_of(tag: u32, user: Seq<char>) -> Option<(u32, Seq<char>)> {
    if tag < 2 {
        Some((tag, user))
    } else {
        None
    }
}

/// Turn a decoded (tag, user) pair into a command.
pub fn command_of_pair(tag: u32, user: String) -> (r: Result<Command, CommandCodecError>)
    ensures
        r is Ok <==> command_of(tag, user@) is Some,
        r matches Ok(c) ==> command_of(tag, user@) == Some((c.tag(), c.user())),
        r matches Err(e) ==> e == CommandCodecError::Decode,
{
    if tag == 0 {
        Ok(Command::PubJoin(user))
    } else if tag == 1 {
        Ok(Command::PubLeft(user))
    } else {
        Err(CommandCodecError::Decode)
    }
}

/// Decode a command from its wire form: bytes whose declared text runs past
/// their end are refused without being decoded.  A command that
/// `encode_command` produced decodes to the same command.
pub fn decode_command(bytes: &[u8]) -> (r: Result<Command, CommandCodecError>)
    ensures
        r is Ok <==> (text_in_bounds(bytes@) && (bincode_pair_decoding(bytes@) matches Some(p)
            && p.0 < 2)),
        r matches Ok(c) ==> bincode_pair_decoding(bytes@) == Some((c.tag(), c.user())),
        r matches Err(e) ==> e == CommandCodecError::Decode,
        r is Err ==> forall|c: Command| bytes@ != #[trigger] c.encoding(),
        r matches Ok(d) ==> forall|c: Command|
            bytes@ == #[trigger] c.encoding() ==> d.tag() == c.tag() && d.user() == c.user(),
{
    let len = bytes.len();
    if !text_within_bytes(bytes) {
        proof {
            assert forall|c: Command| bytes@ != #[trigger] c.encoding() by {
                if bytes@ == c.encoding() {
                    reveal_with_fuel(pow256, 9);
                    assert(bytes@.len() == len);
                    assert(pow256(8) == 0x1_0000_0000_0000_0000);
                    lemma_encoding_in_bounds(c.tag(), c.user());
                }
            }
        }
        return Err(CommandCodecError::Decode);
    }
    match bincode_decode_pair(bytes) {
        Ok((tag, user)) => {
            let r = command_of_pair(tag, user);
            proof {
                if r is Err {
                    assert forall|c: Command| bytes@ != #[trigger] c.encoding() by {
                        if bytes@ == c.encoding() {
                            assert(bytes@ == tag_text_encoding(c.tag(), c.user()));
                        }
                    }
                }
            }
            r
        },
        Err(_) => {
            proof {
                assert forall|c: Command| bytes@ != #[trigger] c.encoding() by {
                    if bytes@ == c.encoding() {
                        assert(bytes@ == tag_text_encoding(c.tag(), c.user()));
                    }
                }
            }
            Err(CommandCodecError::Decode)
        },
    }
}

/// The message subject on which commands for `room` travel: `cmd.ROOM`.
pub open spec fn command_subject_text(room: Seq<char>) -> Seq<char> {
    "cmd."@ + room
}

/// The room named by a command subject: what follows its first `.`.
pub open spec fn room_of_subject(subject: Seq<char>) -> Option<Seq<char>> {
    match find_first(subject, "."@) {
        Some(i) => Some(subject.skip(i + 1)),
        None => None,
    }
}

/// Subject for cross-instance commands about `room`.
pub fn command_subject(room: &str) -> (r: String)
    ensures
        r@ == command_subject_text(room@),
{
    let mut r = String::from_str("cmd.");
    r.append(room);
    r
}

/// The room that a command subject names, or `None` when it holds no `.`.
pub fn room_from_command_subject(subject: &str) -> (r: Option<String>)
    ensures
        match r {
            Some(room) => room_of_subject(subject@) == Some(room@),
            None => room_of_subject(subject@) is None,
        },
{
    let s = chars_of(subject);
    let dot = chars_of(".");
    proof {
        reveal_strlit(".");
        assert(dot@.len() == 1);
    }
    match find_first_in(&s, &dot) {
        Some(i) => {
            let n = s.len();
            assert(occurs_at(s@, dot@, i as int));
            Some(substring(subject, i + 1, n))
        },
        None => None,
    }
}

/// Reading the room back from the subject a command for it was sent on gives
/// that room.
pub proof fn lemma_command_subject_round_trip(room: Seq<char>)
    ensures
        room_of_subject(command_subject_text(room)) == Some(room),
{
    reveal_strlit("cmd.");
    reveal_strlit(".");
    let s = command_subject_text(room);
    assert(s[0] == 'c' && s[1] == 'm' && s[2] == 'd' && s[3] == '.');
    assert(s.subrange(0, 1)[0] == 'c');
    assert(s.subrange(1, 2)[0] == 'm');
    assert(s.subrange(2, 3)[0] == 'd');
    assert(s.subrange(3, 4) =~= "."@);
    assert(find_from(s, "."@, 3) == Some(3int));
    assert(find_from(s, "."@, 2) == Some(3int));
    assert(find_from(s, "."@, 1) == Some(3int));
    assert(find_from(s, "."@, 0) == Some(3int));
    assert(s.skip(4) =~= room);
}

} // verus!
