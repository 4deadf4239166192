use vstd::prelude::*;
use vstd::utf8::{encode_utf8, valid_utf8};
use vstd::string::StringSliceAdditionalSpecFns;

use super::message::SyncMessageType;

verus! {

/// Size of every frame that the server writes to a guest.
pub const FRAME_BYTE_SIZE: usize = 256;

/// Size of the frames that a guest writes to the server.
pub const QFLEX_MESSAGE_SIZE: usize = 8;

/// What a guest writes when it has spent its budget.
pub const QFLEX_END_OF_BUDGET_MESSAGE: &'static str = "DONE";

#[verifier::external_type_specification]
#[verifier::external_body]
pub struct ExEncodeError(bincode::error::EncodeError);

/// The `n` low bytes of `v`, least significant first.
pub open spec fn le_bytes(v: nat, n: nat) -> Seq<u8>
    decreases n,
{
    if n == 0 {
        Seq::empty()
    } else {
        seq![(v % 256) as u8] + le_bytes(v / 256, (n - 1) as nat)
    }
}

/// `bincode::encode_to_vec` of a `u32` under the wire configuration
/// (little endian, fixed-size integers). bincode writes such an integer as
/// its four bytes, least significant first (`u32::to_le_bytes`), and a
/// `Vec` writer never fails.
#[verifier::external_body]
fn bincode_u32(value: u32) -> (res: Result<Vec<u8>, bincode::error::EncodeError>)
    ensures
        res is Ok,
        res->Ok_0@ == le_bytes(value as nat, 4),
{
    bincode::encode_to_vec(
        value,
        bincode::config::standard().with_little_endian().with_fixed_int_encoding(),
    )
}

/// `bincode::encode_to_vec` of a `&str` under the wire configuration.
/// bincode writes a string as its byte length, a `u64` in eight bytes least
/// significant first, followed by its UTF-8 bytes; a `Vec` writer never fails.
#[verifier::external_body]
fn bincode_str(value: &str) -> (res: Result<Vec<u8>, bincode::error::EncodeError>)
    ensures
        res is Ok,
        res->Ok_0@ == le_bytes(value.spec_bytes().len(), 8) + value.spec_bytes(),
{
    bincode::encode_to_vec(
        value,
        bincode::config::standard().with_little_endian().with_fixed_int_encoding(),
    )
}

/// The position of each variant in the declaration of `SyncMessageType`,
/// which the wire format writes first.
pub open spec fn variant_index(message: SyncMessageType) -> u32 {
    match message {
        SyncMessageType::Null => 0,
        SyncMessageType::Stop => 1,
        SyncMessageType::Start => 2,
        SyncMessageType::Snap(_) => 3,
        SyncMessageType::NoFence => 4,
        SyncMessageType::Fence(_) => 5,
        SyncMessageType::Terminate => 6,
    }
}

/// The bytes of a message on the wire: its variant index as a `u32`, then
/// its field, if it has one.
pub open spec fn spec_encoding(message: SyncMessageType) -> Seq<u8> {
    le_bytes(variant_index(message) as nat, 4) + match message {
        SyncMessageType::Snap(dirname) => le_bytes(encode_utf8(dirname@).len(), 8) + encode_utf8(
            dirname@,
        ),
        SyncMessageType::Fence(budget) => le_bytes(budget as nat, 4),
        _ => Seq::empty(),
    }
}

/// A message fits in a frame when its encoding is at most one frame long.
pub open spec fn spec_fits_in_frame(message: SyncMessageType) -> bool {
    spec_encoding(message).len() <= FRAME_BYTE_SIZE
}

/// The frame that carries a message: its encoding, padded with zero bytes
/// to `FRAME_BYTE_SIZE`.
pub open spec fn spec_frame(message: SyncMessageType) -> Seq<u8> {
    spec_encoding(message) + Seq::new(
        (FRAME_BYTE_SIZE - spec_encoding(message).len()) as nat,
        |i: int| 0u8,
    )
}

proof fn lemma_le_bytes_len(v: nat, n: nat)
    ensures
        le_bytes(v, n).len() == n,
    decreases n,
{
    if n > 0 {
        lemma_le_bytes_len(v / 256, (n - 1) as nat);
    }
}

/// Tells whether `message` fits in one frame.
pub fn fits_in_frame(message: &SyncMessageType) -> (fits: bool)
    ensures
        fits == spec_fits_in_frame(*message),
{
    proof {
        lemma_le_bytes_len(variant_index(*message) as nat, 4);
        if let SyncMessageType::Fence(budget) = message {
            lemma_le_bytes_len(*budget as nat, 4);
        }
    }
    match message {
        SyncMessageType::Snap(dirname) => {
            let text = dirname.as_str();
            assert(text.spec_bytes() == encode_utf8(dirname@));
            let len = text.as_bytes().len();
            proof {
                lemma_le_bytes_len(encode_utf8(dirname@).len(), 8);
            }
            len <= FRAME_BYTE_SIZE - 12
        },
        _ => true,
    }
}

/// Moves the bytes of `bytes` to the end of `frame`.
fn append_bytes(frame: &mut Vec<u8>, bytes: Result<Vec<u8>, bincode::error::EncodeError>)
    requires
        bytes is Ok,
    ensures
        final(frame)@ == old(frame)@ + bytes->Ok_0@,
{
    match bytes {
        Ok(mut b) => frame.append(&mut b),
        Err(_) => {},
    }
}

/// Builds the frame that carries `message` to a guest.
pub fn encode_frame(message: &SyncMessageType) -> (frame: Vec<u8>)
    requires
        spec_fits_in_frame(*message),
    ensures
        frame@ == spec_frame(*message),
        frame@.len() == FRAME_BYTE_SIZE,
{
    let index: u32 = match message {
        SyncMessageType::Null => 0,
        SyncMessageType::Stop => 1,
        SyncMessageType::Start => 2,
        SyncMessageType::Snap(_) => 3,
        SyncMessageType::NoFence => 4,
        SyncMessageType::Fence(_) => 5,
        SyncMessageType::Terminate => 6,
    };
    let mut frame: Vec<u8> = Vec::new();
    append_bytes(&mut frame, bincode_u32(index));
    match message {
        SyncMessageType::Snap(dirname) => append_bytes(&mut frame, bincode_str(dirname.as_str())),
        SyncMessageType::Fence(budget) => append_bytes(&mut frame, bincode_u32(*budget)),
        _ => {},
    }
    assert(frame@ == spec_encoding(*message));
    let used = frame.len();
    while frame.len() < FRAME_BYTE_SIZE
        invariant
            used == spec_encoding(*message).len(),
            used <= frame@.len() <= FRAME_BYTE_SIZE,
            frame@ == spec_encoding(*message) + Seq::new((frame@.len() - used) as nat, |i: int| 0u8),
        decreases FRAME_BYTE_SIZE - frame.len(),
    {
        frame.push(0u8);
        assert(frame@ =~= spec_encoding(*message) + Seq::new((frame@.len() - used) as nat, |i: int| 0u8));
    }
    frame
}

/// `256^n`, the number of values that `n` bytes can hold.
pub open spec fn byte_range(n: nat) -> nat
    decreases n,
{
    if n == 0 {
        1
    } else {
        256 * byte_range((n - 1) as nat)
    }
}

/// Below `256^n`, a value is determined by its `n` low bytes.
proof fn lemma_le_bytes_injective(a: nat, b: nat, n: nat)
    requires
        a < byte_range(n),
        b < byte_range(n),
        le_bytes(a, n) == le_bytes(b, n),
    ensures
        a == b,
    decreases n,
{
    if n > 0 {
        let r = byte_range((n - 1) as nat);
        assert(le_bytes(a, n)[0] == le_bytes(b, n)[0]);
        assert(le_bytes(a / 256, (n - 1) as nat) =~= le_bytes(a, n).drop_first());
        assert(le_bytes(b / 256, (n - 1) as nat) =~= le_bytes(b, n).drop_first());
        assert(a / 256 < r && b / 256 < r) by (nonlinear_arith)
            requires
                a < 256 * r,
                b < 256 * r,
        ;
        lemma_le_bytes_injective(a / 256, b / 256, (n - 1) as nat);
        assert(le_bytes(a, n)[0] == (a % 256) as u8);
        assert(le_bytes(b, n)[0] == (b % 256) as u8);
        assert(a % 256 == b % 256);
        assert(a == 256 * (a / 256) + a % 256);
        assert(b == 256 * (b / 256) + b % 256);
    }
}

/// Two messages are the same message: same variant, same field.
pub open spec fn same_message(m1: SyncMessageType, m2: SyncMessageType) -> bool {
    &&& variant_index(m1) == variant_index(m2)
    &&& (m1 matches SyncMessageType::Snap(a) ==> (m2 matches SyncMessageType::Snap(b) && a@ == b@))
    &&& (m1 matches SyncMessageType::Fence(x) ==> (m2 matches SyncMessageType::Fence(y) && x == y))
}

/// A frame determines the message it carries: distinct messages are sent
/// in distinct frames.
pub proof fn law_frame_determines_message(m1: SyncMessageType, m2: SyncMessageType)
    requires
        spec_fits_in_frame(m1),
        spec_fits_in_frame(m2),
        spec_frame(m1) == spec_frame(m2),
    ensures
        same_message(m1, m2),
{
    let f = spec_frame(m1);
    lemma_le_bytes_len(variant_index(m1) as nat, 4);
    lemma_le_bytes_len(variant_index(m2) as nat, 4);
    assert(byte_range(4) == 4294967296) by {
        reveal_with_fuel(byte_range, 5);
    }
    assert(byte_range(8) == 18446744073709551616) by {
        reveal_with_fuel(byte_range, 9);
    }
    assert(f.subrange(0, 4) =~= le_bytes(variant_index(m1) as nat, 4));
    assert(spec_frame(m2).subrange(0, 4) =~= le_bytes(variant_index(m2) as nat, 4));
    lemma_le_bytes_injective(variant_index(m1) as nat, variant_index(m2) as nat, 4);
    match m1 {
        SyncMessageType::Fence(x) => {
            let y = m2->Fence_0;
            lemma_le_bytes_len(x as nat, 4);
            lemma_le_bytes_len(y as nat, 4);
            assert(f.subrange(4, 8) =~= le_bytes(x as nat, 4));
            assert(spec_frame(m2).subrange(4, 8) =~= le_bytes(y as nat, 4));
            lemma_le_bytes_injective(x as nat, y as nat, 4);
        },
        SyncMessageType::Snap(a) => {
            let b = m2->Snap_0;
            let ea = encode_utf8(a@);
            let eb = encode_utf8(b@);
            lemma_le_bytes_len(ea.len(), 8);
            lemma_le_bytes_len(eb.len(), 8);
            assert(f.subrange(4, 12) =~= le_bytes(ea.len(), 8));
            assert(spec_frame(m2).subrange(4, 12) =~= le_bytes(eb.len(), 8));
            lemma_le_bytes_injective(ea.len(), eb.len(), 8);
            assert(f.subrange(12, 12 + ea.len() as int) =~= ea);
            assert(spec_frame(m2).subrange(12, 12 + eb.len() as int) =~= eb);
            vstd::utf8::encode_utf8_decode_utf8(a@);
            vstd::utf8::encode_utf8_decode_utf8(b@);
        },
        _ => {},
    }
}

/// What a frame read from a guest means.
#[derive(Debug, Clone, Copy, PartialEq, Eq)]
pub enum FrameKind {
    /// Nothing was received: the first byte is zero.
    Empty,
    /// The guest has spent its budget: the text holds `QFLEX_END_OF_BUDGET_MESSAGE`.
    EndOfBudget,
    /// Any other well-formed text.
    Other,
    /// The bytes are not UTF-8, which the server does not accept.
    Malformed,
}

/// `std::str::from_utf8`: its result is `Ok` exactly when the bytes are
/// well-formed UTF-8, and the string it gives back has those bytes.
#[verifier::external_body]
fn utf8_str(bytes: &[u8]) -> (res: Option<&str>)
    ensures
        res is Some <==> valid_utf8(bytes@),
        res matches Some(s) ==> s.spec_bytes() == bytes@,
{
    std::str::from_utf8(bytes).ok()
}

/// The bytes of `pattern` stand in `bytes` at position `at`.
pub open spec fn occurs_at(bytes: Seq<u8>, pattern: Seq<u8>, at: int) -> bool {
    &&& 0 <= at
    &&& at + pattern.len() <= bytes.len()
    &&& bytes.subrange(at, at + pattern.len()) == pattern
}

/// The bytes of `pattern` stand somewhere in `bytes`.
pub open spec fn contains_bytes(bytes: Seq<u8>, pattern: Seq<u8>) -> bool {
    exists|at: int| occurs_at(bytes, pattern, at)
}

/// The bytes of the end-of-budget marker.
pub open spec fn end_of_budget_bytes() -> Seq<u8> {
    seq![68u8, 79u8, 78u8, 69u8]
}

/// The meaning of a frame read from a guest.
pub open spec fn spec_frame_kind(frame: Seq<u8>) -> FrameKind {
    if frame[0] == 0 {
        FrameKind::Empty
    } else if !valid_utf8(frame) {
        FrameKind::Malformed
    } else if contains_bytes(frame, end_of_budget_bytes()) {
        FrameKind::EndOfBudget
    } else {
        FrameKind::Other
    }
}

/// A guest has spent its budget exactly when its frame is not empty, is
/// UTF-8, and holds the four bytes `D`, `O`, `N`, `E` one after the other,
/// wherever they stand in the frame and whatever follows them.
pub proof fn law_done_anywhere_ends_the_budget(frame: Seq<u8>)
    requires
        frame.len() > 0,
    ensures
        (spec_frame_kind(frame) == FrameKind::EndOfBudget) <==> (frame[0] != 0 && valid_utf8(frame)
            && exists|at: int|
            0 <= at && at + 4 <= frame.len() && #[trigger] frame.subrange(at, at + 4) == seq![
                68u8,
                79u8,
                78u8,
                69u8,
            ]),
        (spec_frame_kind(frame) == FrameKind::Empty) <==> frame[0] == 0,
        (spec_frame_kind(frame) == FrameKind::Malformed) <==> (frame[0] != 0 && !valid_utf8(frame)),
{
    let done = seq![68u8, 79u8, 78u8, 69u8];
    assert(end_of_budget_bytes() == done);
    if exists|at: int| 0 <= at && at + 4 <= frame.len() && #[trigger] frame.subrange(at, at + 4) == done {
        let at = choose|at: int| 0 <= at && at + 4 <= frame.len() && #[trigger] frame.subrange(at, at + 4) == done;
        assert(occurs_at(frame, end_of_budget_bytes(), at));
    }
    if contains_bytes(frame, end_of_budget_bytes()) {
        let at = choose|at: int| occurs_at(frame, end_of_budget_bytes(), at);
        assert(frame.subrange(at, at + 4) == done);
    }
}

/// Tells whether `pattern` occurs in `bytes`.
fn find_bytes(bytes: &[u8], pattern: &[u8]) -> (found: bool)
    ensures
        found == contains_bytes(bytes@, pattern@),
{
    if pattern.len() > bytes.len() {
        assert forall|at: int| !occurs_at(bytes@, pattern@, at) by {}
        return false;
    }
    if pattern.len() == 0 {
        assert(bytes@.subrange(0, 0) =~= pattern@);
        assert(occurs_at(bytes@, pattern@, 0));
        return true;
    }
    let n = bytes.len();
    let last = n - pattern.len();
    let mut at: usize = 0;
    while at <= last
        invariant
            n == bytes@.len(),
            last == n - pattern@.len(),
            0 < pattern@.len() <= bytes@.len(),
            forall|a: int| 0 <= a < at ==> !occurs_at(bytes@, pattern@, a),
        decreases last + 1 - at,
    {
        let mut j: usize = 0;
        let mut same = true;
        while j < pattern.len()
            invariant
                at <= last,
                n == bytes@.len(),
                last == n - pattern@.len(),
                0 < pattern@.len() <= bytes@.len(),
                j <= pattern@.len(),
                same == forall|k: int| 0 <= k < j ==> bytes@[at + k] == pattern@[k],
            decreases pattern.len() - j,
        {
            if bytes[at + j] != pattern[j] {
                same = false;
            }
            j = j + 1;
        }
        if same {
            assert(bytes@.subrange(at as int, at + pattern@.len()) =~= pattern@);
            assert(occurs_at(bytes@, pattern@, at as int));
            return true;
        }
        assert(!occurs_at(bytes@, pattern@, at as int)) by {
            if occurs_at(bytes@, pattern@, at as int) {
                let k = choose|k: int| 0 <= k < pattern@.len() && bytes@[at + k] != pattern@[k];
                assert(bytes@.subrange(at as int, at + pattern@.len())[k] == pattern@[k]);
            }
        }
        at = at + 1;
    }
    assert forall|a: int| !occurs_at(bytes@, pattern@, a) by {
        if occurs_at(bytes@, pattern@, a) {
            assert(a < at);
        }
    }
    false
}

/// Reads the meaning of a frame received from a guest.
pub fn classify_frame(frame: &[u8]) -> (kind: FrameKind)
    requires
        frame@.len() > 0,
    ensures
        kind == spec_frame_kind(frame@),
{
    if frame[0] == 0 {
        return FrameKind::Empty;
    }
    match utf8_str(frame) {
        None => FrameKind::Malformed,
        Some(text) => {
            let marker = QFLEX_END_OF_BUDGET_MESSAGE.as_bytes();
            proof {
                reveal_strlit("DONE");
                vstd::string::is_ascii_spec_bytes(QFLEX_END_OF_BUDGET_MESSAGE);
                assert(marker@ =~= end_of_budget_bytes());
            }
            if find_bytes(text.as_bytes(), marker) {
                FrameKind::EndOfBudget
            } else {
                FrameKind::Other
            }
        },
    }
}

} // verus!
