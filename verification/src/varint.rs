//! The numbers and texts of a file header as bincode writes them with its
//! standard configuration: little-endian, with integers of variable length.

use vstd::prelude::*;

verus! {

/// The `width` low bytes of `value`, least significant first.
pub open spec fn le_bytes(value: nat, width: nat) -> Seq<u8>
    decreases width,
{
    if width == 0 {
        Seq::empty()
    } else {
        seq![(value % 256) as u8] + le_bytes(value / 256, (width - 1) as nat)
    }
}

/// The number that `bytes` stand for, least significant byte first.
pub open spec fn from_le_bytes(bytes: Seq<u8>) -> nat
    decreases bytes.len(),
{
    if bytes.len() == 0 {
        0
    } else {
        bytes[0] as nat + 256 * from_le_bytes(bytes.drop_first())
    }
}

/// An unsigned integer below 2^64 at variable length: one byte below 251,
/// else a marker byte and the value in two, four or eight bytes.
pub open spec fn varint(value: nat) -> Seq<u8> {
    if value < 251 {
        seq![value as u8]
    } else if value < 0x1_0000 {
        seq![251u8] + le_bytes(value, 2)
    } else if value < 0x1_0000_0000 {
        seq![252u8] + le_bytes(value, 4)
    } else {
        seq![253u8] + le_bytes(value, 8)
    }
}

/// The integer of variable length that starts `bytes`, and the number of
/// bytes it takes up; `widest` is the width in bytes of the integer type
/// read, four or eight. None where the bytes end too early or the marker
/// announces more than `widest` bytes.
pub open spec fn parse_varint(bytes: Seq<u8>, widest: int) -> Option<(nat, int)> {
    if bytes.len() < 1 {
        None
    } else if bytes[0] < 251 {
        Some((bytes[0] as nat, 1))
    } else if bytes[0] == 251 {
        if bytes.len() < 3 {
            None
        } else {
            Some((from_le_bytes(bytes.subrange(1, 3)), 3))
        }
    } else if bytes[0] == 252 {
        if bytes.len() < 5 {
            None
        } else {
            Some((from_le_bytes(bytes.subrange(1, 5)), 5))
        }
    } else if bytes[0] == 253 && widest >= 8 {
        if bytes.len() < 9 {
            None
        } else {
            Some((from_le_bytes(bytes.subrange(1, 9)), 9))
        }
    } else {
        None
    }
}

/// A text on the wire: the length of its UTF-8 form, then that form.
pub open spec fn text_bytes(text: Seq<char>) -> Seq<u8> {
    varint(vstd::utf8::encode_utf8(text).len()) + vstd::utf8::encode_utf8(text)
}

/// The most that one read of a text may claim, in bytes: eight for its
/// length and the rest for its bytes.
pub const TEXT_LIMIT: usize = 1024;

/// The text that starts `bytes`, and the number of bytes it takes up. None
/// where no length can be read, where eight bytes and the length together
/// are more than `TEXT_LIMIT`, where the bytes end before the text does, or
/// where the text is no UTF-8.
pub open spec fn parse_text(bytes: Seq<u8>) -> Option<(Seq<char>, int)> {
    match parse_varint(bytes, 8) {
        None => None,
        Some((len, used)) => {
            if 8 + len > TEXT_LIMIT || bytes.len() < used + len {
                None
            } else {
                let body = bytes.subrange(used, used + len);
                if vstd::utf8::valid_utf8(body) {
                    Some((vstd::utf8::decode_utf8(body), used + len))
                } else {
                    None
                }
            }
        },
    }
}

proof fn lemma_le_len(value: nat, width: nat)
    ensures
        le_bytes(value, width).len() == width,
    decreases width,
{
    if width > 0 {
        lemma_le_len(value / 256, (width - 1) as nat);
    }
}

spec fn pow256(width: nat) -> nat
    decreases width,
{
    if width == 0 {
        1
    } else {
        256 * pow256((width - 1) as nat)
    }
}

proof fn lemma_le_round_trip(value: nat, width: nat)
    requires
        value < pow256(width),
    ensures
        from_le_bytes(le_bytes(value, width)) == value,
    decreases width,
{
    if width > 0 {
        let rest = le_bytes(value / 256, (width - 1) as nat);
        let all = le_bytes(value, width);
        assert(all.drop_first() =~= rest);
        assert(value / 256 < pow256((width - 1) as nat)) by (nonlinear_arith)
            requires
                value < 256 * pow256((width - 1) as nat),
        ;
        lemma_le_round_trip(value / 256, (width - 1) as nat);
        assert(value == value % 256 + 256 * (value / 256)) by (nonlinear_arith);
    }
}

/// The length of a variable-length integer: one, three, five or nine
/// bytes.
pub proof fn law_varint_len(value: nat)
    ensures
        varint(value).len() == if value < 251 {
            1nat
        } else if value < 0x1_0000 {
            3nat
        } else if value < 0x1_0000_0000 {
            5nat
        } else {
            9nat
        },
{
    lemma_le_len(value, 2);
    lemma_le_len(value, 4);
    lemma_le_len(value, 8);
}

/// An integer reads back from its bytes, whatever follows them, as long as
/// the type read is wide enough for it.
pub proof fn law_varint_round_trip(value: nat, widest: int, rest: Seq<u8>)
    requires
        value <= u64::MAX,
        widest == 8 || (widest == 4 && value <= u32::MAX),
    ensures
        parse_varint(varint(value) + rest, widest) == Some((value, varint(value).len() as int)),
{
    let bytes = varint(value) + rest;
    lemma_le_len(value, 2);
    lemma_le_len(value, 4);
    lemma_le_len(value, 8);
    assert(pow256(2) == 0x1_0000 && pow256(4) == 0x1_0000_0000 && pow256(8)
        == 0x1_0000_0000_0000_0000) by {
        reveal_with_fuel(pow256, 9);
    }
    if value < 251 {
        assert(bytes[0] == value as u8);
    } else if value < 0x1_0000 {
        assert(bytes[0] == 251u8);
        assert(bytes.subrange(1, 3) =~= le_bytes(value, 2));
        lemma_le_round_trip(value, 2);
    } else if value < 0x1_0000_0000 {
        assert(bytes[0] == 252u8);
        assert(bytes.subrange(1, 5) =~= le_bytes(value, 4));
        lemma_le_round_trip(value, 4);
    } else {
        assert(bytes[0] == 253u8);
        assert(bytes.subrange(1, 9) =~= le_bytes(value, 8));
        lemma_le_round_trip(value, 8);
    }
}

/// A text whose UTF-8 form, with eight bytes for its length, stays within
/// `TEXT_LIMIT` reads back from its bytes, whatever follows them.
pub proof fn law_text_round_trip(text: Seq<char>, rest: Seq<u8>)
    requires
        8 + vstd::utf8::encode_utf8(text).len() <= TEXT_LIMIT,
    ensures
        parse_text(text_bytes(text) + rest) == Some((text, text_bytes(text).len() as int)),
{
    let body = vstd::utf8::encode_utf8(text);
    let len = body.len();
    let head = varint(len);
    let bytes = text_bytes(text) + rest;
    assert(bytes =~= head + (body + rest));
    law_varint_round_trip(len, 8, body + rest);
    law_varint_len(len);
    assert(bytes.subrange(head.len() as int, head.len() + len as int) =~= body);
    vstd::utf8::encode_utf8_valid_utf8(text);
    vstd::utf8::encode_utf8_decode_utf8(text);
}

} // verus!
