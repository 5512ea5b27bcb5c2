//! Laws of the frame grammar: reading back what the encoder writes, and
//! rejecting a bulk string whose length is wrong.
use vstd::prelude::*;
use vstd::utf8::*;

use crate::buffer::{lemma_first_cr, read_byte, read_length, read_line, CR};
use crate::decimal::{decimal, is_digit, lemma_decimal_digits};
use crate::error::RespErrorModel;
use crate::frame::{
    crlf, elements_bytes, frame_bytes, lemma_elements_bytes_prefix, parse_element, parse_elements, read_bulk, read_error,
    read_integer, read_simple, read_text, FrameModel, RespFrame,
};

verus! {

/// No carriage return among the bytes.
pub open spec fn no_cr(b: Seq<u8>) -> bool {
    forall|i: int| 0 <= i < b.len() ==> #[trigger] b[i] != CR
}

/// A frame that the grammar can carry: no null, no carriage return in its
/// text, and every number and length within `usize`.
pub open spec fn wire_safe(f: FrameModel) -> bool
    decreases f,
{
    match f {
        FrameModel::Simple(s) => no_cr(encode_utf8(s)),
        FrameModel::Error(s) => no_cr(encode_utf8(s)),
        FrameModel::Integer(n) => n <= usize::MAX,
        FrameModel::Bulk(s) => no_cr(encode_utf8(s)) && encode_utf8(s).len() <= usize::MAX,
        FrameModel::Null => false,
        FrameModel::Array(xs) => xs.len() <= usize::MAX && forall|i: int|
            0 <= i < xs.len() ==> wire_safe(#[trigger] xs[i]),
    }
}

proof fn lemma_read_line(b: Seq<u8>, rest: Seq<u8>)
    requires
        no_cr(b),
    ensures
        read_line(b + crlf() + rest) == Ok::<(Seq<u8>, Seq<u8>), RespErrorModel>((b, rest)),
{
    let s = b + crlf() + rest;
    assert forall|j: int| 0 <= j < b.len() implies #[trigger] s[j] != CR by {
        assert(s[j] == b[j]);
    }
    lemma_first_cr(s, b.len() as int);
    assert(s.take(b.len() as int) =~= b);
    assert(s.skip(b.len() as int + 2) =~= rest);
}

proof fn lemma_read_length(n: nat, rest: Seq<u8>)
    requires
        n <= usize::MAX,
    ensures
        read_length(decimal(n) + crlf() + rest) == Ok::<(nat, Seq<u8>), RespErrorModel>((n, rest)),
{
    let d = decimal(n);
    lemma_decimal_digits(n);
    assert forall|i: int| 0 <= i < d.len() implies #[trigger] d[i] != CR by {
        assert(is_digit(d[i]));
    }
    lemma_read_line(d, rest);
}

proof fn lemma_read_text(t: Seq<char>, rest: Seq<u8>)
    requires
        no_cr(encode_utf8(t)),
    ensures
        read_text(encode_utf8(t) + crlf() + rest) == Ok::<(Seq<char>, Seq<u8>), RespErrorModel>(
            (t, rest),
        ),
{
    lemma_read_line(encode_utf8(t), rest);
    encode_utf8_valid_utf8(t);
    encode_utf8_decode_utf8(t);
}

proof fn lemma_elements_front(xs: Seq<FrameModel>)
    requires
        xs.len() > 0,
    ensures
        elements_bytes(xs) == frame_bytes(xs[0]) + elements_bytes(xs.drop_first()),
    decreases xs.len(),
{
    if xs.len() == 1 {
        assert(xs.drop_last() =~= Seq::<FrameModel>::empty());
        assert(xs.drop_first() =~= Seq::<FrameModel>::empty());
        assert(elements_bytes(xs.drop_last()) == Seq::<u8>::empty());
        assert(elements_bytes(xs.drop_first()) == Seq::<u8>::empty());
        assert(elements_bytes(xs) =~= frame_bytes(xs[0]));
    } else {
        lemma_elements_front(xs.drop_last());
        assert(xs.drop_last().drop_first() =~= xs.drop_first().drop_last());
        assert(xs.drop_first().last() == xs.last());
        assert(elements_bytes(xs) =~= frame_bytes(xs[0]) + elements_bytes(xs.drop_first()));
    }
}

proof fn lemma_frame_round_trip(f: FrameModel, rest: Seq<u8>)
    requires
        wire_safe(f),
    ensures
        parse_element(frame_bytes(f) + rest) == Ok::<(FrameModel, Seq<u8>), RespErrorModel>(
            (f, rest),
        ),
    decreases f, 0nat,
{
    let s = frame_bytes(f) + rest;
    match f {
        FrameModel::Simple(t) => {
            assert(read_byte(s) == Ok::<(u8, Seq<u8>), RespErrorModel>(
                (43u8, encode_utf8(t) + crlf() + rest),
            )) by {
                assert(s.drop_first() =~= encode_utf8(t) + crlf() + rest);
            }
            lemma_read_text(t, rest);
            assert(read_simple(encode_utf8(t) + crlf() + rest) == Ok::<
                (FrameModel, Seq<u8>),
                RespErrorModel,
            >((f, rest)));
        },
        FrameModel::Error(t) => {
            assert(read_byte(s) == Ok::<(u8, Seq<u8>), RespErrorModel>(
                (45u8, encode_utf8(t) + crlf() + rest),
            )) by {
                assert(s.drop_first() =~= encode_utf8(t) + crlf() + rest);
            }
            lemma_read_text(t, rest);
            assert(read_error(encode_utf8(t) + crlf() + rest) == Ok::<
                (FrameModel, Seq<u8>),
                RespErrorModel,
            >((f, rest)));
        },
        FrameModel::Integer(n) => {
            assert(read_byte(s) == Ok::<(u8, Seq<u8>), RespErrorModel>(
                (58u8, decimal(n) + crlf() + rest),
            )) by {
                assert(s.drop_first() =~= decimal(n) + crlf() + rest);
            }
            lemma_read_length(n, rest);
            assert(read_integer(decimal(n) + crlf() + rest) == Ok::<
                (FrameModel, Seq<u8>),
                RespErrorModel,
            >((f, rest)));
        },
        FrameModel::Bulk(t) => {
            let b = encode_utf8(t);
            let tail = b + crlf() + rest;
            assert(read_byte(s) == Ok::<(u8, Seq<u8>), RespErrorModel>(
                (36u8, decimal(b.len()) + crlf() + tail),
            )) by {
                assert(s.drop_first() =~= decimal(b.len()) + crlf() + tail);
            }
            lemma_read_length(b.len(), tail);
            lemma_read_line(b, rest);
            encode_utf8_valid_utf8(t);
            encode_utf8_decode_utf8(t);
            assert(read_bulk(decimal(b.len()) + crlf() + tail) == Ok::<
                (FrameModel, Seq<u8>),
                RespErrorModel,
            >((f, rest)));
        },
        FrameModel::Null => {},
        FrameModel::Array(xs) => {
            let tail = elements_bytes(xs) + rest;
            assert(read_byte(s) == Ok::<(u8, Seq<u8>), RespErrorModel>(
                (42u8, decimal(xs.len()) + crlf() + tail),
            )) by {
                assert(s.drop_first() =~= decimal(xs.len()) + crlf() + tail);
            }
            lemma_read_length(xs.len(), tail);
            lemma_elements_round_trip(xs, rest);
        },
    }
}

proof fn lemma_elements_round_trip(xs: Seq<FrameModel>, rest: Seq<u8>)
    requires
        forall|i: int| 0 <= i < xs.len() ==> wire_safe(#[trigger] xs[i]),
    ensures
        parse_elements(elements_bytes(xs) + rest, xs.len()) == Ok::<
            (Seq<FrameModel>, Seq<u8>),
            RespErrorModel,
        >((xs, rest)),
    decreases xs, 1nat,
{
    if xs.len() == 0 {
        assert(elements_bytes(xs) + rest =~= rest);
        assert(xs =~= Seq::<FrameModel>::empty());
    } else {
        let tail = xs.drop_first();
        lemma_elements_front(xs);
        let after = elements_bytes(tail) + rest;
        assert(elements_bytes(xs) + rest =~= frame_bytes(xs[0]) + after);
        assert(decreases_to!(xs => xs[0]));
        lemma_frame_round_trip(xs[0], after);
        assert(frame_bytes(xs[0]).len() > 0) by {
            reveal_with_fuel(frame_bytes, 1);
        }
        assert forall|i: int| 0 <= i < tail.len() implies wire_safe(#[trigger] tail[i]) by {
            assert(tail[i] == xs[i + 1]);
        }
        lemma_elements_round_trip(tail, rest);
        assert(seq![xs[0]] + tail =~= xs);
    }
}

/// A bulk string whose declared length differs from the byte length of its
/// payload is refused with an error that carries both, not cut to fit.
pub proof fn lemma_bulk_length_mismatch(n: nat, t: Seq<char>, rest: Seq<u8>)
    requires
        n <= usize::MAX,
        no_cr(encode_utf8(t)),
        n != encode_utf8(t).len(),
    ensures
        parse_element(seq![36u8] + decimal(n) + crlf() + encode_utf8(t) + crlf() + rest) == Err::<
            (FrameModel, Seq<u8>),
            RespErrorModel,
        >(RespErrorModel::InvalidCharsInBulkString(n, t)),
{
    let b = encode_utf8(t);
    let tail = b + crlf() + rest;
    let s = seq![36u8] + decimal(n) + crlf() + b + crlf() + rest;
    assert(read_byte(s) == Ok::<(u8, Seq<u8>), RespErrorModel>((36u8, decimal(n) + crlf() + tail)))
        by {
        assert(s.drop_first() =~= decimal(n) + crlf() + tail);
    }
    lemma_read_length(n, tail);
    lemma_read_line(b, rest);
    encode_utf8_valid_utf8(t);
    encode_utf8_decode_utf8(t);
}

/// A frame with no null and no carriage return in its text, at any depth.
pub open spec fn carriable(f: FrameModel) -> bool
    decreases f,
{
    match f {
        FrameModel::Simple(s) => no_cr(encode_utf8(s)),
        FrameModel::Error(s) => no_cr(encode_utf8(s)),
        FrameModel::Integer(_) => true,
        FrameModel::Bulk(s) => no_cr(encode_utf8(s)),
        FrameModel::Null => false,
        FrameModel::Array(xs) => forall|i: int| 0 <= i < xs.len() ==> carriable(#[trigger] xs[i]),
    }
}

proof fn lemma_elements_bytes_len(xs: Seq<FrameModel>)
    ensures
        elements_bytes(xs).len() >= xs.len(),
    decreases xs.len(),
{
    if xs.len() > 0 {
        lemma_elements_bytes_len(xs.drop_last());
        assert(frame_bytes(xs.last()).len() >= 1);
    }
}

proof fn lemma_carriable_is_wire_safe(f: RespFrame)
    requires
        carriable(f@),
        frame_bytes(f@).len() <= usize::MAX,
    ensures
        wire_safe(f@),
    decreases f,
{
    match f {
        RespFrame::Array(arr) => {
            let xs = f@->Array_0;
            assert(xs.len() == arr@.len());
            lemma_elements_bytes_len(xs);
            assert(frame_bytes(f@) == seq![42u8] + decimal(xs.len()) + crlf() + elements_bytes(xs));
            assert forall|i: int| 0 <= i < xs.len() implies wire_safe(#[trigger] xs[i]) by {
                lemma_elements_bytes_prefix(xs, i + 1);
                assert(xs.take(i + 1).drop_last() =~= xs.take(i));
                assert(xs.take(i + 1).last() == xs[i]);
                assert(xs[i] == arr@[i]@);
                assert(decreases_to!(f => f->Array_0));
                assert(decreases_to!(f->Array_0 => f->Array_0@));
                assert(decreases_to!(arr@ => arr@[i]));
                lemma_carriable_is_wire_safe(arr@[i]);
            }
        },
        RespFrame::Bulk(s) => {
            assert(frame_bytes(f@).len() >= encode_utf8(s@).len());
        },
        _ => {},
    }
}

/// Reading back the encoding of a frame gives that frame, and leaves the bytes
/// that followed it untouched, for every frame with no null and no carriage
/// return in its text whose encoding fits in memory.
pub proof fn lemma_round_trip(f: RespFrame, rest: Seq<u8>)
    requires
        carriable(f@),
        frame_bytes(f@).len() <= isize::MAX,
    ensures
        parse_element(frame_bytes(f@) + rest) == Ok::<(FrameModel, Seq<u8>), RespErrorModel>(
            (f@, rest),
        ),
{
    lemma_carriable_is_wire_safe(f);
    lemma_frame_round_trip(f@, rest);
}

} // verus!
