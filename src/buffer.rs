//! A read cursor over received bytes, with the line and length reads that the
//! frame grammar is built from.
use vstd::prelude::*;
use vstd::utf8::*;

use crate::bufs::{buf_advance, buf_byte, buf_len, bytes_mut_contents};
use crate::decimal::{digits_value, is_digits, parse_decimal};
use crate::error::{RespError, RespErrorModel, RespResult};
use crate::text::decode_text;

verus! {

/// Carriage return, the first byte of a line end.
pub const CR: u8 = 13;

/// Line feed, the second byte of a line end.
pub const LF: u8 = 10;

/// The index of the first carriage return in `s`, or `s.len()` when there is
/// none.
pub open spec fn first_cr(s: Seq<u8>) -> nat
    decreases s.len(),
{
    if s.len() == 0 {
        0
    } else if s[0] == CR {
        0
    } else {
        1 + first_cr(s.drop_first())
    }
}

/// Reading one byte: the byte and what is left.
pub open spec fn read_byte(s: Seq<u8>) -> Result<(u8, Seq<u8>), RespErrorModel> {
    if s.len() == 0 {
        Err(RespErrorModel::EndOfStream)
    } else {
        Ok((s[0], s.drop_first()))
    }
}

/// Reading one line: the bytes before the first `\r`, which must be followed
/// by `\n`, and what is left after that line end.
pub open spec fn read_line(s: Seq<u8>) -> Result<(Seq<u8>, Seq<u8>), RespErrorModel> {
    let k = first_cr(s) as int;
    if k + 1 < s.len() && s[k + 1] == LF {
        Ok((s.take(k), s.skip(k + 2)))
    } else {
        Err(RespErrorModel::InvalidEnd)
    }
}

/// Reading one line that holds a non-negative decimal number.
pub open spec fn read_length(s: Seq<u8>) -> Result<(nat, Seq<u8>), RespErrorModel> {
    match read_line(s) {
        Err(e) => Err(e),
        Ok((line, rest)) => if is_digits(line) && digits_value(line) <= usize::MAX {
            Ok((digits_value(line), rest))
        } else if !valid_utf8(line) {
            Err(RespErrorModel::InvalidUtf8)
        } else {
            Err(RespErrorModel::InvalidTotalForArray(decode_utf8(line)))
        },
    }
}

/// Where a scan for `\r` stops is the first carriage return.
pub proof fn lemma_first_cr(s: Seq<u8>, i: int)
    requires
        0 <= i <= s.len(),
        forall|j: int| 0 <= j < i ==> #[trigger] s[j] != CR,
        i == s.len() || s[i] == CR,
    ensures
        first_cr(s) == i,
    decreases i,
{
    if i > 0 {
        let t = s.drop_first();
        assert forall|j: int| 0 <= j < i - 1 implies #[trigger] t[j] != CR by {
            assert(t[j] == s[j + 1]);
        }
        lemma_first_cr(t, i - 1);
    }
}

/// A cursor over received bytes; every read consumes what it reads.
pub struct RespBuffer(bytes::BytesMut);

impl View for RespBuffer {
    type V = Seq<u8>;

    closed spec fn view(&self) -> Seq<u8> {
        bytes_mut_contents(self.0)
    }
}

impl RespBuffer {
    /// A cursor at the start of `b`.
    pub fn new(b: bytes::BytesMut) -> (r: Self)
        ensures
            r@ == bytes_mut_contents(b),
    {
        RespBuffer(b)
    }

    /// Reads the next byte.
    pub fn get_u8(&mut self) -> (r: RespResult<u8>)
        ensures
            match read_byte(old(self)@) {
                Ok((b, rest)) => r == Ok::<u8, RespError>(b) && final(self)@ == rest,
                Err(e) => r is Err && r->Err_0@ == e && final(self)@ == old(self)@,
            },
    {
        if buf_len(&self.0) == 0 {
            return Err(RespError::EndOfStream);
        }
        let b = buf_byte(&self.0, 0);
        buf_advance(&mut self.0, 1);
        proof {
            assert(self@ =~= old(self)@.drop_first());
        }
        Ok(b)
    }

    /// Reads up to the next `\r\n` and returns the bytes before it.
    pub fn get_line(&mut self) -> (r: RespResult<Vec<u8>>)
        ensures
            match read_line(old(self)@) {
                Ok((line, rest)) => r is Ok && r->Ok_0@ == line && final(self)@ == rest,
                Err(e) => r is Err && r->Err_0@ == e && final(self)@ == old(self)@,
            },
    {
        let n = buf_len(&self.0);
        let mut line: Vec<u8> = Vec::new();
        let mut i: usize = 0;
        while i < n && buf_byte(&self.0, i) != CR
            invariant
                n == self@.len(),
                0 <= i <= n,
                line@ == self@.take(i as int),
                forall|j: int| 0 <= j < i ==> #[trigger] self@[j] != CR,
            decreases n - i,
        {
            line.push(buf_byte(&self.0, i));
            i = i + 1;
            assert(line@ =~= self@.take(i as int));
        }
        proof {
            lemma_first_cr(self@, i as int);
        }
        if n > 0 && i < n - 1 && buf_byte(&self.0, i + 1) == LF {
            buf_advance(&mut self.0, i + 2);
            assert(self@ =~= old(self)@.skip(i + 2));
            Ok(line)
        } else {
            Err(RespError::InvalidEnd)
        }
    }

    /// Reads a line holding a non-negative decimal number.
    pub fn get_int(&mut self) -> (r: RespResult<usize>)
        ensures
            match read_length(old(self)@) {
                Ok((n, rest)) => r == Ok::<usize, RespError>(n as usize) && final(self)@ == rest,
                Err(e) => r is Err && r->Err_0@ == e,
            },
            read_line(old(self)@) is Ok ==> final(self)@ == read_line(old(self)@)->Ok_0.1,
            read_line(old(self)@) is Err ==> final(self)@ == old(self)@,
    {
        let line = self.get_line()?;
        match parse_decimal(line.as_slice()) {
            Some(v) => {
                if v <= usize::MAX as u64 {
                    return Ok(v as usize);
                }
            },
            None => {},
        }
        match decode_text(line) {
            Some(t) => Err(RespError::InvalidTotalForArray(t)),
            None => Err(RespError::InvalidUtf8),
        }
    }
}

} // verus!
