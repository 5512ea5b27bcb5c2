//! Frames of the wire protocol: their model, their encoding and their parser.
use vstd::prelude::*;
use vstd::utf8::*;

use crate::buffer::{read_byte, read_length, read_line, RespBuffer};
use crate::bufs::{buf_extend, buf_freeze, buf_new, bytes_contents, bytes_mut_contents};
use crate::decimal::{decimal, write_decimal};
use crate::error::{RespError, RespErrorModel, RespResult};
use crate::text::{ascii_text, char_string, decimal_string, decode_text};

verus! {

/// One unit of the wire protocol.
#[derive(Debug, PartialEq)]
pub enum RespFrame {
    Simple(String),
    Error(String),
    Integer(usize),
    Bulk(String),
    Null,
    Array(Vec<RespFrame>),
}

/// The mathematical value of a [`RespFrame`].
pub enum FrameModel {
    Simple(Seq<char>),
    Error(Seq<char>),
    Integer(nat),
    Bulk(Seq<char>),
    Null,
    Array(Seq<FrameModel>),
}

/// The model of a frame, read through its nested arrays.
pub open spec fn frame_view(f: RespFrame) -> FrameModel
    decreases f,
{
    match f {
        RespFrame::Simple(s) => FrameModel::Simple(s@),
        RespFrame::Error(s) => FrameModel::Error(s@),
        RespFrame::Integer(n) => FrameModel::Integer(n as nat),
        RespFrame::Bulk(s) => FrameModel::Bulk(s@),
        RespFrame::Null => FrameModel::Null,
        RespFrame::Array(v) => FrameModel::Array(
            Seq::new(
                v@.len(),
                |i: int|
                    if 0 <= i < v@.len() {
                        frame_view(v@[i])
                    } else {
                        FrameModel::Null
                    },
            ),
        ),
    }
}

impl View for RespFrame {
    type V = FrameModel;

    open spec fn view(&self) -> FrameModel {
        frame_view(*self)
    }
}

/// The text of the error sent in place of a reply too large to encode.
pub open spec fn too_large_text() -> Seq<char> {
    "response too large"@
}

/// The line end `\r\n`.
pub open spec fn crlf() -> Seq<u8> {
    seq![13u8, 10u8]
}

/// The encoding of a null bulk string, `$-1\r\n`.
pub open spec fn null_bytes() -> Seq<u8> {
    seq![36u8, 45u8, 49u8, 13u8, 10u8]
}

/// The wire encoding of a frame.
pub open spec fn frame_bytes(f: FrameModel) -> Seq<u8>
    decreases f,
{
    match f {
        FrameModel::Simple(s) => seq![43u8] + encode_utf8(s) + crlf(),
        FrameModel::Error(s) => seq![45u8] + encode_utf8(s) + crlf(),
        FrameModel::Integer(n) => seq![58u8] + decimal(n) + crlf(),
        FrameModel::Bulk(s) => seq![36u8] + decimal(encode_utf8(s).len()) + crlf() + encode_utf8(
            s,
        ) + crlf(),
        FrameModel::Null => null_bytes(),
        FrameModel::Array(xs) => seq![42u8] + decimal(xs.len()) + crlf() + elements_bytes(xs),
    }
}

/// The encodings of a sequence of frames, one after the other.
pub open spec fn elements_bytes(xs: Seq<FrameModel>) -> Seq<u8>
    decreases xs,
{
    if xs.len() == 0 {
        Seq::empty()
    } else {
        elements_bytes(xs.drop_last()) + frame_bytes(xs.last())
    }
}

/// The encodings of the first `i` frames are no longer than those of all.
pub proof fn lemma_elements_bytes_prefix(xs: Seq<FrameModel>, i: int)
    requires
        0 <= i <= xs.len(),
    ensures
        elements_bytes(xs.take(i)).len() <= elements_bytes(xs).len(),
    decreases xs.len(),
{
    if i < xs.len() {
        lemma_elements_bytes_prefix(xs.drop_last(), i);
        assert(xs.drop_last().take(i) =~= xs.take(i));
    } else {
        assert(xs.take(i) =~= xs);
    }
}

fn decimal_len(n: u64) -> (r: u64)
    ensures
        r == decimal(n as nat).len(),
        r <= n / 10 + 1,
    decreases n,
{
    if n < 10 {
        1
    } else {
        decimal_len(n / 10) + 1
    }
}

fn write_crlf(b: &mut bytes::BytesMut)
    requires
        bytes_mut_contents(*old(b)).len() + 2 <= isize::MAX,
    ensures
        bytes_mut_contents(*final(b)) == bytes_mut_contents(*old(b)) + crlf(),
{
    let end: [u8; 2] = [13u8, 10u8];
    buf_extend(b, end.as_slice());
    assert(end@ =~= crlf());
}

fn write_sigil(b: &mut bytes::BytesMut, c: u8)
    requires
        bytes_mut_contents(*old(b)).len() + 1 <= isize::MAX,
    ensures
        bytes_mut_contents(*final(b)) == bytes_mut_contents(*old(b)) + seq![c],
{
    let one: [u8; 1] = [c];
    buf_extend(b, one.as_slice());
    assert(one@ =~= seq![c]);
}

fn write_number(b: &mut bytes::BytesMut, n: usize)
    requires
        bytes_mut_contents(*old(b)).len() + decimal(n as nat).len() <= isize::MAX,
    ensures
        bytes_mut_contents(*final(b)) == bytes_mut_contents(*old(b)) + decimal(n as nat),
{
    let mut digits: Vec<u8> = Vec::new();
    write_decimal(n as u64, &mut digits);
    assert(digits@ =~= decimal(n as nat));
    buf_extend(b, digits.as_slice());
}

/// Reading one line of text, as a simple string or an error carries it.
pub open spec fn read_text(s: Seq<u8>) -> Result<(Seq<char>, Seq<u8>), RespErrorModel> {
    match read_line(s) {
        Err(e) => Err(e),
        Ok((line, rest)) => if valid_utf8(line) {
            Ok((decode_utf8(line), rest))
        } else {
            Err(RespErrorModel::InvalidUtf8)
        },
    }
}

/// Reading the body of a simple string, after its `+`.
pub open spec fn read_simple(s: Seq<u8>) -> Result<(FrameModel, Seq<u8>), RespErrorModel> {
    match read_text(s) {
        Err(e) => Err(e),
        Ok((text, rest)) => Ok((FrameModel::Simple(text), rest)),
    }
}

/// Reading the body of an error, after its `-`.
pub open spec fn read_error(s: Seq<u8>) -> Result<(FrameModel, Seq<u8>), RespErrorModel> {
    match read_text(s) {
        Err(e) => Err(e),
        Ok((text, rest)) => Ok((FrameModel::Error(text), rest)),
    }
}

/// Reading the body of an integer, after its `:`.
pub open spec fn read_integer(s: Seq<u8>) -> Result<(FrameModel, Seq<u8>), RespErrorModel> {
    match read_length(s) {
        Err(e) => Err(e),
        Ok((n, rest)) => Ok((FrameModel::Integer(n), rest)),
    }
}

/// Reading the body of a bulk string, after its `$`.
pub open spec fn read_bulk(s: Seq<u8>) -> Result<(FrameModel, Seq<u8>), RespErrorModel> {
    match read_length(s) {
        Err(e) => Err(e),
        Ok((n, rest)) => match read_line(rest) {
            Err(e) => Err(e),
            Ok((line, rest2)) => if !valid_utf8(line) {
                Err(RespErrorModel::InvalidUtf8)
            } else if n != line.len() {
                Err(RespErrorModel::InvalidCharsInBulkString(n, decode_utf8(line)))
            } else {
                Ok((FrameModel::Bulk(decode_utf8(line)), rest2))
            },
        },
    }
}

/// The text of the error for a byte that starts no frame kind.
pub open spec fn invalid_start_text(c: u8) -> Seq<char> {
    "Invalid Start: "@ + seq![c as char]
}

/// Reading one frame of any kind from the start of `s`: the frame and what is
/// left after it.
pub open spec fn parse_element(s: Seq<u8>) -> Result<(FrameModel, Seq<u8>), RespErrorModel>
    decreases s.len(), 0nat, 0nat,
{
    match read_byte(s) {
        Err(e) => Err(e),
        Ok((c, t)) => if c == 43 {
            read_simple(t)
        } else if c == 45 {
            read_error(t)
        } else if c == 58 {
            read_integer(t)
        } else if c == 36 {
            read_bulk(t)
        } else if c == 42 {
            parse_array_body(t)
        } else {
            Err(RespErrorModel::ParseError(invalid_start_text(c)))
        },
    }
}

/// Reading the body of an array, after its `*`: the element count, then that
/// many frames.
pub open spec fn parse_array_body(s: Seq<u8>) -> Result<(FrameModel, Seq<u8>), RespErrorModel>
    decreases s.len(), 0nat, 0nat,
{
    match read_length(s) {
        Err(e) => Err(e),
        Ok((n, rest)) => match parse_elements(rest, n) {
            Err(e) => Err(e),
            Ok((xs, rest2)) => Ok((FrameModel::Array(xs), rest2)),
        },
    }
}

/// Reading `n` frames one after the other.
pub open spec fn parse_elements(s: Seq<u8>, n: nat) -> Result<
    (Seq<FrameModel>, Seq<u8>),
    RespErrorModel,
>
    decreases s.len(), 1nat, n,
{
    if n == 0 {
        Ok((Seq::empty(), s))
    } else {
        match parse_element(s) {
            Err(e) => Err(e),
            Ok((f, rest)) => if rest.len() < s.len() {
                match parse_elements(rest, (n - 1) as nat) {
                    Err(e) => Err(e),
                    Ok((fs, rest2)) => Ok((seq![f] + fs, rest2)),
                }
            } else {
                Err(RespErrorModel::EndOfStream)
            },
        }
    }
}

/// The text of the error frame for a command that does not start with `*`.
pub open spec fn invalid_command_start_text(c: u8) -> Seq<char> {
    "Invalid start for command: \'"@ + ascii_text(decimal(c as nat)) + "\' (should be \'*\')"@
}

/// Reading one client command: it must be an array; any other first byte
/// gives an error frame that names that byte.
pub open spec fn parse_command(s: Seq<u8>) -> Result<(FrameModel, Seq<u8>), RespErrorModel> {
    match read_byte(s) {
        Err(e) => Err(e),
        Ok((c, t)) => if c == 42 {
            parse_array_body(t)
        } else {
            Ok((FrameModel::Error(invalid_command_start_text(c)), t))
        },
    }
}

/// The frames already read, put in front of what reading the rest gives.
pub open spec fn prepend_frames(
    xs: Seq<FrameModel>,
    r: Result<(Seq<FrameModel>, Seq<u8>), RespErrorModel>,
) -> Result<(Seq<FrameModel>, Seq<u8>), RespErrorModel> {
    match r {
        Err(e) => Err(e),
        Ok((ys, rest)) => Ok((xs + ys, rest)),
    }
}

proof fn lemma_prepend_twice(
    a: Seq<FrameModel>,
    b: Seq<FrameModel>,
    r: Result<(Seq<FrameModel>, Seq<u8>), RespErrorModel>,
)
    ensures
        prepend_frames(a, prepend_frames(b, r)) == prepend_frames(a + b, r),
{
    if let Ok((ys, rest)) = r {
        assert(a + (b + ys) =~= (a + b) + ys);
    }
}

/// The models of a run of frames.
pub open spec fn frames_view(v: Seq<RespFrame>) -> Seq<FrameModel> {
    Seq::new(v.len(), |i: int| v[i]@)
}

proof fn lemma_elements_shrink(s: Seq<u8>, n: nat)
    ensures
        parse_elements(s, n) is Ok ==> parse_elements(s, n)->Ok_0.1.len() <= s.len(),
    decreases n,
{
    if n > 0 {
        if let Ok((f, rest)) = parse_element(s) {
            if rest.len() < s.len() {
                lemma_elements_shrink(rest, (n - 1) as nat);
            }
        }
    }
}

/// Reading a frame consumes at least one byte.
pub proof fn lemma_element_shrinks(s: Seq<u8>)
    ensures
        parse_element(s) is Ok ==> parse_element(s)->Ok_0.1.len() < s.len(),
{
    if let Ok((c, t)) = read_byte(s) {
        if c == 42 {
            if let Ok((n, rest)) = read_length(t) {
                lemma_elements_shrink(rest, n);
            }
        }
    }
}

/// Is `r` the executable outcome that the model outcome `m` describes, with
/// `rest` left in the buffer on success?
pub open spec fn frame_outcome(
    r: RespResult<RespFrame>,
    m: Result<(FrameModel, Seq<u8>), RespErrorModel>,
    rest: Seq<u8>,
) -> bool {
    match m {
        Ok((f, left)) => r is Ok && r->Ok_0@ == f && rest == left,
        Err(e) => r is Err && r->Err_0@ == e,
    }
}

impl RespFrame {
    /// Reads one client command from the start of `value`.
    pub fn from_bytes(value: bytes::BytesMut) -> (r: RespResult<RespFrame>)
        ensures
            match parse_command(bytes_mut_contents(value)) {
                Ok((f, _)) => r is Ok && r->Ok_0@ == f,
                Err(e) => r is Err && r->Err_0@ == e,
            },
    {
        let mut buff = RespBuffer::new(value);
        Self::parse_commands(&mut buff)
    }

    /// Reads one client command: an array, or an error frame naming the
    /// unexpected first byte.
    pub fn parse_commands(b: &mut RespBuffer) -> (r: RespResult<Self>)
        ensures
            frame_outcome(r, parse_command(old(b)@), final(b)@),
    {
        let c = b.get_u8()?;
        if c == 42 {
            Self::parse_array(b)
        } else {
            let e = String::from_str("Invalid start for command: \'").concat(
                decimal_string(c as u64).as_str(),
            ).concat("\' (should be \'*\')");
            Ok(RespFrame::Error(e))
        }
    }

    /// Reads one frame of any kind.
    pub fn parse_frame(b: &mut RespBuffer) -> (r: RespResult<Self>)
        ensures
            frame_outcome(r, parse_element(old(b)@), final(b)@),
        decreases old(b)@.len(), 0nat,
    {
        let c = b.get_u8()?;
        if c == 43 {
            Self::parse_simple_string(b)
        } else if c == 45 {
            Self::parse_error(b)
        } else if c == 58 {
            Self::parse_integer(b)
        } else if c == 36 {
            Self::parse_bulk_string(b)
        } else if c == 42 {
            Self::parse_array(b)
        } else {
            let e = String::from_str("Invalid Start: ").concat(char_string(c as char).as_str());
            Err(RespError::ParseError(e))
        }
    }

    fn read_text_line(b: &mut RespBuffer) -> (r: RespResult<String>)
        ensures
            match read_text(old(b)@) {
                Ok((text, rest)) => r is Ok && r->Ok_0@ == text && final(b)@ == rest,
                Err(e) => r is Err && r->Err_0@ == e,
            },
    {
        let line = b.get_line()?;
        match decode_text(line) {
            Some(t) => Ok(t),
            None => Err(RespError::InvalidUtf8),
        }
    }

    fn parse_simple_string(b: &mut RespBuffer) -> (r: RespResult<Self>)
        ensures
            frame_outcome(r, read_simple(old(b)@), final(b)@),
    {
        let t = Self::read_text_line(b)?;
        Ok(RespFrame::Simple(t))
    }

    fn parse_error(b: &mut RespBuffer) -> (r: RespResult<Self>)
        ensures
            frame_outcome(r, read_error(old(b)@), final(b)@),
    {
        let t = Self::read_text_line(b)?;
        Ok(RespFrame::Error(t))
    }

    fn parse_integer(b: &mut RespBuffer) -> (r: RespResult<Self>)
        ensures
            frame_outcome(r, read_integer(old(b)@), final(b)@),
    {
        let i = b.get_int()?;
        Ok(RespFrame::Integer(i))
    }

    fn parse_bulk_string(b: &mut RespBuffer) -> (r: RespResult<Self>)
        ensures
            frame_outcome(r, read_bulk(old(b)@), final(b)@),
    {
        let n_chars = b.get_int()?;
        let ss_bytes = b.get_line()?;
        let ss_bytes_len = ss_bytes.len();
        let ss = match decode_text(ss_bytes) {
            Some(t) => t,
            None => {
                return Err(RespError::InvalidUtf8);
            },
        };
        if n_chars != ss_bytes_len {
            return Err(RespError::InvalidCharsInBulkString(n_chars, ss));
        }
        Ok(RespFrame::Bulk(ss))
    }

    fn parse_array(b: &mut RespBuffer) -> (r: RespResult<Self>)
        ensures
            frame_outcome(r, parse_array_body(old(b)@), final(b)@),
        decreases old(b)@.len(), 1nat,
    {
        let ghost s0 = b@;
        let total = b.get_int()?;
        let ghost s1 = b@;
        let mut frames: Vec<RespFrame> = Vec::new();
        let mut i: usize = 0;
        while i < total
            invariant
                0 <= i <= total,
                s0 == old(b)@,
                b@.len() <= s1.len() < s0.len(),
                read_length(s0) == Ok::<(nat, Seq<u8>), RespErrorModel>((total as nat, s1)),
                frames@.len() == i,
                parse_elements(s1, total as nat) == prepend_frames(
                    frames_view(frames@),
                    parse_elements(b@, (total - i) as nat),
                ),
            decreases total - i,
        {
            let ghost before = b@;
            let ghost done = frames_view(frames@);
            proof {
                lemma_element_shrinks(before);
            }
            let f = match Self::parse_frame(b) {
                Ok(f) => f,
                Err(e) => {
                    proof {
                        let k = (total - i) as nat;
                        assert(parse_elements(before, k) is Err);
                        assert(parse_elements(s1, total as nat) == Err::<
                            (Seq<FrameModel>, Seq<u8>),
                            RespErrorModel,
                        >(e@));
                    }
                    return Err(e);
                },
            };
            proof {
                let k = (total - i) as nat;
                assert(parse_elements(before, k) == prepend_frames(
                    seq![f@],
                    parse_elements(b@, (k - 1) as nat),
                ));
            }
            proof {
                lemma_prepend_twice(
                    done,
                    seq![f@],
                    parse_elements(b@, (total - i - 1) as nat),
                );
            }
            frames.push(f);
            i = i + 1;
            proof {
                assert(frames_view(frames@) =~= done + seq![frames@[i - 1]@]);
            }
        }
        let ghost xs = frames_view(frames@);
        assert(parse_elements(b@, 0) == Ok::<(Seq<FrameModel>, Seq<u8>), RespErrorModel>(
            (Seq::empty(), b@),
        ));
        assert(xs + Seq::<FrameModel>::empty() =~= xs);
        let r = RespFrame::Array(frames);
        assert(r@->Array_0 =~= xs);
        Ok(r)
    }

    /// The length of this frame's encoding, or `None` when it would pass
    /// `isize::MAX`, the most that a buffer can hold.
    pub fn encoded_len(&self) -> (r: Option<usize>)
        ensures
            match r {
                Some(n) => n == frame_bytes(self@).len() && n <= isize::MAX,
                None => frame_bytes(self@).len() > isize::MAX,
            },
        decreases self,
    {
        let max = isize::MAX as usize;
        match self {
            RespFrame::Simple(s) => {
                let n = s.as_str().as_bytes().len();
                if n > max - 3 {
                    None
                } else {
                    Some(n + 3)
                }
            },
            RespFrame::Error(s) => {
                let n = s.as_str().as_bytes().len();
                if n > max - 3 {
                    None
                } else {
                    Some(n + 3)
                }
            },
            RespFrame::Integer(n) => {
                let d = decimal_len(*n as u64);
                if d > (max - 3) as u64 {
                    None
                } else {
                    Some(d as usize + 3)
                }
            },
            RespFrame::Bulk(s) => {
                let n = s.as_str().as_bytes().len();
                let d64 = decimal_len(n as u64);
                if d64 > (max - 5) as u64 {
                    return None;
                }
                let d = d64 as usize;
                if n > max - 5 - d {
                    None
                } else {
                    Some(n + d + 5)
                }
            },
            RespFrame::Null => Some(5),
            RespFrame::Array(arr) => {
                let ghost xs = self@->Array_0;
                assert(xs.len() == arr.len());
                assert(frame_bytes(self@) == seq![42u8] + decimal(arr.len() as nat) + crlf()
                    + elements_bytes(xs));
                let d = decimal_len(arr.len() as u64);
                if d > (max - 3) as u64 {
                    return None;
                }
                let mut total: usize = d as usize + 3;
                let mut i: usize = 0;
                while i < arr.len()
                    invariant
                        0 <= i <= arr.len(),
                        *self is Array && (*self)->Array_0 == *arr,
                        xs == self@->Array_0,
                        xs.len() == arr.len(),
                        max == isize::MAX,
                        total <= max,
                        total == 3 + decimal(arr.len() as nat).len() + elements_bytes(
                            xs.take(i as int),
                        ).len(),
                    decreases arr.len() - i,
                {
                    assert(decreases_to!(*self => (*self)->Array_0));
                    assert(decreases_to!((*self)->Array_0 => (*self)->Array_0@));
                    assert(decreases_to!(arr@ => arr@[i as int]));
                    proof {
                        lemma_elements_bytes_prefix(xs, i + 1);
                        assert(xs.take(i + 1).drop_last() =~= xs.take(i as int));
                        assert(xs.take(i + 1).last() == xs[i as int]);
                    }
                    match arr[i].encoded_len() {
                        Some(n) => {
                            if n > max - total {
                                return None;
                            }
                            total = total + n;
                        },
                        None => {
                            return None;
                        },
                    }
                    i = i + 1;
                }
                assert(xs.take(i as int) =~= xs);
                Some(total)
            },
        }
    }

    /// A copy of this frame, nested arrays included.
    pub fn duplicate(&self) -> (r: Self)
        ensures
            r@ == self@,
        decreases self,
    {
        match self {
            RespFrame::Simple(s) => RespFrame::Simple(s.clone()),
            RespFrame::Error(s) => RespFrame::Error(s.clone()),
            RespFrame::Integer(n) => RespFrame::Integer(*n),
            RespFrame::Bulk(s) => RespFrame::Bulk(s.clone()),
            RespFrame::Null => RespFrame::Null,
            RespFrame::Array(arr) => {
                let mut out: Vec<RespFrame> = Vec::new();
                let mut i: usize = 0;
                while i < arr.len()
                    invariant
                        0 <= i <= arr.len(),
                        *self is Array && (*self)->Array_0 == *arr,
                        out@.len() == i,
                        forall|j: int| 0 <= j < i ==> (#[trigger] out@[j])@ == arr@[j]@,
                    decreases arr.len() - i,
                {
                    assert(decreases_to!(*self => (*self)->Array_0));
                    assert(decreases_to!((*self)->Array_0 => (*self)->Array_0@));
                    assert(decreases_to!(arr@ => arr@[i as int]));
                    let f = arr[i].duplicate();
                    out.push(f);
                    i = i + 1;
                }
                let r = RespFrame::Array(out);
                assert(r@->Array_0 =~= self@->Array_0);
                r
            },
        }
    }

    /// Appends the wire encoding of this frame to `b`.
    pub fn write_to_buffer(&self, b: &mut bytes::BytesMut)
        requires
            bytes_mut_contents(*old(b)).len() + frame_bytes(self@).len() <= isize::MAX,
        ensures
            bytes_mut_contents(*final(b)) == bytes_mut_contents(*old(b)) + frame_bytes(self@),
        decreases self,
    {
        let ghost start = bytes_mut_contents(*b);
        match self {
            RespFrame::Simple(s) => {
                write_sigil(b, 43u8);
                buf_extend(b, s.as_str().as_bytes());
                write_crlf(b);
            },
            RespFrame::Error(s) => {
                write_sigil(b, 45u8);
                buf_extend(b, s.as_str().as_bytes());
                write_crlf(b);
            },
            RespFrame::Integer(n) => {
                write_sigil(b, 58u8);
                write_number(b, *n);
                write_crlf(b);
            },
            RespFrame::Bulk(s) => {
                let bytes = s.as_str().as_bytes();
                write_sigil(b, 36u8);
                write_number(b, bytes.len());
                write_crlf(b);
                buf_extend(b, bytes);
                write_crlf(b);
            },
            RespFrame::Null => {
                let null: [u8; 5] = [36u8, 45u8, 49u8, 13u8, 10u8];
                buf_extend(b, null.as_slice());
                assert(null@ =~= null_bytes());
            },
            RespFrame::Array(arr) => {
                let ghost xs = self@->Array_0;
                assert(xs.len() == arr.len());
                assert(frame_bytes(self@) == seq![42u8] + decimal(arr.len() as nat) + crlf()
                    + elements_bytes(xs));
                write_sigil(b, 42u8);
                write_number(b, arr.len());
                write_crlf(b);
                let ghost head = bytes_mut_contents(*b);
                let mut i: usize = 0;
                while i < arr.len()
                    invariant
                        0 <= i <= arr.len(),
                        *self is Array && (*self)->Array_0 == *arr,
                        xs == self@->Array_0,
                        xs.len() == arr.len(),
                        forall|j: int| 0 <= j < arr.len() ==> xs[j] == (#[trigger] arr[j])@,
                        head == start + seq![42u8] + decimal(arr.len() as nat) + crlf(),
                        bytes_mut_contents(*b) == head + elements_bytes(xs.take(i as int)),
                        start.len() + frame_bytes(self@).len() <= isize::MAX,
                        frame_bytes(self@) == seq![42u8] + decimal(arr.len() as nat) + crlf()
                            + elements_bytes(xs),
                    decreases arr.len() - i,
                {
                    proof {
                        lemma_elements_bytes_prefix(xs, i + 1);
                        assert(xs.take(i + 1).drop_last() =~= xs.take(i as int));
                    }
                    assert(decreases_to!(*self => (*self)->Array_0));
                    assert(decreases_to!((*self)->Array_0 => (*self)->Array_0@));
                    assert(decreases_to!(arr@ => arr@[i as int]));
                    arr[i].write_to_buffer(b);
                    i = i + 1;
                }
                assert(xs.take(i as int) =~= xs);
            },
        }
        assert(bytes_mut_contents(*b) =~= start + frame_bytes(self@));
    }

    /// The bytes to send for this frame: its encoding, or, when that would not
    /// fit in a buffer, the encoding of an error frame saying so.
    pub fn to_response_bytes(&self) -> (r: bytes::Bytes)
        ensures
            bytes_contents(r) == (if frame_bytes(self@).len() <= isize::MAX {
                frame_bytes(self@)
            } else {
                frame_bytes(FrameModel::Error(too_large_text()))
            }),
    {
        match self.encoded_len() {
            Some(_) => self.to_bytes(),
            None => {
                let e = RespFrame::Error(String::from_str("response too large"));
                proof {
                    reveal_strlit("response too large");
                    let t = too_large_text();
                    assert(is_ascii_chars(t));
                    is_ascii_chars_encode_utf8(t);
                }
                e.to_bytes()
            },
        }
    }

    /// The wire encoding of this frame.
    pub fn to_bytes(&self) -> (r: bytes::Bytes)
        requires
            frame_bytes(self@).len() <= isize::MAX,
        ensures
            bytes_contents(r) == frame_bytes(self@),
    {
        let mut b = buf_new();
        self.write_to_buffer(&mut b);
        assert(bytes_mut_contents(b) =~= frame_bytes(self@));
        buf_freeze(b)
    }
}

} // verus!
