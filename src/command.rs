//! Turning a parsed command frame into either a direct reply or a request to
//! the store, and a store answer back into a reply frame.
use vstd::prelude::*;
use vstd::utf8::*;

use crate::decimal::{digits_value, is_digits, parse_decimal};
use crate::frame::{FrameModel, RespFrame};
use crate::store::{store_step, CommandModel, ResponseModel, StoreCommand, StoreMap, StoreResponse};

verus! {

/// What to do with one command: answer at once, or ask the store.
#[derive(Debug)]
pub enum Dispatch {
    Reply(RespFrame),
    Store(StoreCommand),
}

/// The mathematical value of a [`Dispatch`].
pub enum DispatchModel {
    Reply(FrameModel),
    Store(CommandModel),
}

impl View for Dispatch {
    type V = DispatchModel;

    open spec fn view(&self) -> DispatchModel {
        match self {
            Dispatch::Reply(f) => DispatchModel::Reply(f@),
            Dispatch::Store(c) => DispatchModel::Store(c@),
        }
    }
}

/// `SET <key> <value> PX <t>` where `t` is not a decimal number asks nothing
/// of the store: it is answered at once with an error that names `t`, so the
/// key keeps what it held.
pub proof fn lemma_bad_expiry(verb: Seq<char>, k: Seq<char>, v: Seq<char>, t: Seq<char>)
    requires
        names(verb, "set"@),
        !is_digits(encode_utf8(t)),
    ensures
        command_outcome(
            FrameModel::Array(
                seq![
                    FrameModel::Bulk(verb),
                    FrameModel::Bulk(k),
                    FrameModel::Bulk(v),
                    FrameModel::Bulk("PX"@),
                    FrameModel::Bulk(t),
                ],
            ),
        ) == error_reply("Error parsing PX value: "@ + t),
        !(command_outcome(
            FrameModel::Array(
                seq![
                    FrameModel::Bulk(verb),
                    FrameModel::Bulk(k),
                    FrameModel::Bulk(v),
                    FrameModel::Bulk("PX"@),
                    FrameModel::Bulk(t),
                ],
            ),
        ) is Store),
{
    lemma_verbs_differ(verb);
}

/// `SET k v` followed by `GET k`, whatever the case of the verbs: the first
/// asks the store to write `v` under `k` and is answered `OK`; the second asks
/// it to read `k` and is answered with `v` as a bulk string, whenever it comes.
pub proof fn lemma_set_then_get(
    m: StoreMap,
    set_verb: Seq<char>,
    get_verb: Seq<char>,
    k: Seq<char>,
    v: Seq<char>,
    t1: nat,
    t2: nat,
)
    requires
        names(set_verb, "set"@),
        names(get_verb, "get"@),
    ensures
        command_outcome(
            FrameModel::Array(
                seq![FrameModel::Bulk(set_verb), FrameModel::Bulk(k), FrameModel::Bulk(v)],
            ),
        ) == DispatchModel::Store(CommandModel::Assign(k, v, None)),
        command_outcome(FrameModel::Array(seq![FrameModel::Bulk(get_verb), FrameModel::Bulk(k)]))
            == DispatchModel::Store(CommandModel::Get(k)),
        ({
            let (m1, r1) = store_step(m, CommandModel::Assign(k, v, None), t1);
            let (m2, r2) = store_step(m1, CommandModel::Get(k), t2);
            reply_for(r1) == FrameModel::Simple("OK"@) && reply_for(r2) == FrameModel::Bulk(v)
        }),
{
    lemma_verbs_differ(set_verb);
    lemma_verbs_differ(get_verb);
}

/// `GET k` for a key the store does not hold asks the store to read `k`,
/// leaves the store as it was, and is answered with the null bulk string.
pub proof fn lemma_get_never_set(m: StoreMap, get_verb: Seq<char>, k: Seq<char>, now: nat)
    requires
        names(get_verb, "get"@),
        !m.contains_key(k),
    ensures
        command_outcome(FrameModel::Array(seq![FrameModel::Bulk(get_verb), FrameModel::Bulk(k)]))
            == DispatchModel::Store(CommandModel::Get(k)),
        store_step(m, CommandModel::Get(k), now).0 == m,
        reply_for(store_step(m, CommandModel::Get(k), now).1) == FrameModel::Null,
{
    lemma_verbs_differ(get_verb);
}

/// `GET`, `SET` or `ECHO` with no argument is answered with an error frame.
pub proof fn lemma_missing_argument(verb: Seq<char>)
    requires
        names(verb, "get"@) || names(verb, "set"@) || names(verb, "echo"@),
    ensures
        command_outcome(FrameModel::Array(seq![FrameModel::Bulk(verb)])) is Reply,
        command_outcome(FrameModel::Array(seq![FrameModel::Bulk(verb)]))->Reply_0 is Error,
{
    lemma_verbs_differ(verb);
}

proof fn lemma_verbs_differ(verb: Seq<char>)
    ensures
        names(verb, "get"@) || names(verb, "set"@) || names(verb, "echo"@) ==> !names(
            verb,
            "ping"@,
        ),
        names(verb, "set"@) ==> !names(verb, "echo"@) && !names(verb, "get"@),
        names(verb, "get"@) ==> !names(verb, "echo"@),
{
    reveal_strlit("get");
    reveal_strlit("set");
    reveal_strlit("echo");
    reveal_strlit("ping");
    if names(verb, "set"@) {
        assert(ascii_lower(verb[0]) == 's');
    }
    if names(verb, "get"@) {
        assert(ascii_lower(verb[0]) == 'g');
    }
    if names(verb, "echo"@) {
        assert(ascii_lower(verb[0]) == 'e');
    }
}

/// The ASCII lower-case form of a character; other characters stay.
pub open spec fn ascii_lower(c: char) -> char {
    if 'A' <= c <= 'Z' {
        ((c as u8) + 32) as char
    } else {
        c
    }
}

/// Does `name`, lower-cased in ASCII, read `lower`?
pub open spec fn names(name: Seq<char>, lower: Seq<char>) -> bool {
    name.len() == lower.len() && forall|i: int|
        0 <= i < name.len() ==> ascii_lower(#[trigger] name[i]) == lower[i]
}

/// An error reply with the given text.
pub open spec fn error_reply(text: Seq<char>) -> DispatchModel {
    DispatchModel::Reply(FrameModel::Error(text))
}

/// The optional `PX <millis>` clause after `SET <key> <value>`: the time to
/// live, or the text of what is wrong with it. Nothing may follow the clause.
pub open spec fn set_expiry(xs: Seq<FrameModel>) -> Result<Option<u64>, Seq<char>> {
    if xs.len() <= 3 {
        Ok(None)
    } else if xs.len() > 5 {
        Err("Malformed command: Only PX can be optionally sent after SET <key> <value>"@)
    } else if xs[3] == FrameModel::Bulk("PX"@) {
        if xs.len() > 4 && xs[4] is Bulk {
            let t = xs[4]->Bulk_0;
            if is_digits(encode_utf8(t)) && digits_value(encode_utf8(t)) <= u64::MAX {
                Ok(Some(digits_value(encode_utf8(t)) as u64))
            } else {
                Err("Error parsing PX value: "@ + t)
            }
        } else {
            Err("must supply expires_in value after PX"@)
        }
    } else {
        Err("Malformed command: Only PX can be optionally sent after SET <key> <value>"@)
    }
}

/// What `SET` with the arguments in `xs` (the verb first) does.
pub open spec fn set_outcome(xs: Seq<FrameModel>) -> DispatchModel {
    match set_expiry(xs) {
        Err(e) => error_reply(e),
        Ok(ttl) => if xs.len() > 2 && xs[1] is Bulk && xs[2] is Bulk {
            DispatchModel::Store(CommandModel::Assign(xs[1]->Bulk_0, xs[2]->Bulk_0, ttl))
        } else {
            error_reply("Invalid SET command: must send two bulk strings afterwards"@)
        },
    }
}

/// What one command frame asks for. The verb is the first element, a bulk
/// string compared without regard to ASCII case.
pub open spec fn command_outcome(f: FrameModel) -> DispatchModel {
    match f {
        FrameModel::Array(xs) => if xs.len() > 0 && xs[0] is Bulk {
            let name = xs[0]->Bulk_0;
            if names(name, "ping"@) {
                DispatchModel::Reply(FrameModel::Simple("PONG"@))
            } else if names(name, "echo"@) {
                if xs.len() > 1 {
                    DispatchModel::Reply(xs[1])
                } else {
                    error_reply("Invalid Echo Command"@)
                }
            } else if names(name, "get"@) {
                if xs.len() > 1 && xs[1] is Bulk {
                    DispatchModel::Store(CommandModel::Get(xs[1]->Bulk_0))
                } else {
                    error_reply("Invalid GET command: must send bulk string after this"@)
                }
            } else if names(name, "set"@) {
                set_outcome(xs)
            } else {
                error_reply("UNRECOGNIZED COMMAND: \'"@ + name + "\'"@)
            }
        } else {
            DispatchModel::Reply(FrameModel::Array(Seq::empty()))
        },
        _ => error_reply("Only commands should be sent"@),
    }
}

/// The reply frame for a store answer.
pub open spec fn reply_for(r: ResponseModel) -> FrameModel {
    match r {
        ResponseModel::Value(v) => FrameModel::Bulk(v),
        ResponseModel::Nil => FrameModel::Null,
        ResponseModel::Done => FrameModel::Simple("OK"@),
    }
}

/// Does `name`, lower-cased in ASCII, read `lower`?
pub fn is_named(name: &String, lower: &str) -> (r: bool)
    ensures
        r == names(name@, lower@),
{
    let n = name.as_str().unicode_len();
    if n != lower.unicode_len() {
        return false;
    }
    let mut i: usize = 0;
    while i < n
        invariant
            n == name@.len(),
            n == lower@.len(),
            0 <= i <= n,
            forall|j: int| 0 <= j < i ==> ascii_lower(#[trigger] name@[j]) == lower@[j],
        decreases n - i,
    {
        let c = name.as_str().get_char(i);
        let low = if 'A' <= c && c <= 'Z' {
            ((c as u8) + 32) as char
        } else {
            c
        };
        if low != lower.get_char(i) {
            return false;
        }
        i = i + 1;
    }
    true
}

fn error_dispatch(text: &str) -> (r: Dispatch)
    ensures
        r@ == error_reply(text@),
{
    Dispatch::Reply(RespFrame::Error(String::from_str(text)))
}

fn parse_expiry(arr: &Vec<RespFrame>) -> (r: Result<Option<u64>, String>)
    ensures
        match set_expiry(arr@.map_values(|f: RespFrame| f@)) {
            Ok(t) => r == Ok::<Option<u64>, String>(t),
            Err(e) => r is Err && r->Err_0@ == e,
        },
{
    let ghost xs = arr@.map_values(|f: RespFrame| f@);
    if arr.len() <= 3 {
        return Ok(None);
    }
    if arr.len() > 5 {
        return Err(
            String::from_str(
                "Malformed command: Only PX can be optionally sent after SET <key> <value>",
            ),
        );
    }
    let px = String::from_str("PX");
    match &arr[3] {
        RespFrame::Bulk(t) => {
            if *t != px {
                assert(xs[3] != FrameModel::Bulk("PX"@));
                return Err(
                    String::from_str(
                        "Malformed command: Only PX can be optionally sent after SET <key> <value>",
                    ),
                );
            }
        },
        _ => {
            return Err(
                String::from_str(
                    "Malformed command: Only PX can be optionally sent after SET <key> <value>",
                ),
            );
        },
    }
    if arr.len() <= 4 {
        return Err(String::from_str("must supply expires_in value after PX"));
    }
    match &arr[4] {
        RespFrame::Bulk(i) => match parse_decimal(i.as_str().as_bytes()) {
            Some(v) => Ok(Some(v)),
            None => Err(String::from_str("Error parsing PX value: ").concat(i.as_str())),
        },
        _ => Err(String::from_str("must supply expires_in value after PX")),
    }
}

impl RespFrame {
    /// Decides what one command frame asks for: a direct reply (`PING`,
    /// `ECHO`, and every malformed command) or a request to the store (`GET`,
    /// `SET`).
    pub fn interpret(&self) -> (r: Dispatch)
        ensures
            r@ == command_outcome(self@),
    {
        match self {
            RespFrame::Array(arr) => {
                let ghost xs = self@->Array_0;
                assert(xs =~= arr@.map_values(|f: RespFrame| f@));
                if arr.len() == 0 {
                    let r = Dispatch::Reply(RespFrame::Array(Vec::new()));
                    assert(r@->Reply_0->Array_0 =~= Seq::<FrameModel>::empty());
                    return r;
                }
                let command = match &arr[0] {
                    RespFrame::Bulk(c) => c,
                    _ => {
                        let r = Dispatch::Reply(RespFrame::Array(Vec::new()));
                        assert(r@->Reply_0->Array_0 =~= Seq::<FrameModel>::empty());
                        return r;
                    },
                };
                if is_named(command, "ping") {
                    return Dispatch::Reply(RespFrame::Simple(String::from_str("PONG")));
                }
                if is_named(command, "echo") {
                    if arr.len() > 1 {
                        return Dispatch::Reply(arr[1].duplicate());
                    }
                    return error_dispatch("Invalid Echo Command");
                }
                if is_named(command, "get") {
                    if arr.len() > 1 {
                        match &arr[1] {
                            RespFrame::Bulk(key) => {
                                return Dispatch::Store(StoreCommand::get_value(key.clone()));
                            },
                            _ => {},
                        }
                    }
                    return error_dispatch("Invalid GET command: must send bulk string after this");
                }
                if is_named(command, "set") {
                    let expires_in = parse_expiry(arr);
                    let ttl = match expires_in {
                        Ok(t) => t,
                        Err(e) => {
                            return Dispatch::Reply(RespFrame::Error(e));
                        },
                    };
                    if arr.len() > 2 {
                        match (&arr[1], &arr[2]) {
                            (RespFrame::Bulk(k), RespFrame::Bulk(v)) => {
                                return Dispatch::Store(
                                    StoreCommand::set_value(k.clone(), v.clone(), ttl),
                                );
                            },
                            _ => {},
                        }
                    }
                    return error_dispatch(
                        "Invalid SET command: must send two bulk strings afterwards",
                    );
                }
                let e = String::from_str("UNRECOGNIZED COMMAND: \'").concat(
                    command.as_str(),
                ).concat("\'");
                Dispatch::Reply(RespFrame::Error(e))
            },
            _ => error_dispatch("Only commands should be sent"),
        }
    }
}

/// The reply frame for a store answer: a value as a bulk string, nothing as
/// the null bulk string, a completed write as `OK`.
pub fn store_reply(resp: StoreResponse) -> (r: RespFrame)
    ensures
        r@ == reply_for(resp@),
{
    match resp {
        StoreResponse::Value(v) => RespFrame::Bulk(v),
        StoreResponse::Nil => RespFrame::Null,
        StoreResponse::Done => RespFrame::Simple(String::from_str("OK")),
    }
}

} // verus!
