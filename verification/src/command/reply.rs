//! What a command answers, as a mathematical value, and the helpers that
//! read command arguments.
use crate::error::AikvError;
use crate::protocol::RespValue;
use crate::text::{
    i64_to_decimal, parse_i64, parse_i64_spec, parse_unsigned, parse_unsigned_spec, signed_decimal_spec,
    spec_to_uppercase, spec_utf8_lossy, string_of, to_uppercase, utf8_lossy,
};
use vstd::prelude::*;
use vstd::utf8::{decode_utf8, encode_utf8};

verus! {

/// Message of the error for a value of the wrong kind.
pub open spec fn wrong_type_msg() -> Seq<char> {
    "WRONGTYPE Operation against a key holding the wrong kind of value"@
}

/// Message of the error for a database index out of range.
pub open spec fn db_range_msg() -> Seq<char> {
    "ERR DB index is out of range"@
}

/// The errors that commands answer.
pub ghost enum Failure {
    /// Wrong number of arguments for the named command.
    Arity(Seq<char>),
    /// A malformed argument, with its message.
    Invalid(Seq<char>),
    /// An operation against a value of the wrong kind.
    WrongType,
    /// A database index out of range.
    DbRange,
    /// The key holds nothing.
    NoSuchKey,
    /// An unknown command or subcommand, with its message.
    Command(Seq<char>),
    /// A server-side failure, with its message.
    Storage(Seq<char>),
    /// An internal failure, with its message.
    Internal(Seq<char>),
    /// A request refused as invalid, with its message.
    Rejected(Seq<char>),
}

/// A command's answer.
pub ghost enum Reply {
    /// A simple string such as `OK`.
    Simple(Seq<char>),
    /// An integer.
    Int(int),
    /// A bulk string.
    Bulk(Seq<u8>),
    /// The null bulk string.
    NullBulk,
    /// The null value.
    Nil,
    /// An array of answers.
    Array(Seq<Reply>),
    /// A map of answers to answers.
    Dict(Seq<(Reply, Reply)>),
    /// An error.
    Fail(Failure),
}

/// The `OK` answer.
pub open spec fn ok_reply() -> Reply {
    Reply::Simple("OK"@)
}

/// `e` is the error that `f` describes.
pub open spec fn error_models(e: AikvError, f: Failure) -> bool {
    match f {
        Failure::Arity(name) => e matches AikvError::WrongArgCount(s) && s@ == name,
        Failure::Invalid(msg) => e matches AikvError::InvalidArgument(s) && s@ == msg,
        Failure::WrongType => e matches AikvError::WrongType(s) && s@ == wrong_type_msg(),
        Failure::DbRange => e matches AikvError::Storage(s) && s@ == db_range_msg(),
        Failure::NoSuchKey => e matches AikvError::KeyNotFound,
        Failure::Command(msg) => e matches AikvError::InvalidCommand(s) && s@ == msg,
        Failure::Storage(msg) => e matches AikvError::Storage(s) && s@ == msg,
        Failure::Internal(msg) => e matches AikvError::Internal(s) && s@ == msg,
        Failure::Rejected(msg) => e matches AikvError::Invalid(s) && s@ == msg,
    }
}

/// `v` is the reply value that `rep` describes (never an error).
pub open spec fn value_models(v: RespValue, rep: Reply) -> bool
    decreases rep,
{
    match rep {
        Reply::Simple(s) => v matches RespValue::SimpleString(t) && t@ == s,
        Reply::Int(n) => v == RespValue::Integer(n as i64),
        Reply::Bulk(b) => v matches RespValue::BulkString(Some(x)) && x@ == b,
        Reply::NullBulk => v matches RespValue::BulkString(None),
        Reply::Nil => v matches RespValue::Null,
        Reply::Array(items) => v matches RespValue::Array(Some(vs)) && vs@.len() == items.len() && forall|i: int|
            0 <= i < items.len() ==> value_models(#[trigger] vs@[i], items[i]),
        Reply::Dict(pairs) => v matches RespValue::Dict(vs) && vs@.len() == pairs.len() && forall|i: int|
            0 <= i < pairs.len() ==> value_models(#[trigger] vs@[i].0, pairs[i].0) && value_models(vs@[i].1, pairs[i].1),
        Reply::Fail(_) => false,
    }
}

/// `r` is the outcome that `rep` describes.
pub open spec fn models(r: Result<RespValue, AikvError>, rep: Reply) -> bool {
    match rep {
        Reply::Fail(f) => r matches Err(e) && error_models(e, f),
        _ => r matches Ok(v) && value_models(v, rep),
    }
}

/// The bytes of each argument.
pub open spec fn arg_views(args: Seq<Vec<u8>>) -> Seq<Seq<u8>> {
    args.map_values(|a: Vec<u8>| a@)
}

/// The views of the arguments, element by element.
pub proof fn lemma_arg_views(args: Seq<Vec<u8>>)
    ensures
        arg_views(args).len() == args.len(),
        forall|i: int| 0 <= i < args.len() ==> #[trigger] arg_views(args)[i] == args[i]@,
{
}

/// The key an argument names: its bytes decoded as UTF-8, invalid
/// sequences replaced.
pub open spec fn key_of(a: Seq<u8>) -> Seq<char> {
    if vstd::utf8::valid_utf8(a) {
        decode_utf8(a)
    } else {
        spec_utf8_lossy(a)
    }
}

/// An argument read as an `i64`.
pub open spec fn int_arg(a: Seq<u8>) -> Option<int> {
    parse_i64_spec(key_of(a))
}

/// An argument read as a `u64`.
pub open spec fn u64_arg(a: Seq<u8>) -> Option<nat> {
    parse_unsigned_spec(key_of(a), u64::MAX as nat)
}

/// An argument read as a `usize`.
pub open spec fn usize_arg(a: Seq<u8>) -> Option<nat> {
    parse_unsigned_spec(key_of(a), usize::MAX as nat)
}

/// An option argument, upper-cased.
pub open spec fn option_of(a: Seq<u8>) -> Seq<char> {
    spec_to_uppercase(key_of(a))
}

/// The bytes that a number is stored as: its decimal text in UTF-8.
pub open spec fn int_bytes(n: int) -> Seq<u8> {
    encode_utf8(signed_decimal_spec(n))
}

/// The text of an argument.
pub fn arg_text(a: &Vec<u8>) -> (r: String)
    ensures
        r@ == key_of(a@),
{
    utf8_lossy(a.as_slice())
}

/// An argument read as an `i64`.
pub fn arg_i64(a: &Vec<u8>) -> (r: Option<i64>)
    ensures
        match int_arg(a@) {
            Some(v) => r == Some(v as i64),
            None => r is None,
        },
{
    let t = arg_text(a);
    parse_i64(t.as_str())
}

/// An argument read as a `u64`.
pub fn arg_u64(a: &Vec<u8>) -> (r: Option<u64>)
    ensures
        match u64_arg(a@) {
            Some(v) => r == Some(v as u64),
            None => r is None,
        },
{
    let t = arg_text(a);
    parse_unsigned(t.as_str(), u64::MAX)
}

/// An argument read as a `usize`.
pub fn arg_usize(a: &Vec<u8>) -> (r: Option<usize>)
    ensures
        match usize_arg(a@) {
            Some(v) => r == Some(v as usize),
            None => r is None,
        },
{
    let t = arg_text(a);
    match parse_unsigned(t.as_str(), usize::MAX as u64) {
        Some(v) => Some(v as usize),
        None => None,
    }
}

/// An option argument, upper-cased.
pub fn arg_option(a: &Vec<u8>) -> (r: String)
    ensures
        r@ == option_of(a@),
{
    let t = arg_text(a);
    to_uppercase(t.as_str())
}

/// The UTF-8 bytes of a text.
pub fn text_bytes(s: &str) -> (r: Vec<u8>)
    ensures
        r@ == encode_utf8(s@),
{
    s.as_bytes_vec()
}

/// The bytes a number is stored as.
pub fn int_to_bytes(n: i64) -> (r: Vec<u8>)
    ensures
        r@ == int_bytes(n as int),
{
    let t = i64_to_decimal(n);
    t.as_str().as_bytes_vec()
}

/// Reading back the bytes a number is stored as gives the number.
pub proof fn lemma_int_bytes_round_trip(n: int)
    requires
        i64::MIN <= n <= i64::MAX,
    ensures
        key_of(int_bytes(n)) == signed_decimal_spec(n),
        int_arg(int_bytes(n)) == Some(n),
{
    vstd::utf8::encode_utf8_valid_utf8(signed_decimal_spec(n));
    vstd::utf8::encode_utf8_decode_utf8(signed_decimal_spec(n));
    crate::text::lemma_parse_signed_decimal(n);
}

/// The error for a wrong number of arguments.
pub fn arity_error(name: &str) -> (r: AikvError)
    ensures
        error_models(r, Failure::Arity(name@)),
{
    AikvError::WrongArgCount(string_of(name))
}

/// The error for a malformed argument.
pub fn invalid_error(msg: &str) -> (r: AikvError)
    ensures
        error_models(r, Failure::Invalid(msg@)),
{
    AikvError::InvalidArgument(string_of(msg))
}

/// The error for a value of the wrong kind.
pub fn wrong_type_error() -> (r: AikvError)
    ensures
        error_models(r, Failure::WrongType),
{
    proof {
        reveal_strlit("WRONGTYPE Operation against a key holding the wrong kind of value");
    }
    AikvError::WrongType(string_of("WRONGTYPE Operation against a key holding the wrong kind of value"))
}

/// The error for a key that holds nothing.
pub fn no_such_key_error() -> (r: AikvError)
    ensures
        error_models(r, Failure::NoSuchKey),
{
    AikvError::KeyNotFound
}

/// The error for a database index out of range.
pub fn db_range_error() -> (r: AikvError)
    ensures
        error_models(r, Failure::DbRange),
{
    proof {
        reveal_strlit("ERR DB index is out of range");
    }
    AikvError::Storage(string_of("ERR DB index is out of range"))
}

} // verus!

verus! {

/// `r` is the answer that `o` describes and `after` the keyspace it leaves.
pub open spec fn outcome_holds(
    o: (Reply, Seq<crate::storage::DbView>),
    r: Result<RespValue, AikvError>,
    after: Seq<crate::storage::DbView>,
) -> bool {
    models(r, o.0) && after == o.1
}

} // verus!
