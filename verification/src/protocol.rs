//! Reply values of the Redis serialization protocol.
use vstd::prelude::*;

verus! {

/// A reply to a client.
#[derive(Debug, PartialEq, Eq)]
pub enum RespValue {
    /// `+text`
    SimpleString(String),
    /// `-text`
    Error(String),
    /// `:n`
    Integer(i64),
    /// `$len bytes`, or the null bulk string.
    BulkString(Option<Vec<u8>>),
    /// `*n items`, or the null array.
    Array(Option<Vec<RespValue>>),
    /// RESP3 null.
    Null,
    /// RESP3 map of key/value pairs.
    Dict(Vec<(RespValue, RespValue)>),
}

impl RespValue {
    /// A simple string reply.
    pub fn simple_string(s: &str) -> (r: Self)
        ensures
            r matches RespValue::SimpleString(t) && t@ == s@,
    {
        RespValue::SimpleString(crate::text::string_of(s))
    }

    /// The `+OK` reply.
    pub fn ok() -> (r: Self)
        ensures
            r matches RespValue::SimpleString(t) && t@ == "OK"@,
    {
        proof { reveal_strlit("OK"); }
        RespValue::SimpleString(crate::text::string_of("OK"))
    }

    /// An integer reply.
    pub fn integer(n: i64) -> (r: Self)
        ensures
            r == RespValue::Integer(n),
    {
        RespValue::Integer(n)
    }

    /// A bulk string reply holding `b`.
    pub fn bulk_string(b: Vec<u8>) -> (r: Self)
        ensures
            r matches RespValue::BulkString(Some(v)) && v@ == b@,
    {
        RespValue::BulkString(Some(b))
    }

    /// The null bulk string reply.
    pub fn null_bulk_string() -> (r: Self)
        ensures
            r matches RespValue::BulkString(None),
    {
        RespValue::BulkString(None)
    }

    /// An array reply.
    pub fn array(items: Vec<RespValue>) -> (r: Self)
        ensures
            r matches RespValue::Array(Some(v)) && v@ == items@,
    {
        RespValue::Array(Some(items))
    }

    /// A map reply.
    pub fn map(pairs: Vec<(RespValue, RespValue)>) -> (r: Self)
        ensures
            r matches RespValue::Dict(v) && v@ == pairs@,
    {
        RespValue::Dict(pairs)
    }
}

/// `r` is a bulk string holding `b`.
pub open spec fn is_bulk(r: RespValue, b: Seq<u8>) -> bool {
    r matches RespValue::BulkString(Some(v)) && v@ == b
}

/// `r` is the null bulk string.
pub open spec fn is_null_bulk(r: RespValue) -> bool {
    r matches RespValue::BulkString(None)
}

/// `r` is the `+OK` reply.
pub open spec fn is_ok(r: RespValue) -> bool {
    r matches RespValue::SimpleString(t) && t@ == "OK"@
}

/// `r` is the simple string `s`.
pub open spec fn is_simple(r: RespValue, s: Seq<char>) -> bool {
    r matches RespValue::SimpleString(t) && t@ == s
}

} // verus!
