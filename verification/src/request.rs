use vstd::prelude::*;
use vstd::utf8::encode_utf8;
use crate::execute::Transaction;
use crate::numeric::{
    Address, U256, all_dec_digits, all_hex_digits, dec_digits_val, hex_digit_val, hex_digits_val,
    parse_address_hex, parse_dec_u256, parse_hex_u256, pow256,
};

verus! {

/// One transaction as the request boundary delivers it: text-encoded hex
/// addresses and byte string, and a decimal text for the value. A
/// malformed field falls back to its zero default rather than aborting the
/// batch — callers validate their own inputs.
#[derive(Debug)]
pub struct RequestTransaction {
    pub from: String,
    pub to: String,
    pub data: String,
    pub value: String,
}

/// The text with one leading `0x` removed, if it carries one.
pub open spec fn strip_0x(s: Seq<u8>) -> Seq<u8> {
    if s.len() >= 2 && s[0] == 48 && s[1] == 120 {
        s.skip(2)
    } else {
        s
    }
}

/// The address a text denotes: an optional `0x` prefix and exactly forty
/// hexadecimal digits; anything else falls back to the zero address.
pub open spec fn addr_of_text(s: Seq<u8>) -> int {
    let h = strip_0x(s);
    if h.len() == 40 && all_hex_digits(h) {
        hex_digits_val(h)
    } else {
        0
    }
}

/// The bytes a run of hexadecimal digit pairs denotes.
pub open spec fn hex_decoded(s: Seq<u8>) -> Seq<u8> {
    Seq::new(s.len() / 2, |i: int| (hex_digit_val(s[2 * i]) * 16 + hex_digit_val(s[2 * i + 1])) as u8)
}

/// The call data a text denotes: only a `0x`-prefixed, even-length, well-
/// formed hexadecimal text decodes; anything else — a missing prefix
/// included — falls back to empty call data.
pub open spec fn data_of_text(s: Seq<u8>) -> Seq<u8> {
    if s.len() >= 2 && s[0] == 48 && s[1] == 120 {
        let h = s.skip(2);
        if h.len() % 2 == 0 && all_hex_digits(h) {
            hex_decoded(h)
        } else {
            Seq::empty()
        }
    } else {
        Seq::empty()
    }
}

/// The value a text denotes: with a `0x` prefix, one to sixty-four
/// hexadecimal digits; without one, a run of decimal digits below 2^256.
/// Anything else falls back to zero.
pub open spec fn value_of_text(s: Seq<u8>) -> int {
    if s.len() >= 2 && s[0] == 48 && s[1] == 120 {
        let h = s.skip(2);
        if 1 <= h.len() <= 64 && all_hex_digits(h) {
            hex_digits_val(h)
        } else {
            0
        }
    } else if all_dec_digits(s) && dec_digits_val(s) < pow256() {
        dec_digits_val(s)
    } else {
        0
    }
}

/// The transaction content a request's four texts denote.
pub open spec fn request_model(rt: RequestTransaction) -> (int, int, Seq<u8>, int) {
    (
        addr_of_text(encode_utf8(rt.from@)),
        addr_of_text(encode_utf8(rt.to@)),
        data_of_text(encode_utf8(rt.data@)),
        value_of_text(encode_utf8(rt.value@)),
    )
}

/// Relies on hex::decode: pairs of hexadecimal digits, either case, to
/// bytes; an odd length or a non-digit byte is an error.
#[verifier::external_body]
fn hex_decode(h: &[u8]) -> (r: Option<Vec<u8>>)
    ensures
        match r {
            Some(v) => h@.len() % 2 == 0 && all_hex_digits(h@) && v@ == hex_decoded(h@),
            None => !(h@.len() % 2 == 0 && all_hex_digits(h@)),
        },
{
    hex::decode(h).ok()
}

/// Reads an address text, to the zero address on any malformed input.
fn parse_request_address(b: &[u8]) -> (a: Address)
    ensures
        a.as_int() == addr_of_text(b@),
{
    let h: &[u8] = if b.len() >= 2 && b[0] == 48 && b[1] == 120 {
        vstd::slice::slice_subrange(b, 2, b.len())
    } else {
        b
    };
    proof {
        assert(b@.subrange(2, b@.len() as int) =~= b@.skip(2));
    }
    match parse_address_hex(h) {
        Some(a) => a,
        None => Address::zero(),
    }
}

/// Reads a call-data text, to empty data on any malformed input.
fn parse_request_data(b: &[u8]) -> (d: Vec<u8>)
    ensures
        d@ == data_of_text(b@),
{
    if b.len() >= 2 && b[0] == 48 && b[1] == 120 {
        let h = vstd::slice::slice_subrange(b, 2, b.len());
        proof {
            assert(b@.subrange(2, b@.len() as int) =~= b@.skip(2));
        }
        match hex_decode(h) {
            Some(v) => v,
            None => {
                proof {
                    assert(data_of_text(b@) =~= Seq::<u8>::empty());
                }
                Vec::new()
            },
        }
    } else {
        proof {
            assert(data_of_text(b@) =~= Seq::<u8>::empty());
        }
        Vec::new()
    }
}

/// Reads a value text, to zero on any malformed or oversized input.
fn parse_request_value(b: &[u8]) -> (v: U256)
    ensures
        v.as_int() == value_of_text(b@),
{
    if b.len() >= 2 && b[0] == 48 && b[1] == 120 {
        let h = vstd::slice::slice_subrange(b, 2, b.len());
        proof {
            assert(b@.subrange(2, b@.len() as int) =~= b@.skip(2));
        }
        match parse_hex_u256(h) {
            Some(v) => v,
            None => U256::zero(),
        }
    } else {
        match parse_dec_u256(b) {
            Some(v) => v,
            None => U256::zero(),
        }
    }
}

impl RequestTransaction {
    /// Reads the four texts into a transaction, each malformed field
    /// falling back to its zero default.
    pub fn into(&self) -> (t: Transaction)
        ensures
            t.model() == request_model(*self),
    {
        Transaction {
            from: parse_request_address(self.from.as_str().as_bytes()),
            to: parse_request_address(self.to.as_str().as_bytes()),
            data: parse_request_data(self.data.as_str().as_bytes()),
            value: parse_request_value(self.value.as_str().as_bytes()),
        }
    }
}

/// Reads a whole batch, in order: entry `i` of the result is the reading
/// of request `i`.
pub fn parse_batch(requests: &Vec<RequestTransaction>) -> (r: Vec<Transaction>)
    ensures
        r@.len() == requests@.len(),
        forall|i: int|
            0 <= i < requests@.len() ==> r@[i].model() == request_model(#[trigger] requests@[i]),
{
    let mut r: Vec<Transaction> = Vec::new();
    let mut i: usize = 0;
    while i < requests.len()
        invariant
            0 <= i <= requests@.len(),
            r@.len() == i,
            forall|j: int|
                0 <= j < i ==> r@[j].model() == request_model(#[trigger] requests@[j]),
        decreases requests@.len() - i,
    {
        r.push(RequestTransaction::into(&requests[i]));
        i = i + 1;
    }
    r
}

} // verus!
