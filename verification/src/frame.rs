//! The fixed-size frame in which one instance hands a request token to
//! another: the token's bytes behind as many zero bytes as fill the frame.

use crate::text::occurs_at;
use vstd::prelude::*;
use vstd::string::*;
use vstd::utf8::{decode_utf8, encode_utf8, encode_utf8_decode_utf8, encode_utf8_valid_utf8, valid_utf8};

verus! {

/// Number of bytes in a frame.
pub const FRAME_LEN: usize = 1024;

/// `n` zero bytes.
pub open spec fn padding(n: nat) -> Seq<u8> {
    Seq::new(n, |i: int| 0u8)
}

/// The frame that carries `bytes`, for `bytes` that fit.
pub open spec fn framed(bytes: Seq<u8>) -> Seq<u8> {
    padding((FRAME_LEN - bytes.len()) as nat) + bytes
}

/// What is left of `frame` once every zero byte is taken out.
pub open spec fn without_padding(frame: Seq<u8>) -> Seq<u8> {
    frame.filter(|b: u8| b != 0)
}

/// Whether a command-line argument is a request token: it starts with the
/// scheme that the system hands to this program.
pub open spec fn is_token(arg: Seq<char>) -> bool {
    occurs_at(arg, "nxm://"@, 0)
}

/// Calls `String::from_utf8`: the text that `bytes` encode, which exists
/// exactly where `bytes` are well-formed UTF-8.
#[verifier::external_body]
fn text_of(bytes: Vec<u8>) -> (r: Option<String>)
    ensures
        match r {
            Some(text) => valid_utf8(bytes@) && text@ == decode_utf8(bytes@),
            None => !valid_utf8(bytes@),
        },
{
    String::from_utf8(bytes).ok()
}

/// Whether a command-line argument is a request token.
pub fn is_request_token(arg: &str) -> (r: bool)
    ensures
        r == is_token(arg@),
{
    let scheme = "nxm://";
    let n: usize = arg.unicode_len();
    let m: usize = scheme.unicode_len();
    if n < m {
        return false;
    }
    crate::text::matches_at(arg, scheme, 0)
}

/// Sets `token` into a frame, unless it is longer than one.
pub fn encode_frame(token: &str) -> (r: Option<Vec<u8>>)
    ensures
        match r {
            Some(frame) => token.spec_bytes().len() <= FRAME_LEN && frame@ == framed(
                token.spec_bytes(),
            ),
            None => token.spec_bytes().len() > FRAME_LEN,
        },
{
    let bytes = token.as_bytes();
    let len: usize = bytes.len();
    if len > FRAME_LEN {
        return None;
    }
    let pad: usize = FRAME_LEN - len;
    let mut frame: Vec<u8> = Vec::new();
    let mut i: usize = 0;
    while i < pad
        invariant
            i <= pad,
            frame@ == padding(i as nat),
        decreases pad - i,
    {
        frame.push(0u8);
        i = i + 1;
        assert(frame@ =~= padding(i as nat));
    }
    let mut j: usize = 0;
    while j < len
        invariant
            j <= len,
            len == bytes@.len(),
            frame@ == padding(pad as nat) + bytes@.subrange(0, j as int),
        decreases len - j,
    {
        frame.push(bytes[j]);
        j = j + 1;
        assert(frame@ =~= padding(pad as nat) + bytes@.subrange(0, j as int));
    }
    assert(bytes@.subrange(0, len as int) =~= bytes@);
    Some(frame)
}

/// Takes every zero byte out of `frame`.
pub fn strip_padding(frame: &[u8]) -> (bytes: Vec<u8>)
    ensures
        bytes@ == without_padding(frame@),
{
    let mut bytes: Vec<u8> = Vec::new();
    let mut i: usize = 0;
    proof {
        reveal(Seq::filter);
        assert(frame@.subrange(0, 0) =~= Seq::<u8>::empty());
    }
    while i < frame.len()
        invariant
            i <= frame@.len(),
            bytes@ == without_padding(frame@.subrange(0, i as int)),
        decreases frame@.len() - i,
    {
        let b: u8 = frame[i];
        proof {
            lemma_without_padding_step(frame@.subrange(0, i + 1));
            assert(frame@.subrange(0, i + 1).drop_last() =~= frame@.subrange(0, i as int));
        }
        if b != 0 {
            bytes.push(b);
        }
        i = i + 1;
    }
    assert(frame@.subrange(0, frame@.len() as int) =~= frame@);
    bytes
}

/// Reads the token out of a frame: its bytes without the zero bytes, as text.
pub fn decode_frame(frame: &[u8]) -> (r: Option<String>)
    ensures
        match r {
            Some(token) => valid_utf8(without_padding(frame@)) && token@ == decode_utf8(
                without_padding(frame@),
            ),
            None => !valid_utf8(without_padding(frame@)),
        },
{
    text_of(strip_padding(frame))
}

/// Taking the padding out goes byte by byte from the end.
pub proof fn lemma_without_padding_step(frame: Seq<u8>)
    requires
        frame.len() > 0,
    ensures
        without_padding(frame) == if frame.last() != 0 {
            without_padding(frame.drop_last()).push(frame.last())
        } else {
            without_padding(frame.drop_last())
        },
{
    reveal(Seq::filter);
}

/// A run of zero bytes holds nothing but padding.
pub proof fn lemma_padding_only(n: nat)
    ensures
        without_padding(padding(n)) == Seq::<u8>::empty(),
    decreases n,
{
    if n > 0 {
        assert(padding(n).drop_last() =~= padding((n - 1) as nat));
        lemma_padding_only((n - 1) as nat);
        lemma_without_padding_step(padding(n));
    } else {
        reveal(Seq::filter);
    }
}

/// Bytes without a zero among them stay as they are behind any frame start.
pub proof fn lemma_payload_kept(head: Seq<u8>, bytes: Seq<u8>)
    requires
        forall|i: int| 0 <= i < bytes.len() ==> #[trigger] bytes[i] != 0,
    ensures
        without_padding(head + bytes) == without_padding(head) + bytes,
    decreases bytes.len(),
{
    if bytes.len() == 0 {
        assert(head + bytes =~= head);
        assert(without_padding(head) + bytes =~= without_padding(head));
    } else {
        let whole = head + bytes;
        let shorter = bytes.drop_last();
        assert(whole.drop_last() =~= head + shorter);
        assert(whole.last() == bytes[bytes.len() - 1]);
        assert forall|i: int| 0 <= i < shorter.len() implies #[trigger] shorter[i] != 0 by {
            assert(shorter[i] == bytes[i]);
        }
        lemma_payload_kept(head, shorter);
        lemma_without_padding_step(whole);
        assert((without_padding(head) + shorter).push(bytes.last()) =~= without_padding(head)
            + bytes);
    }
}

/// Zero bytes in front of `bytes` leave no trace once the padding is taken out.
pub proof fn lemma_padding_vanishes(n: nat, bytes: Seq<u8>)
    requires
        forall|i: int| 0 <= i < bytes.len() ==> #[trigger] bytes[i] != 0,
    ensures
        without_padding(padding(n) + bytes) == bytes,
{
    lemma_payload_kept(padding(n), bytes);
    lemma_padding_only(n);
    assert(Seq::<u8>::empty() + bytes =~= bytes);
}

/// A token without a zero byte that fits a frame comes out of its frame as it
/// went in.
pub proof fn lemma_frame_round_trip(token: Seq<char>)
    requires
        encode_utf8(token).len() <= FRAME_LEN,
        forall|i: int| 0 <= i < encode_utf8(token).len() ==> #[trigger] encode_utf8(token)[i] != 0,
    ensures
        framed(encode_utf8(token)).len() == FRAME_LEN,
        valid_utf8(without_padding(framed(encode_utf8(token)))),
        decode_utf8(without_padding(framed(encode_utf8(token)))) == token,
{
    let bytes = encode_utf8(token);
    lemma_padding_vanishes((FRAME_LEN - bytes.len()) as nat, bytes);
    encode_utf8_valid_utf8(token);
    encode_utf8_decode_utf8(token);
}

} // verus!
