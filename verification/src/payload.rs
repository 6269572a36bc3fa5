//! The values that messages carry: bounded blobs and texts, transaction
//! identifiers and failure reports, each with its encoding.
//!
//! Every decoder here reads a value from the front of the bytes it is given
//! and says how many bytes the value took.

use crate::error::DecodeError;
use crate::wire::{get_u16, put_bytes, put_u16, skip, u16_from_le, u16_le};
use vstd::prelude::*;
use vstd::slice::slice_subrange;
use vstd::slice::slice_to_vec;
use vstd::utf8::{decode_utf8, encode_utf8, valid_utf8};

verus! {

/// The most bytes that a blob or a text may hold: its length is written in
/// one byte.
pub const MAX_SMALL_LEN: usize = 255;

/// The length of a transaction identifier in bytes.
pub const TXID_LEN: usize = 32;

/// The encoding of a short run of bytes: its length in one byte, then the
/// bytes.
pub open spec fn small_bytes_encoding(bytes: Seq<u8>) -> Seq<u8>
    recommends
        bytes.len() <= MAX_SMALL_LEN,
{
    seq![bytes.len() as u8] + bytes
}

/// What stands at the front of `input` when a short run of bytes is read
/// there: the run and the number of bytes taken, or the fault.
pub open spec fn small_bytes_decoding(input: Seq<u8>) -> Result<(Seq<u8>, int), DecodeError> {
    if input.len() < 1 || input.len() < 1 + input[0] {
        Err(DecodeError::Truncated)
    } else {
        Ok((input.subrange(1, 1 + input[0] as int), 1 + input[0] as int))
    }
}

/// A short run of bytes decodes to itself, whatever follows it.
pub proof fn lemma_small_bytes_roundtrip(bytes: Seq<u8>, rest: Seq<u8>)
    requires
        bytes.len() <= MAX_SMALL_LEN,
    ensures
        small_bytes_decoding(small_bytes_encoding(bytes) + rest) == Ok::<_, DecodeError>(
            (bytes, 1 + bytes.len() as int),
        ),
{
    let input = small_bytes_encoding(bytes) + rest;
    assert(input[0] == bytes.len());
    assert(input.subrange(1, 1 + bytes.len() as int) =~= bytes);
}

/// What decodes as a short run of bytes is that run's encoding.
pub proof fn lemma_small_bytes_decoded(input: Seq<u8>)
    requires
        small_bytes_decoding(input) is Ok,
    ensures
        ({
            let (bytes, taken) = small_bytes_decoding(input).unwrap();
            &&& bytes.len() <= MAX_SMALL_LEN
            &&& 0 < taken <= input.len()
            &&& input.subrange(0, taken) == small_bytes_encoding(bytes)
        }),
{
    let (bytes, taken) = small_bytes_decoding(input).unwrap();
    assert(input.subrange(0, taken) =~= small_bytes_encoding(bytes));
}

/// Appends a short run of bytes to `out`, length first.
fn put_small_bytes(out: &mut Vec<u8>, bytes: &[u8])
    requires
        bytes@.len() <= MAX_SMALL_LEN,
    ensures
        final(out)@ == old(out)@ + small_bytes_encoding(bytes@),
{
    out.push(bytes.len() as u8);
    put_bytes(out, bytes);
    assert(out@ =~= old(out)@ + small_bytes_encoding(bytes@));
}

/// Reads a short run of bytes from the front of `input`.
fn get_small_bytes(input: &[u8]) -> (r: Result<(Vec<u8>, usize), DecodeError>)
    ensures
        match r {
            Ok((bytes, taken)) => small_bytes_decoding(input@) == Ok::<_, DecodeError>(
                (bytes@, taken as int),
            ),
            Err(e) => small_bytes_decoding(input@) == Err::<(Seq<u8>, int), _>(e),
        },
{
    if input.len() < 1 {
        return Err(DecodeError::Truncated);
    }
    let len: usize = input[0] as usize;
    if input.len() - 1 < len {
        return Err(DecodeError::Truncated);
    }
    let bytes = slice_to_vec(slice_subrange(input, 1, 1 + len));
    Ok((bytes, 1 + len))
}

/// A small opaque blob: at most 255 bytes.
#[derive(PartialEq, Eq, Debug)]
pub struct Blob {
    bytes: Vec<u8>,
}

impl Clone for Blob {
    fn clone(&self) -> (copy: Self)
        ensures
            copy@ == self@,
    {
        proof {
            use_type_invariant(self);
        }
        Blob { bytes: self.bytes.clone() }
    }
}

impl View for Blob {
    type V = Seq<u8>;

    closed spec fn view(&self) -> Seq<u8> {
        self.bytes@
    }
}

impl Blob {
    /// What holds of every blob: it is short enough to be sent.
    #[verifier::type_invariant]
    pub open spec fn bounded(self) -> bool {
        self@.len() <= MAX_SMALL_LEN
    }

    /// The blob that holds `bytes`, where they are few enough.
    pub fn new(bytes: Vec<u8>) -> (r: Option<Blob>)
        ensures
            bytes@.len() <= MAX_SMALL_LEN ==> (r matches Some(blob) && blob@ == bytes@),
            bytes@.len() > MAX_SMALL_LEN ==> r is None,
    {
        if bytes.len() <= MAX_SMALL_LEN {
            Some(Blob { bytes })
        } else {
            None
        }
    }

    /// The empty blob.
    pub fn empty() -> (blob: Blob)
        ensures
            blob@ == Seq::<u8>::empty(),
    {
        Blob { bytes: Vec::new() }
    }

    /// The bytes held.
    pub fn as_slice(&self) -> (bytes: &[u8])
        ensures
            bytes@ == self@,
            bytes@.len() <= MAX_SMALL_LEN,
    {
        proof {
            use_type_invariant(self);
        }
        self.bytes.as_slice()
    }

    /// The number of bytes held.
    pub fn len(&self) -> (n: usize)
        ensures
            n == self@.len(),
            n <= MAX_SMALL_LEN,
    {
        proof {
            use_type_invariant(self);
        }
        self.bytes.len()
    }

    /// Appends the blob's encoding to `out`.
    pub fn encode_into(&self, out: &mut Vec<u8>)
        ensures
            self@.len() <= MAX_SMALL_LEN,
            final(out)@ == old(out)@ + small_bytes_encoding(self@),
    {
        proof {
            use_type_invariant(self);
        }
        put_small_bytes(out, self.bytes.as_slice());
    }

    /// Reads a blob from the front of `input`. On success the second value
    /// is the number of bytes that it took.
    pub fn decode_from(input: &[u8]) -> (r: Result<(Blob, usize), DecodeError>)
        ensures
            match r {
                Ok((blob, taken)) => small_bytes_decoding(input@) == Ok::<_, DecodeError>(
                    (blob@, taken as int),
                ),
                Err(e) => small_bytes_decoding(input@) == Err::<(Seq<u8>, int), _>(e),
            },
    {
        match get_small_bytes(input) {
            Ok((bytes, taken)) => {
                proof {
                    lemma_small_bytes_decoded(input@);
                }
                Ok((Blob { bytes }, taken))
            },
            Err(e) => Err(e),
        }
    }
}

/// Whether a text is short enough to be sent: its UTF-8 form has at most
/// 255 bytes.
pub open spec fn text_fits(chars: Seq<char>) -> bool {
    encode_utf8(chars).len() <= MAX_SMALL_LEN
}

/// The encoding of a text: its UTF-8 form as a short run of bytes.
pub open spec fn text_encoding(chars: Seq<char>) -> Seq<u8>
    recommends
        text_fits(chars),
{
    small_bytes_encoding(encode_utf8(chars))
}

/// What stands at the front of `input` when a text is read there.
pub open spec fn text_decoding(input: Seq<u8>) -> Result<(Seq<char>, int), DecodeError> {
    match small_bytes_decoding(input) {
        Err(e) => Err(e),
        Ok((bytes, taken)) => if valid_utf8(bytes) {
            Ok((decode_utf8(bytes), taken))
        } else {
            Err(DecodeError::InvalidUtf8)
        },
    }
}

/// A text decodes to itself, whatever follows it.
pub proof fn lemma_text_roundtrip(chars: Seq<char>, rest: Seq<u8>)
    requires
        text_fits(chars),
    ensures
        text_decoding(text_encoding(chars) + rest) == Ok::<_, DecodeError>(
            (chars, 1 + encode_utf8(chars).len() as int),
        ),
{
    lemma_small_bytes_roundtrip(encode_utf8(chars), rest);
    vstd::utf8::encode_utf8_valid_utf8(chars);
    vstd::utf8::encode_utf8_decode_utf8(chars);
}

/// What decodes as a text is that text's encoding, and the text fits.
pub proof fn lemma_text_decoded(input: Seq<u8>)
    requires
        text_decoding(input) is Ok,
    ensures
        ({
            let (chars, taken) = text_decoding(input).unwrap();
            &&& text_fits(chars)
            &&& 0 < taken <= input.len()
            &&& input.subrange(0, taken) == text_encoding(chars)
        }),
{
    lemma_small_bytes_decoded(input);
    let (bytes, taken) = small_bytes_decoding(input).unwrap();
    vstd::utf8::decode_utf8_encode_utf8(bytes);
}

/// `String::from_utf8` of std, with the error dropped. The contract claims
/// what its documentation says: the call succeeds exactly on valid UTF-8, and
/// the string it gives has the bytes handed in as its UTF-8 form.
#[verifier::external_body]
fn string_from_utf8(bytes: Vec<u8>) -> (r: Option<String>)
    ensures
        r is Some <==> valid_utf8(bytes@),
        r matches Some(s) ==> encode_utf8(s@) == bytes@,
{
    match String::from_utf8(bytes) {
        Ok(s) => Some(s),
        Err(_) => None,
    }
}

/// A short text: at most 255 bytes of UTF-8.
#[derive(PartialEq, Eq, Debug)]
pub struct Text {
    chars: String,
}

impl View for Text {
    type V = Seq<char>;

    closed spec fn view(&self) -> Seq<char> {
        self.chars@
    }
}

impl Clone for Text {
    fn clone(&self) -> (copy: Self)
        ensures
            copy@ == self@,
    {
        proof {
            use_type_invariant(self);
        }
        Text { chars: self.chars.clone() }
    }
}

impl Text {
    /// What holds of every text: it is short enough to be sent.
    #[verifier::type_invariant]
    pub open spec fn bounded(self) -> bool {
        text_fits(self@)
    }

    /// The text that holds `chars`, where their UTF-8 form is short enough.
    pub fn new(chars: String) -> (r: Option<Text>)
        ensures
            text_fits(chars@) ==> (r matches Some(text) && text@ == chars@),
            !text_fits(chars@) ==> r is None,
    {
        if chars.as_str().as_bytes().len() <= MAX_SMALL_LEN {
            Some(Text { chars })
        } else {
            None
        }
    }

    /// The characters held.
    pub fn as_str(&self) -> (chars: &str)
        ensures
            chars@ == self@,
            text_fits(self@),
    {
        proof {
            use_type_invariant(self);
        }
        self.chars.as_str()
    }

    /// Appends the text's encoding to `out`.
    pub fn encode_into(&self, out: &mut Vec<u8>)
        ensures
            text_fits(self@),
            final(out)@ == old(out)@ + text_encoding(self@),
    {
        proof {
            use_type_invariant(self);
        }
        put_small_bytes(out, self.chars.as_str().as_bytes());
    }

    /// Reads a text from the front of `input`. On success the second value
    /// is the number of bytes that it took.
    pub fn decode_from(input: &[u8]) -> (r: Result<(Text, usize), DecodeError>)
        ensures
            match r {
                Ok((text, taken)) => text_decoding(input@) == Ok::<_, DecodeError>(
                    (text@, taken as int),
                ),
                Err(e) => text_decoding(input@) == Err::<(Seq<char>, int), _>(e),
            },
    {
        match get_small_bytes(input) {
            Ok((bytes, taken)) => {
                proof {
                    lemma_small_bytes_decoded(input@);
                }
                match string_from_utf8(bytes) {
                    Some(chars) => {
                        proof {
                            vstd::utf8::encode_utf8_decode_utf8(chars@);
                        }
                        Ok((Text { chars }, taken))
                    },
                    None => Err(DecodeError::InvalidUtf8),
                }
            },
            Err(e) => Err(e),
        }
    }
}

/// The identifier of a transaction: 32 bytes, sent as they are.
#[derive(Clone, Copy, PartialEq, Eq, Debug)]
pub struct Txid(pub [u8; 32]);

impl View for Txid {
    type V = Seq<u8>;

    open spec fn view(&self) -> Seq<u8> {
        self.0@
    }
}

/// What stands at the front of `input` when a transaction identifier is read
/// there.
pub open spec fn txid_decoding(input: Seq<u8>) -> Result<(Seq<u8>, int), DecodeError> {
    if input.len() < TXID_LEN {
        Err(DecodeError::Truncated)
    } else {
        Ok((input.subrange(0, TXID_LEN as int), TXID_LEN as int))
    }
}

/// A transaction identifier decodes to itself, whatever follows it.
pub proof fn lemma_txid_roundtrip(bytes: Seq<u8>, rest: Seq<u8>)
    requires
        bytes.len() == TXID_LEN,
    ensures
        txid_decoding(bytes + rest) == Ok::<_, DecodeError>((bytes, TXID_LEN as int)),
{
    assert((bytes + rest).subrange(0, TXID_LEN as int) =~= bytes);
}

impl Txid {
    /// Appends the 32 bytes to `out`.
    pub fn encode_into(&self, out: &mut Vec<u8>)
        ensures
            self@.len() == TXID_LEN,
            final(out)@ == old(out)@ + self@,
    {
        put_bytes(out, self.0.as_slice());
    }

    /// Reads an identifier from the front of `input`. On success the second
    /// value is the number of bytes that it took.
    pub fn decode_from(input: &[u8]) -> (r: Result<(Txid, usize), DecodeError>)
        ensures
            match r {
                Ok((txid, taken)) => txid_decoding(input@) == Ok::<_, DecodeError>(
                    (txid@, taken as int),
                ),
                Err(e) => txid_decoding(input@) == Err::<(Seq<u8>, int), _>(e),
            },
    {
        if input.len() < TXID_LEN {
            return Err(DecodeError::Truncated);
        }
        let mut bytes: [u8; 32] = [0u8; 32];
        let mut i: usize = 0;
        while i < TXID_LEN
            invariant
                i <= TXID_LEN,
                TXID_LEN <= input.len(),
                forall|k: int| 0 <= k < i ==> bytes@[k] == input@[k],
            decreases TXID_LEN - i,
        {
            bytes[i] = input[i];
            i += 1;
        }
        assert(bytes@ =~= input@.subrange(0, TXID_LEN as int));
        Ok((Txid(bytes), TXID_LEN))
    }
}

/// A request that was rejected or has failed: a code for programs and a text
/// for people. It reports on a request, never on the transport.
#[derive(PartialEq, Eq, Debug)]
pub struct Failure {
    pub code: u16,
    pub message: Text,
}

/// A failure report as a plain value.
pub struct FailureView {
    pub code: u16,
    pub message: Seq<char>,
}

impl View for Failure {
    type V = FailureView;

    open spec fn view(&self) -> FailureView {
        FailureView { code: self.code, message: self.message@ }
    }
}

/// The encoding of a failure report: the code, then the text.
pub open spec fn failure_encoding(failure: FailureView) -> Seq<u8>
    recommends
        text_fits(failure.message),
{
    u16_le(failure.code) + text_encoding(failure.message)
}

/// What stands at the front of `input` when a failure report is read there.
pub open spec fn failure_decoding(input: Seq<u8>) -> Result<(FailureView, int), DecodeError> {
    if input.len() < 2 {
        Err(DecodeError::Truncated)
    } else {
        match text_decoding(input.skip(2)) {
            Err(e) => Err(e),
            Ok((message, taken)) => Ok(
                (FailureView { code: u16_from_le(input.subrange(0, 2)), message }, 2 + taken),
            ),
        }
    }
}

/// A failure report decodes to itself, whatever follows it.
pub proof fn lemma_failure_roundtrip(failure: FailureView, rest: Seq<u8>)
    requires
        text_fits(failure.message),
    ensures
        failure_decoding(failure_encoding(failure) + rest) == Ok::<_, DecodeError>(
            (failure, failure_encoding(failure).len() as int),
        ),
{
    let input = failure_encoding(failure) + rest;
    crate::wire::lemma_u16_value_roundtrip(failure.code);
    assert(input.subrange(0, 2) =~= u16_le(failure.code));
    assert(input.skip(2) =~= text_encoding(failure.message) + rest);
    lemma_text_roundtrip(failure.message, rest);
}

/// What decodes as a failure report is that report's encoding, and its text
/// fits.
pub proof fn lemma_failure_decoded(input: Seq<u8>)
    requires
        failure_decoding(input) is Ok,
    ensures
        ({
            let (failure, taken) = failure_decoding(input).unwrap();
            &&& text_fits(failure.message)
            &&& 0 < taken <= input.len()
            &&& input.subrange(0, taken) == failure_encoding(failure)
        }),
{
    let (failure, taken) = failure_decoding(input).unwrap();
    lemma_text_decoded(input.skip(2));
    crate::wire::lemma_u16_bytes_roundtrip(input.subrange(0, 2));
    assert(input.subrange(0, taken) =~= input.subrange(0, 2) + input.skip(2).subrange(
        0,
        taken - 2,
    ));
}

impl Clone for Failure {
    fn clone(&self) -> (copy: Self)
        ensures
            copy@ == self@,
    {
        Failure { code: self.code, message: self.message.clone() }
    }
}

impl Failure {
    /// Appends the report's encoding to `out`.
    pub fn encode_into(&self, out: &mut Vec<u8>)
        ensures
            text_fits(self@.message),
            final(out)@ == old(out)@ + failure_encoding(self@),
    {
        put_u16(out, self.code);
        self.message.encode_into(out);
        assert(out@ =~= old(out)@ + failure_encoding(self@));
    }

    /// Reads a report from the front of `input`. On success the second value
    /// is the number of bytes that it took.
    pub fn decode_from(input: &[u8]) -> (r: Result<(Failure, usize), DecodeError>)
        ensures
            match r {
                Ok((failure, taken)) => failure_decoding(input@) == Ok::<_, DecodeError>(
                    (failure@, taken as int),
                ),
                Err(e) => failure_decoding(input@) == Err::<(FailureView, int), _>(e),
            },
    {
        match get_u16(input) {
            None => Err(DecodeError::Truncated),
            Some(code) => match Text::decode_from(skip(input, 2)) {
                Ok((message, taken)) => {
                    proof {
                        lemma_text_decoded(input@.skip(2));
                    }
                    Ok((Failure { code, message }, 2 + taken))
                },
                Err(e) => Err(e),
            },
        }
    }
}

} // verus!
