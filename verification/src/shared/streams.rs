//! The streams of a run: what the program reads, what it prints, and what is
//! reported of its errors, each held as bytes in memory.
use vstd::prelude::*;
use vstd::utf8::{decode_utf8, encode_utf8, valid_utf8};

verus! {

/// The error of `String::from_utf8`.
#[verifier::external_type_specification]
#[verifier::external_body]
pub struct ExFromUtf8Error(std::string::FromUtf8Error);

/// `String::from_utf8` makes a string of the bytes where they are valid
/// UTF-8, the string that they encode, and fails where they are not.
pub assume_specification[ std::string::String::from_utf8 ](vec: Vec<u8>) -> (r: Result<
    String,
    std::string::FromUtf8Error,
>)
    ensures
        match r {
            Ok(s) => valid_utf8(vec@) && s@ == decode_utf8(vec@),
            Err(_) => !valid_utf8(vec@),
        },
;

/// The three streams of a run.
pub struct Streams {
    pub input: Vec<u8>,
    pub output: Vec<u8>,
    pub error: Vec<u8>,
}

fn copy_of(bytes: &Vec<u8>) -> (r: Vec<u8>)
    ensures
        r@ == bytes@,
{
    let mut out: Vec<u8> = Vec::new();
    let mut i: usize = 0;
    while i < bytes.len()
        invariant
            i <= bytes.len(),
            out@ == bytes@.take(i as int),
        decreases bytes.len() - i,
    {
        out.push(bytes[i]);
        i += 1;
        assert(out@ =~= bytes@.take(i as int));
    }
    assert(bytes@.take(bytes@.len() as int) =~= bytes@);
    out
}

fn append(to: &mut Vec<u8>, text: &str)
    ensures
        final(to)@ == old(to)@ + encode_utf8(text@),
{
    let bytes = text.as_bytes();
    let mut i: usize = 0;
    assert(old(to)@ + bytes@.take(0) =~= old(to)@);
    while i < bytes.len()
        invariant
            i <= bytes.len(),
            bytes@ == encode_utf8(text@),
            to@ == old(to)@ + bytes@.take(i as int),
        decreases bytes.len() - i,
    {
        to.push(bytes[i]);
        i += 1;
        assert(to@ =~= old(to)@ + bytes@.take(i as int));
    }
    assert(bytes@.take(bytes@.len() as int) =~= bytes@);
}

impl Streams {
    /// Streams for a run whose output is to be looked at afterwards: all
    /// three are empty.
    pub fn test() -> (r: Self)
        ensures
            r.input@ == Seq::<u8>::empty(),
            r.output@ == Seq::<u8>::empty(),
            r.error@ == Seq::<u8>::empty(),
    {
        Streams { input: Vec::new(), output: Vec::new(), error: Vec::new() }
    }

    /// What was printed, as text; an error where the bytes are no text.
    pub fn get_output(&self) -> (r: Result<String, std::string::FromUtf8Error>)
        ensures
            match r {
                Ok(s) => valid_utf8(self.output@) && s@ == decode_utf8(self.output@),
                Err(_) => !valid_utf8(self.output@),
            },
    {
        String::from_utf8(copy_of(&self.output))
    }

    /// What was reported of errors, as text; an error where the bytes are no
    /// text.
    pub fn get_error(&self) -> (r: Result<String, std::string::FromUtf8Error>)
        ensures
            match r {
                Ok(s) => valid_utf8(self.error@) && s@ == decode_utf8(self.error@),
                Err(_) => !valid_utf8(self.error@),
            },
    {
        String::from_utf8(copy_of(&self.error))
    }

    /// Adds `text` to what was printed.
    pub fn write_output(&mut self, text: &str)
        ensures
            final(self).output@ == old(self).output@ + encode_utf8(text@),
            final(self).input@ == old(self).input@,
            final(self).error@ == old(self).error@,
    {
        append(&mut self.output, text);
    }

    /// Adds `text` to what was reported of errors.
    pub fn write_error(&mut self, text: &str)
        ensures
            final(self).error@ == old(self).error@ + encode_utf8(text@),
            final(self).input@ == old(self).input@,
            final(self).output@ == old(self).output@,
    {
        append(&mut self.error, text);
    }
}

/// What is written to an empty stream reads back as the same text.
pub proof fn lemma_written_reads_back(text: Seq<char>)
    ensures
        valid_utf8(Seq::<u8>::empty() + encode_utf8(text)),
        decode_utf8(Seq::<u8>::empty() + encode_utf8(text)) == text,
{
    broadcast use vstd::utf8::encode_utf8_valid_utf8, vstd::utf8::encode_utf8_decode_utf8;

    assert(Seq::<u8>::empty() + encode_utf8(text) =~= encode_utf8(text));
}

} // verus!
