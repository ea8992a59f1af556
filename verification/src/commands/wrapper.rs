//! A writer with an output stream and an error stream, each of which goes to the process's
//! standard stream or collects what is written, so that a caller can read back what a command
//! wrote.
use vstd::prelude::*;
use vstd::utf8::{decode_utf8, encode_utf8, valid_utf8};

use crate::errors::Error;
use std::io::{Stderr, Stdout};
use std::string::FromUtf8Error;

verus! {

#[verifier::external_type_specification]
#[verifier::external_body]
pub struct ExStdout(Stdout);

#[verifier::external_type_specification]
#[verifier::external_body]
pub struct ExStderr(Stderr);

#[verifier::external_type_specification]
#[verifier::external_body]
pub struct ExFromUtf8Error(FromUtf8Error);

/// The process's standard output, with the bytes handed to it so far.
pub struct StdoutSink {
    out: Stdout,
    sent: Ghost<Seq<u8>>,
}

impl StdoutSink {
    /// The bytes handed to the stream so far.
    pub closed spec fn sent(&self) -> Seq<u8> {
        self.sent@
    }

    /// The stream `out`, with nothing handed to it yet.
    pub fn new(out: Stdout) -> (r: Self)
        ensures
            r.sent() == Seq::<u8>::empty(),
    {
        StdoutSink { out, sent: Ghost(Seq::empty()) }
    }
}

/// The process's standard error, with the bytes handed to it so far.
pub struct StderrSink {
    err: Stderr,
    sent: Ghost<Seq<u8>>,
}

impl StderrSink {
    /// The bytes handed to the stream so far.
    pub closed spec fn sent(&self) -> Seq<u8> {
        self.sent@
    }

    /// The stream `err`, with nothing handed to it yet.
    pub fn new(err: Stderr) -> (r: Self)
        ensures
            r.sent() == Seq::<u8>::empty(),
    {
        StderrSink { err, sent: Ghost(Seq::empty()) }
    }
}

/// Where a stream of a [`Writer`] puts what is written.
pub enum WriteBuffer {
    Stdout(StdoutSink),
    Stderr(StderrSink),
    Vec(Vec<u8>),
}

/// What `String::from_utf8_lossy` makes of `bytes`. Invalid sequences become U+FFFD; where a
/// sequence ends is decided by the standard library's decoder.
pub uninterp spec fn lossy_utf8(bytes: Seq<u8>) -> Seq<char>;

/// `bytes` as text by `String::from_utf8_lossy`: valid UTF-8 is decoded unchanged; the result is
/// named otherwise, because where a replacement starts and ends is the decoder's to decide.
#[verifier::external_body]
fn utf8_lossy(bytes: &[u8]) -> (r: String)
    ensures
        r@ == lossy_utf8(bytes@),
        valid_utf8(bytes@) ==> r@ == decode_utf8(bytes@),
{
    String::from_utf8_lossy(bytes).into_owned()
}

/// `bytes` as a string by `String::from_utf8`, which succeeds exactly on valid UTF-8.
#[verifier::external_body]
fn string_from_utf8(bytes: Vec<u8>) -> (r: Result<String, FromUtf8Error>)
    ensures
        r is Ok <==> valid_utf8(bytes@),
        r matches Ok(s) ==> s@ == decode_utf8(bytes@),
{
    String::from_utf8(bytes)
}

/// The process's standard error stream (`std::io::stderr`).
#[verifier::external_body]
fn standard_error() -> Stderr {
    std::io::stderr()
}

/// Hands the UTF-8 encoding of `s` to standard output (`Write::write_all` on `Stdout`), giving
/// the error's text when the stream refuses it. What is handed over is stated; whether the
/// stream takes it is the operating system's to decide, so nothing is stated of the result.
#[verifier::external_body]
fn write_to_stdout(out: &mut StdoutSink, s: &str) -> (r: Option<String>)
    ensures
        final(out).sent() == old(out).sent() + encode_utf8(s@),
{
    match std::io::Write::write_all(&mut out.out, s.as_bytes()) {
        Ok(()) => None,
        Err(e) => Some(e.to_string()),
    }
}

/// Hands the UTF-8 encoding of `s` to standard error (`Write::write_all` on `Stderr`), giving
/// the error's text when the stream refuses it. What is handed over is stated; whether the
/// stream takes it is the operating system's to decide, so nothing is stated of the result.
#[verifier::external_body]
fn write_to_stderr(err: &mut StderrSink, s: &str) -> (r: Option<String>)
    ensures
        final(err).sent() == old(err).sent() + encode_utf8(s@),
{
    match std::io::Write::write_all(&mut err.err, s.as_bytes()) {
        Ok(()) => None,
        Err(e) => Some(e.to_string()),
    }
}

/// Flushes standard output (`Write::flush` on `Stdout`), giving the error's text when the stream
/// refuses. Nothing new is handed over; whether the flush succeeds is the operating system's to
/// decide.
#[verifier::external_body]
fn flush_stdout(out: &mut StdoutSink) -> (r: Option<String>)
    ensures
        final(out).sent() == old(out).sent(),
{
    match std::io::Write::flush(&mut out.out) {
        Ok(()) => None,
        Err(e) => Some(e.to_string()),
    }
}

/// Flushes standard error (`Write::flush` on `Stderr`), giving the error's text when the stream
/// refuses. Nothing new is handed over; whether the flush succeeds is the operating system's to
/// decide.
#[verifier::external_body]
fn flush_stderr(err: &mut StderrSink) -> (r: Option<String>)
    ensures
        final(err).sent() == old(err).sent(),
{
    match std::io::Write::flush(&mut err.err) {
        Ok(()) => None,
        Err(e) => Some(e.to_string()),
    }
}

impl WriteBuffer {
    /// The bytes collected, for a buffer that collects them.
    pub open spec fn collected(&self) -> Option<Seq<u8>> {
        match self {
            WriteBuffer::Vec(v) => Some(v@),
            _ => None,
        }
    }

    /// The bytes written to the buffer so far: those handed to the standard stream, or those
    /// collected.
    pub open spec fn written(&self) -> Seq<u8> {
        match self {
            WriteBuffer::Stdout(s) => s.sent(),
            WriteBuffer::Stderr(s) => s.sent(),
            WriteBuffer::Vec(v) => v@,
        }
    }

    /// The collected bytes as a string. Only a collecting buffer has any to give.
    fn from_utf8(self) -> (r: Result<String, FromUtf8Error>)
        requires
            self.collected() is Some,
        ensures
            r is Ok <==> valid_utf8(self.collected()->Some_0),
            r matches Ok(s) ==> s@ == decode_utf8(self.collected()->Some_0),
    {
        match self {
            WriteBuffer::Vec(v) => string_from_utf8(v),
            _ => {
                assert(false);
                unreached()
            },
        }
    }

    /// Writes the UTF-8 encoding of `s`; an error when a standard stream refuses it. A collecting
    /// buffer always takes it.
    fn write_text(&mut self, s: &str) -> (r: Result<(), Error>)
        ensures
            final(self).written() == old(self).written() + encode_utf8(s@),
            final(self).collected() == match old(self).collected() {
                Some(b) => Some(b + encode_utf8(s@)),
                None => None::<Seq<u8>>,
            },
            old(self).collected() is Some ==> r is Ok,
            r matches Err(e) ==> e is IoError,
    {
        match self {
            WriteBuffer::Stdout(out) => match write_to_stdout(out, s) {
                None => Ok(()),
                Some(e) => Err(Error::IoError(e)),
            },
            WriteBuffer::Stderr(err) => match write_to_stderr(err, s) {
                None => Ok(()),
                Some(e) => Err(Error::IoError(e)),
            },
            WriteBuffer::Vec(v) => {
                let bytes = s.as_bytes();
                let mut k: usize = 0;
                let ghost start = v@;
                while k < bytes.len()
                    invariant
                        k <= bytes@.len(),
                        bytes@ == encode_utf8(s@),
                        v@ == start + bytes@.take(k as int),
                    decreases bytes.len() - k,
                {
                    v.push(bytes[k]);
                    assert(bytes@.take(k + 1) =~= bytes@.take(k as int).push(bytes@[k as int]));
                    k += 1;
                }
                assert(bytes@.take(k as int) =~= bytes@);
                Ok(())
            },
        }
    }

    /// Flushes a standard stream; an error when it refuses. A collecting buffer has nothing to
    /// flush.
    fn flush(&mut self) -> (r: Result<(), Error>)
        ensures
            final(self).written() == old(self).written(),
            final(self).collected() == old(self).collected(),
            old(self).collected() is Some ==> r is Ok,
            r matches Err(e) ==> e is IoError,
    {
        match self {
            WriteBuffer::Stdout(out) => match flush_stdout(out) {
                None => Ok(()),
                Some(e) => Err(Error::IoError(e)),
            },
            WriteBuffer::Stderr(err) => match flush_stderr(err) {
                None => Ok(()),
                Some(e) => Err(Error::IoError(e)),
            },
            WriteBuffer::Vec(_) => Ok(()),
        }
    }
}

/// Where a command writes what it has to say: an output stream, and an error stream for
/// warnings and diagnostics.
pub struct Writer {
    buffer: WriteBuffer,
    err: WriteBuffer,
}

impl Writer {
    /// The bytes written to the output so far, for an output that collects them.
    pub closed spec fn collected(&self) -> Option<Seq<u8>> {
        self.buffer.collected()
    }

    /// The bytes written to the error stream so far, for one that collects them.
    pub closed spec fn err_collected(&self) -> Option<Seq<u8>> {
        self.err.collected()
    }

    /// The bytes written to the output so far.
    pub closed spec fn written(&self) -> Seq<u8> {
        self.buffer.written()
    }

    /// The bytes written to the error stream so far.
    pub closed spec fn err_written(&self) -> Seq<u8> {
        self.err.written()
    }

    /// A writer whose output is `buffer` and whose errors go to standard error.
    pub fn new(buffer: WriteBuffer) -> (r: Self)
        ensures
            r.collected() == buffer.collected(),
            r.written() == buffer.written(),
            r.err_collected() is None,
            r.err_written() == Seq::<u8>::empty(),
    {
        Self { buffer, err: WriteBuffer::Stderr(StderrSink::new(standard_error())) }
    }

    /// A writer whose output is `buffer` and whose errors go to `err`.
    pub fn new_with_err(buffer: WriteBuffer, err: WriteBuffer) -> (r: Self)
        ensures
            r.collected() == buffer.collected(),
            r.written() == buffer.written(),
            r.err_collected() == err.collected(),
            r.err_written() == err.written(),
    {
        Self { buffer, err }
    }

    /// What was written to the output, as a string; an error when the bytes written are not
    /// UTF-8. Only an output that collects what is written has anything to give.
    pub fn from_utf8(self) -> (r: Result<String, FromUtf8Error>)
        requires
            self.collected() is Some,
        ensures
            r is Ok <==> valid_utf8(self.collected()->Some_0),
            r matches Ok(s) ==> s@ == decode_utf8(self.collected()->Some_0),
    {
        self.buffer.from_utf8()
    }

    /// What was written to the error stream, as a string; an error when the bytes written are
    /// not UTF-8. Only an error stream that collects what is written has anything to give.
    pub fn err_from_utf8(self) -> (r: Result<String, FromUtf8Error>)
        requires
            self.err_collected() is Some,
        ensures
            r is Ok <==> valid_utf8(self.err_collected()->Some_0),
            r matches Ok(s) ==> s@ == decode_utf8(self.err_collected()->Some_0),
    {
        self.err.from_utf8()
    }

    /// Writes `s` to the output; an error when standard output refuses it. A collecting output
    /// always takes it.
    pub fn write_str(&mut self, s: &str) -> (r: Result<(), Error>)
        ensures
            final(self).written() == old(self).written() + encode_utf8(s@),
            final(self).collected() == match old(self).collected() {
                Some(b) => Some(b + encode_utf8(s@)),
                None => None::<Seq<u8>>,
            },
            final(self).err_written() == old(self).err_written(),
            final(self).err_collected() == old(self).err_collected(),
            old(self).collected() is Some ==> r is Ok,
            r matches Err(e) ==> e is IoError,
    {
        self.buffer.write_text(s)
    }

    /// Writes `s` and a line break to the error stream; an error when standard error refuses
    /// it. A collecting error stream always takes it.
    pub fn write_err(&mut self, s: &str) -> (r: Result<(), Error>)
        ensures
            final(self).err_written() == old(self).err_written() + encode_utf8(s@ + "\n"@),
            final(self).err_collected() == match old(self).err_collected() {
                Some(b) => Some(b + encode_utf8(s@ + "\n"@)),
                None => None::<Seq<u8>>,
            },
            final(self).written() == old(self).written(),
            final(self).collected() == old(self).collected(),
            old(self).err_collected() is Some ==> r is Ok,
            r matches Err(e) ==> e is IoError,
    {
        let mut line = crate::text::string_of(s);
        crate::text::push_str(&mut line, "\n");
        self.err.write_text(line.as_str())
    }

    /// Writes `buf` to the output as text, each invalid UTF-8 sequence replaced by U+FFFD, and
    /// answers that all of `buf` was taken: valid UTF-8 is written as it is. An error when
    /// standard output refuses it; a collecting output always takes it.
    pub fn write(&mut self, buf: &[u8]) -> (r: Result<usize, Error>)
        ensures
            old(self).collected() is Some ==> r is Ok,
            r matches Err(e) ==> e is IoError,
            r matches Ok(n) ==> n == buf@.len(),
            final(self).written() == old(self).written() + encode_utf8(lossy_utf8(buf@)),
            final(self).collected() == match old(self).collected() {
                Some(b) => Some(b + encode_utf8(lossy_utf8(buf@))),
                None => None::<Seq<u8>>,
            },
            final(self).err_written() == old(self).err_written(),
            final(self).err_collected() == old(self).err_collected(),
            valid_utf8(buf@) ==> lossy_utf8(buf@) == decode_utf8(buf@),
            valid_utf8(buf@) ==> final(self).written() == old(self).written() + buf@,
    {
        let text = utf8_lossy(buf);
        proof {
            if valid_utf8(buf@) {
                vstd::utf8::decode_utf8_encode_utf8(buf@);
            }
        }
        match self.buffer.write_text(text.as_str()) {
            Ok(()) => Ok(buf.len()),
            Err(e) => Err(e),
        }
    }

    /// Flushes both streams, the output first; an error when a standard stream refuses.
    pub fn flush(&mut self) -> (r: Result<(), Error>)
        ensures
            final(self).written() == old(self).written(),
            final(self).collected() == old(self).collected(),
            final(self).err_written() == old(self).err_written(),
            final(self).err_collected() == old(self).err_collected(),
            old(self).collected() is Some && old(self).err_collected() is Some ==> r is Ok,
            r matches Err(e) ==> e is IoError,
    {
        match self.buffer.flush() {
            Ok(()) => self.err.flush(),
            Err(e) => Err(e),
        }
    }
}

/// Encoding a concatenation encodes each part in turn.
pub proof fn lemma_encode_utf8_concat(a: Seq<char>, b: Seq<char>)
    ensures
        encode_utf8(a + b) == encode_utf8(a) + encode_utf8(b),
    decreases a.len(),
{
    if a.len() > 0 {
        lemma_encode_utf8_concat(a.drop_first(), b);
        assert((a + b).drop_first() =~= a.drop_first() + b);
        assert((a + b)[0] == a[0]);
        assert(encode_utf8(a + b) =~= encode_utf8(a) + encode_utf8(b));
    } else {
        assert(a + b =~= b);
        assert(encode_utf8(a) =~= Seq::<u8>::empty());
        assert(encode_utf8(a) + encode_utf8(b) =~= encode_utf8(b));
    }
}

/// What is read back from a collecting writer is everything written to it: strings written in
/// turn to a writer holding the encoding of `before` read back as `before` followed by them.
pub proof fn law_written_text_reads_back(before: Seq<char>, written: Seq<char>)
    ensures
        valid_utf8(encode_utf8(before) + encode_utf8(written)),
        decode_utf8(encode_utf8(before) + encode_utf8(written)) == before + written,
{
    lemma_encode_utf8_concat(before, written);
    vstd::utf8::encode_utf8_valid_utf8(before + written);
    vstd::utf8::encode_utf8_decode_utf8(before + written);
}

} // verus!
