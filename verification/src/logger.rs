//! The platform log writer: buffers log output until a full line is
//! available and prepares text for the platform byte sink. The
//! platform call itself (a system log facility) is made by the
//! embedder, which hands these functions' results to it.

use vstd::prelude::*;

use vstd::string::StringExecFns;
use vstd::string::StringSliceAdditionalSpecFns;
use vstd::string::StrSliceExecFns;
use vstd::utf8::valid_utf8;
use vstd::utf8::encode_utf8;

verus! {

#[verifier::external_type_specification]
#[verifier::external_body]
pub struct ExBytesMut(bytes::BytesMut);

/// What a byte buffer holds.
pub uninterp spec fn bytes_contents(b: bytes::BytesMut) -> Seq<u8>;

/// What lossy UTF-8 decoding makes of a byte sequence; a function of
/// the bytes alone.
pub uninterp spec fn lossy_text_of(data: Seq<u8>) -> Seq<char>;

/// Relies on bytes::BytesMut::new: a new buffer is empty.
#[verifier::external_body]
fn bytes_new() -> (b: bytes::BytesMut)
    ensures
        bytes_contents(b) == Seq::<u8>::empty(),
{
    bytes::BytesMut::new()
}

/// Relies on bytes::BytesMut::len: the number of bytes the buffer
/// holds.
#[verifier::external_body]
fn bytes_len(b: &bytes::BytesMut) -> (n: usize)
    ensures
        n == bytes_contents(*b).len(),
{
    b.len()
}

/// Relies on bytes::BytesMut::extend_from_slice: appends the slice to
/// the buffer.
#[verifier::external_body]
fn bytes_extend(b: &mut bytes::BytesMut, data: &[u8])
    ensures
        bytes_contents(*final(b)) == bytes_contents(*old(b)) + data@,
{
    b.extend_from_slice(data);
}

/// Relies on bytes::BytesMut::split_to: splits off and returns the
/// first `at` bytes, leaving the rest.
#[verifier::external_body]
fn bytes_split_to(b: &mut bytes::BytesMut, at: usize) -> (front: bytes::BytesMut)
    requires
        at <= bytes_contents(*old(b)).len(),
    ensures
        bytes_contents(front) == bytes_contents(*old(b)).subrange(0, at as int),
        bytes_contents(*final(b)) == bytes_contents(*old(b)).subrange(
            at as int,
            bytes_contents(*old(b)).len() as int,
        ),
{
    b.split_to(at)
}

/// Relies on <bytes::BytesMut as AsRef<[u8]>>::as_ref: a view of the
/// buffer's bytes.
#[verifier::external_body]
fn bytes_as_slice(b: &bytes::BytesMut) -> (s: &[u8])
    ensures
        s@ == bytes_contents(*b),
{
    b.as_ref()
}

/// Relies on memchr::memchr: the index of the first occurrence of the
/// needle, or nothing when it does not occur.
#[verifier::external_body]
fn find_byte(needle: u8, haystack: &[u8]) -> (r: Option<usize>)
    ensures
        match r {
            Some(i) => i < haystack@.len() && haystack@[i as int] == needle && forall|j: int|
                0 <= j < i ==> haystack@[j] != needle,
            None => forall|j: int| 0 <= j < haystack@.len() ==> haystack@[j] != needle,
        },
{
    memchr::memchr(needle, haystack)
}

/// Relies on String::from_utf8_lossy: decodes bytes as UTF-8, a
/// function of the bytes alone; valid UTF-8 decodes exactly, with no
/// replacement.
#[verifier::external_body]
fn utf8_lossy(data: &[u8]) -> (text: String)
    ensures
        text@ == lossy_text_of(data@),
        valid_utf8(data@) ==> encode_utf8(text@) == data@,
{
    String::from_utf8_lossy(data).into_owned()
}

/// Converts a log line to the byte form the platform sink takes.
pub fn log_text(text: &str) -> (data: Vec<u8>)
    ensures
        data@ == text.spec_bytes(),
{
    text.as_bytes_vec()
}

/// Recovers the text of a buffered log line for a platform sink that
/// takes text: lossy UTF-8 decoding of the bytes.
pub fn log_out(data: &[u8]) -> (text: String)
    ensures
        text@ == lossy_text_of(data@),
        valid_utf8(data@) ==> encode_utf8(text@) == data@,
{
    utf8_lossy(data)
}

/// `b` occurs first at position `i` of `s`.
pub open spec fn first_byte_at(s: Seq<u8>, b: u8, i: int) -> bool {
    0 <= i < s.len() && s[i] == b && forall|j: int| 0 <= j < i ==> s[j] != b
}

/// Buffers log output and releases it line by line: bytes written
/// accumulate until a newline arrives, whereupon the finished line
/// leaves the buffer to be handed to the platform log.
pub struct ConsoleWriter(pub bytes::BytesMut);

impl ConsoleWriter {
    pub fn new() -> (w: ConsoleWriter)
        ensures
            bytes_contents(w.0) == Seq::<u8>::empty(),
    {
        ConsoleWriter(bytes_new())
    }

    /// Appends the written bytes to the buffer; when the buffer then
    /// holds a newline, the bytes before the first one leave the
    /// buffer as the finished line, and the newline itself is
    /// discarded. Always reports the whole write as consumed.
    pub fn write(&mut self, buf: &[u8]) -> (r: (usize, Option<Vec<u8>>))
        ensures
            r.0 == buf@.len(),
            ({
                let combined = bytes_contents(old(self).0) + buf@;
                match r.1 {
                    Some(line) => exists|i: int|
                        #[trigger] first_byte_at(combined, 10u8, i) && line@ == combined.subrange(
                            0,
                            i,
                        ) && bytes_contents(final(self).0) == combined.subrange(
                            i + 1,
                            combined.len() as int,
                        ),
                    None => bytes_contents(final(self).0) == combined && forall|j: int|
                        0 <= j < combined.len() ==> combined[j] != 10u8,
                }
            }),
    {
        bytes_extend(&mut self.0, buf);
        let ghost combined = bytes_contents(self.0);
        let n = buf.len();
        // the buffer's length bounds the newline index, so that
        // advancing past the newline stays in range
        let buffered = bytes_len(&self.0);
        let hit: Option<usize>;
        let mut line: Vec<u8> = Vec::new();
        {
            let s = bytes_as_slice(&self.0);
            hit = find_byte(10u8, s);
            if let Some(i) = hit {
                let mut j: usize = 0;
                while j < i
                    invariant
                        j <= i,
                        i < s@.len(),
                        line@ =~= s@.subrange(0, j as int),
                    decreases i - j,
                {
                    line.push(s[j]);
                    j += 1;
                }
            }
        }
        match hit {
            Some(i) => {
                proof {
                    assert(i < buffered);
                }
                let _ = bytes_split_to(&mut self.0, i + 1);
                proof {
                    assert(first_byte_at(combined, 10u8, i as int));
                    assert(line@ =~= combined.subrange(0, i as int));
                }
                (n, Some(line))
            },
            None => (n, None),
        }
    }

    /// Flushing keeps the buffer as it is: a partial line waits for
    /// its newline.
    pub fn flush(&mut self)
        ensures
            bytes_contents(final(self).0) == bytes_contents(old(self).0),
    {
    }
}

/// A log line's severity, from most to least severe.
#[derive(Clone, Copy, Debug, PartialEq, Eq, Structural)]
pub enum LogLevel {
    Error,
    Warn,
    Info,
    Debug,
    Trace,
}

/// The name a log line shows for a severity.
pub open spec fn level_name_spec(level: LogLevel) -> Seq<char> {
    match level {
        LogLevel::Error => "ERROR"@,
        LogLevel::Warn => "WARN"@,
        LogLevel::Info => "INFO"@,
        LogLevel::Debug => "DEBUG"@,
        LogLevel::Trace => "TRACE"@,
    }
}

/// The text of a formatted log line: severity and target in brackets,
/// then the message.
pub open spec fn log_line_spec(level: LogLevel, target: Seq<char>, message: Seq<char>) -> Seq<
    char,
> {
    "["@ + level_name_spec(level) + "] ["@ + target + "] "@ + message
}

/// Formats log records as lines for the platform console.
pub struct ConsoleLogger;

impl ConsoleLogger {
    /// The console shows every record up to debug severity; trace
    /// records are dropped.
    pub fn enabled(&self, level: LogLevel) -> (r: bool)
        ensures
            r == (level != LogLevel::Trace),
    {
        !matches!(level, LogLevel::Trace)
    }

    /// The displayed name of a severity.
    pub fn level_name(&self, level: LogLevel) -> (r: &'static str)
        ensures
            r@ == level_name_spec(level),
    {
        match level {
            LogLevel::Error => "ERROR",
            LogLevel::Warn => "WARN",
            LogLevel::Info => "INFO",
            LogLevel::Debug => "DEBUG",
            LogLevel::Trace => "TRACE",
        }
    }

    /// Formats a record into the line the platform log shows, or
    /// nothing when the record's severity is not enabled.
    pub fn log(&self, level: LogLevel, target: &str, message: &str) -> (r: Option<String>)
        ensures
            match r {
                Some(line) => level != LogLevel::Trace && line@ == log_line_spec(
                    level,
                    target@,
                    message@,
                ),
                None => level == LogLevel::Trace,
            },
    {
        if self.enabled(level) {
            let mut line = "[".to_owned();
            line.append(self.level_name(level));
            line.append("] [");
            line.append(target);
            line.append("] ");
            line.append(message);
            Some(line)
        } else {
            None
        }
    }
}

} // verus!
