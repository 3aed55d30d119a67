//! Text encodings and lossy decoding.
//!
//! The encodings are those of the `encoding_rs` crate, which does all the
//! decoding. An encoding is known here by its name alone; what a label
//! resolves to and what a byte sequence decodes to are taken on trust from
//! that crate and have a name each in contracts.

use encoding_rs::Encoding;
use vstd::prelude::*;

verus! {

/// Makes the type `encoding_rs::Encoding` known to the verifier, as a value
/// of which nothing is known but what the trusted functions below say.
#[verifier::external_type_specification]
#[verifier::external_body]
pub struct ExEncoding(encoding_rs::Encoding);

/// The character that stands in for bytes that could not be decoded.
pub const REPLACEMENT_CHARACTER: char = '\u{FFFD}';

/// The longest byte sequence that can be decoded in one piece. The decoder
/// sizes its output buffer at a little over three times the input, and that
/// size has to fit in a `usize`.
pub const MAX_DECODE_LEN: usize = usize::MAX / 16;

/// The name of an encoding, as `Encoding::name` gives it.
pub uninterp spec fn encoding_name(encoding: &Encoding) -> Seq<char>;

/// The name of the encoding that `Encoding::for_label` finds for a label,
/// if it finds one.
pub uninterp spec fn label_encoding_name(label: Seq<char>) -> Option<Seq<char>>;

/// What `Encoding::decode` makes of `bytes` for the encoding called `name`:
/// the text, and whether any malformed sequence was replaced.
pub uninterp spec fn decoded(name: Seq<char>, bytes: Seq<u8>) -> (Seq<char>, bool);

/// Calls `Encoding::for_label` on the bytes of `label`. Trusted: the result
/// is the encoding whose name `label_encoding_name` gives for this label,
/// and none where it gives none.
#[verifier::external_body]
fn lookup_label(label: &str) -> (found: Option<&'static Encoding>)
    ensures
        match found {
            Some(encoding) => label_encoding_name(label@) == Some(encoding_name(encoding)),
            None => label_encoding_name(label@) is None,
        },
{
    Encoding::for_label(label.as_bytes())
}

/// Calls `Encoding::name`. Trusted: the string returned is the encoding's
/// name.
#[verifier::external_body]
fn name_of(encoding: &'static Encoding) -> (name: &'static str)
    ensures
        name@ == encoding_name(encoding),
{
    encoding.name()
}

/// Reads the static `encoding_rs::GBK`. Trusted: its name is `GBK`.
#[verifier::external_body]
fn gbk_encoding() -> (encoding: &'static Encoding)
    ensures
        encoding_name(encoding) == "GBK"@,
{
    encoding_rs::GBK
}

/// Reads the static `encoding_rs::UTF_8`. Trusted: its name is `UTF-8`.
#[verifier::external_body]
fn utf_8_encoding() -> (encoding: &'static Encoding)
    ensures
        encoding_name(encoding) == "UTF-8"@,
{
    encoding_rs::UTF_8
}

/// Calls `Encoding::decode`, which sniffs a byte order mark, decodes, and
/// replaces each malformed sequence with U+FFFD. Trusted: text and flag are
/// those that `decoded` names for this encoding and these bytes, and the
/// flag is set only if the text holds a replacement character. The length
/// bound keeps the decoder's buffer size within `usize`, beyond which it
/// panics.
#[verifier::external_body]
fn decode_lossy(encoding: &'static Encoding, bytes: &[u8]) -> (out: (String, bool))
    requires
        bytes@.len() <= MAX_DECODE_LEN,
    ensures
        (out.0@, out.1) == decoded(encoding_name(encoding), bytes@),
        out.1 ==> out.0@.contains(REPLACEMENT_CHARACTER),
{
    let (text, _, had_errors) = encoding.decode(bytes);
    (text.into_owned(), had_errors)
}

/// One of the text encodings of the Encoding Standard.
///
/// Its view is its name, such as `UTF-8` or `GBK`. Two encodings with the
/// same name are the same encoding.
#[derive(Clone, Copy, Debug)]
pub struct TextEncoding {
    handle: &'static Encoding,
}

impl View for TextEncoding {
    type V = Seq<char>;

    closed spec fn view(&self) -> Seq<char> {
        encoding_name(self.handle)
    }
}

/// A decoded line: its text, and whether bytes had to be replaced.
#[derive(Debug)]
pub struct LogRecord {
    /// The decoded text, without a line end.
    pub text: String,
    /// Whether malformed bytes were replaced in `text`.
    pub had_errors: bool,
}

impl View for LogRecord {
    type V = (Seq<char>, bool);

    open spec fn view(&self) -> (Seq<char>, bool) {
        (self.text@, self.had_errors)
    }
}

impl TextEncoding {
    /// The encoding that a label such as `utf8` or `latin1` stands for.
    /// Labels are matched without regard to ASCII case and surrounding
    /// white space; an unknown label gives `None`.
    pub fn for_label(label: &str) -> (found: Option<TextEncoding>)
        ensures
            match found {
                Some(encoding) => label_encoding_name(label@) == Some(encoding@),
                None => label_encoding_name(label@) is None,
            },
    {
        match lookup_label(label) {
            Some(handle) => Some(TextEncoding { handle }),
            None => None,
        }
    }

    /// The GBK encoding.
    pub fn gbk() -> (encoding: TextEncoding)
        ensures
            encoding@ == "GBK"@,
    {
        TextEncoding { handle: gbk_encoding() }
    }

    /// The UTF-8 encoding.
    pub fn utf_8() -> (encoding: TextEncoding)
        ensures
            encoding@ == "UTF-8"@,
    {
        TextEncoding { handle: utf_8_encoding() }
    }

    /// The name of this encoding.
    pub fn name(&self) -> (name: &'static str)
        ensures
            name@ == self@,
    {
        name_of(self.handle)
    }

    /// Decodes one line. Decoding never fails: bytes that are malformed in
    /// this encoding come out as replacement characters, and the record
    /// says so.
    pub fn decode(&self, bytes: &[u8]) -> (record: LogRecord)
        requires
            bytes@.len() <= MAX_DECODE_LEN,
        ensures
            record@ == decoded(self@, bytes@),
            record.had_errors ==> record.text@.contains(REPLACEMENT_CHARACTER),
    {
        let (text, had_errors) = decode_lossy(self.handle, bytes);
        LogRecord { text, had_errors }
    }
}

impl LogRecord {
    /// The line that goes to the log for this record: the text and a line
    /// feed.
    pub fn line(&self) -> (line: String)
        ensures
            line@ == self.text@.push('\n'),
    {
        let mut line = self.text.clone();
        line.append("\n");
        proof {
            reveal_strlit("\n");
        }
        line
    }
}

} // verus!
