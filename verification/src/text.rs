//! Text handling that the standard library does for the bridge.

use vstd::prelude::*;
use vstd::utf8::*;

verus! {

/// What `String::from_utf8_lossy` makes of a byte string.
pub uninterp spec fn utf8_lossy_chars(bytes: Seq<u8>) -> Seq<char>;

/// Calls `String::from_utf8_lossy`. Its documentation promises the decoded
/// text for valid UTF-8; on malformed input each invalid sequence becomes
/// U+FFFD, which is left to the name `utf8_lossy_chars`.
#[verifier::external_body]
pub(crate) fn utf8_lossy(bytes: &[u8]) -> (s: String)
    ensures
        s@ == utf8_lossy_chars(bytes@),
        valid_utf8(bytes@) ==> s@ == decode_utf8(bytes@),
{
    String::from_utf8_lossy(bytes).into_owned()
}

/// Unicode's `White_Space` characters, those that `char::is_whitespace` accepts.
pub open spec fn is_whitespace(c: char) -> bool {
    ||| '\u{09}' <= c <= '\u{0D}'
    ||| c == ' '
    ||| c == '\u{85}'
    ||| c == '\u{A0}'
    ||| c == '\u{1680}'
    ||| '\u{2000}' <= c <= '\u{200A}'
    ||| c == '\u{2028}'
    ||| c == '\u{2029}'
    ||| c == '\u{202F}'
    ||| c == '\u{205F}'
    ||| c == '\u{3000}'
}

/// The text with its leading whitespace removed.
pub open spec fn trimmed_start(s: Seq<char>) -> Seq<char>
    decreases s.len(),
{
    if s.len() > 0 && is_whitespace(s[0]) {
        trimmed_start(s.drop_first())
    } else {
        s
    }
}

/// The text with its trailing whitespace removed.
pub open spec fn trimmed_end(s: Seq<char>) -> Seq<char>
    decreases s.len(),
{
    if s.len() > 0 && is_whitespace(s.last()) {
        trimmed_end(s.drop_last())
    } else {
        s
    }
}

/// The text with leading and trailing whitespace removed.
pub open spec fn trimmed(s: Seq<char>) -> Seq<char> {
    trimmed_end(trimmed_start(s))
}

/// Calls `str::trim`, which removes leading and trailing `White_Space`
/// characters, and copies the result.
#[verifier::external_body]
pub(crate) fn trim_whitespace(s: &str) -> (t: String)
    ensures
        t@ == trimmed(s@),
{
    s.trim().to_owned()
}

} // verus!
