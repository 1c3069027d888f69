//! Reading string leaves: quoted literals and identifiers.
use vstd::prelude::*;
use regex::Regex;

verus! {

/// `s` is a quoted string literal: a single quote, then characters other than
/// a line feed, then a single quote.
pub open spec fn is_quoted(s: Seq<char>) -> bool {
    &&& s.len() >= 2
    &&& s[0] == '\''
    &&& s[s.len() - 1] == '\''
    &&& forall|i: int| 1 <= i < s.len() - 1 ==> s[i] != '\n'
}

/// The text between the quotes of a quoted literal.
pub open spec fn quoted_text(s: Seq<char>) -> Seq<char> {
    s.subrange(1, s.len() - 1)
}

/// Relies on `regex::Regex::new` and `Regex::captures` with the pattern
/// `^'(?P<value>.*)'$`: `^` and `$` anchor at the ends of the text, and `.`
/// matches any character but a line feed, so the pattern matches exactly the
/// quoted literals and the group holds the text between the quotes.
#[verifier::external_body]
fn unquote(s: &str) -> (r: Option<String>)
    ensures
        match r {
            Some(t) => is_quoted(s@) && t@ == quoted_text(s@),
            None => !is_quoted(s@),
        },
{
    let pattern = Regex::new(r"^'(?P<value>.*)'$").unwrap();
    match pattern.captures(s) {
        Some(c) => Some(c["value"].to_string()),
        None => None,
    }
}

/// The text of `s` if it is a quoted literal.
pub fn string_literal(s: &String) -> (r: Option<String>)
    ensures
        match r {
            Some(t) => is_quoted(s@) && t@ == quoted_text(s@),
            None => !is_quoted(s@),
        },
{
    unquote(s.as_str())
}

/// A character that may stand in a name: an ASCII letter or digit, `_`, or one
/// of the operator symbols `+ * / < >`.
pub open spec fn is_name_char(c: char) -> bool {
    ||| ('a' <= c && c <= 'z')
    ||| ('A' <= c && c <= 'Z')
    ||| ('0' <= c && c <= '9')
    ||| c == '_'
    ||| c == '+'
    ||| c == '*'
    ||| c == '/'
    ||| c == '<'
    ||| c == '>'
}

/// A name that a declaration accepts: non-empty, of name characters only.
pub open spec fn is_valid_name(s: Seq<char>) -> bool {
    s.len() > 0 && forall|i: int| 0 <= i < s.len() ==> is_name_char(#[trigger] s[i])
}

fn is_name_byte(b: u8) -> (r: bool)
    ensures
        r == is_name_char(b as char),
{
    // 'a'..='z', 'A'..='Z', '0'..='9', '_', '+', '*', '/', '<', '>'
    (97 <= b && b <= 122) || (65 <= b && b <= 90) || (48 <= b && b <= 57) || b == 95 || b == 43
        || b == 42 || b == 47 || b == 60 || b == 62
}

/// Whether `s` is a name that a declaration accepts.
pub fn is_valid_name_exec(s: &String) -> (r: bool)
    ensures
        r == is_valid_name(s@),
{
    let t = s.as_str();
    if !t.is_ascii() {
        assert(!is_valid_name(s@)) by {
            if is_valid_name(s@) {
                assert forall|i: int| 0 <= i < s@.len() implies '\0' <= #[trigger] s@[i] <= '\u{7f}' by {
                    assert(is_name_char(s@[i]));
                }
            }
        }
        return false;
    }
    let bytes = t.as_bytes();
    proof {
        vstd::utf8::is_ascii_chars_encode_utf8(s@);
    }
    if bytes.len() == 0 {
        return false;
    }
    let mut i: usize = 0;
    while i < bytes.len()
        invariant
            i <= bytes@.len(),
            bytes@.len() == s@.len(),
            vstd::utf8::is_ascii_chars(s@),
            forall|k: int| 0 <= k < s@.len() ==> s@[k] as u8 == #[trigger] bytes@[k],
            forall|k: int| 0 <= k < i ==> is_name_char(#[trigger] s@[k]),
        decreases bytes@.len() - i,
    {
        let b = bytes[i];
        proof {
            let c = s@[i as int];
            assert('\0' <= c <= '\u{7f}');
            assert(c as u8 == b);
            assert((b as char) == c);
        }
        if !is_name_byte(b) {
            return false;
        }
        i = i + 1;
    }
    true
}

} // verus!
