//! Nickname validation.
//!
//! A nickname travels in wire messages and names peers at the console, so it
//! is held to simple rules before it enters the core: 1 to 32 characters,
//! not whitespace alone, no surrounding whitespace, no line breaks, and no
//! control characters.

use vstd::prelude::*;
use crate::codec::{append_chars, dec_u64_chars, spec_dec_digits};
use crate::text::str_chars;
use vstd::string::StringExecFns;

verus! {

/// A control character: the C0 range, delete, or the C1 range.
pub open spec fn is_control_char(c: char) -> bool {
    (c as u32) < 0x20 || (0x7F <= (c as u32) && (c as u32) <= 0x9F)
}

/// A whitespace character, by the Unicode white-space property.
pub open spec fn is_space_char(c: char) -> bool {
    let u = c as u32;
    u == 0x09 || u == 0x0A || u == 0x0B || u == 0x0C || u == 0x0D || u == 0x20 || u == 0x85 || u
        == 0xA0 || u == 0x1680 || (0x2000 <= u && u <= 0x200A) || u == 0x2028 || u == 0x2029 || u
        == 0x202F || u == 0x205F || u == 0x3000
}

/// A line break character.
pub open spec fn is_newline_char(c: char) -> bool {
    c == '\n' || c == '\r'
}

/// Every character is whitespace.
pub open spec fn all_space(s: Seq<char>) -> bool {
    forall|i: int| 0 <= i < s.len() ==> is_space_char(#[trigger] s[i])
}

/// Some character is a line break.
pub open spec fn has_newline(s: Seq<char>) -> bool {
    exists|i: int| 0 <= i < s.len() && is_newline_char(#[trigger] s[i])
}

/// Some character is a control character.
pub open spec fn has_control(s: Seq<char>) -> bool {
    exists|i: int| 0 <= i < s.len() && is_control_char(#[trigger] s[i])
}

/// Nickname validation errors.
#[derive(Debug, Clone, PartialEq, Eq)]
pub enum NicknameValidationError {
    /// The nickname is empty.
    Empty,
    /// The nickname is shorter than the minimum length.
    TooShort { min: usize },
    /// The nickname is longer than the maximum length.
    TooLong { max: usize, actual: usize },
    /// The nickname is nothing but whitespace.
    WhitespaceOnly,
    /// The nickname starts or ends with whitespace.
    LeadingOrTrailingWhitespace,
    /// The nickname holds a control character.
    InvalidCharacters,
    /// The nickname holds a line break.
    ContainsNewline,
}

/// The outcome of validating a nickname: the first rule it breaks, in the
/// order the rules are checked, or success.
pub open spec fn spec_validate(s: Seq<char>) -> Result<(), NicknameValidationError> {
    if s.len() == 0 {
        Err(NicknameValidationError::Empty)
    } else if s.len() > 32 {
        Err(NicknameValidationError::TooLong { max: 32, actual: s.len() as usize })
    } else if all_space(s) {
        Err(NicknameValidationError::WhitespaceOnly)
    } else if is_space_char(s[0]) || is_space_char(s[s.len() - 1]) {
        Err(NicknameValidationError::LeadingOrTrailingWhitespace)
    } else if has_newline(s) {
        Err(NicknameValidationError::ContainsNewline)
    } else if has_control(s) {
        Err(NicknameValidationError::InvalidCharacters)
    } else {
        Ok(())
    }
}

/// Decides whether a character is whitespace.
fn space_char(c: char) -> (r: bool)
    ensures
        r == is_space_char(c),
{
    let u = c as u32;
    u == 0x09 || u == 0x0A || u == 0x0B || u == 0x0C || u == 0x0D || u == 0x20 || u == 0x85 || u
        == 0xA0 || u == 0x1680 || (0x2000 <= u && u <= 0x200A) || u == 0x2028 || u == 0x2029 || u
        == 0x202F || u == 0x205F || u == 0x3000
}

/// Nickname validation rules.
pub struct NicknameValidator;

impl NicknameValidator {
    /// Minimum nickname length.
    pub const MIN_LENGTH: usize = 1;

    /// Maximum nickname length.
    pub const MAX_LENGTH: usize = 32;

    /// Validates a nickname, reporting the first rule it breaks.
    pub fn validate(nickname: &str) -> (r: Result<(), NicknameValidationError>)
        ensures
            r == spec_validate(nickname@),
    {
        let v = str_chars(nickname);
        let n = v.len();
        if n == 0 {
            return Err(NicknameValidationError::Empty);
        }
        if n > 32 {
            return Err(NicknameValidationError::TooLong { max: 32, actual: n });
        }
        let mut allsp = true;
        let mut has_nl = false;
        let mut has_ctl = false;
        let mut i: usize = 0;
        proof {
            assert(v@.take(0) =~= Seq::<char>::empty());
        }
        while i < n
            invariant
                i <= n,
                n == v@.len(),
                v@ == nickname@,
                allsp == all_space(v@.take(i as int)),
                has_nl == has_newline(v@.take(i as int)),
                has_ctl == has_control(v@.take(i as int)),
            decreases n - i,
        {
            let c = v[i];
            let ghost pre = v@.take(i as int);
            let ghost post = v@.take(i + 1);
            proof {
                assert(post =~= pre.push(c));
                assert(post[i as int] == c);
                assert(forall|j: int| 0 <= j < i ==> post[j] == pre[j]);
            }
            let sp = space_char(c);
            let u = c as u32;
            let nl = c == '\n' || c == '\r';
            let ctl = u < 0x20 || (0x7F <= u && u <= 0x9F);
            proof {
                if !(allsp && sp) {
                    if !allsp {
                        let w = choose|w: int| 0 <= w < pre.len() && !is_space_char(pre[w]);
                        assert(!is_space_char(post[w]));
                    } else {
                        assert(!is_space_char(post[i as int]));
                    }
                    assert(!all_space(post));
                } else {
                    assert(forall|j: int| 0 <= j < post.len() ==> is_space_char(#[trigger] post[j]));
                }
                if has_nl || nl {
                    if has_nl {
                        let w = choose|w: int|
                            0 <= w < pre.len() && is_newline_char(#[trigger] pre[w]);
                        assert(is_newline_char(post[w]));
                    } else {
                        assert(is_newline_char(post[i as int]));
                    }
                    assert(has_newline(post));
                } else {
                    assert(forall|j: int|
                        0 <= j < post.len() ==> !is_newline_char(#[trigger] post[j]));
                }
                if has_ctl || ctl {
                    if has_ctl {
                        let w = choose|w: int|
                            0 <= w < pre.len() && is_control_char(#[trigger] pre[w]);
                        assert(is_control_char(post[w]));
                    } else {
                        assert(is_control_char(post[i as int]));
                    }
                    assert(has_control(post));
                } else {
                    assert(forall|j: int|
                        0 <= j < post.len() ==> !is_control_char(#[trigger] post[j]));
                }
            }
            allsp = allsp && sp;
            has_nl = has_nl || nl;
            has_ctl = has_ctl || ctl;
            i = i + 1;
        }
        proof {
            assert(v@.take(n as int) =~= v@);
        }
        if allsp {
            return Err(NicknameValidationError::WhitespaceOnly);
        }
        let first_sp = space_char(v[0]);
        let last_sp = space_char(v[n - 1]);
        if first_sp || last_sp {
            return Err(NicknameValidationError::LeadingOrTrailingWhitespace);
        }
        if has_nl {
            return Err(NicknameValidationError::ContainsNewline);
        }
        if has_ctl {
            return Err(NicknameValidationError::InvalidCharacters);
        }
        Ok(())
    }
}


/// The human-readable rendering of a validation error.
pub open spec fn spec_validation_message(e: NicknameValidationError) -> Seq<char> {
    match e {
        NicknameValidationError::Empty => "Nickname cannot be empty"@,
        NicknameValidationError::TooShort { min } => "Nickname must be at least "@
            + spec_dec_digits(min as nat) + " characters long"@,
        NicknameValidationError::TooLong { max, actual } => "Nickname must be at most "@
            + spec_dec_digits(max as nat) + " characters long (got "@ + spec_dec_digits(
            actual as nat,
        ) + ")"@,
        NicknameValidationError::WhitespaceOnly => "Nickname cannot be only whitespace"@,
        NicknameValidationError::LeadingOrTrailingWhitespace =>
            "Nickname cannot have leading or trailing whitespace"@,
        NicknameValidationError::InvalidCharacters => "Nickname contains invalid characters"@,
        NicknameValidationError::ContainsNewline => "Nickname cannot contain newlines"@,
    }
}

impl NicknameValidationError {
    /// Renders the error as a human-readable message.
    pub fn message(&self) -> (r: String)
        ensures
            r@ == spec_validation_message(*self),
    {
        match self {
            NicknameValidationError::Empty => String::from_str("Nickname cannot be empty"),
            NicknameValidationError::TooShort { min } => {
                let mut m = String::from_str("Nickname must be at least ");
                let d = dec_u64_chars(*min as u64);
                append_chars(&mut m, &d);
                m.append(" characters long");
                m
            },
            NicknameValidationError::TooLong { max, actual } => {
                let mut m = String::from_str("Nickname must be at most ");
                let d = dec_u64_chars(*max as u64);
                append_chars(&mut m, &d);
                m.append(" characters long (got ");
                let a = dec_u64_chars(*actual as u64);
                append_chars(&mut m, &a);
                m.append(")");
                m
            },
            NicknameValidationError::WhitespaceOnly => String::from_str(
                "Nickname cannot be only whitespace",
            ),
            NicknameValidationError::LeadingOrTrailingWhitespace => String::from_str(
                "Nickname cannot have leading or trailing whitespace",
            ),
            NicknameValidationError::InvalidCharacters => String::from_str(
                "Nickname contains invalid characters",
            ),
            NicknameValidationError::ContainsNewline => String::from_str(
                "Nickname cannot contain newlines",
            ),
        }
    }
}

} // verus!
