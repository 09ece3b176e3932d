//! Paths of workspaces, which VS Code writes as URIs.
use crate::copilot::CopilotConnector;
use crate::text;
use vstd::prelude::*;
use vstd::utf8::*;

verus! {

/// The value of a hexadecimal digit.
pub open spec fn hex_digit(value: u8) -> Option<u8> {
    if 48 <= value <= 57 {
        Some((value - 48) as u8)
    } else if 97 <= value <= 102 {
        Some((value - 97 + 10) as u8)
    } else if 65 <= value <= 70 {
        Some((value - 65 + 10) as u8)
    } else {
        None
    }
}

/// Bytes with each percent sign and the two digits behind it replaced by the
/// byte that the digits write, if every percent sign has its digits.
pub open spec fn unescaped(bytes: Seq<u8>) -> Option<Seq<u8>>
    decreases bytes.len(),
{
    if bytes.len() == 0 {
        Some(Seq::empty())
    } else if bytes[0] == 37 {
        if bytes.len() < 3 {
            None
        } else {
            match (hex_digit(bytes[1]), hex_digit(bytes[2]), unescaped(bytes.skip(3))) {
                (Some(high), Some(low), Some(rest)) => Some(seq![(high * 16 + low) as u8] + rest),
                _ => None,
            }
        }
    } else {
        match unescaped(bytes.skip(1)) {
            Some(rest) => Some(seq![bytes[0]] + rest),
            None => None,
        }
    }
}

/// A text with its percent escapes replaced, if the outcome is a text.
pub open spec fn percent_decoded(s: Seq<char>) -> Option<Seq<char>> {
    match unescaped(encode_utf8(s)) {
        Some(bytes) => if valid_utf8(bytes) {
            Some(decode_utf8(bytes))
        } else {
            None
        },
        None => None,
    }
}

/// A path without the slash before a Windows drive.
pub open spec fn drive_path(path: Seq<char>) -> Seq<char> {
    if path.len() > 2 && path[0] == '/' && path[1] <= '\u{7f}' && path[2] == ':' {
        path.skip(1)
    } else {
        path
    }
}

/// The path that a URI of VS Code names: of a remote folder what follows the
/// authority, of a file what follows the scheme.
pub open spec fn uri_path(value: Seq<char>) -> Option<Seq<char>> {
    if text::begins(value, "vscode-remote://"@) {
        let remote = value.skip("vscode-remote://"@.len() as int);
        let at = text::first_index(remote, '/');
        if at < remote.len() {
            percent_decoded(remote.skip(at as int))
        } else {
            None
        }
    } else if text::begins(value, "file://"@) {
        match percent_decoded(value.skip("file://"@.len() as int)) {
            Some(path) => Some(drive_path(path)),
            None => None,
        }
    } else {
        None
    }
}

/// What decoding bytes from one place on yields, behind what came before.
spec fn resumed(done: Seq<u8>, rest: Option<Seq<u8>>) -> Option<Seq<u8>> {
    match rest {
        Some(bytes) => Some(done + bytes),
        None => None,
    }
}

impl CopilotConnector {
    /// The value of a hexadecimal digit.
    pub fn hex_value(value: u8) -> (digit: Option<u8>)
        ensures
            digit == hex_digit(value),
            digit matches Some(number) ==> number < 16,
    {
        if 48 <= value && value <= 57 {
            Some(value - 48)
        } else if 97 <= value && value <= 102 {
            Some(value - 97 + 10)
        } else if 65 <= value && value <= 70 {
            Some(value - 65 + 10)
        } else {
            None
        }
    }

    /// A text with its percent escapes replaced.
    pub fn percent_decode(value: &str) -> (decoded: Option<String>)
        ensures
            text::held(decoded) == percent_decoded(value@),
    {
        let bytes = value.as_bytes();
        let mut out: Vec<u8> = Vec::new();
        let mut index: usize = 0;
        assert(bytes@.skip(0) =~= bytes@);
        proof {
            let rest = unescaped(bytes@);
            if rest is Some {
                assert(out@ + rest->Some_0 =~= rest->Some_0);
            }
        }
        while index < bytes.len()
            invariant
                index <= bytes.len(),
                bytes@ == encode_utf8(value@),
                unescaped(bytes@) == resumed(out@, unescaped(bytes@.skip(index as int))),
            decreases bytes.len() - index,
        {
            let ghost rest = bytes@.skip(index as int);
            let ghost done = out@;
            assert(rest[0] == bytes@[index as int]);
            if bytes[index] == 37 {
                if bytes.len() - index < 3 {
                    return None;
                }
                assert(rest[1] == bytes@[index + 1]);
                assert(rest[2] == bytes@[index + 2]);
                assert(rest.skip(3) =~= bytes@.skip(index + 3));
                let high = match Self::hex_value(bytes[index + 1]) {
                    Some(digit) => digit,
                    None => {
                        return None;
                    },
                };
                let low = match Self::hex_value(bytes[index + 2]) {
                    Some(digit) => digit,
                    None => {
                        return None;
                    },
                };
                out.push(high * 16 + low);
                index += 3;
            } else {
                assert(rest.skip(1) =~= bytes@.skip(index + 1));
                out.push(bytes[index]);
                index += 1;
            }
            proof {
                let tail = unescaped(bytes@.skip(index as int));
                if tail is Some {
                    assert(out@ + tail->Some_0 =~= done + (seq![out@.last()] + tail->Some_0));
                }
            }
        }
        assert(bytes@.skip(index as int) =~= Seq::empty());
        assert(out@ + Seq::<u8>::empty() =~= out@);
        text::text_from_bytes(out)
    }

    /// The path that a URI of VS Code names.
    pub fn path_from_uri(value: &str) -> (path: Option<String>)
        ensures
            text::held(path) == uri_path(value@),
    {
        if let Some(remote) = text::after_prefix(value, "vscode-remote://") {
            let chars = text::chars_of(remote.as_str());
            let at = text::find(&chars, '/');
            if at >= chars.len() {
                return None;
            }
            let path = text::text_of(&chars, at, chars.len());
            assert(path@ =~= remote@.skip(at as int));
            return Self::percent_decode(path.as_str());
        }
        let rest = match text::after_prefix(value, "file://") {
            Some(rest) => rest,
            None => {
                return None;
            },
        };
        let decoded = match Self::percent_decode(rest.as_str()) {
            Some(decoded) => decoded,
            None => {
                return None;
            },
        };
        let chars = text::chars_of(decoded.as_str());
        if chars.len() > 2 && chars[0] == '/' && chars[1] <= '\u{7f}' && chars[2] == ':' {
            let path = text::text_of(&chars, 1, chars.len());
            assert(path@ =~= decoded@.skip(1));
            return Some(path);
        }
        Some(decoded)
    }
}

/// Bytes without a percent sign are left as they are.
proof fn lemma_unescaped_plain(bytes: Seq<u8>)
    requires
        !bytes.contains(37u8),
    ensures
        unescaped(bytes) == Some(bytes),
    decreases bytes.len(),
{
    if bytes.len() > 0 {
        assert(bytes[0] != 37);
        assert(!bytes.skip(1).contains(37u8)) by {
            if bytes.skip(1).contains(37u8) {
                let i = choose|i: int| 0 <= i < bytes.skip(1).len() && bytes.skip(1)[i] == 37u8;
                assert(bytes[i + 1] == 37u8);
            }
        }
        lemma_unescaped_plain(bytes.skip(1));
        assert(seq![bytes[0]] + bytes.skip(1) =~= bytes);
    } else {
        assert(bytes =~= Seq::empty());
    }
}

/// The bytes of an encoded character other than the percent sign.
proof fn lemma_scalar_bytes(scalar: u32)
    requires
        scalar != 37,
        is_scalar(scalar),
    ensures
        !encode_scalar(scalar).contains(37u8),
{
    assert(scalar <= 0x7f && scalar != 37 ==> (scalar & 0x7f) as u8 != 37u8) by (bit_vector);
    assert(0xc0u8 | ((scalar >> 6) & 0x1f) as u8 != 37u8) by (bit_vector);
    assert(0xe0u8 | ((scalar >> 12) & 0x0f) as u8 != 37u8) by (bit_vector);
    assert(0xf0u8 | ((scalar >> 18) & 0x7) as u8 != 37u8) by (bit_vector);
    assert(0x80u8 | (scalar & 0x3f) as u8 != 37u8) by (bit_vector);
    assert(0x80u8 | ((scalar >> 6) & 0x3f) as u8 != 37u8) by (bit_vector);
    assert(0x80u8 | ((scalar >> 12) & 0x3f) as u8 != 37u8) by (bit_vector);
}

/// Only a percent sign is encoded with the byte of one.
proof fn lemma_percent_byte(s: Seq<char>)
    requires
        !s.contains('%'),
    ensures
        !encode_utf8(s).contains(37u8),
    decreases s.len(),
{
    if s.len() > 0 {
        let first = s[0] as u32;
        assert(s[0] != '%');
        let rest = s.drop_first();
        assert(!rest.contains('%')) by {
            if rest.contains('%') {
                let i = choose|i: int| 0 <= i < rest.len() && rest[i] == '%';
                assert(s[i + 1] == '%');
            }
        }
        lemma_percent_byte(rest);
        let c = s[0];
        char_is_scalar(c);
        char_u32_cast(c, first);
        let head = encode_scalar(first);
        lemma_scalar_bytes(first);
        assert(encode_utf8(s) == head + encode_utf8(rest));
    }
}

/// A text without a percent sign is left as it is.
pub proof fn law_plain_text_is_unescaped(s: Seq<char>)
    requires
        !s.contains('%'),
    ensures
        percent_decoded(s) == Some(s),
{
    lemma_percent_byte(s);
    lemma_unescaped_plain(encode_utf8(s));
    encode_utf8_valid_utf8(s);
    encode_utf8_decode_utf8(s);
}

/// The authority of a remote folder has no part in its path.
pub proof fn law_authority_is_no_part_of_the_path(
    one: Seq<char>,
    other: Seq<char>,
    path: Seq<char>,
)
    requires
        !one.contains('/'),
        !other.contains('/'),
        path.len() > 0,
        path[0] == '/',
    ensures
        uri_path("vscode-remote://"@ + one + path) == percent_decoded(path),
        uri_path("vscode-remote://"@ + one + path) == uri_path("vscode-remote://"@ + other + path),
{
    lemma_remote(one, path);
    lemma_remote(other, path);
}

proof fn lemma_remote(authority: Seq<char>, path: Seq<char>)
    requires
        !authority.contains('/'),
        path.len() > 0,
        path[0] == '/',
    ensures
        uri_path("vscode-remote://"@ + authority + path) == percent_decoded(path),
{
    let scheme = "vscode-remote://"@;
    let whole = scheme + authority + path;
    let remote = whole.skip(scheme.len() as int);
    assert(whole.subrange(0, scheme.len() as int) =~= scheme);
    assert(remote =~= authority + path);
    assert forall|j: int| 0 <= j < authority.len() implies remote[j] != '/' by {
        assert(authority.contains(authority[j]));
    }
    text::lemma_first_index(remote, '/', authority.len() as int);
    assert(remote.skip(authority.len() as int) =~= path);
}

} // verus!
