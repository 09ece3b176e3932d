//! What holds of the paths that URIs name.
use crate::copilot::uri;
use crate::text;
use vstd::prelude::*;
use vstd::utf8::*;

verus! {

/// The digits from 0 to 9 and the letters from a to f, in either case, write the
/// numbers from 0 to 15 in order; nothing else is a digit.
pub proof fn law_hexadecimal_digits(number: u8, value: u8)
    ensures
        number < 10 ==> uri::hex_digit((48 + number) as u8) == Some(number),
        10 <= number < 16 ==> uri::hex_digit((97 + number - 10) as u8) == Some(number)
            && uri::hex_digit((65 + number - 10) as u8) == Some(number),
        value < 48 || (57 < value && value < 65) || (70 < value && value < 97) || 102 < value
            ==> uri::hex_digit(value) is None,
{
}

/// An escape and what follows it are the byte that its digits write and what
/// follows unescaped; any other byte stands for itself. Where an escape lacks a
/// digit, nothing is unescaped.
pub proof fn law_escapes_write_bytes(high: u8, low: u8, other: u8, rest: Seq<u8>)
    requires
        other != 37,
    ensures
        uri::unescaped(Seq::empty()) == Some(Seq::<u8>::empty()),
        uri::unescaped(seq![other] + rest) == match uri::unescaped(rest) {
            Some(bytes) => Some(seq![other] + bytes),
            None => None,
        },
        uri::unescaped(seq![37u8, high, low] + rest) == match (
            uri::hex_digit(high),
            uri::hex_digit(low),
            uri::unescaped(rest),
        ) {
            (Some(a), Some(b), Some(bytes)) => Some(seq![(a * 16 + b) as u8] + bytes),
            _ => None,
        },
        uri::unescaped(seq![37u8]) is None,
        uri::unescaped(seq![37u8, high]) is None,
{
    let plain = seq![other] + rest;
    assert(plain[0] == other);
    assert(plain.skip(1) =~= rest);
    let escaped = seq![37u8, high, low] + rest;
    assert(escaped[0] == 37u8);
    assert(escaped[1] == high);
    assert(escaped[2] == low);
    assert(escaped.skip(3) =~= rest);
}

/// A text is decoded by its bytes, and only where what comes out is a text again.
pub proof fn law_decoding_goes_by_bytes(s: Seq<char>, bytes: Seq<u8>)
    ensures
        uri::unescaped(encode_utf8(s)) == Some(bytes) && valid_utf8(bytes) ==> uri::percent_decoded(
            s,
        ) == Some(decode_utf8(bytes)),
        uri::unescaped(encode_utf8(s)) == Some(bytes) && !valid_utf8(bytes) ==> uri::percent_decoded(
            s,
        ) is None,
        uri::unescaped(encode_utf8(s)) is None ==> uri::percent_decoded(s) is None,
{
}

/// The path of a file is what follows `file://`, decoded, without a slash before
/// the letter of a drive. That of a remote folder is what follows the authority,
/// from the slash on and decoded.
pub proof fn law_uris_name_paths(authority: Seq<char>, path: Seq<char>)
    requires
        !authority.contains('/'),
    ensures
        uri::uri_path("file://"@ + path) == match uri::percent_decoded(path) {
            Some(decoded) => Some(
                if decoded.len() > 2 && decoded[0] == '/' && decoded[1] <= '\u{7f}' && decoded[2]
                    == ':' {
                    decoded.skip(1)
                } else {
                    decoded
                },
            ),
            None => None,
        },
        uri::uri_path("vscode-remote://"@ + (authority + (seq!['/'] + path)))
            == uri::percent_decoded(seq!['/'] + path),
        uri::uri_path("vscode-remote://"@ + authority) is None,
{
    reveal_strlit("file://");
    reveal_strlit("vscode-remote://");
    let file = "file://"@ + path;
    let remote = authority + (seq!['/'] + path);
    let whole = "vscode-remote://"@ + remote;
    let short = "vscode-remote://"@ + authority;
    assert(file[0] == 'f');
    assert(file.subrange(0, 7) =~= "file://"@);
    assert(file.skip(7) =~= path);
    if text::begins(file, "vscode-remote://"@) {
        assert(file.subrange(0, 16)[0] == "vscode-remote://"@[0]);
    }
    assert(whole.subrange(0, 16) =~= "vscode-remote://"@);
    assert(whole.skip(16) =~= remote);
    assert(short.subrange(0, 16) =~= "vscode-remote://"@);
    assert(short.skip(16) =~= authority);
    assert forall|j: int| 0 <= j < authority.len() implies authority[j] != '/' by {
        assert(authority.contains(authority[j]));
    }
    text::lemma_first_index(remote, '/', authority.len() as int);
    text::lemma_first_index(authority, '/', authority.len() as int);
    assert(remote.skip(authority.len() as int) =~= seq!['/'] + path);
}

/// A text of any other scheme names no path.
pub proof fn law_other_schemes_name_no_path(value: Seq<char>)
    requires
        !text::begins(value, "file://"@),
        !text::begins(value, "vscode-remote://"@),
    ensures
        uri::uri_path(value) is None,
{
}

} // verus!
