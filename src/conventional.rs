use vstd::prelude::*;
use vstd::utf8::encode_utf8;

verus! {

/// One character of a conventional path: `\` becomes `/`, ASCII capitals
/// become small letters, anything else stays.
pub open spec fn conventional_char(c: char) -> char {
    if c == '\\' {
        '/'
    } else if 'A' <= c && c <= 'Z' {
        ((c as u8) + 32u8) as char
    } else {
        c
    }
}

/// The conventional form of a path: each character normalized on its own.
pub open spec fn conventional(s: Seq<char>) -> Seq<char> {
    s.map_values(|c: char| conventional_char(c))
}

fn convert_char(c: char) -> (r: char)
    ensures
        r == conventional_char(c),
{
    if c == '\\' {
        '/'
    } else if 'A' <= c && c <= 'Z' {
        ((c as u8) + 32u8) as char
    } else {
        c
    }
}

/// Relies on `String::push`: the character is appended.
#[verifier::external_body]
fn push_char(s: &mut String, c: char)
    ensures
        final(s)@ == old(s)@.push(c),
{
    s.push(c)
}

/// Normalizes separators and letter case of a path.
pub fn make_path_conventional(path: &str) -> (r: String)
    ensures
        r@ == conventional(path@),
{
    let mut out = String::new();
    for c in it: path.chars()
        invariant
            it.seq() == path@,
            out@ == conventional(path@.take(it.index() as int)),
    {
        let ghost k = it.index();
        push_char(&mut out, convert_char(c));
        assert(it.seq().take(k + 1) == it.seq().take(k as int).push(c));
    }
    assert(path@.take(path@.len() as int) == path@);
    out
}

/// Normalizing a conventional path once more changes nothing.
pub proof fn lemma_conventional_idempotent(s: Seq<char>)
    ensures
        conventional(conventional(s)) == conventional(s),
{
    assert(conventional(conventional(s)) =~= conventional(s));
}

/// The CRC-32 checksum of a byte string.
pub uninterp spec fn crc32_of(bytes: Seq<u8>) -> u32;

/// The registry key of a path: the checksum of its UTF-8 bytes.
pub open spec fn path_key(path: Seq<char>) -> u32 {
    crc32_of(encode_utf8(path))
}

/// Relies on `crc32fast::hash`: the CRC-32 of the bytes, a function of them alone.
#[verifier::external_body]
pub fn hash(bytes: &[u8]) -> (r: u32)
    ensures
        r == crc32_of(bytes@),
{
    crc32fast::hash(bytes)
}

/// The key of a path that is already conventional.
pub fn key_of(path: &str) -> (r: u32)
    ensures
        r == path_key(path@),
{
    hash(path.as_bytes())
}

/// The key of the conventional form of an arbitrary path.
pub fn conventional_hash(path: &str) -> (r: u32)
    ensures
        r == path_key(conventional(path@)),
{
    let c = make_path_conventional(path);
    key_of(c.as_str())
}

} // verus!
