use vstd::prelude::*;

use sha2::Digest;

use crate::index::{Probe, Track};

verus! {

/// The SHA-256 digest of `data`.
pub uninterp spec fn sha256_of(data: Seq<u8>) -> Seq<u8>;

/// Relies on `sha2::Sha256::digest`: the SHA-256 digest of the bytes, whose output
/// size is 32 bytes.
#[verifier::external_body]
fn sha256(data: &[u8]) -> (r: Vec<u8>)
    ensures
        r@ == sha256_of(data@),
        r@.len() == 32,
{
    sha2::Sha256::digest(data).to_vec()
}

/// Relies on `String::push`: appends one character.
#[verifier::external_body]
fn push_char(s: &mut String, c: char)
    ensures
        final(s)@ == old(s)@.push(c),
{
    s.push(c)
}

/// The lowercase hexadecimal digit for `n`, below 16.
pub open spec fn hex_digit(n: u8) -> char {
    if n < 10 {
        (48 + n) as char
    } else {
        (87 + n) as char
    }
}

/// Two lowercase hexadecimal digits per byte, high nibble first.
pub open spec fn hex_of(b: Seq<u8>) -> Seq<char>
    decreases b.len(),
{
    if b.len() == 0 {
        Seq::empty()
    } else {
        hex_of(b.drop_last()).push(hex_digit(b.last() / 16)).push(hex_digit(b.last() % 16))
    }
}

proof fn lemma_hex_len(b: Seq<u8>)
    ensures
        hex_of(b).len() == 2 * b.len(),
    decreases b.len(),
{
    if b.len() > 0 {
        lemma_hex_len(b.drop_last());
    }
}

fn digit(n: u8) -> (c: char)
    requires
        n < 16,
    ensures
        c == hex_digit(n),
{
    if n < 10 {
        (48 + n) as char
    } else {
        (87 + n) as char
    }
}

/// The content identity of a file: the lowercase hexadecimal SHA-256 digest of its bytes.
pub fn content_id(data: &[u8]) -> (r: String)
    ensures
        r@ == hex_of(sha256_of(data@)),
        r@.len() == 64,
{
    let d = sha256(data);
    let mut r = String::new();
    let mut i: usize = 0;
    while i < d.len()
        invariant
            i <= d@.len(),
            r@ == hex_of(d@.take(i as int)),
        decreases d@.len() - i,
    {
        let b = d[i];
        assert(d@.take(i as int + 1).drop_last() =~= d@.take(i as int));
        push_char(&mut r, digit(b / 16));
        push_char(&mut r, digit(b % 16));
        i += 1;
    }
    assert(d@.take(i as int) =~= d@);
    proof {
        lemma_hex_len(d@);
    }
    r
}

/// Files with identical bytes get identical identities, whatever their paths.
pub proof fn lemma_identical_bytes_same_id(a: Seq<u8>, b: Seq<u8>)
    requires
        a == b,
    ensures
        hex_of(sha256_of(a)) == hex_of(sha256_of(b)),
{
}

/// What one file of a directory walk becomes: its bytes and tags where it could be read,
/// only its path where it could not.
pub fn probe_file(
    path: String,
    data: Option<&[u8]>,
    title: String,
    artist: String,
    album: String,
    duration: u64,
) -> (r: Probe)
    ensures
        match data {
            None => r == Probe::Unreadable(path),
            Some(d) => match r {
                Probe::Read(t) => t.id@ == hex_of(sha256_of(d@)) && t.path == path && t.title == title
                    && t.artist == artist && t.album == album && t.duration == duration,
                Probe::Unreadable(_) => false,
            },
        },
{
    match data {
        None => Probe::Unreadable(path),
        Some(d) => Probe::Read(Track { id: content_id(d), path, title, artist, album, duration }),
    }
}

} // verus!
