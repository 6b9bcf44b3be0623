//! The fingerprint of an example's source, and the check of what a run of
//! an example printed.

use sha2::Digest;
use vstd::prelude::*;
use vstd::string::StringSliceAdditionalSpecFns;
use vstd::utf8::{decode_utf8, encode_utf8, valid_utf8};
use crate::text::{chars_to_string, push_all, str_to_chars};

verus! {

broadcast use vstd::slice::group_slice_axioms;

/// The SHA-256 digest of `data`.
pub uninterp spec fn sha256_digest(data: Seq<u8>) -> Seq<u8>;

/// `sha2::Sha256::digest`. The result is named; the contract also states
/// the digest size that SHA-256 has: 32 bytes.
#[verifier::external_body]
fn sha256(data: &[u8]) -> (r: Vec<u8>)
    ensures
        r@ == sha256_digest(data@),
        r@.len() == 32,
{
    sha2::Sha256::digest(data).to_vec()
}

/// The lowercase hexadecimal digit for `d` (`0..16`).
pub open spec fn hex_digit(d: int) -> char {
    if d < 10 {
        ((d + 48) as u32) as char
    } else {
        ((d + 87) as u32) as char
    }
}

/// `bytes` in lowercase hexadecimal, two digits per byte.
pub open spec fn hex_lower(bytes: Seq<u8>) -> Seq<char>
    decreases bytes.len(),
{
    if bytes.len() == 0 {
        Seq::empty()
    } else {
        hex_lower(bytes.drop_last()) + seq![
            hex_digit(bytes.last() as int / 16),
            hex_digit(bytes.last() as int % 16),
        ]
    }
}

fn hex_digit_exec(d: u8) -> (c: char)
    requires
        d < 16,
    ensures
        c == hex_digit(d as int),
{
    if d < 10 {
        (d + 48) as char
    } else {
        (d + 87) as char
    }
}

/// `bytes` in lowercase hexadecimal, two digits per byte.
pub fn hex_encode(bytes: &[u8]) -> (r: String)
    ensures
        r@ == hex_lower(bytes@),
{
    let mut out: Vec<char> = Vec::new();
    let mut i: usize = 0;
    while i < bytes.len()
        invariant
            i <= bytes@.len(),
            out@ == hex_lower(bytes@.take(i as int)),
        decreases bytes@.len() - i,
    {
        let b = bytes[i];
        out.push(hex_digit_exec(b / 16));
        out.push(hex_digit_exec(b % 16));
        proof {
            assert(bytes@.take(i + 1).drop_last() =~= bytes@.take(i as int));
            assert(bytes@.take(i + 1).last() == b);
            assert(out@ =~= hex_lower(bytes@.take(i as int)) + seq![
                hex_digit(b as int / 16),
                hex_digit(b as int % 16),
            ]);
        }
        i = i + 1;
    }
    assert(bytes@.take(bytes@.len() as int) =~= bytes@);
    chars_to_string(out.as_slice())
}

/// The fingerprint of a source: the SHA-256 digest of its UTF-8 bytes in
/// lowercase hexadecimal.
pub open spec fn source_fingerprint(source: Seq<char>) -> Seq<char> {
    hex_lower(sha256_digest(encode_utf8(source)))
}

pub proof fn lemma_hex_lower_len(bytes: Seq<u8>)
    ensures
        hex_lower(bytes).len() == 2 * bytes.len(),
    decreases bytes.len(),
{
    if bytes.len() > 0 {
        lemma_hex_lower_len(bytes.drop_last());
    }
}

/// The fingerprint of a source: the SHA-256 digest of its UTF-8 bytes in
/// lowercase hexadecimal (64 characters).
pub fn source_hash(source: &str) -> (r: String)
    ensures
        r@ == source_fingerprint(source@),
        r@.len() == 64,
{
    let digest = sha256(source.as_bytes());
    proof {
        lemma_hex_lower_len(digest@);
    }
    hex_encode(digest.as_slice())
}

/// Why the output of a run of an example cannot be recorded.
#[derive(Debug, Clone, Copy, PartialEq, Eq, Structural)]
pub enum RunFailure {
    /// The run did not exit successfully.
    Failed,
    /// The run wrote to its standard error.
    WroteStderr,
    /// The standard output is not UTF-8.
    NonUtf8Stdout,
}

/// `String::from_utf8`. The contract states what its documentation gives:
/// it succeeds exactly when the bytes are valid UTF-8, and then holds the
/// characters they encode.
#[verifier::external_body]
fn string_from_utf8(bytes: Vec<u8>) -> (r: Option<String>)
    ensures
        r is Some <==> valid_utf8(bytes@),
        r matches Some(s) ==> s@ == decode_utf8(bytes@),
{
    String::from_utf8(bytes).ok()
}

/// The recorded output of a run, or why it cannot be recorded: a failed
/// run, any standard error output, or a standard output that is not UTF-8.
pub open spec fn run_output(success: bool, stdout: Seq<u8>, stderr: Seq<u8>) -> Result<
    Seq<char>,
    RunFailure,
> {
    if !success {
        Err(RunFailure::Failed)
    } else if stderr.len() != 0 {
        Err(RunFailure::WroteStderr)
    } else if !valid_utf8(stdout) {
        Err(RunFailure::NonUtf8Stdout)
    } else {
        Ok(decode_utf8(stdout))
    }
}

/// Checks the result of one run of an example: it must succeed, write
/// nothing to standard error and print UTF-8; the printed text is returned.
pub fn check_run_output(success: bool, stdout: Vec<u8>, stderr: &Vec<u8>) -> (r: Result<
    String,
    RunFailure,
>)
    ensures
        match r {
            Ok(s) => run_output(success, stdout@, stderr@) == Ok::<Seq<char>, RunFailure>(s@),
            Err(f) => run_output(success, stdout@, stderr@) == Err::<Seq<char>, RunFailure>(f),
        },
{
    if !success {
        return Err(RunFailure::Failed);
    }
    if stderr.len() != 0 {
        return Err(RunFailure::WroteStderr);
    }
    match string_from_utf8(stdout) {
        Some(s) => Ok(s),
        None => Err(RunFailure::NonUtf8Stdout),
    }
}

} // verus!
