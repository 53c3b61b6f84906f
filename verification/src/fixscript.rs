//! The bookkeeping that keeps generated test fixtures in sync with the
//! shell scripts that produce them.
//!
//! A fixture pairs a script with an archive of the directory the script
//! generated. The pieces that read files, unpack archives and run the
//! scripts live outside the verified core; what stands here is every
//! decision of that workflow: where the script and its archive live, and
//! whether an unpacked archive is still current for a script.

use sha2::Digest;
use vstd::prelude::*;
use vstd::string::StrSliceExecFns;
use vstd::string::StringExecFns;

use crate::text::find_last;
use crate::text::spec_find_last;
use crate::text::str_eq;

verus! {

/// The SHA-256 digest of a byte sequence.
pub uninterp spec fn sha256_of(data: Seq<u8>) -> Seq<u8>;

/// Relies on sha2::Sha256::digest: a 32-byte digest that depends on the
/// input bytes alone.
#[verifier::external_body]
fn sha256(data: &[u8]) -> (r: Vec<u8>)
    ensures
        r@ == sha256_of(data@),
        r@.len() == 32,
{
    let digest = sha2::Sha256::digest(data);
    let bytes: &[u8] = digest.as_ref();
    bytes.to_vec()
}

/// Whether two byte vectors hold the same bytes.
pub fn bytes_eq(a: &Vec<u8>, b: &Vec<u8>) -> (r: bool)
    ensures
        r == (a@ == b@),
{
    if a.len() != b.len() {
        return false;
    }
    let n = a.len();
    let mut i: usize = 0;
    while i < n
        invariant
            i <= n,
            n == a@.len(),
            n == b@.len(),
            forall|j: int| 0 <= j < i ==> a@[j] == b@[j],
        decreases n - i,
    {
        if a[i] != b[i] {
            return false;
        }
        i = i + 1;
    }
    proof {
        assert(a@ =~= b@);
    }
    true
}

/// Whether `digest` is the SHA-256 digest of `data`.
pub fn hash_matches(data: &Vec<u8>, digest: &Vec<u8>) -> (r: bool)
    ensures
        r == (sha256_of(data@) == digest@),
{
    let d = sha256(data.as_slice());
    bytes_eq(&d, digest)
}

/// Whether an unpacked archive is still current for a script: the digest
/// it recorded is the digest of the script's bytes, and it was written in
/// the expected format version.
pub fn archive_is_current(
    script: &Vec<u8>,
    stored_sha: &Vec<u8>,
    stored_version: &str,
    expected_version: &str,
) -> (r: bool)
    ensures
        r == (sha256_of(script@) == stored_sha@ && stored_version@ == expected_version@),
{
    let sha_ok = hash_matches(script, stored_sha);
    let version_ok = str_eq(stored_version, expected_version);
    sha_ok && version_ok
}

/// Whether a missing or outdated archive may be regenerated: never in a
/// continuous-integration run, which sets `CI=true`.
pub fn may_generate_archive(ci: Option<&str>) -> (r: bool)
    ensures
        r == match ci {
            Option::Some(v) => v@ != "true"@,
            Option::None => true,
        },
{
    match ci {
        Some(v) => !str_eq(v, "true"),
        None => true,
    }
}

/// The path of a fixture relative to the project: the project root, the
/// `fixtures` directory, and the fixture's own name.
pub fn fixture_path(root: &str, name: &str) -> (r: String)
    ensures
        r@ == root@ + "/fixtures/"@ + name@,
{
    let mut s = String::from_str(root);
    s.append("/fixtures/");
    s.append(name);
    proof {
        assert(s@ =~= root@ + "/fixtures/"@ + name@);
    }
    s
}

/// The archive path of a script: the script's path with its extension
/// replaced by `tar.xz`. A path whose final component has no extension
/// (no `.` after the last `/`, or only one leading its name) gets
/// `.tar.xz` appended.
pub open spec fn spec_archive_path(p: Seq<char>) -> Seq<char> {
    let slash = spec_find_last(p, '/');
    let dot = spec_find_last(p, '.');
    if dot > slash + 1 {
        p.take(dot) + ".tar.xz"@
    } else {
        p + ".tar.xz"@
    }
}

/// The archive path for the script at `p`.
pub fn archive_path(p: &str) -> (r: String)
    ensures
        r@ == spec_archive_path(p@),
{
    proof {
        crate::text::lemma_find_last_bounds(p@, '/');
        crate::text::lemma_find_last_bounds(p@, '.');
    }
    let n = p.unicode_len();
    let slash_opt = find_last(p, '/');
    let dot_opt = find_last(p, '.');
    let (cut, d): (bool, usize) = match dot_opt {
        None => (false, 0),
        Some(d) => match slash_opt {
            None => (d > 0, d),
            Some(sl) => (d > sl + 1, d),
        },
    };
    if cut {
        let stem = p.substring_char(0, d);
        let mut s = String::from_str(stem);
        s.append(".tar.xz");
        proof {
            assert(stem@ =~= p@.take(spec_find_last(p@, '.')));
        }
        s
    } else {
        let mut s = String::from_str(p);
        s.append(".tar.xz");
        s
    }
}

} // verus!
