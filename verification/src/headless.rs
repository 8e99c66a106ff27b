//! The identity of a node that comes up with nobody at a keyboard: two seeds in a private
//! file, from which the same key is made at every start.

use vstd::prelude::*;

use crate::error::Error;

verus! {

/// The file's name inside the profile directory.
pub const IDENTITY_FILE: &'static str = "node-identity.key";

/// The file's exact size: two seeds of 32 bytes.
pub const IDENTITY_LEN: usize = 64;

/// What reading the file gave.
#[derive(Debug, PartialEq, Eq)]
pub enum IdentityRead {
    /// Its contents.
    Found(Vec<u8>),
    /// There is none.
    Missing,
    /// It could not be read, for the given reason.
    Failed(String),
}

/// A file's path inside a directory.
pub open spec fn inside(dir: Seq<char>, file: Seq<char>) -> Seq<char> {
    if dir.len() == 0 || dir.last() == '/' {
        dir + file
    } else {
        dir.push('/') + file
    }
}

/// The identity file of a node whose profile is in `profile_dir`, where `/` separates the
/// parts of a path.
#[must_use]
pub fn identity_file(profile_dir: &str) -> (path: String)
    ensures
        path@ == inside(profile_dir@, IDENTITY_FILE@),
{
    let n: usize = profile_dir.unicode_len();
    let mut path: String = profile_dir.to_owned();
    if n > 0 && profile_dir.get_char(n - 1) != '/' {
        path.append("/");
        proof {
            reveal_strlit("/");
            assert(path@ =~= profile_dir@.push('/'));
        }
    }
    path.append(IDENTITY_FILE);
    path
}

/// What is said of a path, and what is wrong with it.
pub open spec fn about(path: Seq<char>, what: Seq<char>) -> Seq<char> {
    path + ": "@ + what
}

/// Whether an error says this of the identity file.
pub open spec fn file_error(e: Error, path: Seq<char>, what: Seq<char>) -> bool {
    match e {
        Error::Path { op, detail } => op == "read node identity" && detail@ == about(path, what),
        _ => false,
    }
}

fn file_failure(path: &str, what: &str) -> (e: Error)
    ensures
        file_error(e, path@, what@),
{
    let mut detail: String = path.to_owned();
    detail.append(": ");
    detail.append(what);
    assert(detail@ =~= about(path@, what@));
    Error::Path { op: "read node identity", detail }
}

/// What is done about the identity file.
#[derive(Debug, PartialEq, Eq)]
pub enum IdentityStep {
    /// These are the seeds.
    Use([u8; 32], [u8; 32]),
    /// Fresh random seeds are made and written to a private file.
    Make,
}

/// The two seeds of an identity. A file of the wrong size is refused rather than guessed
/// at.
pub fn from_seeds(seeds: &[u8], path: &str) -> (r: Result<([u8; 32], [u8; 32]), Error>)
    ensures
        match r {
            Ok((ed, ml)) => {
                &&& seeds@.len() == IDENTITY_LEN
                &&& seeds@ == ed@ + ml@
            },
            Err(e) => seeds@.len() != IDENTITY_LEN && file_error(
                e,
                path@,
                "not a node identity file"@,
            ),
        },
{
    if seeds.len() != IDENTITY_LEN {
        return Err(file_failure(path, "not a node identity file"));
    }
    let ed: Option<[u8; 32]> = crate::hash::digest_of(vstd::slice::slice_subrange(seeds, 0, 32));
    let ml: Option<[u8; 32]> = crate::hash::digest_of(vstd::slice::slice_subrange(seeds, 32, 64));
    match (ed, ml) {
        (Some(a), Some(b)) => {
            assert(seeds@ =~= a@ + b@);
            Ok((a, b))
        },
        _ => Err(file_failure(path, "not a node identity file")),
    }
}

/// What is done about the identity file, by what reading it gave: what is there is used,
/// and what is not there is made.
pub fn load_or_create_identity(read: IdentityRead, path: &str) -> (r: Result<IdentityStep, Error>)
    ensures
        match (read, r) {
            (IdentityRead::Found(b), Ok(IdentityStep::Use(ed, ml))) => b@ == ed@ + ml@,
            (IdentityRead::Found(b), Err(e)) => b@.len() != IDENTITY_LEN && file_error(
                e,
                path@,
                "not a node identity file"@,
            ),
            (IdentityRead::Missing, Ok(IdentityStep::Make)) => true,
            (IdentityRead::Failed(why), Err(e)) => file_error(e, path@, why@),
            _ => false,
        },
{
    match read {
        IdentityRead::Found(b) => {
            let (ed, ml) = from_seeds(b.as_slice(), path)?;
            Ok(IdentityStep::Use(ed, ml))
        },
        IdentityRead::Missing => Ok(IdentityStep::Make),
        IdentityRead::Failed(why) => Err(file_failure(path, why.as_str())),
    }
}

/// A path inside a directory is the directory, one separator between the two if the
/// directory has none at its end, and the file.
pub proof fn law_path_has_one_separator(dir: Seq<char>, file: Seq<char>)
    requires
        dir.len() > 0,
        dir.last() != '/',
    ensures
        inside(dir, file) == inside(dir.push('/'), file),
        inside(dir, file).len() == dir.len() + 1 + file.len(),
        inside(dir, file).take(dir.len() as int) == dir,
        inside(dir, file)[dir.len() as int] == '/',
        inside(dir, file).skip(dir.len() as int + 1) == file,
        inside(Seq::empty(), file) == file,
{
    assert(inside(dir, file).take(dir.len() as int) =~= dir);
    assert(inside(dir, file).skip(dir.len() as int + 1) =~= file);
    assert(inside(Seq::empty(), file) =~= file);
}

/// What is said of a path begins with the path and ends with what is wrong.
pub proof fn law_complaint_names_the_path(path: Seq<char>, what: Seq<char>)
    ensures
        path.is_prefix_of(about(path, what)),
        what.is_suffix_of(about(path, what)),
        about(path, what).len() == path.len() + 2 + what.len(),
{
    reveal_strlit(": ");
    assert(about(path, what).subrange(0, path.len() as int) =~= path);
    assert(about(path, what).subrange(
        about(path, what).len() - what.len(),
        about(path, what).len() as int,
    ) =~= what);
}

} // verus!
