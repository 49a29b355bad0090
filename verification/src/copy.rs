//! The copy operation's decisions: validating the request, deriving the
//! file name from the source path, and planning the destination path.
//!
//! The shell reports whether source and target are usable and what the
//! target directory already holds; `plan_copy` turns that into either the
//! exact destination path — collision-free by `resolve_collision` — or
//! the error the request earns. The byte copy itself happens outside,
//! at the planned path.

use vstd::prelude::*;
use vstd::string::StrSliceExecFns;
use vstd::string::StringExecFns;

use crate::names::dest_name;
use crate::names::last_index_of;
use crate::names::lemma_last_index_of;
use crate::names::resolve_collision;
use crate::names::resolved_at;

verus! {

/// The file-name part of a path: what follows the last separator.
/// There is none when that part is empty or only refers to a directory
/// ("." or "..").
pub open spec fn spec_file_name(path: Seq<char>) -> Option<Seq<char>> {
    let tail = match last_index_of(path, '/') {
        Some(i) => path.skip(i + 1),
        None => path,
    };
    if tail.len() == 0 || tail == seq!['.'] || tail == seq!['.', '.'] {
        None
    } else {
        Some(tail)
    }
}

/// Derives the file name from a path.
pub fn file_name_of(path: &str) -> (r: Option<String>)
    ensures
        match r {
            Some(s) => spec_file_name(path@) == Some(s@),
            None => spec_file_name(path@) is None,
        },
{
    let n = path.unicode_len();
    let tail: &str = match crate::names::find_last(path, '/') {
        Some(i) => {
            proof {
                lemma_last_index_of(path@, '/');
            }
            path.substring_char(i + 1, n)
        },
        None => path,
    };
    proof {
        assert(tail@ =~= match last_index_of(path@, '/') {
            Some(i) => path@.skip(i + 1),
            None => path@,
        });
    }
    let m = tail.unicode_len();
    if m == 0 {
        return None;
    }
    if m == 1 && tail.get_char(0) == '.' {
        proof {
            assert(tail@ =~= seq!['.']);
        }
        return None;
    }
    if m == 2 && tail.get_char(0) == '.' && tail.get_char(1) == '.' {
        proof {
            assert(tail@ =~= seq!['.', '.']);
        }
        return None;
    }
    proof {
        assert(tail@ != seq!['.'] && tail@ != seq!['.', '.']) by {
            assert(seq!['.'].len() == 1 && seq!['.'][0] == '.');
            assert(seq!['.', '.'].len() == 2 && seq!['.', '.'][0] == '.' && seq!['.', '.'][1]
                == '.');
        }
    }
    Some(tail.to_owned())
}

/// A path inside a directory: the directory, a separator unless the
/// directory already ends in one, then the name.
pub open spec fn spec_join(dir: Seq<char>, name: Seq<char>) -> Seq<char> {
    if dir.len() == 0 {
        name
    } else if dir[dir.len() - 1] == '/' {
        dir + name
    } else {
        dir + seq!['/'] + name
    }
}

/// Joins a directory path and a file name.
pub fn join_path(dir: &str, name: &str) -> (r: String)
    ensures
        r@ == spec_join(dir@, name@),
{
    let n = dir.unicode_len();
    if n == 0 {
        return name.to_owned();
    }
    let mut s = String::from_str(dir);
    if dir.get_char(n - 1) == '/' {
        s.append(name);
    } else {
        proof {
            reveal_strlit("/");
            assert("/"@ =~= seq!['/']);
        }
        s.append("/");
        s.append(name);
    }
    s
}

/// Why a copy request was rejected.
#[derive(Debug)]
pub enum CopyError {
    /// The source does not exist or is not a regular file.
    SourceNotFound,
    /// The target directory does not exist or is not a directory.
    TargetNotFound,
    /// No file name could be derived from the source path.
    NameExtraction,
    /// The byte copy itself failed; carries the underlying message.
    CopyFailure(String),
}

/// The message reported to the caller for each copy failure.
pub open spec fn copy_error_message(e: CopyError) -> Seq<char> {
    match e {
        CopyError::SourceNotFound => "Source file does not exist"@,
        CopyError::TargetNotFound => "Target directory does not exist"@,
        CopyError::NameExtraction => "Could not extract filename from source path"@,
        CopyError::CopyFailure(d) => "Failed to copy file: "@ + d@,
    }
}

impl CopyError {
    pub fn message(&self) -> (r: String)
        ensures
            r@ == copy_error_message(*self),
    {
        match self {
            CopyError::SourceNotFound => String::from_str("Source file does not exist"),
            CopyError::TargetNotFound => String::from_str("Target directory does not exist"),
            CopyError::NameExtraction => String::from_str(
                "Could not extract filename from source path",
            ),
            CopyError::CopyFailure(d) => {
                let mut s = String::from_str("Failed to copy file: ");
                s.append(d.as_str());
                s
            },
        }
    }
}

/// The planned destination: the target directory joined with the
/// candidate name at which the collision resolution stops.
pub open spec fn copy_planned(
    listing: Seq<Seq<char>>,
    dir: Seq<char>,
    name: Seq<char>,
    dest: Seq<char>,
) -> bool {
    exists|k: nat|
        #[trigger] resolved_at(listing, name, k) && dest == spec_join(dir, dest_name(name, k))
}

/// Plans a copy: given whether the source is a regular file, whether the
/// target is a directory, and the names the target already holds, either
/// the destination path to copy to or the error the request earns.
///
/// On success the destination is the target directory joined with the
/// first free candidate name; in particular, with no collision it is the
/// source's own file name under the target directory.
pub fn plan_copy(
    source_path: &str,
    target_dir: &str,
    source_is_file: bool,
    target_is_dir: bool,
    existing: &Vec<String>,
) -> (r: Result<String, CopyError>)
    ensures
        r == Err::<String, CopyError>(CopyError::SourceNotFound) <==> !source_is_file,
        r == Err::<String, CopyError>(CopyError::TargetNotFound) <==> source_is_file
            && !target_is_dir,
        r == Err::<String, CopyError>(CopyError::NameExtraction) <==> source_is_file
            && target_is_dir && spec_file_name(source_path@) is None,
        r is Ok <==> source_is_file && target_is_dir && spec_file_name(source_path@) is Some,
        r matches Ok(dest) ==> spec_file_name(source_path@) matches Some(name) && copy_planned(
            existing.deep_view(),
            target_dir@,
            name,
            dest@,
        ),
        r matches Ok(dest) ==> spec_file_name(source_path@) matches Some(name) && (
        !existing.deep_view().contains(name) ==> dest@ == spec_join(target_dir@, name)),
{
    if !source_is_file {
        return Err(CopyError::SourceNotFound);
    }
    if !target_is_dir {
        return Err(CopyError::TargetNotFound);
    }
    match file_name_of(source_path) {
        None => Err(CopyError::NameExtraction),
        Some(name) => {
            let free = resolve_collision(existing, &name);
            let dest = join_path(target_dir, free.as_str());
            proof {
                let k = choose|k: nat|
                    #[trigger] resolved_at(existing.deep_view(), name@, k) && free@ == dest_name(
                        name@,
                        k,
                    );
                assert(resolved_at(existing.deep_view(), name@, k) && dest@ == spec_join(
                    target_dir@,
                    dest_name(name@, k),
                ));
                assert(copy_planned(existing.deep_view(), target_dir@, name@, dest@));
            }
            Ok(dest)
        },
    }
}

} // verus!
