//! Directory scanning: which entries of a directory count as photos.
//!
//! The shell lists a directory and hands every readable entry in as a
//! name/path/size triple; `photos_from_entries` keeps exactly those whose
//! extension — compared without regard to ASCII case — is one of the
//! supported image formats, in the order they were listed.

use vstd::prelude::*;
use vstd::string::StrSliceExecFns;
use vstd::string::StringExecFns;

use crate::names::ext_split;
use crate::names::ext_split_at;

verus! {

/// One discovered image file: file name, full path, size in bytes.
pub struct PhotoInfo {
    pub name: String,
    pub path: String,
    pub size: u64,
}

impl Clone for PhotoInfo {
    fn clone(&self) -> (r: Self)
        ensures
            r == *self,
    {
        let r = PhotoInfo { name: self.name.clone(), path: self.path.clone(), size: self.size };
        proof {
            assert(r == *self);
        }
        r
    }
}

/// ASCII lowercasing of a single character; anything else is unchanged.
pub open spec fn lower_char(c: char) -> char {
    match c {
        'A' => 'a',
        'B' => 'b',
        'C' => 'c',
        'D' => 'd',
        'E' => 'e',
        'F' => 'f',
        'G' => 'g',
        'H' => 'h',
        'I' => 'i',
        'J' => 'j',
        'K' => 'k',
        'L' => 'l',
        'M' => 'm',
        'N' => 'n',
        'O' => 'o',
        'P' => 'p',
        'Q' => 'q',
        'R' => 'r',
        'S' => 's',
        'T' => 't',
        'U' => 'u',
        'V' => 'v',
        'W' => 'w',
        'X' => 'x',
        'Y' => 'y',
        'Z' => 'z',
        _ => c,
    }
}

fn to_lower_char(c: char) -> (r: char)
    ensures
        r == lower_char(c),
{
    match c {
        'A' => 'a',
        'B' => 'b',
        'C' => 'c',
        'D' => 'd',
        'E' => 'e',
        'F' => 'f',
        'G' => 'g',
        'H' => 'h',
        'I' => 'i',
        'J' => 'j',
        'K' => 'k',
        'L' => 'l',
        'M' => 'm',
        'N' => 'n',
        'O' => 'o',
        'P' => 'p',
        'Q' => 'q',
        'R' => 'r',
        'S' => 's',
        'T' => 't',
        'U' => 'u',
        'V' => 'v',
        'W' => 'w',
        'X' => 'x',
        'Y' => 'y',
        'Z' => 'z',
        _ => c,
    }
}

/// The sequence with every character ASCII-lowercased.
pub open spec fn lower_seq(s: Seq<char>) -> Seq<char> {
    s.map_values(|c: char| lower_char(c))
}

/// The fixed allow-list of image formats, compared after lowercasing.
pub open spec fn is_allowed_ext(ext: Seq<char>) -> bool {
    ||| lower_seq(ext) == "jpg"@
    ||| lower_seq(ext) == "jpeg"@
    ||| lower_seq(ext) == "png"@
    ||| lower_seq(ext) == "gif"@
    ||| lower_seq(ext) == "bmp"@
    ||| lower_seq(ext) == "tiff"@
    ||| lower_seq(ext) == "tif"@
    ||| lower_seq(ext) == "webp"@
}

/// The allow-list cannot tell an extension from its lowercased form:
/// matching is insensitive to ASCII case.
pub proof fn lemma_allowed_ext_case_insensitive(ext: Seq<char>)
    ensures
        is_allowed_ext(ext) == is_allowed_ext(lower_seq(ext)),
{
    assert(lower_seq(lower_seq(ext)) =~= lower_seq(ext));
}

/// A file name counts as a photo when it has an extension and that
/// extension is on the allow-list.
pub open spec fn is_photo_name(name: Seq<char>) -> bool {
    match ext_split(name) {
        Some(i) => is_allowed_ext(name.skip(i + 1)),
        None => false,
    }
}

/// Compares `s`, ASCII-lowercased, against `t`.
fn eq_lowered(s: &str, t: &str) -> (r: bool)
    ensures
        r == (lower_seq(s@) == t@),
{
    let n = s.unicode_len();
    let m = t.unicode_len();
    if n != m {
        proof {
            assert(lower_seq(s@).len() == s@.len());
        }
        return false;
    }
    let mut i: usize = 0;
    while i < n
        invariant
            i <= n,
            n == s@.len(),
            n == t@.len(),
            forall|j: int| 0 <= j < i ==> lower_char(s@[j]) == t@[j],
        decreases n - i,
    {
        let a = to_lower_char(s.get_char(i));
        let b = t.get_char(i);
        if a != b {
            proof {
                assert(lower_seq(s@)[i as int] != t@[i as int]);
            }
            return false;
        }
        i = i + 1;
    }
    proof {
        assert(lower_seq(s@) =~= t@);
    }
    true
}

/// Whether this file name is one of the supported image formats.
pub fn is_photo_file(name: &str) -> (r: bool)
    ensures
        r == is_photo_name(name@),
{
    match ext_split_at(name) {
        Some(i) => {
            let n = name.unicode_len();
            proof {
                crate::names::lemma_last_index_of(name@, '.');
            }
            let ext = name.substring_char(i + 1, n);
            proof {
                assert(ext@ =~= name@.skip(i + 1));
            }
            eq_lowered(ext, "jpg") || eq_lowered(ext, "jpeg") || eq_lowered(ext, "png")
                || eq_lowered(ext, "gif") || eq_lowered(ext, "bmp") || eq_lowered(ext, "tiff")
                || eq_lowered(ext, "tif") || eq_lowered(ext, "webp")
        },
        None => false,
    }
}

/// The entries that the scan reports: exactly those whose name is a
/// photo name, in listing order.
pub open spec fn spec_photos(entries: Seq<PhotoInfo>) -> Seq<PhotoInfo> {
    entries.filter(|e: PhotoInfo| is_photo_name(e.name@))
}

/// Keeps the photo entries of a directory listing, in order.
pub fn photos_from_entries(entries: &Vec<PhotoInfo>) -> (r: Vec<PhotoInfo>)
    ensures
        r@ == spec_photos(entries@),
{
    let mut r: Vec<PhotoInfo> = Vec::new();
    let mut i: usize = 0;
    while i < entries.len()
        invariant
            i <= entries.len(),
            r@ == spec_photos(entries@.take(i as int)),
        decreases entries.len() - i,
    {
        let e = &entries[i];
        if is_photo_file(e.name.as_str()) {
            r.push(e.clone());
        }
        proof {
            reveal(Seq::filter);
            assert(entries@.take(i + 1).drop_last() =~= entries@.take(i as int));
            assert(entries@.take(i + 1).last() == entries@[i as int]);
        }
        i = i + 1;
    }
    proof {
        assert(entries@.take(entries@.len() as int) =~= entries@);
    }
    r
}

/// An empty listing scans to an empty result — never to an error.
pub proof fn lemma_scan_of_empty_listing()
    ensures
        spec_photos(Seq::<PhotoInfo>::empty()) == Seq::<PhotoInfo>::empty(),
{
    reveal(Seq::filter);
    assert(spec_photos(Seq::<PhotoInfo>::empty()) =~= Seq::<PhotoInfo>::empty());
}

/// Why a scan request was rejected.
#[derive(Debug)]
pub enum ScanError {
    /// The path does not exist, or names something other than a directory.
    InvalidPath,
    /// The directory could not be listed; carries the underlying message.
    ReadFailure(String),
}

/// The message reported to the caller for each scan failure.
pub open spec fn scan_error_message(e: ScanError) -> Seq<char> {
    match e {
        ScanError::InvalidPath => "Invalid directory path"@,
        ScanError::ReadFailure(d) => "Failed to read directory: "@ + d@,
    }
}

impl ScanError {
    pub fn message(&self) -> (r: String)
        ensures
            r@ == scan_error_message(*self),
    {
        match self {
            ScanError::InvalidPath => String::from_str("Invalid directory path"),
            ScanError::ReadFailure(d) => {
                let mut s = String::from_str("Failed to read directory: ");
                s.append(d.as_str());
                s
            },
        }
    }
}

/// A scan goes ahead exactly when the path exists and is a directory.
pub fn check_scan_path(path_exists: bool, path_is_dir: bool) -> (r: Result<(), ScanError>)
    ensures
        r is Ok <==> path_exists && path_is_dir,
        !(path_exists && path_is_dir) ==> r == Err::<(), ScanError>(ScanError::InvalidPath),
{
    if path_exists && path_is_dir {
        Ok(())
    } else {
        Err(ScanError::InvalidPath)
    }
}

} // verus!
