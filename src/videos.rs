use vstd::prelude::*;
use vstd::string::*;

verus! {

/// What `Path::extension` gives for a path: the file name's part after its last dot,
/// or nothing when there is no file name or it has no dot past its first character.
pub uninterp spec fn extension_of(path: Seq<char>) -> Option<Seq<char>>;

/// What `str::to_lowercase` gives for a text.
pub uninterp spec fn lower_of(s: Seq<char>) -> Seq<char>;

/// Relies on std::path::Path::extension (and OsStr::to_str, which cannot fail on text
/// that came from a `&str`): the extension of the path's file name.
#[verifier::external_body]
fn path_extension(path: &str) -> (r: Option<String>)
    ensures
        match r {
            Some(e) => extension_of(path@) == Some(e@),
            None => extension_of(path@) is None,
        },
{
    let e = std::path::Path::new(path).extension()?;
    e.to_str().map(String::from)
}

/// Relies on str::to_lowercase: the lower-case form depends on the characters alone.
#[verifier::external_body]
fn lowercase(s: &str) -> (r: String)
    ensures
        r@ == lower_of(s@),
{
    s.to_lowercase()
}

/// The lower-case extensions of the video containers that are processed.
pub open spec fn is_allowed_extension_spec(e: Seq<char>) -> bool {
    ||| e == "mp4"@
    ||| e == "mov"@
    ||| e == "avi"@
    ||| e == "mkv"@
    ||| e == "webm"@
    ||| e == "m4v"@
    ||| e == "wmv"@
    ||| e == "mpg"@
    ||| e == "mpeg"@
    ||| e == "ts"@
}

/// A path names a video when its extension, in lower case, is one of the allowed ones.
pub open spec fn is_video_path(path: Seq<char>) -> bool {
    match extension_of(path) {
        Some(e) => is_allowed_extension_spec(lower_of(e)),
        None => false,
    }
}

fn same_text(a: &str, b: &str) -> (r: bool)
    ensures
        r == (a@ == b@),
{
    let n = a.unicode_len();
    if n != b.unicode_len() {
        return false;
    }
    let mut i: usize = 0;
    while i < n
        invariant
            n == a@.len(),
            n == b@.len(),
            i <= n,
            forall|k: int| 0 <= k < i ==> a@[k] == b@[k],
        decreases n - i,
    {
        if a.get_char(i) != b.get_char(i) {
            return false;
        }
        i += 1;
    }
    assert(a@ =~= b@);
    true
}

/// Whether a lower-case extension is one of the allowed video extensions.
pub fn is_allowed_extension(ext: &str) -> (r: bool)
    ensures
        r == is_allowed_extension_spec(ext@),
{
    same_text(ext, "mp4") || same_text(ext, "mov") || same_text(ext, "avi") || same_text(
        ext,
        "mkv",
    ) || same_text(ext, "webm") || same_text(ext, "m4v") || same_text(ext, "wmv") || same_text(
        ext,
        "mpg",
    ) || same_text(ext, "mpeg") || same_text(ext, "ts")
}

/// Whether a path names a video file, judged by its extension without regard to case.
pub fn is_video_file(path: &str) -> (r: bool)
    ensures
        r == is_video_path(path@),
{
    match path_extension(path) {
        Some(e) => {
            let lower = lowercase(e.as_str());
            is_allowed_extension(lower.as_str())
        },
        None => false,
    }
}

/// The positions, in order, of the entries of a directory listing that name videos:
/// every other entry is skipped.
pub fn select_videos(paths: &Vec<String>) -> (r: Vec<usize>)
    ensures
        forall|k: int| 0 <= k < r@.len() ==> #[trigger] r@[k] < paths@.len(),
        forall|k: int, m: int| 0 <= k < m < r@.len() ==> r@[k] < r@[m],
        forall|i: int|
            0 <= i < paths@.len() ==> (r@.contains(i as usize) <==> is_video_path(
                #[trigger] paths@[i]@,
            )),
{
    let mut r: Vec<usize> = Vec::new();
    let mut i: usize = 0;
    while i < paths.len()
        invariant
            i <= paths@.len(),
            forall|k: int| 0 <= k < r@.len() ==> #[trigger] r@[k] < i,
            forall|k: int, m: int| 0 <= k < m < r@.len() ==> r@[k] < r@[m],
            forall|j: int|
                0 <= j < i ==> (r@.contains(j as usize) <==> is_video_path(
                    #[trigger] paths@[j]@,
                )),
        decreases paths@.len() - i,
    {
        let keep = is_video_file(paths[i].as_str());
        let ghost before = r@;
        if keep {
            r.push(i);
            assert forall|j: int| 0 <= j < i implies (#[trigger] r@.contains(j as usize) <==> before.contains(
                j as usize,
            )) by {
                if r@.contains(j as usize) {
                    let k = choose|k: int| 0 <= k < r@.len() && r@[k] == j as usize;
                    if k < before.len() {
                        assert(before[k] == j as usize);
                    }
                }
                if before.contains(j as usize) {
                    let k = choose|k: int| 0 <= k < before.len() && before[k] == j as usize;
                    assert(r@[k] == j as usize);
                }
            }
            assert(r@[r@.len() - 1] == i);
        }
        i += 1;
    }
    r
}

/// The directory filter keeps exactly the entries whose extension, ignoring case, is an
/// allowed video extension.
pub proof fn lemma_selection_is_allowed_extensions(paths: Seq<Seq<char>>, i: int)
    requires
        0 <= i < paths.len(),
    ensures
        is_video_path(paths[i]) <==> (extension_of(paths[i]) is Some
            && is_allowed_extension_spec(lower_of(extension_of(paths[i])->0))),
{
}

} // verus!
