use vstd::prelude::*;

use crate::source::{parse_url, url_parse_of, ParsedSource, SourceView, WebUrl};
use crate::text::chars_of;

verus! {

/// The archive formats that can be unpacked.
#[derive(Clone, Copy, Debug, PartialEq, Eq, Structural)]
pub enum ArchiveFormat {
    Zip,
    Tar,
    TarGz,
    TarXz,
    TarBz2,
    TarZst,
}

#[derive(Clone, Copy, Debug, PartialEq, Eq, Structural)]
pub enum RetrieveError {
    /// The download URL built for a hosted repository did not parse.
    InvalidUrl,
    /// The URL's path has no file extension.
    NoExtension,
    /// The URL's file extension names no supported archive format.
    UnsupportedExtension,
}

/// How a source's files are fetched.
pub enum Retrieval {
    /// Download the archive at this URL and unpack it.
    Download { url: WebUrl },
    /// Copy this local directory as it is.
    CopyDir { path: String },
}

/// The tarball URL of a hosted repository's ref.
pub open spec fn tarball_text(v: SourceView) -> Option<Seq<char>> {
    match v {
        SourceView::GitHub { repo, git_ref } => Some(
            "https://github.com/"@ + repo + "/archive/refs/heads/"@ + git_ref + ".tar.gz"@,
        ),
        SourceView::Codeberg { repo, git_ref } => Some(
            "https://codeberg.org/"@ + repo + "/archive/"@ + git_ref + ".tar.gz"@,
        ),
        SourceView::GitLab { repo, git_ref } => Some(
            "https://gitlab.com/"@ + repo + "/-/archive/"@ + git_ref + "/source-"@ + git_ref
                + ".tar.gz"@,
        ),
        _ => None,
    }
}

pub enum RetrievalView {
    Download { text: Seq<char>, path: Seq<char> },
    CopyDir { path: Seq<char> },
}

pub open spec fn retrieval_view(r: Result<Retrieval, RetrieveError>) -> Result<
    RetrievalView,
    RetrieveError,
> {
    match r {
        Ok(Retrieval::Download { url }) => Ok(
            RetrievalView::Download { text: url.text@, path: url.path@ },
        ),
        Ok(Retrieval::CopyDir { path }) => Ok(RetrievalView::CopyDir { path: path@ }),
        Err(e) => Err(e),
    }
}

/// Hosted repositories download their tarball (if its URL parses), URLs are
/// downloaded, local paths copied.
pub open spec fn retrieval_spec(v: SourceView) -> Result<RetrievalView, RetrieveError> {
    match v {
        SourceView::Url { text, path, .. } => Ok(RetrievalView::Download { text, path }),
        SourceView::Path { path, .. } => Ok(RetrievalView::CopyDir { path }),
        _ => match url_parse_of(tarball_text(v)->0) {
            Some((text, path)) => Ok(RetrievalView::Download { text, path }),
            None => Err(RetrieveError::InvalidUrl),
        },
    }
}

impl ParsedSource {
    /// The tarball URL text for a hosted repository; `None` for other sources.
    pub fn tarball_url_text(&self) -> (r: Option<String>)
        ensures
            match r {
                Some(t) => tarball_text(self@) == Some(t@),
                None => tarball_text(self@) is None,
            },
    {
        match self {
            ParsedSource::GitHub { repo, git_ref } => Some(
                String::from_str("https://github.com/").concat(repo.as_str()).concat(
                    "/archive/refs/heads/",
                ).concat(git_ref.as_str()).concat(".tar.gz"),
            ),
            ParsedSource::Codeberg { repo, git_ref } => Some(
                String::from_str("https://codeberg.org/").concat(repo.as_str()).concat(
                    "/archive/",
                ).concat(git_ref.as_str()).concat(".tar.gz"),
            ),
            ParsedSource::GitLab { repo, git_ref } => Some(
                String::from_str("https://gitlab.com/").concat(repo.as_str()).concat(
                    "/-/archive/",
                ).concat(git_ref.as_str()).concat("/source-").concat(git_ref.as_str()).concat(
                    ".tar.gz",
                ),
            ),
            _ => None,
        }
    }

    /// How this source's files are fetched.
    pub fn retrieval(&self) -> (r: Result<Retrieval, RetrieveError>)
        ensures
            retrieval_view(r) == retrieval_spec(self@),
    {
        match self {
            ParsedSource::Url { url, .. } => Ok(Retrieval::Download { url: url.duplicate() }),
            ParsedSource::Path { path, .. } => Ok(Retrieval::CopyDir { path: path.clone() }),
            _ => {
                let text = self.tarball_url_text();
                match text {
                    Some(t) => match parse_url(t.as_str()) {
                        Some(u) => Ok(Retrieval::Download { url: u }),
                        None => Err(RetrieveError::InvalidUrl),
                    },
                    None => Err(RetrieveError::InvalidUrl),
                }
            },
        }
    }
}

/// `s` without its trailing slashes.
pub open spec fn trim_slashes(s: Seq<char>) -> Seq<char>
    decreases s.len(),
{
    if s.len() > 0 && s.last() == '/' {
        trim_slashes(s.drop_last())
    } else {
        s
    }
}

/// The last position of `c` in `s`, or -1.
pub open spec fn last_index(s: Seq<char>, c: char) -> int
    decreases s.len(),
{
    if s.len() == 0 {
        -1
    } else if s.last() == c {
        s.len() - 1
    } else {
        last_index(s.drop_last(), c)
    }
}

/// The last component of a path, as `Path::file_name` reads it.
pub open spec fn file_name_of(path: Seq<char>) -> Seq<char> {
    let t = trim_slashes(path);
    t.subrange(last_index(t, '/') + 1, t.len() as int)
}

/// The text after the last dot of the file name, as `Path::extension` reads
/// it: none for a name without a dot, or whose only dot leads, or `..`.
pub open spec fn extension_of(path: Seq<char>) -> Option<Seq<char>> {
    let name = file_name_of(path);
    let k = last_index(name, '.');
    if name == "."@ || name == ".."@ || k <= 0 {
        None
    } else {
        Some(name.subrange(k + 1, name.len() as int))
    }
}

pub open spec fn format_of_extension(e: Seq<char>) -> Option<ArchiveFormat> {
    if e == "zip"@ {
        Some(ArchiveFormat::Zip)
    } else if e == "tar"@ {
        Some(ArchiveFormat::Tar)
    } else if e == "gz"@ || e == "tgz"@ {
        Some(ArchiveFormat::TarGz)
    } else if e == "xz"@ {
        Some(ArchiveFormat::TarXz)
    } else if e == "bz2"@ {
        Some(ArchiveFormat::TarBz2)
    } else if e == "zst"@ {
        Some(ArchiveFormat::TarZst)
    } else {
        None
    }
}

/// The archive format of a download, told by the extension of its URL's path.
pub open spec fn archive_format_spec(path: Seq<char>) -> Result<ArchiveFormat, RetrieveError> {
    match extension_of(path) {
        None => Err(RetrieveError::NoExtension),
        Some(e) => match format_of_extension(e) {
            Some(f) => Ok(f),
            None => Err(RetrieveError::UnsupportedExtension),
        },
    }
}

fn trimmed_len(cs: &Vec<char>) -> (r: usize)
    ensures
        r <= cs@.len(),
        cs@.subrange(0, r as int) == trim_slashes(cs@),
{
    let mut n = cs.len();
    assert(cs@.subrange(0, n as int) =~= cs@);
    while n > 0 && cs[n - 1] == '/'
        invariant
            n <= cs@.len(),
            trim_slashes(cs@.subrange(0, n as int)) == trim_slashes(cs@),
        decreases n,
    {
        assert(cs@.subrange(0, n as int).drop_last() =~= cs@.subrange(0, n - 1));
        n = n - 1;
    }
    n
}

/// The last position of `c` in `cs[from..to]`, relative to `from`, or -1.
fn last_index_in(cs: &Vec<char>, from: usize, to: usize, c: char) -> (r: Option<usize>)
    requires
        from <= to <= cs@.len(),
    ensures
        match r {
            Some(k) => k < to - from && last_index(cs@.subrange(from as int, to as int), c) == k,
            None => last_index(cs@.subrange(from as int, to as int), c) == -1,
        },
{
    let mut k = to;
    while k > from
        invariant
            from <= k <= to <= cs@.len(),
            forall|m: int| k <= m < to ==> cs@[m] != c,
            last_index(cs@.subrange(from as int, to as int), c) == last_index(
                cs@.subrange(from as int, k as int),
                c,
            ),
        decreases k,
    {
        assert(cs@.subrange(from as int, k as int).drop_last() =~= cs@.subrange(
            from as int,
            k - 1,
        ));
        if cs[k - 1] == c {
            return Some(k - 1 - from);
        }
        k = k - 1;
    }
    assert(cs@.subrange(from as int, k as int).len() == 0);
    None
}

/// Whether `cs[from..to]` reads `lit`.
fn text_is(cs: &Vec<char>, from: usize, to: usize, lit: &str) -> (r: bool)
    requires
        from <= to <= cs@.len(),
    ensures
        r == (cs@.subrange(from as int, to as int) == lit@),
{
    let n = lit.unicode_len();
    if to - from != n {
        return false;
    }
    let mut k: usize = 0;
    while k < n
        invariant
            k <= n == lit@.len() == to - from,
            from <= to <= cs@.len(),
            forall|m: int| 0 <= m < k ==> cs@[from + m] == lit@[m],
        decreases n - k,
    {
        if cs[from + k] != lit.get_char(k) {
            assert(cs@.subrange(from as int, to as int)[k as int] != lit@[k as int]);
            return false;
        }
        k = k + 1;
    }
    assert(cs@.subrange(from as int, to as int) =~= lit@);
    true
}

/// The archive format of a download whose URL has this path.
pub fn archive_format(path: &str) -> (r: Result<ArchiveFormat, RetrieveError>)
    ensures
        r == archive_format_spec(path@),
{
    let cs = chars_of(path);
    let t = trimmed_len(&cs);
    let slash = last_index_in(&cs, 0, t, '/');
    assert(cs@.subrange(0, t as int) == trim_slashes(cs@));
    let start = match slash {
        Some(k) => k + 1,
        None => 0,
    };
    let ghost name = file_name_of(cs@);
    assert(cs@.subrange(start as int, t as int) =~= name);
    if text_is(&cs, start, t, ".") || text_is(&cs, start, t, "..") {
        return Err(RetrieveError::NoExtension);
    }
    let dot = match last_index_in(&cs, start, t, '.') {
        Some(k) => k,
        None => {
            return Err(RetrieveError::NoExtension);
        },
    };
    if dot == 0 {
        return Err(RetrieveError::NoExtension);
    }
    let e = start + dot + 1;
    assert(cs@.subrange(e as int, t as int) =~= name.subrange(dot + 1, name.len() as int));
    if text_is(&cs, e, t, "zip") {
        Ok(ArchiveFormat::Zip)
    } else if text_is(&cs, e, t, "tar") {
        Ok(ArchiveFormat::Tar)
    } else if text_is(&cs, e, t, "gz") || text_is(&cs, e, t, "tgz") {
        Ok(ArchiveFormat::TarGz)
    } else if text_is(&cs, e, t, "xz") {
        Ok(ArchiveFormat::TarXz)
    } else if text_is(&cs, e, t, "bz2") {
        Ok(ArchiveFormat::TarBz2)
    } else if text_is(&cs, e, t, "zst") {
        Ok(ArchiveFormat::TarZst)
    } else {
        Err(RetrieveError::UnsupportedExtension)
    }
}

/// One entry of a directory listing.
pub struct DirEntryInfo {
    pub name: String,
    pub is_dir: bool,
}

/// The wrapper directory to strip from an unpacked archive's top level: the
/// sole entry, if there is exactly one and it is a directory. With no entry,
/// several, or a sole file, nothing is stripped.
pub fn wrapper_directory(entries: &Vec<DirEntryInfo>) -> (r: Option<usize>)
    ensures
        r == (if entries@.len() == 1 && entries@[0].is_dir {
            Some(0usize)
        } else {
            None
        }),
{
    if entries.len() == 1 && entries[0].is_dir {
        Some(0)
    } else {
        None
    }
}

/// The top level of an unpacked archive once the wrapper is stripped: the
/// wrapper's own entries where there is one, else the listing as it is.
pub fn stripped_listing(top: Vec<DirEntryInfo>, inside_wrapper: Vec<DirEntryInfo>) -> (r: Vec<
    DirEntryInfo,
>)
    ensures
        r@ == (if top@.len() == 1 && top@[0].is_dir {
            inside_wrapper@
        } else {
            top@
        }),
{
    match wrapper_directory(&top) {
        Some(_) => inside_wrapper,
        None => top,
    }
}

} // verus!
