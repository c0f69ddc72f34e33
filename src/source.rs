use vstd::prelude::*;

use crate::text::{chars_of, string_of};

verus! {

/// A URL as the logic reads it: its serialization and its path.
pub struct WebUrl {
    pub text: String,
    pub path: String,
}

impl WebUrl {
    pub fn duplicate(&self) -> (r: WebUrl)
        ensures
            r.text@ == self.text@,
            r.path@ == self.path@,
    {
        WebUrl { text: self.text.clone(), path: self.path.clone() }
    }
}

/// What the URL parser gives for a text: `None` where it is not an absolute
/// URL, else the serialization and the path.
pub uninterp spec fn url_parse_of(s: Seq<char>) -> Option<(Seq<char>, Seq<char>)>;

pub open spec fn url_view(u: Option<WebUrl>) -> Option<(Seq<char>, Seq<char>)> {
    match u {
        Some(w) => Some((w.text@, w.path@)),
        None => None,
    }
}

/// Relies on `url::Url::parse`, with `Url::as_str` and `Url::path` read off
/// its result: whether a text parses, and to what, depends on the text alone.
#[verifier::external_body]
pub(crate) fn parse_url(s: &str) -> (r: Option<WebUrl>)
    ensures
        url_view(r) == url_parse_of(s@),
{
    url::Url::parse(s).ok().map(
        |u| WebUrl { text: u.as_str().to_owned(), path: u.path().to_owned() },
    )
}

/// What the file system says of a text taken as a local path.
pub enum DirProbe {
    /// It names no existing directory.
    NotADirectory,
    /// It names a directory, whose canonical absolute path is given.
    Directory { canonical: String },
    /// It names a directory that could not be canonicalized.
    Unresolvable,
}

pub enum DirProbeView {
    NotADirectory,
    Directory { canonical: Seq<char> },
    Unresolvable,
}

impl View for DirProbe {
    type V = DirProbeView;

    open spec fn view(&self) -> DirProbeView {
        match self {
            DirProbe::NotADirectory => DirProbeView::NotADirectory,
            DirProbe::Directory { canonical } => DirProbeView::Directory { canonical: canonical@ },
            DirProbe::Unresolvable => DirProbeView::Unresolvable,
        }
    }
}

/// A theme's source, resolved from its text.
pub enum ParsedSource {
    GitHub { repo: String, git_ref: String },
    Codeberg { repo: String, git_ref: String },
    GitLab { repo: String, git_ref: String },
    /// `implicit`: the text had no `url:` prefix.
    Url { url: WebUrl, implicit: bool },
    /// `implicit`: the text had no `path:` prefix.
    Path { path: String, implicit: bool },
}

pub enum SourceView {
    GitHub { repo: Seq<char>, git_ref: Seq<char> },
    Codeberg { repo: Seq<char>, git_ref: Seq<char> },
    GitLab { repo: Seq<char>, git_ref: Seq<char> },
    Url { text: Seq<char>, path: Seq<char>, implicit: bool },
    Path { path: Seq<char>, implicit: bool },
}

impl View for ParsedSource {
    type V = SourceView;

    open spec fn view(&self) -> SourceView {
        match self {
            ParsedSource::GitHub { repo, git_ref } => SourceView::GitHub {
                repo: repo@,
                git_ref: git_ref@,
            },
            ParsedSource::Codeberg { repo, git_ref } => SourceView::Codeberg {
                repo: repo@,
                git_ref: git_ref@,
            },
            ParsedSource::GitLab { repo, git_ref } => SourceView::GitLab {
                repo: repo@,
                git_ref: git_ref@,
            },
            ParsedSource::Url { url, implicit } => SourceView::Url {
                text: url.text@,
                path: url.path@,
                implicit: *implicit,
            },
            ParsedSource::Path { path, implicit } => SourceView::Path {
                path: path@,
                implicit: *implicit,
            },
        }
    }
}

#[derive(Clone, Copy, Debug, PartialEq, Eq, Structural)]
pub enum SourceError {
    /// The text after `url:`, or a bare `http(s)://` text, is no URL.
    InvalidUrl,
    /// The text after `path:` names no directory.
    NotADirectory,
    /// The directory could not be canonicalized.
    Unresolvable,
    /// The text matches no form of source.
    InvalidSource,
}

pub open spec fn is_word_char(c: char) -> bool {
    ('a' <= c && c <= 'z') || ('A' <= c && c <= 'Z') || ('0' <= c && c <= '9') || c == '_'
        || c == '-'
}

/// A non-empty run of word characters.
pub open spec fn is_word(s: Seq<char>) -> bool {
    s.len() > 0 && forall|k: int| 0 <= k < s.len() ==> is_word_char(#[trigger] s[k])
}

/// `owner/name`, or with `nested` any non-empty run of word characters and
/// slashes.
pub open spec fn is_repo(s: Seq<char>, nested: bool) -> bool {
    if nested {
        s.len() > 0 && forall|k: int|
            0 <= k < s.len() ==> is_word_char(#[trigger] s[k]) || s[k] == '/'
    } else {
        exists|k: int|
            0 <= k < s.len() && s[k] == '/' && is_word(s.subrange(0, k)) && is_word(
                s.subrange(k + 1, s.len() as int),
            )
    }
}

pub open spec fn ref_split_at(r: Seq<char>, k: int, nested: bool) -> bool {
    0 <= k < r.len() && r[k] == '#' && is_repo(r.subrange(0, k), nested) && is_word(
        r.subrange(k + 1, r.len() as int),
    )
}

/// `repo` or `repo#ref`: the repository and the ref, `main` where none is
/// given.
pub open spec fn hosted_parts(r: Seq<char>, nested: bool) -> Option<(Seq<char>, Seq<char>)> {
    if is_repo(r, nested) {
        Some((r, "main"@))
    } else if exists|k: int| ref_split_at(r, k, nested) {
        let k = choose|k: int| ref_split_at(r, k, nested);
        Some((r.subrange(0, k), r.subrange(k + 1, r.len() as int)))
    } else {
        None
    }
}

pub open spec fn has_prefix(s: Seq<char>, p: Seq<char>) -> bool {
    p.len() <= s.len() && s.subrange(0, p.len() as int) == p
}

pub open spec fn after_prefix(s: Seq<char>, p: Seq<char>) -> Seq<char> {
    s.subrange(p.len() as int, s.len() as int)
}

pub open spec fn hosted_match(s: Seq<char>, p: Seq<char>, nested: bool) -> Option<
    (Seq<char>, Seq<char>),
> {
    if has_prefix(s, p) {
        hosted_parts(after_prefix(s, p), nested)
    } else {
        None
    }
}

pub open spec fn is_hosted(s: Seq<char>) -> bool {
    hosted_match(s, "github:"@, false) is Some || hosted_match(s, "codeberg:"@, false) is Some
        || hosted_match(s, "gitlab:"@, true) is Some
}

pub open spec fn is_web(s: Seq<char>) -> bool {
    has_prefix(s, "https://"@) || has_prefix(s, "http://"@)
}

/// The text that goes to the URL parser, if parsing gets that far.
pub open spec fn url_candidate_of(s: Seq<char>) -> Option<Seq<char>> {
    if is_hosted(s) {
        None
    } else if has_prefix(s, "url:"@) {
        Some(after_prefix(s, "url:"@))
    } else if has_prefix(s, "path:"@) {
        None
    } else if is_web(s) {
        Some(s)
    } else {
        None
    }
}

/// The text that is looked up as a local directory, if parsing gets that far.
pub open spec fn path_candidate_of(s: Seq<char>) -> Option<Seq<char>> {
    if is_hosted(s) || has_prefix(s, "url:"@) {
        None
    } else if has_prefix(s, "path:"@) {
        Some(after_prefix(s, "path:"@))
    } else if is_web(s) {
        None
    } else {
        Some(s)
    }
}

/// The source a text stands for, given what the URL parser made of its URL
/// candidate and what the file system says of its path candidate.
pub open spec fn parse_spec(
    s: Seq<char>,
    url: Option<(Seq<char>, Seq<char>)>,
    dir: DirProbeView,
) -> Result<SourceView, SourceError> {
    if hosted_match(s, "github:"@, false) is Some {
        let (repo, git_ref) = hosted_match(s, "github:"@, false)->0;
        Ok(SourceView::GitHub { repo, git_ref })
    } else if hosted_match(s, "codeberg:"@, false) is Some {
        let (repo, git_ref) = hosted_match(s, "codeberg:"@, false)->0;
        Ok(SourceView::Codeberg { repo, git_ref })
    } else if hosted_match(s, "gitlab:"@, true) is Some {
        let (repo, git_ref) = hosted_match(s, "gitlab:"@, true)->0;
        Ok(SourceView::GitLab { repo, git_ref })
    } else if has_prefix(s, "url:"@) || (!has_prefix(s, "path:"@) && is_web(s)) {
        match url {
            Some((text, path)) => Ok(
                SourceView::Url { text, path, implicit: !has_prefix(s, "url:"@) },
            ),
            None => Err(SourceError::InvalidUrl),
        }
    } else {
        let explicit = has_prefix(s, "path:"@);
        match dir {
            DirProbeView::Directory { canonical } => Ok(
                SourceView::Path { path: canonical, implicit: !explicit },
            ),
            DirProbeView::NotADirectory => Err(
                if explicit {
                    SourceError::NotADirectory
                } else {
                    SourceError::InvalidSource
                },
            ),
            DirProbeView::Unresolvable => Err(SourceError::Unresolvable),
        }
    }
}

pub open spec fn parse_view(r: Result<ParsedSource, SourceError>) -> Result<
    SourceView,
    SourceError,
> {
    match r {
        Ok(p) => Ok(p@),
        Err(e) => Err(e),
    }
}

/// The canonical text of a source.
pub open spec fn source_text(v: SourceView) -> Seq<char> {
    match v {
        SourceView::GitHub { repo, git_ref } => "github:"@ + repo + "#"@ + git_ref,
        SourceView::Codeberg { repo, git_ref } => "codeberg:"@ + repo + "#"@ + git_ref,
        SourceView::GitLab { repo, git_ref } => "gitlab:"@ + repo + "#"@ + git_ref,
        SourceView::Url { text, implicit, .. } => if implicit {
            text
        } else {
            "url:"@ + text
        },
        SourceView::Path { path, implicit } => if implicit {
            path
        } else {
            "path:"@ + path
        },
    }
}

proof fn lemma_repo_has_no_hash(s: Seq<char>, nested: bool)
    requires
        is_repo(s, nested),
    ensures
        forall|m: int| 0 <= m < s.len() ==> s[m] != '#',
{
    if !nested {
        let k = choose|k: int|
            0 <= k < s.len() && s[k] == '/' && is_word(s.subrange(0, k)) && is_word(
                s.subrange(k + 1, s.len() as int),
            );
        assert forall|m: int| 0 <= m < s.len() implies s[m] != '#' by {
            if m < k {
                assert(is_word_char(s.subrange(0, k)[m]));
            } else if m > k {
                assert(is_word_char(s.subrange(k + 1, s.len() as int)[m - k - 1]));
            }
        }
    } else {
        assert forall|m: int| 0 <= m < s.len() implies s[m] != '#' by {
            assert(is_word_char(s[m]) || s[m] == '/');
        }
    }
}

/// Whether `p` begins `cs`.
fn starts_with(cs: &Vec<char>, p: &str) -> (r: bool)
    ensures
        r == has_prefix(cs@, p@),
{
    let n = p.unicode_len();
    if n > cs.len() {
        return false;
    }
    let mut k: usize = 0;
    while k < n
        invariant
            k <= n == p@.len() <= cs@.len(),
            cs@.subrange(0, k as int) == p@.subrange(0, k as int),
        decreases n - k,
    {
        if cs[k] != p.get_char(k) {
            assert(cs@.subrange(0, n as int)[k as int] != p@[k as int]);
            return false;
        }
        k = k + 1;
        assert(cs@.subrange(0, k as int) =~= p@.subrange(0, k as int));
    }
    assert(p@.subrange(0, n as int) =~= p@);
    true
}

fn word_char(c: char) -> (r: bool)
    ensures
        r == is_word_char(c),
{
    ('a' <= c && c <= 'z') || ('A' <= c && c <= 'Z') || ('0' <= c && c <= '9') || c == '_'
        || c == '-'
}

/// Whether `cs[from..to]` is a word; with `slashes`, slashes are let in too.
fn all_word(cs: &Vec<char>, from: usize, to: usize, slashes: bool) -> (r: bool)
    requires
        from <= to <= cs@.len(),
    ensures
        r == (from < to && forall|k: int|
            from <= k < to ==> is_word_char(#[trigger] cs@[k]) || (slashes && cs@[k] == '/')),
{
    if from == to {
        return false;
    }
    let mut k = from;
    while k < to
        invariant
            from <= k <= to <= cs@.len(),
            forall|m: int| from <= m < k ==> is_word_char(#[trigger] cs@[m]) || (slashes && cs@[m] == '/'),
        decreases to - k,
    {
        if !(word_char(cs[k]) || (slashes && cs[k] == '/')) {
            return false;
        }
        k = k + 1;
    }
    true
}

proof fn lemma_word_range(cs: Seq<char>, from: int, to: int)
    requires
        0 <= from <= to <= cs.len(),
    ensures
        is_word(cs.subrange(from, to)) == (from < to && forall|k: int|
            from <= k < to ==> is_word_char(#[trigger] cs[k])),
{
    let sub = cs.subrange(from, to);
    if from < to && forall|k: int| from <= k < to ==> is_word_char(#[trigger] cs[k]) {
        assert forall|k: int| 0 <= k < sub.len() implies is_word_char(#[trigger] sub[k]) by {
            assert(sub[k] == cs[from + k]);
        }
    }
    if is_word(sub) {
        assert forall|k: int| from <= k < to implies is_word_char(#[trigger] cs[k]) by {
            assert(sub[k - from] == cs[k]);
        }
    }
}

/// The first position in `cs[from..to]` that holds `c`.
fn find_char(cs: &Vec<char>, from: usize, to: usize, c: char) -> (r: Option<usize>)
    requires
        from <= to <= cs@.len(),
    ensures
        match r {
            Some(k) => from <= k < to && cs@[k as int] == c && forall|m: int|
                from <= m < k ==> cs@[m] != c,
            None => forall|m: int| from <= m < to ==> cs@[m] != c,
        },
{
    let mut k = from;
    while k < to
        invariant
            from <= k <= to <= cs@.len(),
            forall|m: int| from <= m < k ==> cs@[m] != c,
        decreases to - k,
    {
        if cs[k] == c {
            return Some(k);
        }
        k = k + 1;
    }
    None
}

/// Whether `cs[from..to]` is a repository path.
fn repo_at(cs: &Vec<char>, from: usize, to: usize, nested: bool) -> (r: bool)
    requires
        from <= to <= cs@.len(),
    ensures
        r == is_repo(cs@.subrange(from as int, to as int), nested),
{
    let ghost sub = cs@.subrange(from as int, to as int);
    if nested {
        let r = all_word(cs, from, to, true);
        if r {
            assert forall|k: int| 0 <= k < sub.len() implies is_word_char(#[trigger] sub[k])
                || sub[k] == '/' by {
                assert(sub[k] == cs@[from + k]);
            }
        } else if from < to {
            let ghost bad = choose|k: int|
                from <= k < to && !(is_word_char(#[trigger] cs@[k]) || cs@[k] == '/');
            assert(sub[bad - from] == cs@[bad]);
        }
        r
    } else {
        match find_char(cs, from, to, '/') {
            None => {
                assert forall|k: int| 0 <= k < sub.len() implies sub[k] != '/' by {
                    assert(sub[k] == cs@[from + k]);
                }
                false
            },
            Some(k) => {
                let a = all_word(cs, from, k, false);
                let b = all_word(cs, k + 1, to, false);
                proof {
                    lemma_word_range(cs@, from as int, k as int);
                    lemma_word_range(cs@, k + 1, to as int);
                    let j = k - from;
                    assert(sub.subrange(0, j) =~= cs@.subrange(from as int, k as int));
                    assert(sub.subrange(j + 1, sub.len() as int) =~= cs@.subrange(k + 1, to as int));
                    assert(sub[j] == cs@[k as int]);
                    if a && b {
                        assert(0 <= j < sub.len() && sub[j] == '/' && is_word(sub.subrange(0, j))
                            && is_word(sub.subrange(j + 1, sub.len() as int)));
                    }
                    if !(a && b) {
                        assert forall|j2: int|
                            0 <= j2 < sub.len() && sub[j2] == '/' && is_word(sub.subrange(0, j2))
                                implies !is_word(sub.subrange(j2 + 1, sub.len() as int)) by {
                            if j2 < j {
                                assert(sub[j2] == cs@[from + j2]);
                            } else if j2 > j {
                                assert(sub.subrange(0, j2)[j] == '/');
                            }
                        }
                    }
                }
                a && b
            },
        }
    }
}

proof fn lemma_ref_split_unique(r: Seq<char>, j: int, nested: bool)
    requires
        0 <= j < r.len(),
        r[j] == '#',
        forall|m: int| 0 <= m < j ==> r[m] != '#',
    ensures
        forall|k: int| #[trigger] ref_split_at(r, k, nested) ==> k == j,
        !is_repo(r, nested),
{
    assert forall|k: int| #[trigger] ref_split_at(r, k, nested) implies k == j by {
        if k > j {
            lemma_repo_has_no_hash(r.subrange(0, k), nested);
            assert(r.subrange(0, k)[j] == '#');
        }
    }
    if is_repo(r, nested) {
        lemma_repo_has_no_hash(r, nested);
    }
}

/// The repository and ref in `cs[from..]`, as `hosted_parts` gives them.
fn hosted_at(cs: &Vec<char>, from: usize, nested: bool) -> (r: Option<(String, String)>)
    requires
        from <= cs@.len(),
    ensures
        match r {
            Some((repo, git_ref)) => hosted_parts(cs@.subrange(from as int, cs@.len() as int), nested)
                == Some((repo@, git_ref@)),
            None => hosted_parts(cs@.subrange(from as int, cs@.len() as int), nested) is None,
        },
{
    let n = cs.len();
    let ghost r = cs@.subrange(from as int, n as int);
    match find_char(cs, from, n, '#') {
        None => {
            assert forall|k: int| !ref_split_at(r, k, nested) by {
                if 0 <= k < r.len() {
                    assert(r[k] == cs@[from + k]);
                }
            }
            if repo_at(cs, from, n, nested) {
                let main = String::from_str("main");
                Some((string_of(cs, from, n), main))
            } else {
                None
            }
        },
        Some(h) => {
            let ghost j = h - from;
            proof {
                assert(r[j] == cs@[h as int]);
                assert forall|m: int| 0 <= m < j implies r[m] != '#' by {
                    assert(r[m] == cs@[from + m]);
                }
                lemma_ref_split_unique(r, j, nested);
                lemma_word_range(cs@, h + 1, n as int);
                assert(r.subrange(0, j) =~= cs@.subrange(from as int, h as int));
                assert(r.subrange(j + 1, r.len() as int) =~= cs@.subrange(h + 1, n as int));
            }
            if repo_at(cs, from, h, nested) && all_word(cs, h + 1, n, false) {
                assert(ref_split_at(r, j, nested));
                Some((string_of(cs, from, h), string_of(cs, h + 1, n)))
            } else {
                assert(!ref_split_at(r, j, nested));
                None
            }
        },
    }
}

/// The repository and ref that a hosted source holds are well formed.
pub open spec fn hosted_well_formed(v: SourceView) -> bool {
    match v {
        SourceView::GitHub { repo, git_ref } => is_repo(repo, false) && is_word(git_ref),
        SourceView::Codeberg { repo, git_ref } => is_repo(repo, false) && is_word(git_ref),
        SourceView::GitLab { repo, git_ref } => is_repo(repo, true) && is_word(git_ref),
        _ => false,
    }
}

proof fn lemma_parts_with_ref(repo: Seq<char>, git_ref: Seq<char>, nested: bool)
    requires
        is_repo(repo, nested),
        is_word(git_ref),
    ensures
        hosted_parts(repo + "#"@ + git_ref, nested) == Some((repo, git_ref)),
{
    reveal_strlit("#");
    let r = repo + "#"@ + git_ref;
    let j = repo.len() as int;
    lemma_repo_has_no_hash(repo, nested);
    assert(r[j] == '#');
    assert forall|m: int| 0 <= m < j implies r[m] != '#' by {
        assert(r[m] == repo[m]);
    }
    lemma_ref_split_unique(r, j, nested);
    assert(r.subrange(0, j) =~= repo);
    assert(r.subrange(j + 1, r.len() as int) =~= git_ref);
    assert(ref_split_at(r, j, nested));
}

proof fn lemma_prefix_match(p: Seq<char>, body: Seq<char>)
    ensures
        has_prefix(p + body, p),
        after_prefix(p + body, p) == body,
{
    assert((p + body).subrange(0, p.len() as int) =~= p);
    assert(after_prefix(p + body, p) =~= body);
}

proof fn lemma_prefix_mismatch(p: Seq<char>, q: Seq<char>, body: Seq<char>, k: int)
    requires
        0 <= k < p.len(),
        k < q.len(),
        p[k] != q[k],
    ensures
        !has_prefix(p + body, q),
{
    if has_prefix(p + body, q) {
        assert((p + body).subrange(0, q.len() as int)[k] == p[k]);
    }
}

proof fn lemma_github_text(repo: Seq<char>, git_ref: Seq<char>)
    requires
        is_repo(repo, false),
        is_word(git_ref),
    ensures
        hosted_match("github:"@ + repo + "#"@ + git_ref, "github:"@, false) == Some((repo, git_ref)),
{
    lemma_parts_with_ref(repo, git_ref, false);
    lemma_prefix_match("github:"@, repo + "#"@ + git_ref);
    assert("github:"@ + repo + "#"@ + git_ref =~= "github:"@ + (repo + "#"@ + git_ref));
}

proof fn lemma_codeberg_text(repo: Seq<char>, git_ref: Seq<char>)
    requires
        is_repo(repo, false),
        is_word(git_ref),
    ensures
        hosted_match("codeberg:"@ + repo + "#"@ + git_ref, "github:"@, false) is None,
        hosted_match("codeberg:"@ + repo + "#"@ + git_ref, "codeberg:"@, false) == Some(
            (repo, git_ref),
        ),
{
    reveal_strlit("github:");
    reveal_strlit("codeberg:");
    let body = repo + "#"@ + git_ref;
    lemma_parts_with_ref(repo, git_ref, false);
    lemma_prefix_match("codeberg:"@, body);
    lemma_prefix_mismatch("codeberg:"@, "github:"@, body, 0);
    assert("codeberg:"@ + repo + "#"@ + git_ref =~= "codeberg:"@ + body);
}

proof fn lemma_gitlab_text(repo: Seq<char>, git_ref: Seq<char>)
    requires
        is_repo(repo, true),
        is_word(git_ref),
    ensures
        hosted_match("gitlab:"@ + repo + "#"@ + git_ref, "github:"@, false) is None,
        hosted_match("gitlab:"@ + repo + "#"@ + git_ref, "codeberg:"@, false) is None,
        hosted_match("gitlab:"@ + repo + "#"@ + git_ref, "gitlab:"@, true) == Some((repo, git_ref)),
{
    reveal_strlit("github:");
    reveal_strlit("codeberg:");
    reveal_strlit("gitlab:");
    let body = repo + "#"@ + git_ref;
    lemma_parts_with_ref(repo, git_ref, true);
    lemma_prefix_match("gitlab:"@, body);
    lemma_prefix_mismatch("gitlab:"@, "github:"@, body, 3);
    lemma_prefix_mismatch("gitlab:"@, "codeberg:"@, body, 0);
    assert("gitlab:"@ + repo + "#"@ + git_ref =~= "gitlab:"@ + body);
}

/// The canonical text of a well-formed hosted source parses back to that
/// source, whatever the URL parser and the file system would say.
pub proof fn lemma_hosted_round_trip(
    v: SourceView,
    url: Option<(Seq<char>, Seq<char>)>,
    dir: DirProbeView,
)
    requires
        hosted_well_formed(v),
    ensures
        parse_spec(source_text(v), url, dir) == Ok::<SourceView, SourceError>(v),
{
    match v {
        SourceView::GitHub { repo, git_ref } => {
            lemma_github_text(repo, git_ref);
        },
        SourceView::Codeberg { repo, git_ref } => {
            lemma_codeberg_text(repo, git_ref);
        },
        SourceView::GitLab { repo, git_ref } => {
            lemma_gitlab_text(repo, git_ref);
        },
        _ => {},
    }
}

/// A text that parses to a hosted source gives a well-formed one, so its
/// canonical text parses back to it.
pub proof fn lemma_parsed_hosted_round_trip(
    s: Seq<char>,
    url: Option<(Seq<char>, Seq<char>)>,
    dir: DirProbeView,
    url2: Option<(Seq<char>, Seq<char>)>,
    dir2: DirProbeView,
)
    requires
        parse_spec(s, url, dir) is Ok,
        !(parse_spec(s, url, dir)->Ok_0 is Url),
        !(parse_spec(s, url, dir)->Ok_0 is Path),
    ensures
        parse_spec(source_text(parse_spec(s, url, dir)->Ok_0), url2, dir2) == parse_spec(s, url, dir),
{
    reveal_strlit("main");
    let v = parse_spec(s, url, dir)->Ok_0;
    let (p, nested) = if hosted_match(s, "github:"@, false) is Some {
        ("github:"@, false)
    } else if hosted_match(s, "codeberg:"@, false) is Some {
        ("codeberg:"@, false)
    } else {
        ("gitlab:"@, true)
    };
    let r = after_prefix(s, p);
    if is_repo(r, nested) {
        assert(is_word("main"@));
    } else {
        let k = choose|k: int| ref_split_at(r, k, nested);
        assert(ref_split_at(r, k, nested));
    }
    assert(hosted_well_formed(v));
    lemma_hosted_round_trip(v, url2, dir2);
}

/// A parsed source is a URL or a local path, and so has its text
/// canonicalized, exactly when the text is none of the hosted shorthands.
pub proof fn lemma_canonicalized_iff_not_hosted(
    s: Seq<char>,
    url: Option<(Seq<char>, Seq<char>)>,
    dir: DirProbeView,
)
    requires
        parse_spec(s, url, dir) is Ok,
    ensures
        (parse_spec(s, url, dir)->Ok_0 is Url || parse_spec(s, url, dir)->Ok_0 is Path)
            <==> !is_hosted(s),
{
}

/// `github:owner/name` parses to `owner/name` on `main`, whose canonical
/// text is `github:owner/name#main`.
pub proof fn lemma_github_default_ref(
    owner: Seq<char>,
    name: Seq<char>,
    url: Option<(Seq<char>, Seq<char>)>,
    dir: DirProbeView,
)
    requires
        is_word(owner),
        is_word(name),
    ensures
        parse_spec("github:"@ + owner + "/"@ + name, url, dir) == Ok::<SourceView, SourceError>(
            SourceView::GitHub { repo: owner + "/"@ + name, git_ref: "main"@ },
        ),
        source_text(
            SourceView::GitHub { repo: owner + "/"@ + name, git_ref: "main"@ },
        ) == "github:"@ + owner + "/"@ + name + "#main"@,
{
    reveal_strlit("/");
    reveal_strlit("#");
    reveal_strlit("main");
    reveal_strlit("#main");
    let repo = owner + "/"@ + name;
    let k = owner.len() as int;
    assert(repo[k] == '/');
    assert(repo.subrange(0, k) =~= owner);
    assert(repo.subrange(k + 1, repo.len() as int) =~= name);
    assert(is_repo(repo, false));
    lemma_prefix_match("github:"@, repo);
    assert("github:"@ + owner + "/"@ + name =~= "github:"@ + repo);
    assert("github:"@ + repo + "#"@ + "main"@ =~= "github:"@ + owner + "/"@ + name + "#main"@);
}

fn hosted_with(cs: &Vec<char>, p: &str, nested: bool) -> (r: Option<(String, String)>)
    ensures
        match r {
            Some((repo, git_ref)) => hosted_match(cs@, p@, nested) == Some((repo@, git_ref@)),
            None => hosted_match(cs@, p@, nested) is None,
        },
{
    if starts_with(cs, p) {
        hosted_at(cs, p.unicode_len(), nested)
    } else {
        None
    }
}

fn hosted_text(cs: &Vec<char>) -> (r: bool)
    ensures
        r == is_hosted(cs@),
{
    hosted_with(cs, "github:", false).is_some() || hosted_with(cs, "codeberg:", false).is_some()
        || hosted_with(cs, "gitlab:", true).is_some()
}

fn web_text(cs: &Vec<char>) -> (r: bool)
    ensures
        r == is_web(cs@),
{
    starts_with(cs, "https://") || starts_with(cs, "http://")
}

/// The text that parsing hands to the URL parser, if it gets that far.
pub fn url_candidate(s: &str) -> (r: Option<String>)
    ensures
        match r {
            Some(u) => url_candidate_of(s@) == Some(u@),
            None => url_candidate_of(s@) is None,
        },
{
    let cs = chars_of(s);
    if hosted_text(&cs) {
        None
    } else if starts_with(&cs, "url:") {
        Some(string_of(&cs, "url:".unicode_len(), cs.len()))
    } else if starts_with(&cs, "path:") {
        None
    } else if web_text(&cs) {
        Some(string_of(&cs, 0, cs.len()))
    } else {
        None
    }
}

/// The text that parsing looks up as a local directory, if it gets that far.
pub fn path_candidate(s: &str) -> (r: Option<String>)
    ensures
        match r {
            Some(p) => path_candidate_of(s@) == Some(p@),
            None => path_candidate_of(s@) is None,
        },
{
    let cs = chars_of(s);
    if hosted_text(&cs) || starts_with(&cs, "url:") {
        None
    } else if starts_with(&cs, "path:") {
        Some(string_of(&cs, "path:".unicode_len(), cs.len()))
    } else if web_text(&cs) {
        None
    } else {
        Some(string_of(&cs, 0, cs.len()))
    }
}

/// Parses a source text, given what the URL parser made of its URL candidate
/// and what the file system says of its path candidate. The forms are tried
/// in order: `github:`, `codeberg:`, `gitlab:`, `url:`, `path:`, a bare
/// `http(s)://` URL, a bare directory.
pub fn parse_resolved(s: &str, url: Option<WebUrl>, dir: DirProbe) -> (r: Result<
    ParsedSource,
    SourceError,
>)
    ensures
        parse_view(r) == parse_spec(s@, url_view(url), dir@),
{
    let cs = chars_of(s);
    if let Some((repo, git_ref)) = hosted_with(&cs, "github:", false) {
        return Ok(ParsedSource::GitHub { repo, git_ref });
    }
    if let Some((repo, git_ref)) = hosted_with(&cs, "codeberg:", false) {
        return Ok(ParsedSource::Codeberg { repo, git_ref });
    }
    if let Some((repo, git_ref)) = hosted_with(&cs, "gitlab:", true) {
        return Ok(ParsedSource::GitLab { repo, git_ref });
    }
    let explicit_url = starts_with(&cs, "url:");
    let explicit_path = starts_with(&cs, "path:");
    if explicit_url || (!explicit_path && web_text(&cs)) {
        match url {
            Some(u) => Ok(ParsedSource::Url { url: u, implicit: !explicit_url }),
            None => Err(SourceError::InvalidUrl),
        }
    } else {
        match dir {
            DirProbe::Directory { canonical } => Ok(
                ParsedSource::Path { path: canonical, implicit: !explicit_path },
            ),
            DirProbe::NotADirectory => Err(
                if explicit_path {
                    SourceError::NotADirectory
                } else {
                    SourceError::InvalidSource
                },
            ),
            DirProbe::Unresolvable => Err(SourceError::Unresolvable),
        }
    }
}

impl ParsedSource {
    /// Parses a source text; `dir` is what the file system says of its path
    /// candidate (see `path_candidate`), the URL candidate is parsed here.
    pub fn parse(s: &str, dir: DirProbe) -> (r: Result<ParsedSource, SourceError>)
        ensures
            parse_view(r) == parse_spec(
                s@,
                match url_candidate_of(s@) {
                    Some(u) => url_parse_of(u),
                    None => None,
                },
                dir@,
            ),
    {
        let url = match url_candidate(s) {
            Some(u) => parse_url(u.as_str()),
            None => None,
        };
        parse_resolved(s, url, dir)
    }

    /// Whether the text a theme was added with is replaced by the canonical
    /// text: for URLs and local paths, not for hosted repositories.
    pub fn should_canonicalize(&self) -> (r: bool)
        ensures
            r == (self@ is Url || self@ is Path),
    {
        match self {
            ParsedSource::Url { .. } | ParsedSource::Path { .. } => true,
            _ => false,
        }
    }

    /// The canonical text of the source.
    pub fn to_text(&self) -> (r: String)
        ensures
            r@ == source_text(self@),
    {
        match self {
            ParsedSource::GitHub { repo, git_ref } => hosted_text_of("github:", repo, git_ref),
            ParsedSource::Codeberg { repo, git_ref } => hosted_text_of("codeberg:", repo, git_ref),
            ParsedSource::GitLab { repo, git_ref } => hosted_text_of("gitlab:", repo, git_ref),
            ParsedSource::Url { url, implicit } => {
                if *implicit {
                    url.text.clone()
                } else {
                    String::from_str("url:").concat(url.text.as_str())
                }
            },
            ParsedSource::Path { path, implicit } => {
                if *implicit {
                    path.clone()
                } else {
                    String::from_str("path:").concat(path.as_str())
                }
            },
        }
    }
}

fn hosted_text_of(prefix: &str, repo: &String, git_ref: &String) -> (r: String)
    ensures
        r@ == prefix@ + repo@ + "#"@ + git_ref@,
{
    String::from_str(prefix).concat(repo.as_str()).concat("#").concat(git_ref.as_str())
}

} // verus!
