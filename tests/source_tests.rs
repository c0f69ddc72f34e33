use nyoom::retrieve::{archive_format, wrapper_directory, stripped_listing, ArchiveFormat, DirEntryInfo, Retrieval, RetrieveError};
use nyoom::source::{parse_resolved, path_candidate, url_candidate, DirProbe, ParsedSource, SourceError, WebUrl};

fn parse_no_fs(s: &str) -> Result<ParsedSource, SourceError> {
    ParsedSource::parse(s, DirProbe::NotADirectory)
}

fn web(text: &str, path: &str) -> WebUrl {
    WebUrl { text: text.to_string(), path: path.to_string() }
}

#[test]
fn github_shorthand_defaults_to_main() {
    let p = parse_no_fs("github:owner/name").unwrap();
    match &p {
        ParsedSource::GitHub { repo, git_ref } => {
            assert_eq!(repo, "owner/name");
            assert_eq!(git_ref, "main");
        }
        _ => panic!("expected a GitHub source"),
    }
    assert_eq!(p.to_text(), "github:owner/name#main");
}

#[test]
fn github_with_ref_round_trips() {
    let p = parse_no_fs("github:owner/name#dev").unwrap();
    assert_eq!(p.to_text(), "github:owner/name#dev");
    assert!(!p.should_canonicalize());
}

#[test]
fn gitlab_nested_path_round_trips() {
    let p = parse_no_fs("gitlab:group/sub/name#x").unwrap();
    match &p {
        ParsedSource::GitLab { repo, git_ref } => {
            assert_eq!(repo, "group/sub/name");
            assert_eq!(git_ref, "x");
        }
        _ => panic!("expected a GitLab source"),
    }
    assert_eq!(p.to_text(), "gitlab:group/sub/name#x");
}

#[test]
fn codeberg_shorthand() {
    let p = parse_no_fs("codeberg:a-b/c_d").unwrap();
    assert_eq!(p.to_text(), "codeberg:a-b/c_d#main");
    assert!(!p.should_canonicalize());
}

#[test]
fn github_with_three_segments_is_not_github() {
    let r = parse_no_fs("github:a/b/c");
    assert_eq!(r.err(), Some(SourceError::InvalidSource));
}

#[test]
fn explicit_url_is_kept_explicit() {
    let p = parse_no_fs("url:https://example.com/theme.zip").unwrap();
    match &p {
        ParsedSource::Url { url, implicit } => {
            assert!(!implicit);
            assert_eq!(url.text, "https://example.com/theme.zip");
            assert_eq!(url.path, "/theme.zip");
        }
        _ => panic!("expected a URL source"),
    }
    assert!(p.should_canonicalize());
    assert_eq!(p.to_text(), "url:https://example.com/theme.zip");
}

#[test]
fn bare_url_is_implicit_and_canonicalized() {
    let p = parse_no_fs("https://Example.com/a/../t.tar.gz").unwrap();
    match &p {
        ParsedSource::Url { url, implicit } => {
            assert!(implicit);
            assert_eq!(url.text, "https://example.com/t.tar.gz");
        }
        _ => panic!("expected a URL source"),
    }
    assert!(p.should_canonicalize());
    assert_eq!(p.to_text(), "https://example.com/t.tar.gz");
}

#[test]
fn invalid_url_after_prefix() {
    assert_eq!(parse_no_fs("url:not a url").err(), Some(SourceError::InvalidUrl));
}

#[test]
fn explicit_path_needs_a_directory() {
    assert_eq!(parse_no_fs("path:/no/such/dir").err(), Some(SourceError::NotADirectory));
    let r = ParsedSource::parse("path:./theme", DirProbe::Unresolvable);
    assert_eq!(r.err(), Some(SourceError::Unresolvable));
}

#[test]
fn explicit_and_bare_paths() {
    let p = ParsedSource::parse("path:./theme", DirProbe::Directory { canonical: "/home/u/theme".to_string() }).unwrap();
    assert!(p.should_canonicalize());
    assert_eq!(p.to_text(), "path:/home/u/theme");
    let q = ParsedSource::parse("theme", DirProbe::Directory { canonical: "/home/u/theme".to_string() }).unwrap();
    assert!(q.should_canonicalize());
    assert_eq!(q.to_text(), "/home/u/theme");
}

#[test]
fn unknown_text_is_invalid() {
    assert_eq!(parse_no_fs("nothing-here").err(), Some(SourceError::InvalidSource));
    assert_eq!(parse_no_fs("").err(), Some(SourceError::InvalidSource));
}

#[test]
fn candidates_follow_the_order_of_forms() {
    assert_eq!(url_candidate("github:a/b"), None);
    assert_eq!(path_candidate("github:a/b"), None);
    assert_eq!(url_candidate("url:x"), Some("x".to_string()));
    assert_eq!(path_candidate("url:x"), None);
    assert_eq!(path_candidate("path:/x"), Some("/x".to_string()));
    assert_eq!(url_candidate("http://h/p"), Some("http://h/p".to_string()));
    assert_eq!(path_candidate("./dir"), Some("./dir".to_string()));
}

#[test]
fn parse_resolved_uses_the_given_url() {
    let p = parse_resolved("url:whatever", Some(web("https://h/x.zip", "/x.zip")), DirProbe::NotADirectory).unwrap();
    assert_eq!(p.to_text(), "url:https://h/x.zip");
    let e = parse_resolved("https://h", None, DirProbe::NotADirectory);
    assert_eq!(e.err(), Some(SourceError::InvalidUrl));
    let g = parse_resolved("github:o/n", None, DirProbe::NotADirectory).unwrap();
    assert_eq!(g.to_text(), "github:o/n#main");
}

#[test]
fn tarball_urls() {
    let gh = parse_no_fs("github:o/n#dev").unwrap();
    assert_eq!(gh.tarball_url_text(), Some("https://github.com/o/n/archive/refs/heads/dev.tar.gz".to_string()));
    let cb = parse_no_fs("codeberg:o/n").unwrap();
    assert_eq!(cb.tarball_url_text(), Some("https://codeberg.org/o/n/archive/main.tar.gz".to_string()));
    let gl = parse_no_fs("gitlab:g/s/n#v1").unwrap();
    assert_eq!(gl.tarball_url_text(), Some("https://gitlab.com/g/s/n/-/archive/v1/source-v1.tar.gz".to_string()));
    let u = parse_no_fs("url:https://h/x.zip").unwrap();
    assert_eq!(u.tarball_url_text(), None);
}

#[test]
fn retrieval_of_each_source() {
    let gh = parse_no_fs("github:o/n").unwrap();
    match gh.retrieval().unwrap() {
        Retrieval::Download { url } => {
            assert_eq!(url.text, "https://github.com/o/n/archive/refs/heads/main.tar.gz");
            assert_eq!(archive_format(&url.path), Ok(ArchiveFormat::TarGz));
        }
        _ => panic!("expected a download"),
    }
    let p = ParsedSource::Path { path: "/t".to_string(), implicit: true };
    match p.retrieval().unwrap() {
        Retrieval::CopyDir { path } => assert_eq!(path, "/t"),
        _ => panic!("expected a copy"),
    }
}

#[test]
fn archive_formats_by_extension() {
    assert_eq!(archive_format("/a/t.zip"), Ok(ArchiveFormat::Zip));
    assert_eq!(archive_format("/a/t.tar"), Ok(ArchiveFormat::Tar));
    assert_eq!(archive_format("/a/t.tar.gz"), Ok(ArchiveFormat::TarGz));
    assert_eq!(archive_format("/a/t.tgz"), Ok(ArchiveFormat::TarGz));
    assert_eq!(archive_format("/a/t.tar.xz"), Ok(ArchiveFormat::TarXz));
    assert_eq!(archive_format("/a/t.tar.bz2"), Ok(ArchiveFormat::TarBz2));
    assert_eq!(archive_format("/a/t.tar.zst"), Ok(ArchiveFormat::TarZst));
    assert_eq!(archive_format("/a/t.zip/"), Ok(ArchiveFormat::Zip));
}

#[test]
fn archive_format_errors() {
    assert_eq!(archive_format("/a/t.rar"), Err(RetrieveError::UnsupportedExtension));
    assert_eq!(archive_format("/a/theme"), Err(RetrieveError::NoExtension));
    assert_eq!(archive_format("/a/.hidden"), Err(RetrieveError::NoExtension));
    assert_eq!(archive_format("/"), Err(RetrieveError::NoExtension));
    assert_eq!(archive_format("/a.zip/b"), Err(RetrieveError::NoExtension));
}

fn entry(name: &str, is_dir: bool) -> DirEntryInfo {
    DirEntryInfo { name: name.to_string(), is_dir }
}

#[test]
fn sole_directory_is_stripped() {
    let top = vec![entry("proj-main", true)];
    assert_eq!(wrapper_directory(&top), Some(0));
    let inside = vec![entry("a", false), entry("b", true)];
    let r = stripped_listing(top, inside);
    let names: Vec<&str> = r.iter().map(|e| e.name.as_str()).collect();
    assert_eq!(names, vec!["a", "b"]);
    assert!(!names.contains(&"proj-main"));
}

#[test]
fn two_entries_are_left_alone() {
    let top = vec![entry("a", false), entry("b", true)];
    assert_eq!(wrapper_directory(&top), None);
    let r = stripped_listing(top, vec![entry("x", false)]);
    let names: Vec<&str> = r.iter().map(|e| e.name.as_str()).collect();
    assert_eq!(names, vec!["a", "b"]);
}

#[test]
fn sole_file_or_nothing_is_left_alone() {
    assert_eq!(wrapper_directory(&vec![entry("f", false)]), None);
    assert_eq!(wrapper_directory(&vec![]), None);
}
