//! Turning a user-supplied address into a repository location or into the
//! direct-download addresses of a skill's core file, and choosing the
//! branches to try.
use vstd::prelude::*;
use crate::text::{
    chars_of, ends_with, has_suffix, is_literal, join, join_range, push_all, push_str,
    segments, segments_of, starts_with, lemma_views_subrange, string_views, strip_prefixes, strip_prefixes_of, strip_suffixes,
    strip_suffixes_of, string_of, trim, trim_str, views, has_prefix, copy_chars,
};

verus! {

/// Whether `url::Url::parse` accepts the text.
pub uninterp spec fn url_parses(s: Seq<char>) -> bool;

/// `host_str()` of the URL that `url::Url::parse` makes of the text.
pub uninterp spec fn url_host(s: Seq<char>) -> Option<Seq<char>>;

/// `path()` of the URL that `url::Url::parse` makes of the text.
pub uninterp spec fn url_path(s: Seq<char>) -> Seq<char>;

pub open spec fn opt_view(o: Option<String>) -> Option<Seq<char>> {
    match o {
        Some(s) => Some(s@),
        None => None,
    }
}

/// Relies on `url::Url::parse`, then `Url::host_str` and `Url::path` of the
/// parsed URL. All three depend on the text alone.
#[verifier::external_body]
fn parse_url(s: &str) -> (r: Option<(Option<String>, String)>)
    ensures
        r is Some <==> url_parses(s@),
        r matches Some((h, p)) ==> opt_view(h) == url_host(s@) && p@ == url_path(s@),
{
    match url::Url::parse(s) {
        Ok(u) => Some((u.host_str().map(|h| h.to_string()), u.path().to_string())),
        Err(_) => None,
    }
}

/// The host with any leading `www.` taken off; an absent host is empty.
pub open spec fn host_key(host: Option<Seq<char>>) -> Seq<char> {
    match host {
        Some(h) => strip_prefixes(h, "www."@),
        None => Seq::empty(),
    }
}

pub open spec fn url_segments(s: Seq<char>) -> Seq<Seq<char>> {
    segments(url_path(s), '/')
}

pub open spec fn opt_str_view(o: Option<&str>) -> Option<Seq<char>> {
    match o {
        Some(s) => Some(s@),
        None => None,
    }
}

/// The host key and the non-empty path segments of a parsed URL's parts.
fn parts_of(host: Option<&str>, path: &str) -> (r: (Vec<char>, Vec<Vec<char>>))
    ensures
        r.0@ == host_key(opt_str_view(host)),
        views(r.1@) == segments(path@, '/'),
{
    let h = match host {
        Some(h) => {
            let hv = chars_of(h);
            strip_prefixes_of(&hv, "www.")
        },
        None => Vec::new(),
    };
    let pv = chars_of(path);
    (h, segments_of(&pv, '/'))
}

fn host_ref(h: &Option<String>) -> (r: Option<&str>)
    ensures
        opt_str_view(r) == opt_view(*h),
{
    match h {
        Some(x) => Some(x.as_str()),
        None => None,
    }
}

pub open spec fn raw_host() -> Seq<char> {
    "raw.githubusercontent.com"@
}

pub open spec fn github_host() -> Seq<char> {
    "github.com"@
}

/// A repository on the hosting service: owner, repository, the branch if the
/// address names one, and a path within the repository (possibly empty).
#[derive(Debug)]
pub struct GithubLocation {
    pub owner: String,
    pub repo: String,
    pub branch: Option<String>,
    pub path: String,
}

pub struct LocationV {
    pub owner: Seq<char>,
    pub repo: Seq<char>,
    pub branch: Option<Seq<char>>,
    pub path: Seq<char>,
}

impl GithubLocation {
    pub open spec fn view(&self) -> LocationV {
        LocationV {
            owner: self.owner@,
            repo: self.repo@,
            branch: opt_view(self.branch),
            path: self.path@,
        }
    }
}

#[derive(Debug, Clone, Copy, PartialEq, Eq, Structural)]
pub enum LocationError {
    InvalidUrl,
    RawUrlIncomplete,
    NotGithub,
    MissingOwnerRepo,
}

impl LocationError {
    pub fn message(&self) -> (r: &'static str)
        ensures
            r@ == (match *self {
                LocationError::InvalidUrl => "Invalid URL"@,
                LocationError::RawUrlIncomplete => "Raw GitHub URL must include owner/repo/branch"@,
                LocationError::NotGithub => "Not a GitHub URL"@,
                LocationError::MissingOwnerRepo => "GitHub URL must include owner and repo"@,
            }),
    {
        match self {
            LocationError::InvalidUrl => "Invalid URL",
            LocationError::RawUrlIncomplete => "Raw GitHub URL must include owner/repo/branch",
            LocationError::NotGithub => "Not a GitHub URL",
            LocationError::MissingOwnerRepo => "GitHub URL must include owner and repo",
        }
    }
}

pub open spec fn is_tree_or_blob(seg: Seq<char>) -> bool {
    seg == "tree"@ || seg == "blob"@
}

pub open spec fn location_from_parts(host: Seq<char>, segs: Seq<Seq<char>>) -> Result<
    LocationV,
    LocationError,
> {
    let n = segs.len() as int;
    if host == raw_host() {
        if n < 3 {
            Err(LocationError::RawUrlIncomplete)
        } else {
            Ok(
                LocationV {
                    owner: segs[0],
                    repo: strip_suffixes(segs[1], ".git"@),
                    branch: Some(segs[2]),
                    path: join(segs.subrange(3, n), "/"@),
                },
            )
        }
    } else if host != github_host() {
        Err(LocationError::NotGithub)
    } else if n < 2 {
        Err(LocationError::MissingOwnerRepo)
    } else if n >= 4 && is_tree_or_blob(segs[2]) {
        Ok(
            LocationV {
                owner: segs[0],
                repo: strip_suffixes(segs[1], ".git"@),
                branch: Some(segs[3]),
                // a file's address names the directory that holds it
                path: if segs[2] == "blob"@ {
                    if n >= 6 {
                        join(segs.subrange(4, n - 1), "/"@)
                    } else {
                        Seq::empty()
                    }
                } else {
                    join(segs.subrange(4, n), "/"@)
                },
            },
        )
    } else {
        Ok(
            LocationV {
                owner: segs[0],
                repo: strip_suffixes(segs[1], ".git"@),
                branch: None,
                path: join(segs.subrange(2, n), "/"@),
            },
        )
    }
}

/// The repository location that an address names, or why it names none;
/// only `http://` and `https://` addresses are read.
pub open spec fn github_location(input: Seq<char>) -> Result<LocationV, LocationError> {
    let t = trim(input);
    if !starts_with(t, "http://"@) && !starts_with(t, "https://"@) {
        Err(LocationError::InvalidUrl)
    } else if !url_parses(t) {
        Err(LocationError::InvalidUrl)
    } else {
        location_from_parts(host_key(url_host(t)), url_segments(t))
    }
}

/// The repository location an address names, or why it names none.
pub fn parse_github_location(input: &str) -> (r: Result<GithubLocation, LocationError>)
    ensures
        match r {
            Ok(loc) => github_location(input@) == Ok::<LocationV, LocationError>(loc@),
            Err(e) => github_location(input@) == Err::<LocationV, LocationError>(e),
        },
{
    let tv = trim_str(input);
    let http = chars_of("http://");
    let https = chars_of("https://");
    if !has_prefix(&tv, &http) && !has_prefix(&tv, &https) {
        return Err(LocationError::InvalidUrl);
    }
    let t = string_of(&tv);
    match parse_url(t.as_str()) {
        Some((host, path)) => github_location_from_parts(host_ref(&host), path.as_str()),
        None => Err(LocationError::InvalidUrl),
    }
}

/// The repository location named by a parsed address with this host and path.
pub fn github_location_from_parts(host: Option<&str>, path: &str) -> (r: Result<GithubLocation, LocationError>)
    ensures
        match r {
            Ok(loc) => location_from_parts(host_key(opt_str_view(host)), segments(path@, '/')) == Ok::<
                LocationV,
                LocationError,
            >(loc@),
            Err(e) => location_from_parts(host_key(opt_str_view(host)), segments(path@, '/')) == Err::<
                LocationV,
                LocationError,
            >(e),
        },
{
    let (host, segs) = parts_of(host, path);
    let n = segs.len();
    let slash = chars_of("/");
    proof {
        lemma_views_subrange(segs@, 0, n as int);
        if n >= 2 {
            lemma_views_subrange(segs@, 2, n as int);
        }
        if n >= 3 {
            lemma_views_subrange(segs@, 3, n as int);
        }
        if n >= 4 {
            lemma_views_subrange(segs@, 4, n as int);
        }
        if n >= 6 {
            lemma_views_subrange(segs@, 4, n - 1);
        }
    }
    if is_literal(&host, "raw.githubusercontent.com") {
        if n < 3 {
            return Err(LocationError::RawUrlIncomplete);
        }
        let repo = strip_suffixes_of(&segs[1], ".git");
        let path = join_range(&segs, 3, n, &slash);
        let loc = GithubLocation {
            owner: string_of(&segs[0]),
            repo: string_of(&repo),
            branch: Some(string_of(&segs[2])),
            path: string_of(&path),
        };
        return Ok(loc);
    }
    if !is_literal(&host, "github.com") {
        return Err(LocationError::NotGithub);
    }
    if n < 2 {
        return Err(LocationError::MissingOwnerRepo);
    }
    let owner = string_of(&segs[0]);
    let repo_chars = strip_suffixes_of(&segs[1], ".git");
    let repo = string_of(&repo_chars);
    if n >= 4 && (is_literal(&segs[2], "tree") || is_literal(&segs[2], "blob")) {
        let path = if is_literal(&segs[2], "blob") {
            if n >= 6 {
                join_range(&segs, 4, n - 1, &slash)
            } else {
                Vec::new()
            }
        } else {
            join_range(&segs, 4, n, &slash)
        };
        let loc = GithubLocation {
            owner,
            repo,
            branch: Some(string_of(&segs[3])),
            path: string_of(&path),
        };
        proof {
            if segs@[2]@ == "blob"@ && n < 6 {
                assert(path@ =~= Seq::<char>::empty());
            }
        }
        return Ok(loc);
    }
    let path = join_range(&segs, 2, n, &slash);
    Ok(GithubLocation { owner, repo, branch: None, path: string_of(&path) })
}

/// `core` appended to `url` after a `/`, unless `url` already ends with it.
pub open spec fn with_file(url: Seq<char>, core: Seq<char>) -> Seq<char> {
    if ends_with(url, core) {
        url
    } else {
        url + "/"@ + core
    }
}

/// The path of the core file within a repository, given a directory path
/// (possibly empty) or the file's own path.
pub open spec fn file_path(sub: Seq<char>, core: Seq<char>) -> Seq<char> {
    if sub.len() == 0 {
        core
    } else {
        with_file(sub, core)
    }
}

pub open spec fn raw_url(owner: Seq<char>, repo: Seq<char>, branch: Seq<char>, path: Seq<char>) -> Seq<
    char,
> {
    "https://raw.githubusercontent.com/"@ + owner + "/"@ + repo + "/"@ + branch + "/"@ + path
}

#[derive(Debug, Clone, Copy, PartialEq, Eq, Structural)]
pub enum UrlError {
    Required,
    BadScheme,
    InvalidUrl,
    MissingOwnerRepo,
}

impl UrlError {
    pub fn message(&self) -> (r: &'static str)
        ensures
            r@ == (match *self {
                UrlError::Required => "URL is required"@,
                UrlError::BadScheme => "URL must start with http:// or https://"@,
                UrlError::InvalidUrl => "Invalid URL"@,
                UrlError::MissingOwnerRepo => "GitHub URL must include owner and repo"@,
            }),
    {
        match self {
            UrlError::Required => "URL is required",
            UrlError::BadScheme => "URL must start with http:// or https://",
            UrlError::InvalidUrl => "Invalid URL",
            UrlError::MissingOwnerRepo => "GitHub URL must include owner and repo",
        }
    }
}

/// The addresses to try, in order, for the core file `core` of the skill at `input`.
pub open spec fn skill_urls(input: Seq<char>, core: Seq<char>) -> Result<Seq<Seq<char>>, UrlError> {
    let t = trim(input);
    if t.len() == 0 {
        Err(UrlError::Required)
    } else if !starts_with(t, "http://"@) && !starts_with(t, "https://"@) {
        Err(UrlError::BadScheme)
    } else if !url_parses(t) {
        Err(UrlError::InvalidUrl)
    } else {
        skill_urls_of_parts(t, host_key(url_host(t)), url_segments(t), core)
    }
}

fn with_file_of(url: &Vec<char>, core: &Vec<char>) -> (r: Vec<char>)
    ensures
        r@ == with_file(url@, core@),
{
    if has_suffix(url, core) {
        copy_chars(url)
    } else {
        let mut r = copy_chars(url);
        push_str(&mut r, "/");
        push_all(&mut r, core);
        r
    }
}

fn file_path_of(sub: &Vec<char>, core: &Vec<char>) -> (r: Vec<char>)
    ensures
        r@ == file_path(sub@, core@),
{
    if sub.len() == 0 {
        copy_chars(core)
    } else {
        with_file_of(sub, core)
    }
}

fn raw_url_of(owner: &Vec<char>, repo: &Vec<char>, branch: &Vec<char>, path: &Vec<char>) -> (r: String)
    ensures
        r@ == raw_url(owner@, repo@, branch@, path@),
{
    let mut u = chars_of("https://raw.githubusercontent.com/");
    push_all(&mut u, owner);
    push_str(&mut u, "/");
    push_all(&mut u, repo);
    push_str(&mut u, "/");
    push_all(&mut u, branch);
    push_str(&mut u, "/");
    push_all(&mut u, path);
    string_of(&u)
}

/// The addresses from which to download the core file `core_file` of the
/// skill at `input`, most likely first.
pub fn parse_skill_urls(input: &str, core_file: &str) -> (r: Result<Vec<String>, UrlError>)
    ensures
        match r {
            Ok(urls) => skill_urls(input@, core_file@) == Ok::<Seq<Seq<char>>, UrlError>(
                string_views(urls@),
            ),
            Err(e) => skill_urls(input@, core_file@) == Err::<Seq<Seq<char>>, UrlError>(e),
        },
{
    let tv = trim_str(input);
    if tv.len() == 0 {
        return Err(UrlError::Required);
    }
    let http = chars_of("http://");
    let https = chars_of("https://");
    if !has_prefix(&tv, &http) && !has_prefix(&tv, &https) {
        return Err(UrlError::BadScheme);
    }
    let t = string_of(&tv);
    match parse_url(t.as_str()) {
        Some((host, path)) => skill_urls_from_parts(t.as_str(), host_ref(&host), path.as_str(), core_file),
        None => Err(UrlError::InvalidUrl),
    }
}

/// The addresses of the core file, given the trimmed address and the host
/// key and path segments it parses to.
pub open spec fn skill_urls_of_parts(t: Seq<char>, host: Seq<char>, segs: Seq<Seq<char>>, core: Seq<char>) -> Result<Seq<Seq<char>>, UrlError> {
    let n = segs.len() as int;
    if host == github_host() {
        if n < 2 {
            Err(UrlError::MissingOwnerRepo)
        } else {
            let owner = segs[0];
            let repo = strip_suffixes(segs[1], ".git"@);
            if n >= 4 && is_tree_or_blob(segs[2]) {
                let fp = file_path(join(segs.subrange(4, n), "/"@), core);
                Ok(seq![raw_url(owner, repo, segs[3], fp)])
            } else {
                let fp = file_path(join(segs.subrange(2, n), "/"@), core);
                Ok(seq![raw_url(owner, repo, "main"@, fp), raw_url(owner, repo, "master"@, fp)])
            }
        }
    } else {
        Ok(seq![with_file(strip_suffixes(t, "/"@), core)])
    }
}

/// The addresses of the core file `core_file` for the trimmed address
/// `trimmed`, which parses to this host and path.
pub fn skill_urls_from_parts(trimmed: &str, host: Option<&str>, path: &str, core_file: &str) -> (r: Result<Vec<String>, UrlError>)
    ensures
        match r {
            Ok(urls) => skill_urls_of_parts(trimmed@, host_key(opt_str_view(host)), segments(path@, '/'), core_file@)
                == Ok::<Seq<Seq<char>>, UrlError>(string_views(urls@)),
            Err(e) => skill_urls_of_parts(trimmed@, host_key(opt_str_view(host)), segments(path@, '/'), core_file@)
                == Err::<Seq<Seq<char>>, UrlError>(e),
        },
{
    let core = chars_of(core_file);
    let tv = chars_of(trimmed);
    let (host, segs) = parts_of(host, path);
    let n = segs.len();
    let slash = chars_of("/");
    proof {
        lemma_views_subrange(segs@, 0, n as int);
    }
    if is_literal(&host, "github.com") {
        if n < 2 {
            return Err(UrlError::MissingOwnerRepo);
        }
        let repo = strip_suffixes_of(&segs[1], ".git");
        if n >= 4 && (is_literal(&segs[2], "tree") || is_literal(&segs[2], "blob")) {
            proof {
                lemma_views_subrange(segs@, 4, n as int);
            }
            let sub = join_range(&segs, 4, n, &slash);
            let fp = file_path_of(&sub, &core);
            let u = raw_url_of(&segs[0], &repo, &segs[3], &fp);
            let mut urls: Vec<String> = Vec::new();
            urls.push(u);
            assert(string_views(urls@) =~= seq![u@]);
            return Ok(urls);
        }
        proof {
            lemma_views_subrange(segs@, 2, n as int);
        }
        let sub = join_range(&segs, 2, n, &slash);
        let fp = file_path_of(&sub, &core);
        let main = chars_of("main");
        let master = chars_of("master");
        let u1 = raw_url_of(&segs[0], &repo, &main, &fp);
        let u2 = raw_url_of(&segs[0], &repo, &master, &fp);
        let mut urls: Vec<String> = Vec::new();
        urls.push(u1);
        urls.push(u2);
        assert(string_views(urls@) =~= seq![u1@, u2@]);
        return Ok(urls);
    }
    let base = strip_suffixes_of(&tv, "/");
    let u = with_file_of(&base, &core);
    let mut urls: Vec<String> = Vec::new();
    urls.push(string_of(&u));
    assert(string_views(urls@) =~= seq![u@]);
    Ok(urls)
}

/// The path of the file `core_file` within the repository, for a location
/// that names its directory or the file itself.
pub fn github_file_path(location: &GithubLocation, core_file: &str) -> (r: String)
    ensures
        r@ == file_path(location.path@, core_file@),
{
    let sub = chars_of(location.path.as_str());
    let core = chars_of(core_file);
    let fp = file_path_of(&sub, &core);
    string_of(&fp)
}

pub open spec fn contents_url(owner: Seq<char>, repo: Seq<char>, path: Seq<char>, branch: Seq<char>) -> Seq<
    char,
> {
    if path.len() == 0 {
        "https://api.github.com/repos/"@ + owner + "/"@ + repo + "/contents?ref="@ + branch
    } else {
        "https://api.github.com/repos/"@ + owner + "/"@ + repo + "/contents/"@ + path + "?ref="@
            + branch
    }
}

/// The API address that lists, or describes, `path` of a repository at `branch`.
pub fn github_contents_url(owner: &str, repo: &str, path: &str, branch: &str) -> (r: String)
    ensures
        r@ == contents_url(owner@, repo@, path@, branch@),
{
    let mut u = chars_of("https://api.github.com/repos/");
    push_str(&mut u, owner);
    push_str(&mut u, "/");
    push_str(&mut u, repo);
    let p = chars_of(path);
    if p.len() == 0 {
        push_str(&mut u, "/contents?ref=");
    } else {
        push_str(&mut u, "/contents/");
        push_all(&mut u, &p);
        push_str(&mut u, "?ref=");
    }
    push_str(&mut u, branch);
    string_of(&u)
}

/// The API address that describes a repository, its default branch among it.
pub fn github_repo_url(owner: &str, repo: &str) -> (r: String)
    ensures
        r@ == "https://api.github.com/repos/"@ + owner@ + "/"@ + repo@,
{
    let mut u = chars_of("https://api.github.com/repos/");
    push_str(&mut u, owner);
    push_str(&mut u, "/");
    push_str(&mut u, repo);
    string_of(&u)
}

/// The API address of a file's bytes by their content identifier.
pub fn github_blob_url(owner: &str, repo: &str, sha: &str) -> (r: String)
    ensures
        r@ == "https://api.github.com/repos/"@ + owner@ + "/"@ + repo@ + "/git/blobs/"@ + sha@,
{
    let mut u = chars_of("https://api.github.com/repos/");
    push_str(&mut u, owner);
    push_str(&mut u, "/");
    push_str(&mut u, repo);
    push_str(&mut u, "/git/blobs/");
    push_str(&mut u, sha);
    string_of(&u)
}

pub open spec fn ascii_fold(c: char) -> int {
    if 'A' <= c <= 'Z' {
        (c as u32) + 32
    } else {
        c as u32 as int
    }
}

/// Equal but for the case of ASCII letters, as `str::eq_ignore_ascii_case` tests.
pub open spec fn eq_ignore_ascii_case(a: Seq<char>, b: Seq<char>) -> bool {
    a.len() == b.len() && forall|i: int| 0 <= i < a.len() ==> ascii_fold(a[i]) == ascii_fold(b[i])
}

fn fold(c: char) -> (r: u32)
    ensures
        r as int == ascii_fold(c),
{
    if 'A' <= c && c <= 'Z' {
        (c as u32) + 32
    } else {
        c as u32
    }
}

/// Whether two texts are equal but for the case of ASCII letters.
pub fn eq_ignore_case(a: &Vec<char>, b: &Vec<char>) -> (r: bool)
    ensures
        r == eq_ignore_ascii_case(a@, b@),
{
    if a.len() != b.len() {
        return false;
    }
    let mut i: usize = 0;
    while i < a.len()
        invariant
            a@.len() == b@.len(),
            i <= a@.len(),
            forall|j: int| 0 <= j < i ==> ascii_fold(a@[j]) == ascii_fold(b@[j]),
        decreases a@.len() - i,
    {
        if fold(a[i]) != fold(b[i]) {
            return false;
        }
        i = i + 1;
    }
    true
}

/// A name for a skill taken from the path segments of its address: the
/// last, or the one before it when the last is the core file itself.
pub open spec fn name_from_segments(segs: Seq<Seq<char>>, core: Seq<char>) -> Seq<char> {
    if segs.len() == 0 {
        "skill"@
    } else if eq_ignore_ascii_case(segs.last(), core) && segs.len() >= 2 {
        segs[segs.len() - 2]
    } else {
        segs.last()
    }
}

/// A name for a skill taken from its address; `skill` when it does not parse.
pub open spec fn fallback_name(input: Seq<char>, core: Seq<char>) -> Seq<char> {
    if !url_parses(input) {
        "skill"@
    } else {
        name_from_segments(url_segments(input), core)
    }
}

/// A name for a skill taken from its address.
pub fn fallback_name_from_url(input: &str, core_file: &str) -> (r: String)
    ensures
        r@ == fallback_name(input@, core_file@),
{
    match parse_url(input) {
        Some((_host, path)) => name_from_path(path.as_str(), core_file),
        None => "skill".to_owned(),
    }
}

/// The name that the path of a parsed address gives a skill.
pub fn name_from_path(path: &str, core_file: &str) -> (r: String)
    ensures
        r@ == name_from_segments(segments(path@, '/'), core_file@),
{
    let core = chars_of(core_file);
    let pv = chars_of(path);
    let segs = segments_of(&pv, '/');
    let n = segs.len();
    proof {
        lemma_views_subrange(segs@, 0, n as int);
    }
    if n == 0 {
        return "skill".to_owned();
    }
    if eq_ignore_case(&segs[n - 1], &core) && n >= 2 {
        return string_of(&segs[n - 2]);
    }
    string_of(&segs[n - 1])
}

} // verus!
