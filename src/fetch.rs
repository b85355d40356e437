//! The decisions of the content fetcher: what an API response says, how a
//! listing turns into downloads, and when a plain download succeeded.
use vstd::prelude::*;
use crate::json::{Json, JsonV, find_key, obj_get};
use crate::text::{chars_of, decimal, decimal_of, is_blank, push_all, push_str, string_of, trim};

verus! {

/// `base64::DecodeError`, the error of a failed decode, carried opaquely.
#[verifier::external_type_specification]
#[verifier::external_body]
pub struct ExDecodeError(base64::DecodeError);

/// The bytes that base64's standard engine decodes from the text, or `None`
/// where it reports an error.
pub uninterp spec fn base64_standard(s: Seq<char>) -> Option<Seq<u8>>;

/// Relies on `base64::Engine::decode` of `base64::engine::general_purpose::STANDARD`:
/// the result depends on the text alone.
#[verifier::external_body]
fn base64_decode(s: &str) -> (r: Result<Vec<u8>, base64::DecodeError>)
    ensures
        r is Ok <==> base64_standard(s@) is Some,
        r matches Ok(b) ==> base64_standard(s@) == Some(b@),
{
    base64::Engine::decode(&base64::engine::general_purpose::STANDARD, s.as_bytes())
}

#[derive(Debug, Clone, Copy, PartialEq, Eq, Structural)]
pub enum FetchError {
    InvalidBase64,
    UnexpectedResponse,
    InvalidEntry,
    InvalidFileResponse,
    UnsupportedFileEncoding,
    MissingFileContent,
    InvalidBlobResponse,
    MissingBlobContent,
    UnsupportedBlobEncoding,
    MissingDefaultBranch,
}

impl FetchError {
    pub fn message(&self) -> (r: &'static str)
        ensures
            r@ == (match *self {
                FetchError::InvalidBase64 => "Failed to decode base64 payload"@,
                FetchError::UnexpectedResponse => "Unexpected GitHub response"@,
                FetchError::InvalidEntry => "Invalid GitHub entry"@,
                FetchError::InvalidFileResponse => "Invalid GitHub file response"@,
                FetchError::UnsupportedFileEncoding => "Unsupported GitHub file encoding"@,
                FetchError::MissingFileContent => "Missing content in GitHub file response"@,
                FetchError::InvalidBlobResponse => "Invalid GitHub blob response"@,
                FetchError::MissingBlobContent => "Missing content in GitHub blob response"@,
                FetchError::UnsupportedBlobEncoding => "Unsupported GitHub blob encoding"@,
                FetchError::MissingDefaultBranch => "Missing default_branch in GitHub response"@,
            }),
    {
        match self {
            FetchError::InvalidBase64 => "Failed to decode base64 payload",
            FetchError::UnexpectedResponse => "Unexpected GitHub response",
            FetchError::InvalidEntry => "Invalid GitHub entry",
            FetchError::InvalidFileResponse => "Invalid GitHub file response",
            FetchError::UnsupportedFileEncoding => "Unsupported GitHub file encoding",
            FetchError::MissingFileContent => "Missing content in GitHub file response",
            FetchError::InvalidBlobResponse => "Invalid GitHub blob response",
            FetchError::MissingBlobContent => "Missing content in GitHub blob response",
            FetchError::UnsupportedBlobEncoding => "Unsupported GitHub blob encoding",
            FetchError::MissingDefaultBranch => "Missing default_branch in GitHub response",
        }
    }
}

/// `s` without its line breaks.
pub open spec fn without_newlines(s: Seq<char>) -> Seq<char>
    decreases s.len(),
{
    if s.len() == 0 {
        s
    } else if s.last() == '\n' {
        without_newlines(s.drop_last())
    } else {
        without_newlines(s.drop_last()).push(s.last())
    }
}

/// The bytes of a base64 payload as the API sends it, broken into lines.
pub fn decode_base64_payload(content: &str) -> (r: Result<Vec<u8>, FetchError>)
    ensures
        match base64_standard(without_newlines(content@)) {
            Some(b) => r matches Ok(v) && v@ == b,
            None => r == Err::<Vec<u8>, FetchError>(FetchError::InvalidBase64),
        },
{
    let v = chars_of(content);
    let mut kept: Vec<char> = Vec::new();
    let mut i: usize = 0;
    while i < v.len()
        invariant
            i <= v@.len(),
            kept@ == without_newlines(v@.subrange(0, i as int)),
        decreases v@.len() - i,
    {
        assert(v@.subrange(0, i + 1).drop_last() =~= v@.subrange(0, i as int));
        if v[i] != '\n' {
            kept.push(v[i]);
        }
        i = i + 1;
    }
    assert(v@.subrange(0, v@.len() as int) =~= v@);
    let cleaned = string_of(&kept);
    match base64_decode(cleaned.as_str()) {
        Ok(b) => Ok(b),
        Err(_) => Err(FetchError::InvalidBase64),
    }
}

/// The string under `key` of an object's entries.
pub open spec fn str_field(es: Seq<(String, Json)>, key: Seq<char>) -> Option<Seq<char>> {
    match obj_get(es, key) {
        Some(JsonV::Str(s)) => Some(s),
        _ => None,
    }
}

fn get_str(es: &Vec<(String, Json)>, key: &str) -> (r: Option<String>)
    ensures
        match r {
            Some(s) => str_field(es@, key@) == Some(s@),
            None => str_field(es@, key@) is None,
        },
{
    match find_key(es, key) {
        Some(i) => match &es[i].1 {
            Json::Str(s) => Some(s.clone()),
            _ => None,
        },
        None => None,
    }
}

/// The repository's default branch, from its description.
pub fn default_branch_from_response(value: &Json) -> (r: Result<String, FetchError>)
    ensures
        match value {
            Json::Object(es) => match str_field(es@, "default_branch"@) {
                Some(b) => r matches Ok(s) && s@ == b,
                None => r == Err::<String, FetchError>(FetchError::MissingDefaultBranch),
            },
            _ => r == Err::<String, FetchError>(FetchError::MissingDefaultBranch),
        },
{
    match value {
        Json::Object(es) => match get_str(es, "default_branch") {
            Some(b) => Ok(b),
            None => Err(FetchError::MissingDefaultBranch),
        },
        _ => Err(FetchError::MissingDefaultBranch),
    }
}

/// One node of a remote listing.
#[derive(Debug)]
pub struct ContentEntry {
    pub name: String,
    pub path: String,
    pub kind: String,
    pub sha: Option<String>,
}

/// Whether an object's `sha` is acceptable: absent, null or a string.
pub open spec fn sha_ok(es: Seq<(String, Json)>) -> bool {
    match obj_get(es, "sha"@) {
        None => true,
        Some(JsonV::Null) => true,
        Some(JsonV::Str(_)) => true,
        _ => false,
    }
}

/// Whether `e` is the listing entry an object describes: string `name`,
/// `path` and `type`, and a `sha` when the object gives a string one.
pub open spec fn entry_of(es: Seq<(String, Json)>, e: ContentEntry) -> bool {
    &&& str_field(es, "name"@) == Some(e.name@)
    &&& str_field(es, "path"@) == Some(e.path@)
    &&& str_field(es, "type"@) == Some(e.kind@)
    &&& match e.sha {
        Some(s) => str_field(es, "sha"@) == Some(s@),
        None => str_field(es, "sha"@) is None,
    }
}

pub open spec fn entry_valid(v: Json) -> bool {
    match v {
        Json::Object(es) => str_field(es@, "name"@) is Some && str_field(es@, "path"@) is Some
            && str_field(es@, "type"@) is Some && sha_ok(es@),
        _ => false,
    }
}

fn entry_from_json(v: &Json) -> (r: Option<ContentEntry>)
    ensures
        r is Some <==> entry_valid(*v),
        r matches Some(e) ==> (v matches Json::Object(es) && entry_of(es@, e)),
{
    match v {
        Json::Object(es) => {
            let name = match get_str(es, "name") {
                Some(s) => s,
                None => {
                    return None;
                },
            };
            let path = match get_str(es, "path") {
                Some(s) => s,
                None => {
                    return None;
                },
            };
            let kind = match get_str(es, "type") {
                Some(s) => s,
                None => {
                    return None;
                },
            };
            let sha = match find_key(es, "sha") {
                Some(i) => match &es[i].1 {
                    Json::Str(s) => Some(s.clone()),
                    Json::Null => None,
                    _ => {
                        return None;
                    },
                },
                None => None,
            };
            Some(ContentEntry { name, path, kind, sha })
        },
        _ => None,
    }
}

/// The entries of a listing response: an array of entries, or one entry
/// for a path that is a file.
pub fn contents_from_response(value: &Json) -> (r: Result<Vec<ContentEntry>, FetchError>)
    ensures
        match value {
            Json::Array(xs) => match r {
                Ok(es) => es@.len() == xs@.len() && forall|i: int|
                    0 <= i < xs@.len() ==> (#[trigger] xs@[i] matches Json::Object(o) && entry_of(o@, es@[i])),
                Err(e) => e == FetchError::InvalidEntry && exists|i: int|
                    0 <= i < xs@.len() && !entry_valid(#[trigger] xs@[i]),
            },
            Json::Object(o) => match r {
                Ok(es) => es@.len() == 1 && entry_of(o@, es@[0]),
                Err(e) => e == FetchError::InvalidEntry && !entry_valid(*value),
            },
            _ => r == Err::<Vec<ContentEntry>, FetchError>(FetchError::UnexpectedResponse),
        },
{
    match value {
        Json::Array(xs) => {
            let mut out: Vec<ContentEntry> = Vec::new();
            let mut i: usize = 0;
            while i < xs.len()
                invariant
                    i <= xs@.len(),
                    *value == Json::Array(*xs),
                    out@.len() == i,
                    forall|j: int|
                        0 <= j < i ==> (#[trigger] xs@[j] matches Json::Object(o) && entry_of(o@, out@[j])),
                decreases xs@.len() - i,
            {
                match entry_from_json(&xs[i]) {
                    Some(e) => out.push(e),
                    None => {
                        assert(!entry_valid(xs@[i as int]));
                        return Err(FetchError::InvalidEntry);
                    },
                }
                i = i + 1;
            }
            Ok(out)
        },
        Json::Object(_) => match entry_from_json(value) {
            Some(e) => {
                let mut out: Vec<ContentEntry> = Vec::new();
                out.push(e);
                Ok(out)
            },
            None => Err(FetchError::InvalidEntry),
        },
        _ => Err(FetchError::UnexpectedResponse),
    }
}

/// How a file response gives the file: inline base64 text, or only the
/// identifier of its blob.
#[derive(Debug)]
pub enum FilePayload {
    Inline(String),
    Blob(String),
}

/// Whether the `encoding` of a response allows its `content`: base64, also
/// when the response names none.
pub open spec fn base64_encoded(es: Seq<(String, Json)>) -> bool {
    match str_field(es, "encoding"@) {
        Some(e) => e == "base64"@,
        None => true,
    }
}

fn encoding_is_base64(es: &Vec<(String, Json)>) -> (r: bool)
    ensures
        r == base64_encoded(es@),
{
    match get_str(es, "encoding") {
        Some(e) => crate::text::str_eq(e.as_str(), "base64"),
        None => true,
    }
}

/// What a file response holds: inline content when there is some (in
/// base64), else the blob identifier.
pub fn file_payload_from_response(value: &Json) -> (r: Result<FilePayload, FetchError>)
    ensures
        match value {
            Json::Object(es) => match str_field(es@, "content"@) {
                Some(c) => if base64_encoded(es@) {
                    r matches Ok(FilePayload::Inline(s)) && s@ == c
                } else {
                    r == Err::<FilePayload, FetchError>(FetchError::UnsupportedFileEncoding)
                },
                None => match str_field(es@, "sha"@) {
                    Some(h) => r matches Ok(FilePayload::Blob(s)) && s@ == h,
                    None => r == Err::<FilePayload, FetchError>(FetchError::MissingFileContent),
                },
            },
            _ => r == Err::<FilePayload, FetchError>(FetchError::InvalidFileResponse),
        },
{
    match value {
        Json::Object(es) => match get_str(es, "content") {
            Some(c) => if encoding_is_base64(es) {
                Ok(FilePayload::Inline(c))
            } else {
                Err(FetchError::UnsupportedFileEncoding)
            },
            None => match get_str(es, "sha") {
                Some(h) => Ok(FilePayload::Blob(h)),
                None => Err(FetchError::MissingFileContent),
            },
        },
        _ => Err(FetchError::InvalidFileResponse),
    }
}

/// The base64 content of a blob response.
pub fn blob_content_from_response(value: &Json) -> (r: Result<String, FetchError>)
    ensures
        match value {
            Json::Object(es) => match str_field(es@, "content"@) {
                Some(c) => if base64_encoded(es@) {
                    r matches Ok(s) && s@ == c
                } else {
                    r == Err::<String, FetchError>(FetchError::UnsupportedBlobEncoding)
                },
                None => r == Err::<String, FetchError>(FetchError::MissingBlobContent),
            },
            _ => r == Err::<String, FetchError>(FetchError::InvalidBlobResponse),
        },
{
    match value {
        Json::Object(es) => match get_str(es, "content") {
            Some(c) => if encoding_is_base64(es) {
                Ok(c)
            } else {
                Err(FetchError::UnsupportedBlobEncoding)
            },
            None => Err(FetchError::MissingBlobContent),
        },
        _ => Err(FetchError::InvalidBlobResponse),
    }
}

/// Relies on `String::from_utf8`: text exactly when the bytes are UTF-8.
#[verifier::external_body]
fn utf8_text(bytes: Vec<u8>) -> (r: Result<String, std::string::FromUtf8Error>)
    ensures
        r is Ok <==> vstd::utf8::valid_utf8(bytes@),
        r matches Ok(s) ==> s@ == vstd::utf8::decode_utf8(bytes@),
{
    String::from_utf8(bytes)
}

/// Relies on the `Display` of `std::string::FromUtf8Error`: a description
/// of where the bytes stop being UTF-8.
#[verifier::external_body]
fn utf8_error_text(e: &std::string::FromUtf8Error) -> String {
    e.to_string()
}

/// `std::string::FromUtf8Error`, the error of a failed UTF-8 check, carried opaquely.
#[verifier::external_type_specification]
#[verifier::external_body]
pub struct ExFromUtf8Error(std::string::FromUtf8Error);

/// What a step of a download is: list a directory and go on there, fetch a
/// file by its blob identifier, or fetch it by its path.
#[derive(Debug)]
pub enum DownloadStep {
    Directory { repo_path: String, dest: String },
    Blob { sha: String, dest: String },
    File { repo_path: String, dest: String },
}

pub enum StepV {
    Directory { repo_path: Seq<char>, dest: Seq<char> },
    Blob { sha: Seq<char>, dest: Seq<char> },
    File { repo_path: Seq<char>, dest: Seq<char> },
}

impl DownloadStep {
    pub open spec fn view(&self) -> StepV {
        match self {
            DownloadStep::Directory { repo_path, dest } => StepV::Directory { repo_path: repo_path@, dest: dest@ },
            DownloadStep::Blob { sha, dest } => StepV::Blob { sha: sha@, dest: dest@ },
            DownloadStep::File { repo_path, dest } => StepV::File { repo_path: repo_path@, dest: dest@ },
        }
    }
}

/// The step for one listed entry under the local directory `dest_dir`:
/// directories recurse, files are fetched by blob when the listing gives
/// one (it is cheaper) and by path otherwise, other kinds are skipped.
pub open spec fn step_for(dest_dir: Seq<char>, e: ContentEntry) -> Option<StepV> {
    let dest = crate::sources::path_join(dest_dir, e.name@);
    if e.kind@ == "dir"@ {
        Some(StepV::Directory { repo_path: e.path@, dest })
    } else if e.kind@ == "file"@ {
        match e.sha {
            Some(h) => Some(StepV::Blob { sha: h@, dest }),
            None => Some(StepV::File { repo_path: e.path@, dest }),
        }
    } else {
        None
    }
}

pub open spec fn planned(dest_dir: Seq<char>, entries: Seq<ContentEntry>) -> Seq<StepV>
    decreases entries.len(),
{
    if entries.len() == 0 {
        Seq::empty()
    } else {
        let p = planned(dest_dir, entries.drop_last());
        match step_for(dest_dir, entries.last()) {
            Some(st) => p.push(st),
            None => p,
        }
    }
}

pub open spec fn steps_view(s: Seq<DownloadStep>) -> Seq<StepV> {
    s.map_values(|d: DownloadStep| d@)
}

/// The steps that a listing of a remote directory gives, in listing order.
pub fn plan_listing(dest_dir: &str, entries: &Vec<ContentEntry>) -> (r: Vec<DownloadStep>)
    ensures
        steps_view(r@) == planned(dest_dir@, entries@),
{
    let mut r: Vec<DownloadStep> = Vec::new();
    let mut i: usize = 0;
    assert(steps_view(r@) =~= Seq::<StepV>::empty());
    while i < entries.len()
        invariant
            i <= entries@.len(),
            steps_view(r@) == planned(dest_dir@, entries@.subrange(0, i as int)),
        decreases entries@.len() - i,
    {
        assert(entries@.subrange(0, i + 1).drop_last() =~= entries@.subrange(0, i as int));
        let e = &entries[i];
        let ghost before = r@;
        let dest = crate::sources::join_path(dest_dir, e.name.as_str());
        if crate::text::str_eq(e.kind.as_str(), "dir") {
            let st = DownloadStep::Directory { repo_path: e.path.clone(), dest };
            r.push(st);
            assert(steps_view(r@) =~= steps_view(before).push(st@));
        } else if crate::text::str_eq(e.kind.as_str(), "file") {
            let st = match &e.sha {
                Some(h) => DownloadStep::Blob { sha: h.clone(), dest },
                None => DownloadStep::File { repo_path: e.path.clone(), dest },
            };
            r.push(st);
            assert(steps_view(r@) =~= steps_view(before).push(st@));
        }
        i = i + 1;
    }
    assert(entries@.subrange(0, entries@.len() as int) =~= entries@);
    r
}

/// What to do after one download attempt of a plain address.
#[derive(Debug)]
pub enum DownloadVerdict {
    /// The download is over: the file's text, or why it failed for good.
    Done(Result<String, String>),
    /// Try the next address; this is why this one failed.
    Next(String),
}

/// The verdict on a response with `status` and `body` (its text, or why it
/// could not be read): a 200 with a non-blank body is the file, a 200 with
/// a blank body or an unreadable one ends the download, any other status
/// moves on.
pub fn judge_download(status: u16, body: Result<String, String>) -> (r: DownloadVerdict)
    ensures
        status == 200 ==> match body {
            Ok(b) => if trim(b@).len() > 0 {
                r matches DownloadVerdict::Done(Ok(t)) && t@ == b@
            } else {
                r matches DownloadVerdict::Done(Err(m)) && m@ == "SKILL.md is empty"@
            },
            Err(e) => r matches DownloadVerdict::Done(Err(m)) && m@ == "Failed to read response: "@ + e@,
        },
        status != 200 ==> (r matches DownloadVerdict::Next(m) && m@ == "Unexpected status "@ + decimal(
            status as nat,
        )),
{
    if status == 200 {
        match body {
            Ok(b) => if is_blank(b.as_str()) {
                DownloadVerdict::Done(Err("SKILL.md is empty".to_owned()))
            } else {
                DownloadVerdict::Done(Ok(b))
            },
            Err(e) => {
                let mut m = chars_of("Failed to read response: ");
                push_str(&mut m, e.as_str());
                DownloadVerdict::Done(Err(string_of(&m)))
            },
        }
    } else {
        let mut m = chars_of("Unexpected status ");
        let d = decimal_of(status as u64);
        push_all(&mut m, &d);
        DownloadVerdict::Next(string_of(&m))
    }
}

/// Where the search for a skill's core file stands: which core file name
/// and which branch (or address set) is being tried, and the last failure.
#[derive(Debug)]
pub struct CoreLookup {
    pub file: usize,
    pub branch: usize,
    pub last_error: Option<String>,
}

#[derive(Debug)]
pub enum LookupStep {
    /// Fetch core file `file` from branch `branch`.
    Fetch { file: usize, branch: usize },
    /// Core file `file` was found on branch `branch`, with this text.
    Found { file: usize, branch: usize, content: String },
    /// Every core file on every branch failed.
    Failed(String),
}

pub open spec fn lookup_failure(last: Option<String>) -> Seq<char> {
    match last {
        Some(e) => e@,
        None => "Unable to download skill file"@,
    }
}

impl CoreLookup {
    /// The search before its first attempt, and that attempt.
    pub fn start(files: usize, branches: usize) -> (r: (CoreLookup, LookupStep))
        ensures
            r.0.file == 0 && r.0.branch == 0 && r.0.last_error is None,
            files > 0 && branches > 0 ==> (r.1 matches LookupStep::Fetch { file, branch } && file == 0 && branch == 0),
            !(files > 0 && branches > 0) ==> (r.1 matches LookupStep::Failed(m) && m@ == lookup_failure(None)),
    {
        let s = CoreLookup { file: 0, branch: 0, last_error: None };
        if files > 0 && branches > 0 {
            (s, LookupStep::Fetch { file: 0, branch: 0 })
        } else {
            (s, LookupStep::Failed("Unable to download skill file".to_owned()))
        }
    }

    /// The next step after the attempt at the current position came back
    /// with `outcome`: bytes that are UTF-8 text end the search; anything
    /// else is remembered, and the next branch, or else the next core file,
    /// is tried, until none is left.
    pub fn advance(&mut self, files: usize, branches: usize, outcome: Result<Vec<u8>, String>) -> (r: LookupStep)
        requires
            old(self).file < files,
            old(self).branch < branches,
        ensures
            match outcome {
                Ok(b) if vstd::utf8::valid_utf8(b@) => r matches LookupStep::Found { file, branch, content }
                    && file == old(self).file && branch == old(self).branch && content@
                    == vstd::utf8::decode_utf8(b@),
                _ => {
                    &&& final(self).last_error is Some
                    &&& (outcome matches Err(e) ==> final(self).last_error == Some(e))
                    &&& (outcome is Ok ==> (final(self).last_error matches Some(m) && crate::text::starts_with(
                        m@,
                        "GitHub file is not UTF-8: "@,
                    )))
                    &&& if old(self).branch + 1 < branches {
                        r matches LookupStep::Fetch { file, branch } && file == old(self).file && branch
                            == old(self).branch + 1 && final(self).file == file && final(self).branch == branch
                    } else if old(self).file + 1 < files {
                        r matches LookupStep::Fetch { file, branch } && file == old(self).file + 1 && branch
                            == 0 && final(self).file == file && final(self).branch == branch
                    } else {
                        r matches LookupStep::Failed(m) && Some(m) == final(self).last_error
                    }
                },
            },
    {
        let error = match outcome {
            Ok(bytes) => match utf8_text(bytes) {
                Ok(text) => {
                    return LookupStep::Found { file: self.file, branch: self.branch, content: text };
                },
                Err(err) => {
                    let mut m = chars_of("GitHub file is not UTF-8: ");
                    let detail = utf8_error_text(&err);
                    push_str(&mut m, detail.as_str());
                    let ghost pre = "GitHub file is not UTF-8: "@;
                    assert(m@.subrange(0, pre.len() as int) =~= pre);
                    string_of(&m)
                },
            },
            Err(e) => e,
        };
        if self.branch + 1 < branches {
            self.branch = self.branch + 1;
            self.last_error = Some(error);
            LookupStep::Fetch { file: self.file, branch: self.branch }
        } else if self.file + 1 < files {
            self.file = self.file + 1;
            self.branch = 0;
            self.last_error = Some(error);
            LookupStep::Fetch { file: self.file, branch: self.branch }
        } else {
            let m = error.clone();
            self.last_error = Some(error);
            LookupStep::Failed(m)
        }
    }
}

/// The first of the credentials that is not blank.
pub open spec fn first_credential(cands: Seq<Option<String>>) -> Option<Seq<char>>
    decreases cands.len(),
{
    if cands.len() == 0 {
        None
    } else {
        match cands[0] {
            Some(t) => if trim(t@).len() > 0 {
                Some(t@)
            } else {
                first_credential(cands.drop_first())
            },
            None => first_credential(cands.drop_first()),
        }
    }
}

/// The access token for a request: the first non-blank of the candidates,
/// in priority order (the caller's own, then the environment's slots).
pub fn choose_token(candidates: &Vec<Option<String>>) -> (r: Option<String>)
    ensures
        match r {
            Some(t) => first_credential(candidates@) == Some(t@),
            None => first_credential(candidates@) is None,
        },
{
    let mut i: usize = 0;
    assert(candidates@.subrange(0, candidates@.len() as int) =~= candidates@);
    while i < candidates.len()
        invariant
            i <= candidates@.len(),
            first_credential(candidates@) == first_credential(
                candidates@.subrange(i as int, candidates@.len() as int),
            ),
        decreases candidates@.len() - i,
    {
        let ghost rest = candidates@.subrange(i as int, candidates@.len() as int);
        assert(rest.drop_first() =~= candidates@.subrange(i + 1, candidates@.len() as int));
        assert(rest[0] == candidates@[i as int]);
        match &candidates[i] {
            Some(t) => {
                if !is_blank(t.as_str()) {
                    return Some(t.clone());
                }
            },
            None => {},
        }
        i = i + 1;
    }
    None
}

/// The value of the authorization header for a token.
pub fn bearer(token: &str) -> (r: String)
    ensures
        r@ == "Bearer "@ + token@,
{
    let mut v = chars_of("Bearer ");
    push_str(&mut v, token);
    string_of(&v)
}

/// Where a download that is retried across branches stands: the branch
/// being tried and the last failure.
#[derive(Debug)]
pub struct BranchRetry {
    pub index: usize,
    pub last_error: Option<String>,
}

#[derive(Debug)]
pub enum RetryStep {
    /// Try the branch at this position.
    Attempt(usize),
    /// The branch at this position worked.
    Succeeded(usize),
    /// Every branch failed; the last failure, or a general one.
    GaveUp(String),
}

pub open spec fn retry_failure(last: Option<String>) -> Seq<char> {
    match last {
        Some(e) => e@,
        None => "Unable to download GitHub directory"@,
    }
}

impl BranchRetry {
    /// The retry before its first attempt, and that attempt.
    pub fn start(total: usize) -> (r: (BranchRetry, RetryStep))
        ensures
            r.0.index == 0 && r.0.last_error is None,
            total > 0 ==> (r.1 matches RetryStep::Attempt(i) && i == 0),
            total == 0 ==> (r.1 matches RetryStep::GaveUp(m) && m@ == retry_failure(None)),
    {
        let s = BranchRetry { index: 0, last_error: None };
        if total > 0 {
            (s, RetryStep::Attempt(0))
        } else {
            (s, RetryStep::GaveUp("Unable to download GitHub directory".to_owned()))
        }
    }

    /// The next step after the attempt at the current branch came back with
    /// `outcome`: the first branch that works ends the retry; a failure is
    /// remembered and the next branch tried, until none is left.
    pub fn advance(&mut self, total: usize, outcome: Result<(), String>) -> (r: RetryStep)
        requires
            old(self).index < total,
        ensures
            match outcome {
                Ok(()) => r matches RetryStep::Succeeded(i) && i == old(self).index,
                Err(e) => {
                    &&& final(self).last_error == Some(e)
                    &&& if old(self).index + 1 < total {
                        r matches RetryStep::Attempt(i) && i == old(self).index + 1 && final(self).index == i
                    } else {
                        r matches RetryStep::GaveUp(m) && m@ == e@
                    }
                },
            },
    {
        match outcome {
            Ok(()) => RetryStep::Succeeded(self.index),
            Err(e) => {
                let m = e.clone();
                self.last_error = Some(e);
                if self.index + 1 < total {
                    self.index = self.index + 1;
                    RetryStep::Attempt(self.index)
                } else {
                    RetryStep::GaveUp(m)
                }
            },
        }
    }
}

} // verus!
