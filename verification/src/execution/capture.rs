//! Capturing the Git-relevant source state of a project: what each Git
//! command's output means, the limits on untracked files, and the
//! fingerprints the state is bound by. Running Git and reading files is the
//! caller's; every decision on what came back is here.
use vstd::prelude::*;
use crate::execution::fingerprint::{fields_message, field_views, hash_fields, Fingerprint, SHA256_PREFIX};
use crate::execution::git::{line_text_valid, parse_nul_paths, single_line, strip_line_end, ExecutionError};
use crate::digest::sha256_hex;
use crate::order::{keys_sorted, sort_stable};
use crate::terminal::launch::{int_text, lossy_text, status_label, utf8_lossy};
use crate::text::{chars_of, decimal, decimal_string, is_ascii_hexdigit, owned, push_str, string_from_chars};

verus! {

pub const MAX_UNTRACKED_FILE_BYTES: u64 = 1048576;
pub const MAX_UNTRACKED_TOTAL_BYTES: u64 = 16777216;
pub const MAX_UNTRACKED_FILES: usize = 1000;
pub const MAX_GIT_DIFF_BYTES: usize = 67108864;
pub const MAX_GIT_ERROR_BYTES: usize = 65536;

/// What one Git command left: its exit code where it has one, its output,
/// and whether the output was cut at the bound.
#[derive(Debug, Clone, PartialEq, Eq)]
pub struct GitOutput {
    pub status_code: Option<i32>,
    pub stdout: Vec<u8>,
    pub stderr: Vec<u8>,
    pub truncated: bool,
}

/// The bounds of a state capture.
#[derive(Debug, Clone, Copy, PartialEq, Eq, Structural)]
pub struct StateCaptureLimits {
    pub max_untracked_file_bytes: u64,
    pub max_untracked_total_bytes: u64,
    pub max_untracked_files: usize,
    pub max_git_diff_bytes: usize,
    pub max_git_error_bytes: usize,
}

impl Default for StateCaptureLimits {
    fn default() -> (r: Self)
        ensures
            r.max_untracked_file_bytes == MAX_UNTRACKED_FILE_BYTES,
            r.max_untracked_total_bytes == MAX_UNTRACKED_TOTAL_BYTES,
            r.max_untracked_files == MAX_UNTRACKED_FILES,
            r.max_git_diff_bytes == MAX_GIT_DIFF_BYTES,
            r.max_git_error_bytes == MAX_GIT_ERROR_BYTES,
    {
        StateCaptureLimits {
            max_untracked_file_bytes: MAX_UNTRACKED_FILE_BYTES,
            max_untracked_total_bytes: MAX_UNTRACKED_TOTAL_BYTES,
            max_untracked_files: MAX_UNTRACKED_FILES,
            max_git_diff_bytes: MAX_GIT_DIFF_BYTES,
            max_git_error_bytes: MAX_GIT_ERROR_BYTES,
        }
    }
}

/// The command exited with status zero.
pub open spec fn git_succeeded(o: GitOutput) -> bool {
    o.status_code == Some(0i32)
}

/// The status of a failed command as shown: its code, or `unknown`.
pub open spec fn status_word(code: Option<i32>) -> Seq<char> {
    match code {
        Some(c) => int_text(c as int),
        None => "unknown"@,
    }
}

/// The error output as shown: decoded, and cut to the bound in characters.
pub open spec fn shown_stderr(o: GitOutput, limits: StateCaptureLimits) -> Seq<char> {
    let t = utf8_lossy(o.stderr@);
    if t.len() <= limits.max_git_error_bytes {
        t
    } else {
        t.take(limits.max_git_error_bytes as int)
    }
}

/// The description of a failed Git command.
pub open spec fn git_error_text(operation: Seq<char>, o: GitOutput, limits: StateCaptureLimits) -> Seq<char> {
    let s = shown_stderr(o, limits);
    operation + " failed with status "@ + status_word(o.status_code) + if s.len() == 0 {
        Seq::empty()
    } else {
        ": "@ + s
    }
}

/// The error is a Git failure with exactly this description.
pub open spec fn capture_failed(e: ExecutionError, text: Seq<char>) -> bool {
    e matches ExecutionError::GitStateCapture(m) && m@ == text
}

pub open spec fn limit_exceeded(e: ExecutionError, what: Seq<char>) -> bool {
    e matches ExecutionError::GitOutputLimitExceeded(m) && m@ == what
}

pub open spec fn malformed(e: ExecutionError, text: Seq<char>) -> bool {
    e matches ExecutionError::MalformedGitOutput(m) && m@ == text
}

/// The error for a failed Git command.
pub fn git_command_error(operation: &str, output: &GitOutput, limits: &StateCaptureLimits) -> (r: ExecutionError)
    ensures
        capture_failed(r, git_error_text(operation@, *output, *limits)),
{
    let text = lossy_text(output.stderr.as_slice());
    let chars = chars_of(text.as_str());
    let n = if chars.len() <= limits.max_git_error_bytes {
        chars.len()
    } else {
        limits.max_git_error_bytes
    };
    let mut shown: Vec<char> = Vec::new();
    let mut i: usize = 0;
    while i < n
        invariant
            i <= n <= chars@.len(),
            shown@ == chars@.take(i as int),
        decreases n - i,
    {
        shown.push(chars[i]);
        i = i + 1;
        assert(shown@ =~= chars@.take(i as int));
    }
    assert(chars@.len() <= limits.max_git_error_bytes ==> chars@.take(n as int) =~= chars@);
    let mut m = owned(operation);
    push_str(&mut m, " failed with status ");
    let ghost base = m@;
    match output.status_code {
        Some(c) => {
            let s = status_label(Some(c));
            push_str(&mut m, s.as_str());
        },
        None => push_str(&mut m, "unknown"),
    }
    assert(m@ == base + status_word(output.status_code));
    if n > 0 {
        push_str(&mut m, ": ");
        let s = string_from_chars(shown.as_slice());
        push_str(&mut m, s.as_str());
    }
    proof {
        let s = shown_stderr(*output, *limits);
        assert(s =~= shown@);
        let word = status_word(output.status_code);
        if n == 0 {
            assert(m@ =~= operation@ + " failed with status "@ + word);
            assert(m@ =~= git_error_text(operation@, *output, *limits));
        } else {
            assert(m@ =~= operation@ + " failed with status "@ + word + ": "@ + s);
            assert(m@ =~= git_error_text(operation@, *output, *limits));
        }
    }
    ExecutionError::GitStateCapture(m)
}

/// The arguments of the command that finds the repository root.
pub fn repository_root_arguments() -> (r: Vec<String>)
    ensures
        crate::knowledge::operator::views(r@) == seq!["rev-parse"@, "--show-toplevel"@],
{
    let r = vec![owned("rev-parse"), owned("--show-toplevel")];
    assert(crate::knowledge::operator::views(r@) =~= seq!["rev-parse"@, "--show-toplevel"@]);
    r
}

/// The arguments of the command that names the commit checked out.
pub fn repository_head_arguments() -> (r: Vec<String>)
    ensures
        crate::knowledge::operator::views(r@) == seq!["rev-parse"@, "--verify"@, "HEAD^{commit}"@],
{
    let r = vec![owned("rev-parse"), owned("--verify"), owned("HEAD^{commit}")];
    assert(crate::knowledge::operator::views(r@) =~= seq!["rev-parse"@, "--verify"@, "HEAD^{commit}"@]);
    r
}

/// The arguments of the staged (`cached`) or unstaged diff of the project.
pub fn diff_arguments(cached: bool) -> (r: Vec<String>)
    ensures
        crate::knowledge::operator::views(r@) == seq!["diff"@, "--no-color"@, "--no-ext-diff"@, "--no-textconv"@, "--binary"@]
            + (if cached {
            seq!["--cached"@]
        } else {
            Seq::empty()
        }) + seq!["--"@, "."@],
{
    let mut r = vec![owned("diff"), owned("--no-color"), owned("--no-ext-diff"), owned("--no-textconv"), owned("--binary")];
    if cached {
        r.push(owned("--cached"));
    }
    r.push(owned("--"));
    r.push(owned("."));
    assert(crate::knowledge::operator::views(r@) =~= seq!["diff"@, "--no-color"@, "--no-ext-diff"@, "--no-textconv"@, "--binary"@]
        + (if cached {
        seq!["--cached"@]
    } else {
        Seq::empty()
    }) + seq!["--"@, "."@]);
    r
}

/// The arguments of the listing of the project's untracked, not ignored files.
pub fn untracked_arguments() -> (r: Vec<String>)
    ensures
        crate::knowledge::operator::views(r@) == seq!["ls-files"@, "--others"@, "--exclude-standard"@, "-z"@, "--"@, "."@],
{
    let r = vec![owned("ls-files"), owned("--others"), owned("--exclude-standard"), owned("-z"), owned("--"), owned(".")];
    assert(crate::knowledge::operator::views(r@) =~= seq!["ls-files"@, "--others"@, "--exclude-standard"@, "-z"@, "--"@, "."@]);
    r
}

/// The line a successful command printed, if it printed exactly one.
pub open spec fn line_of(o: GitOutput) -> Option<Seq<char>> {
    if vstd::utf8::valid_utf8(o.stdout@) && line_text_valid(strip_line_end(vstd::utf8::decode_utf8(o.stdout@))) {
        Some(strip_line_end(vstd::utf8::decode_utf8(o.stdout@)))
    } else {
        None
    }
}

/// Reads the repository root Git printed: output cut at the bound, a failed
/// command (status 128: not a repository), something other than one line,
/// or a relative path is refused.
pub fn repository_root_from(output: &GitOutput, limits: &StateCaptureLimits) -> (r: Result<String, ExecutionError>)
    ensures
        output.truncated ==> (r matches Err(e) && limit_exceeded(e, "repository root"@)),
        !output.truncated && !git_succeeded(*output) && output.status_code == Some(128i32) ==> r == Err::<
            String,
            ExecutionError,
        >(ExecutionError::NonGitExecutionUnsupported),
        !output.truncated && !git_succeeded(*output) && output.status_code != Some(128i32) ==> (r matches Err(e)
            && capture_failed(e, git_error_text("repository root"@, *output, *limits))),
        !output.truncated && git_succeeded(*output) && line_of(*output) is None ==> (r matches Err(e) && malformed(
            e,
            crate::execution::git::single_line_error(output.stdout@, "repository root"@),
        )),
        !output.truncated && git_succeeded(*output) && line_of(*output) is Some && !(line_of(*output)->0[0] == '/') ==> (r matches Err(
            e,
        ) && malformed(e, "Git returned a relative repository root"@)),
        r is Ok <==> !output.truncated && git_succeeded(*output) && line_of(*output) is Some && line_of(*output)->0[0]
            == '/',
        r matches Ok(p) ==> Some(p@) == line_of(*output),
{
    if output.truncated {
        return Err(ExecutionError::GitOutputLimitExceeded(owned("repository root")));
    }
    if output.status_code != Some(0i32) {
        if output.status_code == Some(128i32) {
            return Err(ExecutionError::NonGitExecutionUnsupported);
        }
        return Err(git_command_error("repository root", output, limits));
    }
    let line = single_line(output.stdout.as_slice(), "repository root")?;
    let chars = chars_of(line.as_str());
    if chars[0] != '/' {
        return Err(ExecutionError::MalformedGitOutput(owned("Git returned a relative repository root")));
    }
    Ok(line)
}

/// The project directory lies inside the repository: the paths are equal, or
/// the repository's path followed by a separator begins the project's.
pub open spec fn within_repository(project: Seq<char>, repository: Seq<char>) -> bool {
    project == repository || (repository.len() < project.len() && project.take(repository.len() as int)
        == repository && (repository.len() > 0 && repository.last() == '/' || project[repository.len() as int]
        == '/'))
}

/// Whether the (canonical) project directory lies inside the (canonical)
/// repository root, component by component.
pub fn project_within_repository(project: &str, repository: &str) -> (r: bool)
    ensures
        r == within_repository(project@, repository@),
{
    let p = chars_of(project);
    let q = chars_of(repository);
    if p.len() == q.len() {
        let mut i: usize = 0;
        while i < p.len()
            invariant
                i <= p@.len(),
                p@.len() == q@.len(),
                p@ == project@,
                q@ == repository@,
                forall|j: int| 0 <= j < i ==> p@[j] == q@[j],
            decreases p@.len() - i,
        {
            if p[i] != q[i] {
                assert(p@[i as int] != q@[i as int]);
                return false;
            }
            i = i + 1;
        }
        assert(p@ =~= q@);
        return true;
    }
    if q.len() > p.len() {
        return false;
    }
    let mut i: usize = 0;
    while i < q.len()
        invariant
            i <= q@.len() < p@.len(),
            p@ == project@,
            q@ == repository@,
            forall|j: int| 0 <= j < i ==> p@[j] == q@[j],
        decreases q@.len() - i,
    {
        if p[i] != q[i] {
            assert(p@.take(q@.len() as int)[i as int] != q@[i as int]);
            return false;
        }
        i = i + 1;
    }
    assert(p@.take(q@.len() as int) =~= q@);
    let n = q.len();
    (n > 0 && q[n - 1] == '/') || p[n] == '/'
}

/// A commit identifier: 40 or 64 hexadecimal digits.
pub open spec fn commit_id_valid(h: Seq<char>) -> bool {
    (h.len() == 40 || h.len() == 64) && forall|i: int| 0 <= i < h.len() ==> is_ascii_hexdigit(#[trigger] h[i])
}

/// Reads the commit Git printed for `HEAD`: output cut at the bound, a failed
/// command, something other than one line, or a line that is not a commit
/// identifier is refused.
pub fn repository_head_from(output: &GitOutput, limits: &StateCaptureLimits) -> (r: Result<String, ExecutionError>)
    ensures
        output.truncated ==> (r matches Err(e) && limit_exceeded(e, "repository HEAD"@)),
        !output.truncated && !git_succeeded(*output) ==> (r matches Err(e) && capture_failed(
            e,
            git_error_text("repository HEAD"@, *output, *limits),
        )),
        !output.truncated && git_succeeded(*output) && line_of(*output) is None ==> (r matches Err(e) && malformed(
            e,
            crate::execution::git::single_line_error(output.stdout@, "repository HEAD"@),
        )),
        !output.truncated && git_succeeded(*output) && line_of(*output) is Some && !commit_id_valid(line_of(*output)->0) ==> (r matches Err(
            e,
        ) && malformed(e, "Git returned an invalid commit identifier"@)),
        r is Ok <==> !output.truncated && git_succeeded(*output) && line_of(*output) is Some && commit_id_valid(
            line_of(*output)->0,
        ),
        r matches Ok(h) ==> Some(h@) == line_of(*output),
{
    if output.truncated {
        return Err(ExecutionError::GitOutputLimitExceeded(owned("repository HEAD")));
    }
    if output.status_code != Some(0i32) {
        return Err(git_command_error("repository HEAD", output, limits));
    }
    let head = single_line(output.stdout.as_slice(), "repository HEAD")?;
    let chars = chars_of(head.as_str());
    let mut ok = chars.len() == 40 || chars.len() == 64;
    let mut i: usize = 0;
    while ok && i < chars.len()
        invariant
            i <= chars@.len(),
            chars@ == head@,
            ok ==> (chars@.len() == 40 || chars@.len() == 64) && forall|j: int| 0 <= j < i ==> is_ascii_hexdigit(#[trigger] chars@[j]),
            !ok ==> !commit_id_valid(chars@),
        decreases chars@.len() - i,
    {
        if !crate::text::char_is_ascii_hexdigit(chars[i]) {
            ok = false;
        }
        i = i + 1;
    }
    if !ok {
        return Err(ExecutionError::MalformedGitOutput(owned("Git returned an invalid commit identifier")));
    }
    Ok(head)
}

/// The framed bytes of a text's UTF-8 form.
pub open spec fn utf8(s: Seq<char>) -> Seq<u8> {
    vstd::utf8::encode_utf8(s)
}

fn text_bytes(s: &str) -> (r: Vec<u8>)
    ensures
        r@ == utf8(s@),
{
    let b = s.as_bytes();
    let mut r: Vec<u8> = Vec::new();
    let mut i: usize = 0;
    while i < b.len()
        invariant
            i <= b@.len(),
            r@ == b@.take(i as int),
        decreases b@.len() - i,
    {
        r.push(b[i]);
        i = i + 1;
        assert(r@ =~= b@.take(i as int));
    }
    assert(b@.take(b@.len() as int) =~= b@);
    r
}

fn copy_bytes(b: &[u8]) -> (r: Vec<u8>)
    ensures
        r@ == b@,
{
    let mut r: Vec<u8> = Vec::new();
    let mut i: usize = 0;
    while i < b.len()
        invariant
            i <= b@.len(),
            r@ == b@.take(i as int),
        decreases b@.len() - i,
    {
        r.push(b[i]);
        i = i + 1;
        assert(r@ =~= b@.take(i as int));
    }
    assert(b@.take(b@.len() as int) =~= b@);
    r
}

/// The fingerprint of a diff: the staged one and the unstaged one in
/// separate domains.
pub open spec fn diff_fingerprint_spec(cached: bool, diff: Seq<u8>) -> Seq<char> {
    let domain = if cached {
        "astra-git-index-v1"@
    } else {
        "astra-git-worktree-v1"@
    };
    SHA256_PREFIX@ + sha256_hex(fields_message(utf8(domain), seq![(utf8("diff"@), diff)]))
}

/// Fingerprints a staged (`cached`) or unstaged diff: a failed command, or
/// output cut at the bound, is refused.
pub fn diff_fingerprint_from(output: &GitOutput, cached: bool, limits: &StateCaptureLimits) -> (r: Result<
    Fingerprint,
    ExecutionError,
>)
    ensures
        !git_succeeded(*output) ==> (r matches Err(e) && capture_failed(
            e,
            git_error_text(
                if cached {
                    "staged diff"@
                } else {
                    "worktree diff"@
                },
                *output,
                *limits,
            ),
        )),
        git_succeeded(*output) && output.truncated ==> (r matches Err(e) && limit_exceeded(
            e,
            if cached {
                "staged diff"@
            } else {
                "unstaged diff"@
            },
        )),
        r is Ok <==> git_succeeded(*output) && !output.truncated,
        r matches Ok(f) ==> f@ == diff_fingerprint_spec(cached, output.stdout@),
{
    if output.status_code != Some(0i32) {
        return Err(git_command_error(if cached { "staged diff" } else { "worktree diff" }, output, limits));
    }
    if output.truncated {
        return Err(ExecutionError::GitOutputLimitExceeded(owned(if cached { "staged diff" } else { "unstaged diff" })));
    }
    let domain = text_bytes(if cached { "astra-git-index-v1" } else { "astra-git-worktree-v1" });
    let mut fields: Vec<(Vec<u8>, Vec<u8>)> = Vec::new();
    fields.push((text_bytes("diff"), copy_bytes(output.stdout.as_slice())));
    let f = hash_fields(domain.as_slice(), &fields);
    assert(field_views(fields@) =~= seq![(utf8("diff"@), output.stdout@)]);
    Ok(f)
}

/// The paths of NUL-terminated output, decoded.
pub open spec fn nul_paths_of(bytes: Seq<u8>) -> Seq<Seq<char>> {
    if bytes.len() == 0 {
        Seq::empty()
    } else {
        crate::execution::git::nul_pieces(bytes.drop_last()).map_values(|p: Seq<u8>| vstd::utf8::decode_utf8(p))
    }
}

/// Reads the untracked paths Git listed, sorted: a failed command, output cut
/// at the bound, malformed output, or more files than the bound allows is
/// refused.
pub fn untracked_paths_from(output: &GitOutput, limits: &StateCaptureLimits) -> (r: Result<Vec<String>, ExecutionError>)
    ensures
        !git_succeeded(*output) ==> (r matches Err(e) && capture_failed(
            e,
            git_error_text("untracked file discovery"@, *output, *limits),
        )),
        git_succeeded(*output) && output.truncated ==> (r matches Err(e) && limit_exceeded(e, "untracked file discovery"@)),
        git_succeeded(*output) && !output.truncated && !crate::execution::git::nul_paths_valid(output.stdout@) ==> (r matches Err(e)
            && e is MalformedGitOutput),
        git_succeeded(*output) && !output.truncated && crate::execution::git::nul_paths_valid(output.stdout@)
            && nul_paths_of(output.stdout@).len() > limits.max_untracked_files ==> r == Err::<Vec<String>, ExecutionError>(
            ExecutionError::UntrackedStateLimitExceeded,
        ),
        r is Ok <==> git_succeeded(*output) && !output.truncated && crate::execution::git::nul_paths_valid(output.stdout@)
            && nul_paths_of(output.stdout@).len() <= limits.max_untracked_files,
        r matches Ok(v) ==> v@.len() == nul_paths_of(output.stdout@).len(),
        r matches Ok(v) ==> keys_sorted(v@),
        r matches Ok(v) ==> forall|i: int|
            0 <= i < v@.len() ==> nul_paths_of(output.stdout@).contains(#[trigger] v@[i]@),
        r matches Ok(v) ==> forall|j: int|
            0 <= j < nul_paths_of(output.stdout@).len() ==> #[trigger] lists_path(v@, nul_paths_of(output.stdout@)[j]),
{
    if output.status_code != Some(0i32) {
        return Err(git_command_error("untracked file discovery", output, limits));
    }
    if output.truncated {
        return Err(ExecutionError::GitOutputLimitExceeded(owned("untracked file discovery")));
    }
    let paths = parse_nul_paths(output.stdout.as_slice())?;
    let ghost parsed = paths@;
    let sorted = sort_stable(paths);
    proof {
        lemma_sorted_paths(parsed, sorted@, nul_paths_of(output.stdout@));
    }
    if sorted.len() > limits.max_untracked_files {
        return Err(ExecutionError::UntrackedStateLimitExceeded);
    }
    Ok(sorted)
}

/// One of the texts is the path.
pub open spec fn lists_path(s: Seq<String>, p: Seq<char>) -> bool {
    exists|i: int| 0 <= i < s.len() && (#[trigger] s[i])@ == p
}

proof fn lemma_sorted_paths(parsed: Seq<String>, sorted: Seq<String>, spec: Seq<Seq<char>>)
    requires
        crate::order::sorted_of(sorted, parsed),
        parsed.len() == spec.len(),
        forall|i: int| 0 <= i < parsed.len() ==> #[trigger] parsed[i]@ == spec[i],
    ensures
        sorted.len() == spec.len(),
        forall|i: int| 0 <= i < sorted.len() ==> spec.contains(#[trigger] sorted[i]@),
        forall|j: int| 0 <= j < spec.len() ==> #[trigger] lists_path(sorted, spec[j]),
{
    assert forall|i: int| 0 <= i < sorted.len() implies spec.contains(#[trigger] sorted[i]@) by {
        assert(parsed.contains(sorted[i]));
        let k = choose|k: int| 0 <= k < parsed.len() && parsed[k] == sorted[i];
        assert(spec[k] == sorted[i]@);
    }
    assert forall|j: int| 0 <= j < spec.len() implies #[trigger] lists_path(sorted, spec[j]) by {
        assert(parsed[j]@ == spec[j]);
        assert(sorted.contains(parsed[j]));
        let k = choose|k: int| 0 <= k < sorted.len() && sorted[k] == parsed[j];
        assert(sorted[k]@ == spec[j]);
    }
}

/// What an untracked path is.
#[derive(Debug, Clone, Copy, PartialEq, Eq, Structural)]
pub enum UntrackedKind {
    File,
    Symlink,
}

pub open spec fn kind_name(k: UntrackedKind) -> Seq<char> {
    match k {
        UntrackedKind::File => "file"@,
        UntrackedKind::Symlink => "symlink"@,
    }
}

/// One fingerprinted untracked path: where it is, what it is, its size, and
/// the fingerprint of its content (a file) or target (a symbolic link).
#[derive(Debug, Clone, PartialEq, Eq)]
pub struct UntrackedRecord {
    pub path: String,
    pub kind: UntrackedKind,
    pub size: u64,
    pub content: Fingerprint,
}

/// The fields an untracked record is fingerprinted with.
pub open spec fn record_fields(r: UntrackedRecord) -> Seq<(Seq<u8>, Seq<u8>)> {
    seq![
        (utf8("path"@), utf8(r.path@)),
        (utf8("kind"@), utf8(kind_name(r.kind))),
        (utf8("size"@), utf8(decimal(r.size as nat))),
        (utf8("content"@), utf8(r.content@)),
    ]
}

pub open spec fn records_fields(rs: Seq<UntrackedRecord>) -> Seq<(Seq<u8>, Seq<u8>)>
    decreases rs.len(),
{
    if rs.len() == 0 {
        Seq::empty()
    } else {
        records_fields(rs.drop_last()) + record_fields(rs.last())
    }
}

/// The fingerprint of a file's content.
pub open spec fn file_fingerprint_spec(content: Seq<u8>) -> Seq<char> {
    SHA256_PREFIX@ + sha256_hex(fields_message(utf8("astra-untracked-file-v1"@), seq![(utf8("content"@), content)]))
}

/// The fingerprint of a symbolic link's target.
pub open spec fn symlink_fingerprint_spec(target: Seq<char>) -> Seq<char> {
    SHA256_PREFIX@ + sha256_hex(fields_message(utf8("astra-untracked-symlink-v1"@), seq![(utf8("target"@), utf8(target))]))
}

/// The fingerprint of all untracked records, in order.
pub open spec fn untracked_fingerprint_spec(rs: Seq<UntrackedRecord>) -> Seq<char> {
    SHA256_PREFIX@ + sha256_hex(fields_message(utf8("astra-git-untracked-v1"@), records_fields(rs)))
}

fn file_fingerprint(content: &[u8]) -> (f: Fingerprint)
    ensures
        f@ == file_fingerprint_spec(content@),
{
    let domain = text_bytes("astra-untracked-file-v1");
    let mut fields: Vec<(Vec<u8>, Vec<u8>)> = Vec::new();
    fields.push((text_bytes("content"), copy_bytes(content)));
    assert(field_views(fields@) =~= seq![(utf8("content"@), content@)]);
    hash_fields(domain.as_slice(), &fields)
}

fn symlink_fingerprint(target_bytes: Vec<u8>) -> (f: Fingerprint)
    ensures
        f@ == SHA256_PREFIX@ + sha256_hex(fields_message(utf8("astra-untracked-symlink-v1"@), seq![(utf8("target"@), target_bytes@)])),
{
    let domain = text_bytes("astra-untracked-symlink-v1");
    let ghost b = target_bytes@;
    let mut fields: Vec<(Vec<u8>, Vec<u8>)> = Vec::new();
    fields.push((text_bytes("target"), target_bytes));
    assert(field_views(fields@) =~= seq![(utf8("target"@), b)]);
    hash_fields(domain.as_slice(), &fields)
}

/// The untracked paths fingerprinted so far, and the bytes they count
/// against the total bound.
#[derive(Debug)]
pub struct UntrackedRecorder {
    pub limits: StateCaptureLimits,
    pub total_bytes: u64,
    pub records: Vec<UntrackedRecord>,
}

impl UntrackedRecorder {
    /// One more path of this size fits: it is within the per-file bound, and
    /// the running total (saturating) stays within the total bound.
    pub open spec fn admits_spec(&self, size: u64) -> bool {
        size <= self.limits.max_untracked_file_bytes && self.total_bytes.saturating_add(size)
            <= self.limits.max_untracked_total_bytes
    }

    pub fn new(limits: StateCaptureLimits) -> (r: Self)
        ensures
            r.limits == limits,
            r.total_bytes == 0,
            r.records@.len() == 0,
    {
        UntrackedRecorder { limits, total_bytes: 0, records: Vec::new() }
    }

    /// Refuses a path whose size does not fit.
    pub fn check_size(&self, size: u64) -> (r: Result<(), ExecutionError>)
        ensures
            r is Ok <==> self.admits_spec(size),
            r matches Err(e) ==> e is UntrackedStateLimitExceeded,
    {
        if size > self.limits.max_untracked_file_bytes || self.total_bytes.saturating_add(size)
            > self.limits.max_untracked_total_bytes {
            return Err(ExecutionError::UntrackedStateLimitExceeded);
        }
        Ok(())
    }

    /// Records a regular file of the given size from the content read: a
    /// size that does not fit, or content longer than the per-file bound, is
    /// refused.
    pub fn record_file(&mut self, path: String, size: u64, content: &[u8]) -> (r: Result<(), ExecutionError>)
        ensures
            r is Ok <==> old(self).admits_spec(size) && content@.len() <= old(self).limits.max_untracked_file_bytes,
            !old(self).admits_spec(size) ==> r == Err::<(), ExecutionError>(ExecutionError::UntrackedStateLimitExceeded),
            old(self).admits_spec(size) && content@.len() > old(self).limits.max_untracked_file_bytes ==> (r matches Err(e)
                && e matches ExecutionError::UntrackedFileUnreadable { path: p, message: m } && p@ == path@ && m@
                == "untracked file exceeds the supported size"@),
            r is Err ==> *final(self) == *old(self),
            r is Ok ==> final(self).limits == old(self).limits && final(self).total_bytes == old(self).total_bytes.saturating_add(size)
                && final(self).records@.len() == old(self).records@.len() + 1 && final(self).records@.drop_last()
                == old(self).records@ && final(self).records@.last().path@ == path@ && final(self).records@.last().kind
                == UntrackedKind::File && final(self).records@.last().size == size
                && final(self).records@.last().content@ == file_fingerprint_spec(content@),
    {
        self.check_size(size)?;
        if content.len() as u64 > self.limits.max_untracked_file_bytes {
            return Err(ExecutionError::UntrackedFileUnreadable {
                path,
                message: owned("untracked file exceeds the supported size"),
            });
        }
        let f = file_fingerprint(content);
        let ghost before = self.records@;
        self.records.push(UntrackedRecord { path, kind: UntrackedKind::File, size, content: f });
        self.total_bytes = self.total_bytes.saturating_add(size);
        assert(self.records@.drop_last() =~= before);
        Ok(())
    }

    /// Records a symbolic link by its target, whose UTF-8 length counts as
    /// its size: a size that does not fit is refused.
    #[verifier::rlimit(40)]
    pub fn record_symlink(&mut self, path: String, target: &str) -> (r: Result<(), ExecutionError>)
        ensures
            r is Ok <==> utf8(target@).len() <= u64::MAX && old(self).admits_spec(utf8(target@).len() as u64),
            r is Err ==> r == Err::<(), ExecutionError>(ExecutionError::UntrackedStateLimitExceeded),
            r is Err ==> *final(self) == *old(self),
            r is Ok ==> final(self).limits == old(self).limits && final(self).total_bytes == old(self).total_bytes.saturating_add(
                utf8(target@).len() as u64,
            ) && final(self).records@.len() == old(self).records@.len() + 1 && final(self).records@.drop_last()
                == old(self).records@ && final(self).records@.last().path@ == path@ && final(self).records@.last().kind
                == UntrackedKind::Symlink && final(self).records@.last().size == utf8(target@).len()
                && final(self).records@.last().content@ == symlink_fingerprint_spec(target@),
    {
        let bytes = text_bytes(target);
        if bytes.len() as u64 > self.limits.max_untracked_file_bytes {
            return Err(ExecutionError::UntrackedStateLimitExceeded);
        }
        let size = bytes.len() as u64;
        self.check_size(size)?;
        let f = symlink_fingerprint(bytes);
        let ghost before = self.records@;
        self.records.push(UntrackedRecord { path, kind: UntrackedKind::Symlink, size, content: f });
        self.total_bytes = self.total_bytes.saturating_add(size);
        assert(self.records@.drop_last() =~= before);
        Ok(())
    }

    /// The fingerprint of every record, in the order recorded.
    pub fn fingerprint(&self) -> (r: Fingerprint)
        ensures
            r@ == untracked_fingerprint_spec(self.records@),
    {
        let mut fields: Vec<(Vec<u8>, Vec<u8>)> = Vec::new();
        let mut i: usize = 0;
        while i < self.records.len()
            invariant
                i <= self.records@.len(),
                field_views(fields@) == records_fields(self.records@.take(i as int)),
            decreases self.records@.len() - i,
        {
            let r = &self.records[i];
            let ghost before = fields@;
            fields.push((text_bytes("path"), text_bytes(r.path.as_str())));
            fields.push((text_bytes("kind"), text_bytes(match r.kind {
                UntrackedKind::File => "file",
                UntrackedKind::Symlink => "symlink",
            })));
            let size = decimal_string(r.size);
            fields.push((text_bytes("size"), text_bytes(size.as_str())));
            fields.push((text_bytes("content"), text_bytes(r.content.as_str())));
            proof {
                let pre = self.records@.take(i as int);
                assert(self.records@.take(i + 1).drop_last() =~= pre);
                assert(field_views(fields@) =~= field_views(before) + record_fields(self.records@[i as int]));
            }
            i = i + 1;
        }
        assert(self.records@.take(self.records@.len() as int) =~= self.records@);
        let domain = text_bytes("astra-git-untracked-v1");
        hash_fields(domain.as_slice(), &fields)
    }
}

} // verus!
