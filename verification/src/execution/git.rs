//! Reading Git's output: single lines, NUL-separated paths, and safe
//! project-relative paths.
use vstd::prelude::*;
use crate::text::{chars_of, concat2, decimal, owned, push_decimal, push_str, string_from_chars, utf8_text};

verus! {

/// Why execution or its state capture was refused.
#[derive(Debug, Clone, PartialEq, Eq)]
pub enum ExecutionError {
    NonGitExecutionUnsupported,
    UnsupportedExecutionAction,
    UnsupportedPlanSchema(u32),
    UnsupportedPolicyVersion(u32),
    InvalidProjectRoot(String),
    ProjectRootChanged,
    InvalidWorkingDirectory(String),
    WorkingDirectoryOutsideProject(String),
    StateFingerprintMismatch,
    ActionFingerprintMismatch,
    PlanFingerprintMismatch,
    GitStateCapture(String),
    MalformedGitOutput(String),
    GitOutputLimitExceeded(String),
    GitCommandTimedOut(String),
    UntrackedStateLimitExceeded,
    UntrackedFileUnreadable { path: String, message: String },
    SpawnFailed { executable: String, message: String },
    PolicyRejected(String),
    OutputForwardFailed(String),
    PostExecutionStateCapture(String),
    Interrupted,
}

impl ExecutionError {
    /// The text of the error as the user reads it.
    pub open spec fn message_spec(&self) -> Seq<char> {
        match self {
            ExecutionError::NonGitExecutionUnsupported => "real execution currently requires a Git repository"@,
            ExecutionError::UnsupportedExecutionAction => "real execution currently supports only the check action"@,
            ExecutionError::UnsupportedPlanSchema(n) => "unsupported execution plan schema version: "@ + decimal(*n as nat),
            ExecutionError::UnsupportedPolicyVersion(n) => "unsupported action policy version: "@ + decimal(*n as nat),
            ExecutionError::InvalidProjectRoot(s) => "project root does not exist or is not a directory: "@ + s@,
            ExecutionError::ProjectRootChanged => "project root changed after planning; execution refused"@,
            ExecutionError::InvalidWorkingDirectory(s) => "working directory changed or is no longer valid: "@ + s@,
            ExecutionError::WorkingDirectoryOutsideProject(s) => "working directory is outside the project root: "@ + s@,
            ExecutionError::StateFingerprintMismatch => "project state changed after planning; execution refused"@,
            ExecutionError::ActionFingerprintMismatch => "action fingerprint no longer matches the authorized plan"@,
            ExecutionError::PlanFingerprintMismatch => "execution plan fingerprint is invalid"@,
            ExecutionError::GitStateCapture(s) => "Git state capture failed: "@ + s@,
            ExecutionError::MalformedGitOutput(s) => "Git output was malformed: "@ + s@,
            ExecutionError::GitOutputLimitExceeded(s) => "Git output exceeded the supported bound: "@ + s@,
            ExecutionError::GitCommandTimedOut(s) => "Git state capture timed out during "@ + s@,
            ExecutionError::UntrackedStateLimitExceeded => "untracked source state exceeds execution fingerprint limits"@,
            ExecutionError::PolicyRejected(s) => "policy rejected the action: "@ + s@,
            ExecutionError::OutputForwardFailed(s) => "could not forward child output: "@ + s@,
            ExecutionError::PostExecutionStateCapture(s) => "could not capture source state after execution: "@ + s@,
            ExecutionError::Interrupted => "execution process was interrupted"@,
            ExecutionError::UntrackedFileUnreadable { path, message } => "unable to fingerprint untracked file "@ + path@ + ": "@ + message@,
            ExecutionError::SpawnFailed { executable, message } => "cannot execute "@ + executable@ + ": "@ + message@,
        }
    }

    pub fn message(&self) -> (r: String)
        ensures
            r@ == self.message_spec(),
    {
        match self {
            ExecutionError::NonGitExecutionUnsupported => owned("real execution currently requires a Git repository"),
            ExecutionError::UnsupportedExecutionAction => owned("real execution currently supports only the check action"),
            ExecutionError::UnsupportedPlanSchema(n) => {
                let mut r = owned("unsupported execution plan schema version: ");
                push_decimal(&mut r, *n as u64);
                r
            },
            ExecutionError::UnsupportedPolicyVersion(n) => {
                let mut r = owned("unsupported action policy version: ");
                push_decimal(&mut r, *n as u64);
                r
            },
            ExecutionError::InvalidProjectRoot(s) => concat2("project root does not exist or is not a directory: ", s.as_str()),
            ExecutionError::ProjectRootChanged => owned("project root changed after planning; execution refused"),
            ExecutionError::InvalidWorkingDirectory(s) => concat2("working directory changed or is no longer valid: ", s.as_str()),
            ExecutionError::WorkingDirectoryOutsideProject(s) => concat2("working directory is outside the project root: ", s.as_str()),
            ExecutionError::StateFingerprintMismatch => owned("project state changed after planning; execution refused"),
            ExecutionError::ActionFingerprintMismatch => owned("action fingerprint no longer matches the authorized plan"),
            ExecutionError::PlanFingerprintMismatch => owned("execution plan fingerprint is invalid"),
            ExecutionError::GitStateCapture(s) => concat2("Git state capture failed: ", s.as_str()),
            ExecutionError::MalformedGitOutput(s) => concat2("Git output was malformed: ", s.as_str()),
            ExecutionError::GitOutputLimitExceeded(s) => concat2("Git output exceeded the supported bound: ", s.as_str()),
            ExecutionError::GitCommandTimedOut(s) => concat2("Git state capture timed out during ", s.as_str()),
            ExecutionError::UntrackedStateLimitExceeded => owned("untracked source state exceeds execution fingerprint limits"),
            ExecutionError::PolicyRejected(s) => concat2("policy rejected the action: ", s.as_str()),
            ExecutionError::OutputForwardFailed(s) => concat2("could not forward child output: ", s.as_str()),
            ExecutionError::PostExecutionStateCapture(s) => concat2("could not capture source state after execution: ", s.as_str()),
            ExecutionError::Interrupted => owned("execution process was interrupted"),
            ExecutionError::UntrackedFileUnreadable { path, message } => {
                let mut r = concat2("unable to fingerprint untracked file ", path.as_str());
                push_str(&mut r, ": ");
                push_str(&mut r, message.as_str());
                r
            },
            ExecutionError::SpawnFailed { executable, message } => {
                let mut r = concat2("cannot execute ", executable.as_str());
                push_str(&mut r, ": ");
                push_str(&mut r, message.as_str());
                r
            },
        }
    }
}

/// The text with one trailing line feed, then one trailing carriage return, removed.
pub open spec fn strip_line_end(t: Seq<char>) -> Seq<char> {
    let a = if t.len() > 0 && t.last() == '\n' { t.drop_last() } else { t };
    if a.len() > 0 && a.last() == '\r' { a.drop_last() } else { a }
}

pub open spec fn line_text_valid(t: Seq<char>) -> bool {
    &&& t.len() > 0
    &&& forall|i: int| 0 <= i < t.len() ==> (#[trigger] t[i]) != '\n' && t[i] != '\r' && t[i] != '\0'
}

/// Why a single line was refused: it was not UTF-8, or it was empty or held
/// a line break or NUL.
pub open spec fn single_line_error(bytes: Seq<u8>, label: Seq<char>) -> Seq<char> {
    if vstd::utf8::valid_utf8(bytes) {
        "Git returned an invalid "@ + label
    } else {
        label + " was not UTF-8"@
    }
}

/// A single line of UTF-8 output, without its line ending; empty lines and
/// embedded line breaks or NULs are refused.
pub fn single_line(bytes: &[u8], label: &str) -> (r: Result<String, ExecutionError>)
    ensures
        r is Ok <==> vstd::utf8::valid_utf8(bytes@) && line_text_valid(strip_line_end(vstd::utf8::decode_utf8(bytes@))),
        r matches Ok(s) ==> s@ == strip_line_end(vstd::utf8::decode_utf8(bytes@)),
        r matches Err(e) ==> e matches ExecutionError::MalformedGitOutput(m) && m@ == single_line_error(bytes@, label@),
{
    let text = match utf8_text(bytes) {
        Ok(t) => t,
        Err(_) => {
            let mut m = owned(label);
            crate::text::push_str(&mut m, " was not UTF-8");
            return Err(ExecutionError::MalformedGitOutput(m));
        },
    };
    let chars = chars_of(text);
    let mut end = chars.len();
    if end > 0 && chars[end - 1] == '\n' {
        end = end - 1;
    }
    if end > 0 && chars[end - 1] == '\r' {
        end = end - 1;
    }
    let ghost stripped = strip_line_end(chars@);
    assert(stripped =~= chars@.take(end as int));
    let mut out: Vec<char> = Vec::new();
    let mut i: usize = 0;
    while i < end
        invariant
            i <= end <= chars@.len(),
            chars@ == vstd::utf8::decode_utf8(bytes@),
            vstd::utf8::valid_utf8(bytes@),
            stripped == strip_line_end(chars@),
            stripped == chars@.take(end as int),
            out@ == chars@.take(i as int),
            forall|j: int| 0 <= j < i ==> (#[trigger] chars@[j]) != '\n' && chars@[j] != '\r' && chars@[j] != '\0',
        decreases end - i,
    {
        let c = chars[i];
        if c == '\n' || c == '\r' || c == '\0' {
            let mut m = owned("Git returned an invalid ");
            crate::text::push_str(&mut m, label);
            assert(stripped[i as int] == c);
            return Err(ExecutionError::MalformedGitOutput(m));
        }
        out.push(c);
        i = i + 1;
        assert(out@ =~= chars@.take(i as int));
    }
    if end == 0 {
        let mut m = owned("Git returned an invalid ");
        crate::text::push_str(&mut m, label);
        return Err(ExecutionError::MalformedGitOutput(m));
    }
    Ok(string_from_chars(out.as_slice()))
}

/// The NUL-separated pieces of the bytes before their final NUL.
pub open spec fn nul_pieces(bytes: Seq<u8>) -> Seq<Seq<u8>>
    decreases bytes.len(),
{
    if bytes.len() == 0 {
        seq![Seq::empty()]
    } else {
        let rest = nul_pieces(bytes.drop_last());
        if bytes.last() == 0u8 {
            rest.push(Seq::empty())
        } else {
            rest.update(rest.len() - 1, rest.last().push(bytes.last()))
        }
    }
}

proof fn lemma_nul_pieces_nonempty(bytes: Seq<u8>)
    ensures
        nul_pieces(bytes).len() >= 1,
    decreases bytes.len(),
{
    if bytes.len() > 0 {
        lemma_nul_pieces_nonempty(bytes.drop_last());
    }
}

/// The paths of NUL-terminated output: each valid UTF-8 and non-empty.
pub open spec fn nul_paths_valid(bytes: Seq<u8>) -> bool {
    bytes.len() == 0 || (bytes.last() == 0u8 && forall|i: int|
        0 <= i < nul_pieces(bytes.drop_last()).len() ==> vstd::utf8::valid_utf8(#[trigger] nul_pieces(bytes.drop_last())[i])
            && nul_pieces(bytes.drop_last())[i].len() > 0)
}

pub fn parse_nul_paths(bytes: &[u8]) -> (r: Result<Vec<String>, ExecutionError>)
    ensures
        r is Ok <==> nul_paths_valid(bytes@),
        r matches Ok(paths) ==> (bytes@.len() == 0 ==> paths@.len() == 0) && (bytes@.len() > 0 ==> (
            paths@.len() == nul_pieces(bytes@.drop_last()).len() && forall|i: int| 0 <= i < paths@.len()
                ==> (#[trigger] paths@[i])@ == vstd::utf8::decode_utf8(nul_pieces(bytes@.drop_last())[i]))),
        r matches Err(e) ==> e is MalformedGitOutput,
{
    if bytes.len() == 0 {
        return Ok(Vec::new());
    }
    if bytes[bytes.len() - 1] != 0u8 {
        return Err(ExecutionError::MalformedGitOutput(owned("untracked file output was not NUL-terminated")));
    }
    let n = bytes.len() - 1;
    let ghost body = bytes@.drop_last();
    let mut pieces: Vec<Vec<u8>> = Vec::new();
    let mut current: Vec<u8> = Vec::new();
    let mut i: usize = 0;
    assert(body.take(0) =~= Seq::<u8>::empty());
    while i < n
        invariant
            i <= n,
            n == bytes@.len() - 1,
            body == bytes@.drop_last(),
            pieces@.map_values(|p: Vec<u8>| p@).push(current@) == nul_pieces(body.take(i as int)),
        decreases n - i,
    {
        let b = bytes[i];
        let ghost prev = pieces@.map_values(|p: Vec<u8>| p@).push(current@);
        proof {
            assert(body.take(i + 1).drop_last() =~= body.take(i as int));
            assert(body.take(i + 1).last() == b);
        }
        if b == 0u8 {
            let done = current;
            pieces.push(done);
            current = Vec::new();
            assert(pieces@.map_values(|p: Vec<u8>| p@).push(current@) =~= prev.push(Seq::empty()));
        } else {
            current.push(b);
            assert(pieces@.map_values(|p: Vec<u8>| p@).push(current@) =~= prev.update(prev.len() - 1, prev.last().push(b)));
        }
        i = i + 1;
    }
    assert(body.take(n as int) =~= body);
    pieces.push(current);
    let ghost all = pieces@.map_values(|p: Vec<u8>| p@);
    assert(all == nul_pieces(body));
    let mut paths: Vec<String> = Vec::new();
    let mut k: usize = 0;
    while k < pieces.len()
        invariant
            k <= pieces@.len(),
            all == pieces@.map_values(|p: Vec<u8>| p@),
            all == nul_pieces(body),
            body == bytes@.drop_last(),
            bytes@.len() > 0 && bytes@.last() == 0u8,
            paths@.len() == k,
            forall|j: int| 0 <= j < k ==> vstd::utf8::valid_utf8(#[trigger] all[j]) && all[j].len() > 0
                && paths@[j]@ == vstd::utf8::decode_utf8(all[j]),
        decreases pieces@.len() - k,
    {
        let piece = &pieces[k];
        assert(piece@ == all[k as int]);
        let text = match utf8_text(piece.as_slice()) {
            Ok(t) => t,
            Err(_) => {
                assert(!nul_paths_valid(bytes@));
                return Err(ExecutionError::MalformedGitOutput(owned("untracked path was not valid UTF-8")));
            },
        };
        if piece.len() == 0 {
            assert(!nul_paths_valid(bytes@));
            return Err(ExecutionError::MalformedGitOutput(owned("untracked output contained an empty path")));
        }
        paths.push(owned(text));
        k = k + 1;
    }
    Ok(paths)
}

/// A repository-relative path that stays inside the project: not absolute,
/// and no `..` component.
pub open spec fn relative_path_safe(p: Seq<char>) -> bool {
    &&& !(p.len() > 0 && p[0] == '/')
    &&& !has_parent_component(p)
}

/// Some `/`-separated component is exactly `..`.
pub open spec fn has_parent_component(p: Seq<char>) -> bool {
    exists|i: int| #[trigger] parent_at(p, i)
}

/// A `..` component starts at `i`.
pub open spec fn parent_at(p: Seq<char>, i: int) -> bool {
    0 <= i && i + 2 <= p.len() && p[i] == '.' && p[i + 1] == '.' && (i == 0 || p[i - 1] == '/') && (i + 2
        == p.len() || p[i + 2] == '/')
}

pub fn project_relative_path(repository_relative: &str) -> (r: Result<String, ExecutionError>)
    ensures
        r is Ok <==> relative_path_safe(repository_relative@),
        r matches Ok(p) ==> p@ == repository_relative@,
        r matches Err(e) ==> e is MalformedGitOutput,
{
    let p = chars_of(repository_relative);
    if p.len() > 0 && p[0] == '/' {
        return Err(ExecutionError::MalformedGitOutput(owned("Git returned an unsafe untracked path")));
    }
    let mut i: usize = 0;
    while p.len() >= 2 && i <= p.len() - 2
        invariant
            p@ == repository_relative@,
            i <= p@.len(),
            forall|j: int| 0 <= j < i ==> !#[trigger] parent_at(p@, j),
        decreases p@.len() - i,
    {
        if p[i] == '.' && p[i + 1] == '.' && (i == 0 || p[i - 1] == '/') && (i + 2 == p.len() || p[i + 2] == '/') {
            assert(parent_at(p@, i as int));
            return Err(ExecutionError::MalformedGitOutput(owned("Git returned an unsafe untracked path")));
        }
        i = i + 1;
    }
    assert forall|j: int| !parent_at(p@, j) by {
        if 0 <= j && j + 2 <= p@.len() {
            assert(j < i);
        }
    }
    Ok(owned(repository_relative))
}

} // verus!
