//! What a transfer decides about local files: which files may be uploaded,
//! whether a source has changed, how much of it is read, and under which name
//! a download is published.

use vstd::prelude::*;
use vstd::string::*;
use vstd::utf8::valid_utf8;

use crate::zmodem_runtime::{
    checked_name, error, numbered_name, renamed_name, safe_name, storage_error, text_result,
    ErrorKind, ErrorView, OverwritePolicy, PathBytes, TransferError, MAX_INPUT_CHUNK,
    RENAME_ATTEMPTS,
};
use crate::text::from_utf8;
use crate::zmodem_worker::{SourceView, UploadSource};

verus! {

/// What becomes of the last component of a selected path.
pub open spec fn checked_upload_name(file_name: Option<Seq<u8>>) -> Result<Seq<char>, ErrorView> {
    match file_name {
        Some(bytes) if valid_utf8(bytes) => checked_name(bytes),
        _ => Err(
            ErrorView { kind: ErrorKind::UnsafeName, message: "Invalid upload file name"@ },
        ),
    }
}

/// The name under which a selected path is uploaded: its last component, if it
/// has one.
pub fn upload_name(file_name: Option<&[u8]>) -> (r: Result<String, TransferError>)
    ensures
        text_result(r) == checked_upload_name(
            match file_name {
                Some(bytes) => Some(bytes@),
                None => None,
            },
        ),
{
    match file_name {
        Some(bytes) => {
            if from_utf8(bytes).is_none() {
                return Err(error(ErrorKind::UnsafeName, "Invalid upload file name"));
            }
            safe_name(bytes)
        },
        None => Err(error(ErrorKind::UnsafeName, "Invalid upload file name")),
    }
}

/// A file that may be uploaded is a regular one whose size fits the protocol.
pub fn inspect_source(path: PathBytes, name: String, is_file: bool, len: u64) -> (r: Result<
    UploadSource,
    TransferError,
>)
    ensures
        match r {
            Ok(source) => is_file && len <= u32::MAX && source@ == (SourceView {
                path: path@,
                name: name@,
                len: len as u32,
            }),
            Err(failure) => failure@ == if !is_file {
                ErrorView {
                    kind: ErrorKind::Configuration,
                    message: "Uploads must be regular files, not links or devices"@,
                }
            } else {
                ErrorView {
                    kind: ErrorKind::FileTooLarge,
                    message: "ZMODEM files cannot exceed u32::MAX bytes"@,
                }
            },
        },
        r is Ok <==> is_file && len <= u32::MAX,
{
    if !is_file {
        return Err(
            error(
                ErrorKind::Configuration,
                "Uploads must be regular files, not links or devices",
            ),
        );
    }
    if len > 0xffff_ffff {
        return Err(error(ErrorKind::FileTooLarge, "ZMODEM files cannot exceed u32::MAX bytes"));
    }
    Ok(UploadSource { path, name, len: len as u32 })
}

/// What identifies a file and its contents.
#[derive(Clone, Copy, Debug, PartialEq, Eq)]
pub struct Snapshot {
    pub len: u64,
    /// Modification time in nanoseconds around the epoch, if it is known.
    pub modified: Option<i128>,
    /// Device, inode, and the time of the last status change.
    pub identity: (u64, u64, i64, i64),
}

impl Snapshot {
    /// Whether two snapshots show the same file unchanged.
    pub fn same(&self, other: &Snapshot) -> (r: bool)
        ensures
            r == (*self == *other),
    {
        let modified: bool = match (self.modified, other.modified) {
            (Some(first), Some(second)) => first == second,
            (None, None) => true,
            _ => false,
        };
        modified && self.len == other.len && self.identity.0 == other.identity.0
            && self.identity.1 == other.identity.1 && self.identity.2 == other.identity.2
            && self.identity.3 == other.identity.3
    }
}

/// A file as it is seen now.
#[derive(Clone, Copy, Debug, PartialEq, Eq)]
pub struct Sighting {
    pub is_file: bool,
    pub snapshot: Snapshot,
}

/// Checks that a source is still the file that was selected, through its open
/// descriptor and through its path.
pub fn validate_source(expected: &Snapshot, descriptor: &Sighting, path: &Sighting) -> (r: Result<
    (),
    TransferError,
>)
    ensures
        match r {
            Ok(_) => descriptor.is_file && path.is_file && descriptor.snapshot == *expected
                && path.snapshot == *expected,
            Err(failure) => {
                &&& !(descriptor.is_file && path.is_file && descriptor.snapshot == *expected
                    && path.snapshot == *expected)
                &&& failure@ == (ErrorView {
                    kind: ErrorKind::SourceChanged,
                    message: "Upload source changed during transfer"@,
                })
            },
        },
{
    if !descriptor.is_file || !path.is_file || !descriptor.snapshot.same(expected)
        || !path.snapshot.same(expected) {
        return Err(error(ErrorKind::SourceChanged, "Upload source changed during transfer"));
    }
    Ok(())
}

/// How many bytes a read from `offset` may take at most.
pub open spec fn read_limit(len: u64, offset: u32, requested: usize) -> int {
    let remaining = len - offset;
    if requested <= MAX_INPUT_CHUNK && requested <= remaining {
        requested as int
    } else if MAX_INPUT_CHUNK <= remaining {
        MAX_INPUT_CHUNK as int
    } else {
        remaining
    }
}

/// How many bytes of a source of `len` bytes are read from `offset` on.
pub fn read_length(len: u64, offset: u32, requested: usize) -> (r: Result<usize, TransferError>)
    ensures
        match r {
            Ok(count) => offset <= len && count == read_limit(len, offset, requested) && count
                > 0,
            Err(failure) => failure@ == if offset > len {
                ErrorView {
                    kind: ErrorKind::Protocol,
                    message: "Peer requested an invalid file offset"@,
                }
            } else {
                ErrorView { kind: ErrorKind::SourceChanged, message: "Unexpected upload EOF"@ }
            },
        },
        r is Ok <==> offset <= len && read_limit(len, offset, requested) > 0,
{
    if offset as u64 > len {
        return Err(error(ErrorKind::Protocol, "Peer requested an invalid file offset"));
    }
    let remaining: u64 = len - offset as u64;
    let bounded: usize = if requested <= MAX_INPUT_CHUNK {
        requested
    } else {
        MAX_INPUT_CHUNK
    };
    let length: usize = if bounded as u64 <= remaining {
        bounded
    } else {
        remaining as usize
    };
    if length == 0 {
        return Err(error(ErrorKind::SourceChanged, "Unexpected upload EOF"));
    }
    Ok(length)
}

/// What came of one attempt to publish a download.
pub enum Attempt {
    Persisted,
    /// The name was taken, and nothing was replaced.
    Taken,
    Failed(TransferError),
}

/// How a download is published next.
pub enum PublishStep {
    /// Put the file in place of whatever has the name.
    Replace(String),
    /// Put the file under the name unless it is taken.
    Create(String),
    /// The file stands under the name of the last attempt.
    Published,
    /// Nothing is published.
    Skipped,
    Failed(TransferError),
}

/// How a download is published next, over plain values.
pub ghost enum PublishStepView {
    Replace(Seq<char>),
    Create(Seq<char>),
    Published,
    Skipped,
    Failed(ErrorView),
}

impl View for PublishStep {
    type V = PublishStepView;

    open spec fn view(&self) -> PublishStepView {
        match *self {
            PublishStep::Replace(name) => PublishStepView::Replace(name@),
            PublishStep::Create(name) => PublishStepView::Create(name@),
            PublishStep::Published => PublishStepView::Published,
            PublishStep::Skipped => PublishStepView::Skipped,
            PublishStep::Failed(failure) => PublishStepView::Failed(failure@),
        }
    }
}

/// The name of the attempt `index`: the file's own name first, then numbered
/// ones.
pub open spec fn attempt_name(name: Seq<char>, index: u64) -> Seq<char> {
    if index == 0 {
        name
    } else {
        numbered_name(name, index)
    }
}

/// The first attempt to publish a download: only the policy to overwrite
/// replaces a file.
pub fn first_attempt(policy: OverwritePolicy, name: &String) -> (r: PublishStep)
    ensures
        r@ == match policy {
            OverwritePolicy::Overwrite => PublishStepView::Replace(name@),
            _ => PublishStepView::Create(name@),
        },
{
    match policy {
        OverwritePolicy::Overwrite => PublishStep::Replace(name.clone()),
        _ => PublishStep::Create(name.clone()),
    }
}

/// What follows the attempt `index`.
pub open spec fn step_after(
    policy: OverwritePolicy,
    name: Seq<char>,
    index: u64,
    attempt: Attempt,
) -> PublishStepView {
    match attempt {
        Attempt::Persisted => PublishStepView::Published,
        Attempt::Failed(failure) => PublishStepView::Failed(failure@),
        Attempt::Taken => match policy {
            OverwritePolicy::Skip => PublishStepView::Skipped,
            OverwritePolicy::Overwrite => PublishStepView::Failed(
                ErrorView {
                    kind: ErrorKind::Storage,
                    message: "Local file operation failed ("@ + "AlreadyExists"@ + ")"@,
                },
            ),
            OverwritePolicy::Rename => if index + 1 < RENAME_ATTEMPTS {
                PublishStepView::Create(attempt_name(name, (index + 1) as u64))
            } else {
                PublishStepView::Failed(
                    ErrorView {
                        kind: ErrorKind::Storage,
                        message: "No available download name after 10000 attempts"@,
                    },
                )
            },
        },
    }
}

/// Decides what follows the attempt `index` to publish a download.
pub fn next_attempt(policy: OverwritePolicy, name: &String, index: u64, attempt: Attempt) -> (r:
    PublishStep)
    ensures
        r@ == step_after(policy, name@, index, attempt),
{
    match attempt {
        Attempt::Persisted => PublishStep::Published,
        Attempt::Failed(failure) => PublishStep::Failed(failure),
        Attempt::Taken => match policy {
            OverwritePolicy::Skip => PublishStep::Skipped,
            OverwritePolicy::Overwrite => PublishStep::Failed(storage_error("AlreadyExists")),
            OverwritePolicy::Rename => {
                if index < RENAME_ATTEMPTS - 1 {
                    PublishStep::Create(renamed_name(name.as_str(), index + 1))
                } else {
                    PublishStep::Failed(
                        error(
                            ErrorKind::Storage,
                            "No available download name after 10000 attempts",
                        ),
                    )
                }
            },
        },
    }
}

/// A file is replaced only under the policy to overwrite: under any other one
/// every attempt leaves a taken name alone.
pub proof fn law_only_overwriting_replaces(
    policy: OverwritePolicy,
    name: Seq<char>,
    index: u64,
    attempt: Attempt,
)
    ensures
        !(step_after(policy, name, index, attempt) is Replace),
        step_after(policy, name, index, attempt) is Skipped ==> policy is Skip,
        step_after(policy, name, index, attempt) is Published ==> attempt is Persisted,
{
}

/// No two numbered attempts at the same download use the same name.
pub proof fn law_attempts_use_different_names(name: Seq<char>, first: u64, second: u64)
    requires
        first != second,
        first > 0,
        second > 0,
    ensures
        attempt_name(name, first) != attempt_name(name, second),
{
    crate::zmodem_runtime::law_numbered_names_differ(name, first, second);
}

/// A read takes as much as was asked for, unless that is more than a chunk may
/// hold or than the file has left.
pub proof fn law_reads_take_what_is_there(len: u64, offset: u32, requested: usize)
    requires
        offset <= len,
    ensures
        ({
            let limit = read_limit(len, offset, requested);
            &&& 0 <= limit <= requested
            &&& limit <= 16_384
            &&& offset + limit <= len
            &&& limit == requested || limit == 16_384 || offset + limit == len
        }),
{
}

/// A taken name ends a publication as the policy says: it is given up, it has
/// failed, or the next number is tried as long as there is one.
pub proof fn law_taken_names_follow_the_policy(name: Seq<char>, index: u64)
    ensures
        step_after(OverwritePolicy::Skip, name, index, Attempt::Taken) is Skipped,
        step_after(OverwritePolicy::Overwrite, name, index, Attempt::Taken) matches PublishStepView::Failed(
            failure,
        ) && failure.kind is Storage,
        index < 9_999 ==> step_after(OverwritePolicy::Rename, name, index, Attempt::Taken)
            == PublishStepView::Create(numbered_name(name, (index + 1) as u64)),
        index >= 9_999 ==> (step_after(
            OverwritePolicy::Rename,
            name,
            index,
            Attempt::Taken,
        ) matches PublishStepView::Failed(failure) && failure.kind is Storage && failure.message
            == "No available download name after 10000 attempts"@),
        attempt_name(name, 0) == name,
{
}

/// Whatever the policy, a stored file is published and a failure is passed on.
pub proof fn law_attempts_end_as_they_went(
    policy: OverwritePolicy,
    name: Seq<char>,
    index: u64,
    failure: TransferError,
)
    ensures
        step_after(policy, name, index, Attempt::Persisted) is Published,
        step_after(policy, name, index, Attempt::Failed(failure)) == PublishStepView::Failed(
            failure@,
        ),
{
}

/// A selected path is uploaded under its last component if that is a safe name,
/// and under no other.
pub proof fn law_uploads_keep_their_name(name: Seq<char>)
    ensures
        crate::zmodem_runtime::is_safe_name(name) ==> checked_upload_name(
            Some(vstd::utf8::encode_utf8(name)),
        ) == Ok::<Seq<char>, ErrorView>(name),
        !crate::zmodem_runtime::is_safe_name(name) ==> checked_upload_name(
            Some(vstd::utf8::encode_utf8(name)),
        ) is Err,
        checked_upload_name(None) is Err,
{
    vstd::utf8::encode_utf8_valid_utf8(name);
    vstd::utf8::encode_utf8_decode_utf8(name);
}

} // verus!
