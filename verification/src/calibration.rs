//! Source locks and observation counts of the empirical calibration adapters.
//!
//! Reading files from disk is left to the caller, who hands over their bytes
//! (or why they could not be read); hashing them, finding ZIP members in
//! them, and deciding whether a catalog's locks hold, and which failure is
//! reported, is done here.

use vstd::prelude::*;
use crate::benchmark::DatasetRole;
use crate::evidence::{
    catalog_issues, evidence_issue_texts, validate_catalog, EvidenceArchiveMember, EvidenceCatalog,
    EvidenceFile, EvidencePurpose, EvidenceValidationError,
};
use crate::digest::{eq_ignore_ascii_case, eq_ignoring_ascii_case, hex_digest, hex_lower, sha256};
use crate::text::{append_decimal, append_signed, append_text, decimal, owned, signed_decimal, text_eq};

verus! {

/// Why a calibration input was refused.
#[derive(Debug, Clone)]
pub enum CalibrationError {
    InvalidCatalog(String),
    ReadFile { path: String, message: String },
    SizeMismatch { path: String, expected: u64, actual: u64 },
    HashMismatch { path: String, expected: String, actual: String },
    Archive { path: String, message: String },
    ArchiveMemberMissing { archive_path: String, member_path: String },
    ArchiveMemberSizeMismatch { archive_path: String, member_path: String, expected: u64, actual: u64 },
    ArchiveMemberHashMismatch {
        archive_path: String,
        member_path: String,
        expected: String,
        actual: String,
    },
    Parquet { path: String, message: String },
    UnsupportedColumnType { path: String, column: String },
    MissingColumn { path: String, column: String },
    TimestampOrder { path: String, previous: i64, actual: i64 },
    CatalogSerialization(String),
    ArtifactSerialization(String),
    InvalidSpeedProfile(String),
    InvalidSpeedEvaluation(String),
}

/// The message of each error.
pub open spec fn calibration_error_text(e: CalibrationError) -> Seq<char> {
    match e {
        CalibrationError::InvalidCatalog(m) => "evidence catalog is invalid: "@ + m@,
        CalibrationError::ReadFile { path, message } => "cannot read "@ + path@ + ": "@ + message@,
        CalibrationError::SizeMismatch { path, expected, actual } => path@ + ": expected "@
            + decimal(expected as nat) + " bytes, found "@ + decimal(actual as nat),
        CalibrationError::HashMismatch { path, expected, actual } => path@
            + ": SHA-256 mismatch; expected "@ + expected@ + ", calculated "@ + actual@,
        CalibrationError::Archive { path, message } => path@ + ": invalid ZIP archive: "@ + message@,
        CalibrationError::ArchiveMemberMissing { archive_path, member_path } => archive_path@
            + ": required archive member `"@ + member_path@ + "` is missing"@,
        CalibrationError::ArchiveMemberSizeMismatch {
            archive_path,
            member_path,
            expected,
            actual,
        } => archive_path@ + ":"@ + member_path@ + ": expected "@ + decimal(expected as nat)
            + " bytes, found "@ + decimal(actual as nat),
        CalibrationError::ArchiveMemberHashMismatch {
            archive_path,
            member_path,
            expected,
            actual,
        } => archive_path@ + ":"@ + member_path@ + ": SHA-256 mismatch; expected "@ + expected@
            + ", calculated "@ + actual@,
        CalibrationError::Parquet { path, message } => path@ + ": invalid parquet input: "@ + message@,
        CalibrationError::UnsupportedColumnType { path, column } => path@
            + ": expected numeric column `"@ + column@ + "`"@,
        CalibrationError::MissingColumn { path, column } => path@ + ": missing required column `"@
            + column@ + "`"@,
        CalibrationError::TimestampOrder { path, previous, actual } => path@
            + ": timestamps must be non-decreasing for the free-walking isolation screen; "@
            + signed_decimal(actual as int) + " followed "@ + signed_decimal(previous as int),
        CalibrationError::CatalogSerialization(m) => "cannot serialize evidence catalog for provenance: "@
            + m@,
        CalibrationError::ArtifactSerialization(m) => "cannot serialize calibration artifact for provenance: "@
            + m@,
        CalibrationError::InvalidSpeedProfile(m) => "invalid horizontal free-walking speed profile: "@
            + m@,
        CalibrationError::InvalidSpeedEvaluation(m) => "invalid horizontal free-walking held-out evaluation: "@
            + m@,
    }
}

impl CalibrationError {
    /// The error's message.
    pub fn to_text(&self) -> (r: String)
        ensures
            r@ == calibration_error_text(*self),
    {
        let mut out = String::new();
        match self {
            CalibrationError::InvalidCatalog(m) => {
                append_text(&mut out, "evidence catalog is invalid: ");
                append_text(&mut out, m.as_str());
            },
            CalibrationError::ReadFile { path, message } => {
                append_text(&mut out, "cannot read ");
                append_text(&mut out, path.as_str());
                append_text(&mut out, ": ");
                append_text(&mut out, message.as_str());
            },
            CalibrationError::SizeMismatch { path, expected, actual } => {
                append_text(&mut out, path.as_str());
                append_text(&mut out, ": expected ");
                append_decimal(&mut out, *expected);
                append_text(&mut out, " bytes, found ");
                append_decimal(&mut out, *actual);
            },
            CalibrationError::HashMismatch { path, expected, actual } => {
                append_text(&mut out, path.as_str());
                append_text(&mut out, ": SHA-256 mismatch; expected ");
                append_text(&mut out, expected.as_str());
                append_text(&mut out, ", calculated ");
                append_text(&mut out, actual.as_str());
            },
            CalibrationError::Archive { path, message } => {
                append_text(&mut out, path.as_str());
                append_text(&mut out, ": invalid ZIP archive: ");
                append_text(&mut out, message.as_str());
            },
            CalibrationError::ArchiveMemberMissing { archive_path, member_path } => {
                append_text(&mut out, archive_path.as_str());
                append_text(&mut out, ": required archive member `");
                append_text(&mut out, member_path.as_str());
                append_text(&mut out, "` is missing");
            },
            CalibrationError::ArchiveMemberSizeMismatch {
                archive_path,
                member_path,
                expected,
                actual,
            } => {
                append_text(&mut out, archive_path.as_str());
                append_text(&mut out, ":");
                append_text(&mut out, member_path.as_str());
                append_text(&mut out, ": expected ");
                append_decimal(&mut out, *expected);
                append_text(&mut out, " bytes, found ");
                append_decimal(&mut out, *actual);
            },
            CalibrationError::ArchiveMemberHashMismatch {
                archive_path,
                member_path,
                expected,
                actual,
            } => {
                append_text(&mut out, archive_path.as_str());
                append_text(&mut out, ":");
                append_text(&mut out, member_path.as_str());
                append_text(&mut out, ": SHA-256 mismatch; expected ");
                append_text(&mut out, expected.as_str());
                append_text(&mut out, ", calculated ");
                append_text(&mut out, actual.as_str());
            },
            CalibrationError::Parquet { path, message } => {
                append_text(&mut out, path.as_str());
                append_text(&mut out, ": invalid parquet input: ");
                append_text(&mut out, message.as_str());
            },
            CalibrationError::UnsupportedColumnType { path, column } => {
                append_text(&mut out, path.as_str());
                append_text(&mut out, ": expected numeric column `");
                append_text(&mut out, column.as_str());
                append_text(&mut out, "`");
            },
            CalibrationError::MissingColumn { path, column } => {
                append_text(&mut out, path.as_str());
                append_text(&mut out, ": missing required column `");
                append_text(&mut out, column.as_str());
                append_text(&mut out, "`");
            },
            CalibrationError::TimestampOrder { path, previous, actual } => {
                append_text(&mut out, path.as_str());
                append_text(
                    &mut out,
                    ": timestamps must be non-decreasing for the free-walking isolation screen; ",
                );
                append_signed(&mut out, *actual);
                append_text(&mut out, " followed ");
                append_signed(&mut out, *previous);
            },
            CalibrationError::CatalogSerialization(m) => {
                append_text(&mut out, "cannot serialize evidence catalog for provenance: ");
                append_text(&mut out, m.as_str());
            },
            CalibrationError::ArtifactSerialization(m) => {
                append_text(&mut out, "cannot serialize calibration artifact for provenance: ");
                append_text(&mut out, m.as_str());
            },
            CalibrationError::InvalidSpeedProfile(m) => {
                append_text(&mut out, "invalid horizontal free-walking speed profile: ");
                append_text(&mut out, m.as_str());
            },
            CalibrationError::InvalidSpeedEvaluation(m) => {
                append_text(&mut out, "invalid horizontal free-walking held-out evaluation: ");
                append_text(&mut out, m.as_str());
            },
        }
        out
    }
}

/// The catalog's problems as one message: `path: message` each, joined by `; `.
pub open spec fn joined_issues(issues: Seq<(Seq<char>, Seq<char>)>) -> Seq<char>
    decreases issues.len(),
{
    if issues.len() == 0 {
        Seq::empty()
    } else if issues.len() == 1 {
        issues[0].0 + seq![':', ' '] + issues[0].1
    } else {
        joined_issues(issues.drop_last()) + seq![';', ' '] + issues.last().0 + seq![':', ' ']
            + issues.last().1
    }
}

/// The messages of `errors` as one text, joined by `; `.
pub fn joined_messages(errors: &Vec<EvidenceValidationError>) -> (r: String)
    ensures
        r@ == joined_issues(evidence_issue_texts(errors@)),
{
    proof {
        reveal(evidence_issue_texts);
    }
    let mut out = String::new();
    let mut i: usize = 0;
    while i < errors.len()
        invariant
            i <= errors@.len(),
            out@ == joined_issues(evidence_issue_texts(errors@.take(i as int))),
        decreases errors@.len() - i,
    {
        proof {
            reveal(evidence_issue_texts);
            assert(evidence_issue_texts(errors@.take(i + 1)).drop_last() =~= evidence_issue_texts(
                errors@.take(i as int),
            ));
        }
        let ghost before = out@;
        if i > 0 {
            append_text(&mut out, "; ");
        }
        let text = errors[i].to_text();
        append_text(&mut out, text.as_str());
        proof {
            reveal(evidence_issue_texts);
            let t = evidence_issue_texts(errors@.take(i + 1));
            assert(t.last() == errors@[i as int]@);
            reveal_strlit("; ");
            if i == 0 {
                assert(out@ =~= t[0].0 + seq![':', ' '] + t[0].1);
            } else {
                assert(out@ =~= before + seq![';', ' '] + t.last().0 + seq![':', ' '] + t.last().1);
            }
        }
        i += 1;
    }
    proof {
        assert(errors@.take(errors@.len() as int) =~= errors@);
    }
    out
}

/// The catalog must pass [`validate_catalog`] before any file is read.
pub fn require_valid_catalog(catalog: &EvidenceCatalog) -> (r: Result<(), CalibrationError>)
    ensures
        r is Ok <==> catalog_issues(*catalog).len() == 0,
        r matches Err(e) ==> (e matches CalibrationError::InvalidCatalog(m) && m@ == joined_issues(
            catalog_issues(*catalog),
        )),
{
    match validate_catalog(catalog) {
        Ok(()) => Ok(()),
        Err(errors) => Err(CalibrationError::InvalidCatalog(joined_messages(&errors))),
    }
}

pub open spec fn eindhoven_dataset_id() -> Seq<char> {
    "eindhoven-centraal-platform-2024"@
}

/// The Eindhoven platform adapter accepts only a valid empirical-evaluation
/// catalog of its own dataset.
pub fn validate_eindhoven_catalog(catalog: &EvidenceCatalog) -> (r: Result<(), CalibrationError>)
    ensures
        r is Ok <==> catalog_issues(*catalog).len() == 0 && catalog.purpose
            == EvidencePurpose::EmpiricalEvaluation && catalog.dataset_id@ == eindhoven_dataset_id(),
        r matches Err(e) ==> (e matches CalibrationError::InvalidCatalog(m) && m@ == if catalog_issues(
            *catalog,
        ).len() > 0 {
            joined_issues(catalog_issues(*catalog))
        } else if catalog.purpose != EvidencePurpose::EmpiricalEvaluation {
            "the Eindhoven adapter accepts only an empirical_evaluation catalog"@
        } else {
            "the Eindhoven adapter requires dataset_id `eindhoven-centraal-platform-2024`"@
        }),
{
    require_valid_catalog(catalog)?;
    if catalog.purpose != EvidencePurpose::EmpiricalEvaluation {
        return Err(
            CalibrationError::InvalidCatalog(
                owned("the Eindhoven adapter accepts only an empirical_evaluation catalog"),
            ),
        );
    }
    if !text_eq(catalog.dataset_id.as_str(), "eindhoven-centraal-platform-2024") {
        return Err(
            CalibrationError::InvalidCatalog(
                owned("the Eindhoven adapter requires dataset_id `eindhoven-centraal-platform-2024`"),
            ),
        );
    }
    Ok(())
}

/// `root` joined with the relative path `relative`, as `Path::join` renders it.
pub open spec fn joined_path(root: Seq<char>, relative: Seq<char>) -> Seq<char> {
    if root.len() == 0 {
        relative
    } else if root.last() == '/' {
        root + relative
    } else {
        root + seq!['/'] + relative
    }
}

pub fn join_path(root: &str, relative: &str) -> (r: String)
    ensures
        r@ == joined_path(root@, relative@),
{
    let chars = crate::text::chars_of(root);
    let mut out = owned(root);
    if chars.len() > 0 && chars[chars.len() - 1] != '/' {
        out.push('/');
    }
    append_text(&mut out, relative);
    out
}

/// What reading one catalog file found.
#[derive(Debug, Clone)]
pub enum FileObservation {
    /// The file could not be read; the text says why.
    Unreadable(String),
    /// The file's length, and the lower-case hexadecimal SHA-256 of its
    /// content. The hash is consulted only when the length matches.
    Content { size_bytes: u64, sha256: String },
}

/// What opening one archive member found.
#[derive(Debug, Clone)]
pub enum MemberObservation {
    /// The archive file could not be opened or read; the text says why.
    Unreadable(String),
    /// The file is not a readable ZIP archive; the text says why.
    InvalidArchive(String),
    /// The archive has no entry of the member's name.
    Missing,
    /// The entry's recorded uncompressed length, whose content could not be
    /// read; the text says why. The length is compared first.
    EntryUnreadable { size_bytes: u64, message: String },
    /// The entry's uncompressed length, and the lower-case hexadecimal SHA-256
    /// of its content, consulted only when the length matches.
    Content { size_bytes: u64, sha256: String },
}

pub open spec fn source_lock_holds(expected_size: u64, expected_hash: Seq<char>, obs: FileObservation) -> bool {
    match obs {
        FileObservation::Unreadable(_) => false,
        FileObservation::Content { size_bytes, sha256 } => size_bytes == expected_size
            && eq_ignoring_ascii_case(sha256@, expected_hash),
    }
}

/// The error for a file at `path` whose lock does not hold.
pub open spec fn source_lock_error(
    e: CalibrationError,
    path: Seq<char>,
    expected_size: u64,
    expected_hash: Seq<char>,
    obs: FileObservation,
) -> bool {
    match obs {
        FileObservation::Unreadable(m) => e matches CalibrationError::ReadFile { path: p, message }
            && p@ == path && message@ == m@,
        FileObservation::Content { size_bytes, sha256 } => if size_bytes != expected_size {
            e matches CalibrationError::SizeMismatch { path: p, expected, actual } && p@ == path
                && expected == expected_size && actual == size_bytes
        } else {
            e matches CalibrationError::HashMismatch { path: p, expected, actual } && p@ == path
                && expected@ == expected_hash && actual@ == sha256@
        },
    }
}

/// Check one file against its size and SHA-256 lock; the hash is compared
/// without regard to the case of its hexadecimal letters.
pub fn lock_source(path: &str, expected_size: u64, expected_hash: &str, obs: &FileObservation) -> (r: Result<
    (),
    CalibrationError,
>)
    ensures
        r is Ok <==> source_lock_holds(expected_size, expected_hash@, *obs),
        r matches Err(e) ==> source_lock_error(e, path@, expected_size, expected_hash@, *obs),
{
    match obs {
        FileObservation::Unreadable(m) => Err(
            CalibrationError::ReadFile { path: owned(path), message: owned(m.as_str()) },
        ),
        FileObservation::Content { size_bytes, sha256 } => {
            if *size_bytes != expected_size {
                return Err(
                    CalibrationError::SizeMismatch {
                        path: owned(path),
                        expected: expected_size,
                        actual: *size_bytes,
                    },
                );
            }
            if !eq_ignore_ascii_case(sha256.as_str(), expected_hash) {
                return Err(
                    CalibrationError::HashMismatch {
                        path: owned(path),
                        expected: owned(expected_hash),
                        actual: owned(sha256.as_str()),
                    },
                );
            }
            Ok(())
        },
    }
}

pub open spec fn member_lock_holds(member: EvidenceArchiveMember, obs: MemberObservation) -> bool {
    match obs {
        MemberObservation::Content { size_bytes, sha256 } => size_bytes == member.size_bytes
            && eq_ignoring_ascii_case(sha256@, member.sha256@),
        _ => false,
    }
}

/// The error for a member of the archive at `archive_path` whose lock does not hold.
pub open spec fn member_lock_error(
    e: CalibrationError,
    archive_path: Seq<char>,
    member: EvidenceArchiveMember,
    obs: MemberObservation,
) -> bool {
    match obs {
        MemberObservation::Unreadable(m) => e matches CalibrationError::ReadFile { path, message }
            && path@ == archive_path && message@ == m@,
        MemberObservation::InvalidArchive(m) => e matches CalibrationError::Archive { path, message }
            && path@ == archive_path && message@ == m@,
        MemberObservation::Missing => e matches CalibrationError::ArchiveMemberMissing {
            archive_path: a,
            member_path,
        } && a@ == archive_path && member_path@ == member.member_path@,
        MemberObservation::EntryUnreadable { size_bytes, message: m } => if size_bytes != member.size_bytes {
            e matches CalibrationError::ArchiveMemberSizeMismatch {
                archive_path: a,
                member_path,
                expected,
                actual,
            } && a@ == archive_path && member_path@ == member.member_path@ && expected
                == member.size_bytes && actual == size_bytes
        } else {
            e matches CalibrationError::ReadFile { path, message } && path@ == archive_path && message@
                == m@
        },
        MemberObservation::Content { size_bytes, sha256 } => if size_bytes != member.size_bytes {
            e matches CalibrationError::ArchiveMemberSizeMismatch {
                archive_path: a,
                member_path,
                expected,
                actual,
            } && a@ == archive_path && member_path@ == member.member_path@ && expected
                == member.size_bytes && actual == size_bytes
        } else {
            e matches CalibrationError::ArchiveMemberHashMismatch {
                archive_path: a,
                member_path,
                expected,
                actual,
            } && a@ == archive_path && member_path@ == member.member_path@ && expected@
                == member.sha256@ && actual@ == sha256@
        },
    }
}

/// Check one archive member against its size and SHA-256 lock.
pub fn lock_archive_member(archive_path: &str, member: &EvidenceArchiveMember, obs: &MemberObservation) -> (r: Result<
    (),
    CalibrationError,
>)
    ensures
        r is Ok <==> member_lock_holds(*member, *obs),
        r matches Err(e) ==> member_lock_error(e, archive_path@, *member, *obs),
{
    match obs {
        MemberObservation::Unreadable(m) => Err(
            CalibrationError::ReadFile { path: owned(archive_path), message: owned(m.as_str()) },
        ),
        MemberObservation::InvalidArchive(m) => Err(
            CalibrationError::Archive { path: owned(archive_path), message: owned(m.as_str()) },
        ),
        MemberObservation::Missing => Err(
            CalibrationError::ArchiveMemberMissing {
                archive_path: owned(archive_path),
                member_path: owned(member.member_path.as_str()),
            },
        ),
        MemberObservation::EntryUnreadable { size_bytes, message } => {
            if *size_bytes != member.size_bytes {
                Err(
                    CalibrationError::ArchiveMemberSizeMismatch {
                        archive_path: owned(archive_path),
                        member_path: owned(member.member_path.as_str()),
                        expected: member.size_bytes,
                        actual: *size_bytes,
                    },
                )
            } else {
                Err(CalibrationError::ReadFile { path: owned(archive_path), message: owned(message.as_str()) })
            }
        },
        MemberObservation::Content { size_bytes, sha256 } => {
            if *size_bytes != member.size_bytes {
                return Err(
                    CalibrationError::ArchiveMemberSizeMismatch {
                        archive_path: owned(archive_path),
                        member_path: owned(member.member_path.as_str()),
                        expected: member.size_bytes,
                        actual: *size_bytes,
                    },
                );
            }
            if !eq_ignore_ascii_case(sha256.as_str(), member.sha256.as_str()) {
                return Err(
                    CalibrationError::ArchiveMemberHashMismatch {
                        archive_path: owned(archive_path),
                        member_path: owned(member.member_path.as_str()),
                        expected: owned(member.sha256.as_str()),
                        actual: owned(sha256.as_str()),
                    },
                );
            }
            Ok(())
        },
    }
}

/// `files[i]` is the first file whose id is `id`.
pub open spec fn file_found_at(files: Seq<EvidenceFile>, id: Seq<char>, i: int) -> bool {
    0 <= i < files.len() && files[i].id@ == id && forall|j: int| 0 <= j < i ==> #[trigger] files[j].id@ != id
}

/// The member's archive file is declared and the member's lock holds.
pub open spec fn member_verified(files: Seq<EvidenceFile>, member: EvidenceArchiveMember, obs: MemberObservation) -> bool {
    (exists|i: int| file_found_at(files, member.archive_file_id@, i)) && member_lock_holds(member, obs)
}

/// Every lock of a valid catalog holds, given what was observed of its files
/// (in `files` order) and of its archive members (in `archive_members` order).
pub open spec fn catalog_locks_hold(
    c: EvidenceCatalog,
    files: Seq<FileObservation>,
    members: Seq<MemberObservation>,
) -> bool {
    &&& catalog_issues(c).len() == 0
    &&& forall|i: int|
        0 <= i < c.files@.len() ==> source_lock_holds(
            c.files@[i].size_bytes,
            c.files@[i].sha256@,
            #[trigger] files[i],
        )
    &&& forall|k: int|
        0 <= k < c.archive_members@.len() ==> member_verified(
            c.files@,
            c.archive_members@[k],
            #[trigger] members[k],
        )
}

/// The error reported when the locks do not all hold: the catalog's problems
/// first, then the first file whose lock fails, then the first archive member
/// whose source is absent or whose lock fails.
pub open spec fn catalog_lock_error(
    e: CalibrationError,
    c: EvidenceCatalog,
    root: Seq<char>,
    files: Seq<FileObservation>,
    members: Seq<MemberObservation>,
) -> bool {
    let fs = c.files@;
    let ms = c.archive_members@;
    if catalog_issues(c).len() > 0 {
        e matches CalibrationError::InvalidCatalog(m) && m@ == joined_issues(catalog_issues(c))
    } else if exists|i: int|
        0 <= i < fs.len() && !source_lock_holds(fs[i].size_bytes, fs[i].sha256@, #[trigger] files[i]) {
        exists|i: int|
            0 <= i < fs.len() && (forall|j: int|
                0 <= j < i ==> source_lock_holds(fs[j].size_bytes, fs[j].sha256@, #[trigger] files[j]))
                && !source_lock_holds(fs[i].size_bytes, fs[i].sha256@, files[i]) && source_lock_error(
                e,
                joined_path(root, fs[i].local_path@),
                fs[i].size_bytes,
                fs[i].sha256@,
                #[trigger] files[i],
            )
    } else {
        exists|k: int|
            0 <= k < ms.len() && (forall|j: int|
                0 <= j < k ==> member_verified(fs, ms[j], #[trigger] members[j])) && !member_verified(
                fs,
                ms[k],
                members[k],
            ) && if exists|i: int| file_found_at(fs, ms[k].archive_file_id@, i) {
                exists|i: int|
                    file_found_at(fs, ms[k].archive_file_id@, i) && member_lock_error(
                        e,
                        joined_path(root, fs[i].local_path@),
                        ms[k],
                        #[trigger] members[k],
                    )
            } else {
                e matches CalibrationError::InvalidCatalog(m) && m@ == "archive member `"@ + ms[k].id@
                    + "` references absent source `"@ + ms[k].archive_file_id@ + "`"@
            }
    }
}

/// The first file whose id is `id`, if any.
fn find_file(files: &Vec<EvidenceFile>, id: &str) -> (r: Option<usize>)
    ensures
        r matches Some(i) ==> file_found_at(files@, id@, i as int),
        r is None ==> forall|i: int| 0 <= i < files@.len() ==> #[trigger] files@[i].id@ != id@,
{
    let mut i: usize = 0;
    while i < files.len()
        invariant
            i <= files@.len(),
            forall|j: int| 0 <= j < i ==> #[trigger] files@[j].id@ != id@,
        decreases files@.len() - i,
    {
        if text_eq(files[i].id.as_str(), id) {
            return Some(i);
        }
        i += 1;
    }
    None
}

/// Verify every catalog-relative source file, and every archive member,
/// against its lock, without interpreting contents. `files` and `members` are
/// what reading the catalog's files, and its archive members, below
/// `data_root` found, in catalog order.
pub fn verify_catalog_files(
    catalog: &EvidenceCatalog,
    data_root: &str,
    files: &Vec<FileObservation>,
    members: &Vec<MemberObservation>,
) -> (r: Result<(), CalibrationError>)
    requires
        files@.len() == catalog.files@.len(),
        members@.len() == catalog.archive_members@.len(),
    ensures
        r is Ok <==> catalog_locks_hold(*catalog, files@, members@),
        r matches Err(e) ==> catalog_lock_error(e, *catalog, data_root@, files@, members@),
{
    require_valid_catalog(catalog)?;
    let ghost fs = catalog.files@;
    let ghost ms = catalog.archive_members@;
    let mut i: usize = 0;
    while i < catalog.files.len()
        invariant
            fs == catalog.files@,
            ms == catalog.archive_members@,
            files@.len() == fs.len(),
            members@.len() == ms.len(),
            catalog_issues(*catalog).len() == 0,
            i <= fs.len(),
            forall|j: int|
                0 <= j < i ==> source_lock_holds(fs[j].size_bytes, fs[j].sha256@, #[trigger] files@[j]),
        decreases fs.len() - i,
    {
        let source = &catalog.files[i];
        let path = join_path(data_root, source.local_path.as_str());
        match lock_source(path.as_str(), source.size_bytes, source.sha256.as_str(), &files[i]) {
            Ok(()) => {},
            Err(e) => {
                proof {
                    assert(!source_lock_holds(fs[i as int].size_bytes, fs[i as int].sha256@, files@[i as int]));
                }
                return Err(e);
            },
        }
        i += 1;
    }
    let mut k: usize = 0;
    while k < catalog.archive_members.len()
        invariant
            fs == catalog.files@,
            ms == catalog.archive_members@,
            files@.len() == fs.len(),
            members@.len() == ms.len(),
            catalog_issues(*catalog).len() == 0,
            forall|j: int|
                0 <= j < fs.len() ==> source_lock_holds(fs[j].size_bytes, fs[j].sha256@, #[trigger] files@[j]),
            k <= ms.len(),
            forall|j: int| 0 <= j < k ==> member_verified(fs, ms[j], #[trigger] members@[j]),
        decreases ms.len() - k,
    {
        let member = &catalog.archive_members[k];
        let found = find_file(&catalog.files, member.archive_file_id.as_str());
        match found {
            None => {
                let mut m = owned("archive member `");
                append_text(&mut m, member.id.as_str());
                append_text(&mut m, "` references absent source `");
                append_text(&mut m, member.archive_file_id.as_str());
                append_text(&mut m, "`");
                proof {
                    assert(!member_verified(fs, ms[k as int], members@[k as int]));
                }
                return Err(CalibrationError::InvalidCatalog(m));
            },
            Some(index) => {
                let path = join_path(data_root, catalog.files[index].local_path.as_str());
                match lock_archive_member(path.as_str(), member, &members[k]) {
                    Ok(()) => {},
                    Err(e) => {
                        proof {
                            assert(!member_verified(fs, ms[k as int], members@[k as int]));
                        }
                        return Err(e);
                    },
                }
            },
        }
        k += 1;
    }
    Ok(())
}

/// The rows of one source and what the observation filter did with them.
#[derive(Debug, Clone, Copy, PartialEq, Eq, Structural)]
pub struct ObservationCounts {
    pub rows: u64,
    pub usable_steps: u64,
    pub first_observations: u64,
    pub non_positive_time_steps: u64,
    pub gaps_over_limit: u64,
    pub speeds_over_limit: u64,
}

impl Default for ObservationCounts {
    fn default() -> (r: Self)
        ensures
            r.rows == 0 && r.usable_steps == 0 && r.first_observations == 0
                && r.non_positive_time_steps == 0 && r.gaps_over_limit == 0 && r.speeds_over_limit
                == 0,
    {
        ObservationCounts {
            rows: 0,
            usable_steps: 0,
            first_observations: 0,
            non_positive_time_steps: 0,
            gaps_over_limit: 0,
            speeds_over_limit: 0,
        }
    }
}

impl ObservationCounts {
    /// Each count of `a` plus the same count of `b`.
    pub open spec fn sum(a: Self, b: Self) -> Self {
        ObservationCounts {
            rows: (a.rows + b.rows) as u64,
            usable_steps: (a.usable_steps + b.usable_steps) as u64,
            first_observations: (a.first_observations + b.first_observations) as u64,
            non_positive_time_steps: (a.non_positive_time_steps + b.non_positive_time_steps) as u64,
            gaps_over_limit: (a.gaps_over_limit + b.gaps_over_limit) as u64,
            speeds_over_limit: (a.speeds_over_limit + b.speeds_over_limit) as u64,
        }
    }

    /// Whether every sum of `a` and `b` fits in a `u64`.
    pub open spec fn sum_fits(a: Self, b: Self) -> bool {
        &&& a.rows + b.rows <= u64::MAX
        &&& a.usable_steps + b.usable_steps <= u64::MAX
        &&& a.first_observations + b.first_observations <= u64::MAX
        &&& a.non_positive_time_steps + b.non_positive_time_steps <= u64::MAX
        &&& a.gaps_over_limit + b.gaps_over_limit <= u64::MAX
        &&& a.speeds_over_limit + b.speeds_over_limit <= u64::MAX
    }

    /// Add the counts of another source of the same partition.
    pub fn add(&mut self, other: &Self)
        requires
            Self::sum_fits(*old(self), *other),
        ensures
            *final(self) == Self::sum(*old(self), *other),
    {
        self.rows = self.rows + other.rows;
        self.usable_steps = self.usable_steps + other.usable_steps;
        self.first_observations = self.first_observations + other.first_observations;
        self.non_positive_time_steps = self.non_positive_time_steps + other.non_positive_time_steps;
        self.gaps_over_limit = self.gaps_over_limit + other.gaps_over_limit;
        self.speeds_over_limit = self.speeds_over_limit + other.speeds_over_limit;
    }
}

/// The rows and frames of one source and what the free-walking screen did
/// with them. A retained step has exactly one tracked object on the platform
/// at both of its endpoints.
#[derive(Debug, Clone, Copy, PartialEq, Eq, Structural)]
pub struct FreeWalkingObservationCounts {
    pub rows: u64,
    pub frames: u64,
    pub singleton_frames: u64,
    pub multiple_object_frames: u64,
    pub first_observations: u64,
    pub non_positive_time_steps: u64,
    pub gaps_over_limit: u64,
    pub speeds_over_limit: u64,
    pub speeds_below_walking_threshold: u64,
    pub non_singleton_endpoint_steps: u64,
    pub usable_free_walking_steps: u64,
}

impl Default for FreeWalkingObservationCounts {
    fn default() -> (r: Self)
        ensures
            r == Self::zero(),
    {
        FreeWalkingObservationCounts {
            rows: 0,
            frames: 0,
            singleton_frames: 0,
            multiple_object_frames: 0,
            first_observations: 0,
            non_positive_time_steps: 0,
            gaps_over_limit: 0,
            speeds_over_limit: 0,
            speeds_below_walking_threshold: 0,
            non_singleton_endpoint_steps: 0,
            usable_free_walking_steps: 0,
        }
    }
}

impl FreeWalkingObservationCounts {
    pub open spec fn zero() -> Self {
        FreeWalkingObservationCounts {
            rows: 0,
            frames: 0,
            singleton_frames: 0,
            multiple_object_frames: 0,
            first_observations: 0,
            non_positive_time_steps: 0,
            gaps_over_limit: 0,
            speeds_over_limit: 0,
            speeds_below_walking_threshold: 0,
            non_singleton_endpoint_steps: 0,
            usable_free_walking_steps: 0,
        }
    }

    /// Each count of `a` plus the same count of `b`.
    pub open spec fn sum(a: Self, b: Self) -> Self {
        FreeWalkingObservationCounts {
            rows: (a.rows + b.rows) as u64,
            frames: (a.frames + b.frames) as u64,
            singleton_frames: (a.singleton_frames + b.singleton_frames) as u64,
            multiple_object_frames: (a.multiple_object_frames + b.multiple_object_frames) as u64,
            first_observations: (a.first_observations + b.first_observations) as u64,
            non_positive_time_steps: (a.non_positive_time_steps + b.non_positive_time_steps) as u64,
            gaps_over_limit: (a.gaps_over_limit + b.gaps_over_limit) as u64,
            speeds_over_limit: (a.speeds_over_limit + b.speeds_over_limit) as u64,
            speeds_below_walking_threshold: (a.speeds_below_walking_threshold
                + b.speeds_below_walking_threshold) as u64,
            non_singleton_endpoint_steps: (a.non_singleton_endpoint_steps
                + b.non_singleton_endpoint_steps) as u64,
            usable_free_walking_steps: (a.usable_free_walking_steps + b.usable_free_walking_steps) as u64,
        }
    }

    /// Whether every sum of `a` and `b` fits in a `u64`.
    pub open spec fn sum_fits(a: Self, b: Self) -> bool {
        &&& a.rows + b.rows <= u64::MAX
        &&& a.frames + b.frames <= u64::MAX
        &&& a.singleton_frames + b.singleton_frames <= u64::MAX
        &&& a.multiple_object_frames + b.multiple_object_frames <= u64::MAX
        &&& a.first_observations + b.first_observations <= u64::MAX
        &&& a.non_positive_time_steps + b.non_positive_time_steps <= u64::MAX
        &&& a.gaps_over_limit + b.gaps_over_limit <= u64::MAX
        &&& a.speeds_over_limit + b.speeds_over_limit <= u64::MAX
        &&& a.speeds_below_walking_threshold + b.speeds_below_walking_threshold <= u64::MAX
        &&& a.non_singleton_endpoint_steps + b.non_singleton_endpoint_steps <= u64::MAX
        &&& a.usable_free_walking_steps + b.usable_free_walking_steps <= u64::MAX
    }

    /// Add the counts of another source of the same partition.
    pub fn add(&mut self, other: &Self)
        requires
            Self::sum_fits(*old(self), *other),
        ensures
            *final(self) == Self::sum(*old(self), *other),
    {
        self.rows = self.rows + other.rows;
        self.frames = self.frames + other.frames;
        self.singleton_frames = self.singleton_frames + other.singleton_frames;
        self.multiple_object_frames = self.multiple_object_frames + other.multiple_object_frames;
        self.first_observations = self.first_observations + other.first_observations;
        self.non_positive_time_steps = self.non_positive_time_steps + other.non_positive_time_steps;
        self.gaps_over_limit = self.gaps_over_limit + other.gaps_over_limit;
        self.speeds_over_limit = self.speeds_over_limit + other.speeds_over_limit;
        self.speeds_below_walking_threshold = self.speeds_below_walking_threshold
            + other.speeds_below_walking_threshold;
        self.non_singleton_endpoint_steps = self.non_singleton_endpoint_steps
            + other.non_singleton_endpoint_steps;
        self.usable_free_walking_steps = self.usable_free_walking_steps
            + other.usable_free_walking_steps;
    }
}

/// A file whose observed size and hash are those of its lock passes, whatever
/// the case of the hash's letters.
pub proof fn lemma_matching_source_locks(expected_size: u64, expected_hash: Seq<char>, obs: FileObservation)
    requires
        obs matches FileObservation::Content { size_bytes, sha256 } && size_bytes == expected_size
            && sha256@ == expected_hash,
    ensures
        source_lock_holds(expected_size, expected_hash, obs),
{
}

/// The observation of a file made from what reading it gave.
pub open spec fn file_observed(obs: FileObservation, read: Result<Seq<u8>, Seq<char>>) -> bool {
    match read {
        Ok(b) => obs matches FileObservation::Content { size_bytes, sha256: h } && size_bytes == b.len() && h@
            == hex_lower(sha256(b)),
        Err(m) => obs matches FileObservation::Unreadable(t) && t@ == m,
    }
}

/// The observation of a file made from its bytes: their length and the
/// lower-case hexadecimal SHA-256 of them.
pub fn observe_file_bytes(bytes: &[u8]) -> (r: FileObservation)
    ensures
        file_observed(r, Ok(bytes@)),
{
    let size_bytes = bytes.len() as u64;
    FileObservation::Content { size_bytes, sha256: hex_digest(bytes) }
}

/// What reading the entry `name` of the ZIP archive `archive` gives: `None`
/// when the archive has no such entry, else the entry's recorded
/// uncompressed size and its content, or why the content could not be read;
/// or why the archive could not be opened or searched.
pub uninterp spec fn zip_member(archive: Seq<u8>, name: Seq<char>) -> Result<
    Option<(u64, Result<Seq<u8>, Seq<char>>)>,
    Seq<char>,
>;

pub open spec fn zip_read_view(r: Result<Option<(u64, Result<Vec<u8>, String>)>, String>) -> Result<
    Option<(u64, Result<Seq<u8>, Seq<char>>)>,
    Seq<char>,
> {
    match r {
        Ok(Some((n, Ok(v)))) => Ok(Some((n, Ok(v@)))),
        Ok(Some((n, Err(m)))) => Ok(Some((n, Err(m@)))),
        Ok(None) => Ok(None),
        Err(m) => Err(m@),
    }
}

/// `zip::ZipArchive::new` over the archive's bytes, then `by_name`, `size` and
/// `read_to_end` of the entry. Claimed: the result is a function of the bytes
/// and the name alone, named `zip_member`; a `FileNotFound` lookup gives
/// `None`. What the entry holds, and which archives are accepted, is not
/// stated.
#[verifier::external_body]
fn read_zip_member(archive: &[u8], name: &str) -> (r: Result<Option<(u64, Result<Vec<u8>, String>)>, String>)
    ensures
        zip_read_view(r) == zip_member(archive@, name@),
{
    let mut zip = match zip::ZipArchive::new(std::io::Cursor::new(archive)) {
        Ok(zip) => zip,
        Err(error) => return Err(error.to_string()),
    };
    let mut entry = match zip.by_name(name) {
        Ok(entry) => entry,
        Err(zip::result::ZipError::FileNotFound) => return Ok(None),
        Err(error) => return Err(error.to_string()),
    };
    let size = entry.size();
    let mut content = Vec::new();
    match std::io::Read::read_to_end(&mut entry, &mut content) {
        Ok(_) => Ok(Some((size, Ok(content)))),
        Err(error) => Ok(Some((size, Err(error.to_string())))),
    }
}

/// The observation of an archive member made from what reading the archive
/// file gave.
pub open spec fn member_observed(obs: MemberObservation, archive: Result<Seq<u8>, Seq<char>>, name: Seq<char>) -> bool {
    match archive {
        Err(m) => obs matches MemberObservation::Unreadable(t) && t@ == m,
        Ok(b) => match zip_member(b, name) {
            Err(m) => obs matches MemberObservation::InvalidArchive(t) && t@ == m,
            Ok(None) => obs is Missing,
            Ok(Some((n, Err(m)))) => obs matches MemberObservation::EntryUnreadable { size_bytes, message: t }
                && size_bytes == n && t@ == m,
            Ok(Some((n, Ok(d)))) => obs matches MemberObservation::Content { size_bytes, sha256: h } && size_bytes
                == n && h@ == hex_lower(sha256(d)),
        },
    }
}

/// The observation of the member `member_path` of a ZIP archive: its size
/// and the lower-case hexadecimal SHA-256 of its content (or, where the
/// content could not be read, its size and why), or that the archive has no
/// such member, or why the archive could not be read.
pub fn observe_member(archive: &[u8], member_path: &str) -> (r: MemberObservation)
    ensures
        member_observed(r, Ok(archive@), member_path@),
{
    match read_zip_member(archive, member_path) {
        Ok(Some((size_bytes, Ok(content)))) => MemberObservation::Content {
            size_bytes,
            sha256: hex_digest(content.as_slice()),
        },
        Ok(Some((size_bytes, Err(message)))) => MemberObservation::EntryUnreadable { size_bytes, message },
        Ok(None) => MemberObservation::Missing,
        Err(message) => MemberObservation::InvalidArchive(message),
    }
}

/// The views of what reading each catalog file gave.
pub open spec fn read_views(contents: Seq<Result<Vec<u8>, String>>) -> Seq<Result<Seq<u8>, Seq<char>>> {
    contents.map_values(
        |r: Result<Vec<u8>, String>|
            match r {
                Ok(b) => Ok(b@),
                Err(m) => Err(m@),
            },
    )
}

/// The observations made of a catalog's files and archive members from what
/// reading its files gave: a member whose archive file is not declared is
/// missing.
pub open spec fn observations_of(
    c: EvidenceCatalog,
    reads: Seq<Result<Seq<u8>, Seq<char>>>,
    fo: Seq<FileObservation>,
    mo: Seq<MemberObservation>,
) -> bool {
    &&& fo.len() == c.files@.len()
    &&& mo.len() == c.archive_members@.len()
    &&& forall|i: int| 0 <= i < fo.len() ==> file_observed(#[trigger] fo[i], reads[i])
    &&& forall|k: int|
        0 <= k < mo.len() ==> if exists|i: int| file_found_at(c.files@, c.archive_members@[k].archive_file_id@, i) {
            member_observed(
                #[trigger] mo[k],
                reads[choose|i: int| file_found_at(c.files@, c.archive_members@[k].archive_file_id@, i)],
                c.archive_members@[k].member_path@,
            )
        } else {
            mo[k] is Missing
        }
}

/// A file's lock holds of what reading it gave: it was read, has its size,
/// and hashes to its SHA-256 (in either letter case).
pub open spec fn file_bytes_lock(read: Result<Seq<u8>, Seq<char>>, f: EvidenceFile) -> bool {
    read matches Ok(b) && b.len() == f.size_bytes && eq_ignoring_ascii_case(hex_lower(sha256(b)), f.sha256@)
}

/// A member's lock holds of what reading its archive gave: the archive has
/// the entry, of the member's size, hashing to its SHA-256.
pub open spec fn member_bytes_lock(archive: Result<Seq<u8>, Seq<char>>, m: EvidenceArchiveMember) -> bool {
    archive matches Ok(b) && zip_member(b, m.member_path@) matches Ok(Some((n, Ok(d)))) && n == m.size_bytes
        && eq_ignoring_ascii_case(hex_lower(sha256(d)), m.sha256@)
}

/// Every lock of a valid catalog holds of the bytes read: each file's lock,
/// and each archive member's lock in the first declared file with its
/// archive's id.
pub open spec fn contents_locks_hold(c: EvidenceCatalog, reads: Seq<Result<Seq<u8>, Seq<char>>>) -> bool {
    &&& catalog_issues(c).len() == 0
    &&& forall|i: int| 0 <= i < c.files@.len() ==> file_bytes_lock(#[trigger] reads[i], c.files@[i])
    &&& forall|k: int|
        0 <= k < c.archive_members@.len() ==> exists|i: int|
            file_found_at(c.files@, (#[trigger] c.archive_members@[k]).archive_file_id@, i) && member_bytes_lock(
                reads[i],
                c.archive_members@[k],
            )
}

proof fn lemma_file_found_unique(files: Seq<EvidenceFile>, id: Seq<char>, i: int, j: int)
    requires
        file_found_at(files, id, i),
        file_found_at(files, id, j),
    ensures
        i == j,
{
    if i < j {
        assert(files[i].id@ != id);
    } else if j < i {
        assert(files[j].id@ != id);
    }
}

proof fn lemma_member_lock(
    c: EvidenceCatalog,
    reads: Seq<Result<Seq<u8>, Seq<char>>>,
    fo: Seq<FileObservation>,
    mo: Seq<MemberObservation>,
    k: int,
)
    requires
        observations_of(c, reads, fo, mo),
        0 <= k < c.archive_members@.len(),
    ensures
        member_verified(c.files@, c.archive_members@[k], mo[k]) == (exists|i: int|
            file_found_at(c.files@, c.archive_members@[k].archive_file_id@, i) && member_bytes_lock(
                reads[i],
                c.archive_members@[k],
            )),
{
    let fs = c.files@;
    let m = c.archive_members@[k];
    assert(mo.len() == c.archive_members@.len());
    if exists|i: int| file_found_at(fs, m.archive_file_id@, i) {
        let i0 = choose|i: int| file_found_at(fs, m.archive_file_id@, i);
        assert(member_observed(mo[k], reads[i0], m.member_path@));
        assert forall|i: int| file_found_at(fs, m.archive_file_id@, i) implies i == i0 by {
            lemma_file_found_unique(fs, m.archive_file_id@, i, i0);
        }
        if member_bytes_lock(reads[i0], m) {
            assert(file_found_at(fs, m.archive_file_id@, i0) && member_bytes_lock(reads[i0], m));
        }
    } else {
        assert(mo[k] is Missing);
    }
}

/// Each lock of an observation holds exactly when it holds of the bytes the
/// observation was made from.
#[verifier::spinoff_prover]
#[verifier::rlimit(60)]
proof fn lemma_item_locks(
    c: EvidenceCatalog,
    reads: Seq<Result<Seq<u8>, Seq<char>>>,
    fo: Seq<FileObservation>,
    mo: Seq<MemberObservation>,
)
    requires
        reads.len() == c.files@.len(),
        observations_of(c, reads, fo, mo),
    ensures
        forall|i: int| 0 <= i < c.files@.len() ==> source_lock_holds(c.files@[i].size_bytes, c.files@[i].sha256@, #[trigger] fo[i])
            == file_bytes_lock(reads[i], c.files@[i]),
        forall|k: int| 0 <= k < c.archive_members@.len() ==> member_verified(c.files@, c.archive_members@[k], #[trigger] mo[k])
            == (exists|i: int| file_found_at(c.files@, c.archive_members@[k].archive_file_id@, i) && member_bytes_lock(reads[i], c.archive_members@[k])),
{
    let fs = c.files@;
    let ms = c.archive_members@;
    assert forall|i: int| 0 <= i < fs.len() implies source_lock_holds(fs[i].size_bytes, fs[i].sha256@, #[trigger] fo[i])
        == file_bytes_lock(reads[i], fs[i]) by {
        assert(file_observed(fo[i], reads[i]));
    }
    assert forall|k: int| 0 <= k < ms.len() implies member_verified(fs, ms[k], #[trigger] mo[k]) == (exists|i: int|
        file_found_at(fs, ms[k].archive_file_id@, i) && member_bytes_lock(reads[i], ms[k])) by {
        lemma_member_lock(c, reads, fo, mo, k);
    }
}

/// The content locks of a catalog hold of its observations exactly when they
/// hold of the bytes the observations were made from.
#[verifier::spinoff_prover]
#[verifier::rlimit(60)]
pub proof fn lemma_observed_locks_are_content_locks(
    c: EvidenceCatalog,
    reads: Seq<Result<Seq<u8>, Seq<char>>>,
    fo: Seq<FileObservation>,
    mo: Seq<MemberObservation>,
)
    requires
        reads.len() == c.files@.len(),
        observations_of(c, reads, fo, mo),
    ensures
        catalog_locks_hold(c, fo, mo) <==> contents_locks_hold(c, reads),
{
    let fs = c.files@;
    let ms = c.archive_members@;
    lemma_item_locks(c, reads, fo, mo);
    if catalog_locks_hold(c, fo, mo) {
        assert forall|i: int| 0 <= i < fs.len() implies file_bytes_lock(#[trigger] reads[i], fs[i]) by {
            assert(source_lock_holds(fs[i].size_bytes, fs[i].sha256@, fo[i]));
        }
        assert forall|k: int| 0 <= k < ms.len() implies exists|i: int|
            file_found_at(fs, (#[trigger] ms[k]).archive_file_id@, i) && member_bytes_lock(reads[i], ms[k]) by {
            assert(member_verified(fs, ms[k], mo[k]));
        }
    }
    if contents_locks_hold(c, reads) {
        assert forall|i: int| 0 <= i < fs.len() implies source_lock_holds(fs[i].size_bytes, fs[i].sha256@, #[trigger] fo[i]) by {
            assert(file_bytes_lock(reads[i], fs[i]));
        }
        assert forall|k: int| 0 <= k < ms.len() implies member_verified(fs, ms[k], #[trigger] mo[k]) by {
            assert(exists|i: int| file_found_at(fs, ms[k].archive_file_id@, i) && member_bytes_lock(reads[i], ms[k]));
        }
    }
}

/// Verify every content lock of a catalog against the bytes read from its
/// files, in catalog order: each file's bytes, or why it could not be read.
pub fn verify_catalog_contents(
    catalog: &EvidenceCatalog,
    data_root: &str,
    contents: &Vec<Result<Vec<u8>, String>>,
) -> (r: Result<(), CalibrationError>)
    requires
        contents@.len() == catalog.files@.len(),
    ensures
        r is Ok <==> contents_locks_hold(*catalog, read_views(contents@)),
        r matches Err(e) ==> exists|fo: Seq<FileObservation>, mo: Seq<MemberObservation>|
            observations_of(*catalog, read_views(contents@), fo, mo) && catalog_lock_error(
                e,
                *catalog,
                data_root@,
                fo,
                mo,
            ),
{
    let ghost reads = read_views(contents@);
    let mut fo: Vec<FileObservation> = Vec::new();
    let mut i: usize = 0;
    while i < contents.len()
        invariant
            reads == read_views(contents@),
            i <= contents@.len(),
            fo@.len() == i,
            forall|j: int| 0 <= j < i ==> file_observed(#[trigger] fo@[j], reads[j]),
        decreases contents@.len() - i,
    {
        let obs = match &contents[i] {
            Ok(bytes) => observe_file_bytes(bytes.as_slice()),
            Err(message) => FileObservation::Unreadable(owned(message.as_str())),
        };
        fo.push(obs);
        i += 1;
    }
    let mut mo: Vec<MemberObservation> = Vec::new();
    let mut k: usize = 0;
    while k < catalog.archive_members.len()
        invariant
            reads == read_views(contents@),
            contents@.len() == catalog.files@.len(),
            k <= catalog.archive_members@.len(),
            mo@.len() == k,
            forall|j: int|
                0 <= j < k ==> if exists|i: int| file_found_at(catalog.files@, catalog.archive_members@[j].archive_file_id@, i) {
                    member_observed(
                        #[trigger] mo@[j],
                        reads[choose|i: int| file_found_at(catalog.files@, catalog.archive_members@[j].archive_file_id@, i)],
                        catalog.archive_members@[j].member_path@,
                    )
                } else {
                    mo@[j] is Missing
                },
        decreases catalog.archive_members@.len() - k,
    {
        let member = &catalog.archive_members[k];
        let obs = match find_file(&catalog.files, member.archive_file_id.as_str()) {
            None => MemberObservation::Missing,
            Some(index) => {
                proof {
                    let i0 = choose|i: int| file_found_at(catalog.files@, member.archive_file_id@, i);
                    lemma_file_found_unique(catalog.files@, member.archive_file_id@, i0, index as int);
                }
                match &contents[index] {
                    Ok(bytes) => observe_member(bytes.as_slice(), member.member_path.as_str()),
                    Err(message) => MemberObservation::Unreadable(owned(message.as_str())),
                }
            },
        };
        mo.push(obs);
        k += 1;
    }
    proof {
        lemma_observed_locks_are_content_locks(*catalog, reads, fo@, mo@);
    }
    verify_catalog_files(catalog, data_root, &fo, &mo)
}

} // verus!
