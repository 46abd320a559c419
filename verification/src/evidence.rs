//! Source-lock validation for data acquired before an empirical benchmark round.
//!
//! An evidence catalog is intentionally weaker than a [`crate::benchmark::BenchmarkManifest`]:
//! it records a reproducible, redistributable source and an explicit split, but
//! it cannot authorize an empirical claim or benchmark round on its own.

use vstd::prelude::*;
use crate::benchmark::DatasetRole;
use crate::text::{
    contains_char, has_char, indexed, indexed_path, is_blank, is_blank_text, is_https_url,
    is_https_url_text, is_normal_relative_path, is_sha256, is_sha256_text, normal_relative_path,
    owned, only_if, text_eq,
};

verus! {

/// The claim-bearing role of a content-locked source catalog.
///
/// A reference catalog is intentionally not a weakened empirical catalog: it
/// has no calibration/held-out designation and cannot be passed to an adapter
/// that reports empirical partitions.
#[derive(Debug, Clone, Copy, PartialEq, Eq, Structural)]
pub enum EvidencePurpose {
    EmpiricalEvaluation,
    UncalibratedReference,
}

impl Default for EvidencePurpose {
    fn default() -> (r: Self)
        ensures
            r == EvidencePurpose::EmpiricalEvaluation,
    {
        EvidencePurpose::EmpiricalEvaluation
    }
}

/// Whether a catalog has the historical empirical-evaluation purpose, the one
/// that its serialized form leaves implicit.
pub fn is_empirical_evaluation(purpose: &EvidencePurpose) -> (r: bool)
    ensures
        r == (*purpose == EvidencePurpose::EmpiricalEvaluation),
{
    *purpose == EvidencePurpose::EmpiricalEvaluation
}

#[derive(Debug, Clone)]
pub struct EvidenceFile {
    pub id: String,
    /// Required only for an empirical-evaluation catalog.
    pub role: Option<DatasetRole>,
    /// HTTPS URL of the immutable file content, rather than a mutable landing page.
    pub source_url: String,
    /// A relative path below the caller-supplied data root. It is never a URL.
    pub local_path: String,
    pub sha256: String,
    pub size_bytes: u64,
    /// An upstream-provided checksum, when the publisher exposes one.
    pub upstream_checksum: Option<String>,
    /// A concise, reproducible description of the unit/coordinate treatment.
    pub transformation: String,
}

/// A content-locked logical source stored inside a content-locked ZIP archive.
#[derive(Debug, Clone)]
pub struct EvidenceArchiveMember {
    pub id: String,
    /// The `EvidenceFile.id` of the ZIP archive containing this member.
    pub archive_file_id: String,
    /// A relative ZIP entry name. It is never extracted by the lock verifier.
    pub member_path: String,
    /// Required only for an empirical-evaluation catalog.
    pub role: Option<DatasetRole>,
    pub sha256: String,
    pub size_bytes: u64,
    /// A concise, reproducible description of how this member is interpreted.
    pub transformation: String,
}

#[derive(Debug, Clone)]
pub struct EvidenceCatalog {
    pub schema_version: String,
    pub purpose: EvidencePurpose,
    pub dataset_id: String,
    pub title: String,
    pub landing_page: String,
    /// SPDX-like license identifier.
    pub license: String,
    pub redistributable: bool,
    pub attribution: Option<String>,
    pub citation: String,
    pub files: Vec<EvidenceFile>,
    /// Optional logical source locks for named ZIP members.
    pub archive_members: Vec<EvidenceArchiveMember>,
    pub supported_primitives: String,
    pub exclusions: String,
    /// Required for empirical evaluation, where it explains the split unit.
    pub split_rationale: Option<String>,
}

/// One field-level problem: the field's path and what is wrong with it.
#[derive(Debug, Clone)]
pub struct EvidenceValidationError {
    pub path: String,
    pub message: String,
}

impl View for EvidenceValidationError {
    type V = (Seq<char>, Seq<char>);

    open spec fn view(&self) -> (Seq<char>, Seq<char>) {
        (self.path@, self.message@)
    }
}

impl EvidenceValidationError {
    /// The `path: message` rendering of the error.
    pub fn to_text(&self) -> (r: String)
        ensures
            r@ == self.path@ + seq![':', ' '] + self.message@,
    {
        let mut out = self.path.clone();
        out.push(':');
        out.push(' ');
        crate::text::append_text(&mut out, self.message.as_str());
        out
    }
}

#[verifier::opaque]
pub open spec fn evidence_issue_texts(errors: Seq<EvidenceValidationError>) -> Seq<
    (Seq<char>, Seq<char>),
> {
    errors.map_values(|e: EvidenceValidationError| e@)
}

/// A catalog-relative path: a normal relative path without backslashes.
pub open spec fn is_safe_catalog_path(s: Seq<char>) -> bool {
    is_normal_relative_path(s) && !contains_char(s, '\\')
}

pub open spec fn is_blank_option(o: Option<String>) -> bool {
    match o {
        None => true,
        Some(x) => is_blank(x@),
    }
}

pub open spec fn is_open_license(l: Seq<char>) -> bool {
    l == "CC-BY-4.0"@ || l == "CC0-1.0"@
}

pub open spec fn relative_path_message() -> Seq<char> {
    "must be a non-empty relative path without `.` or `..` components"@
}

/// An earlier file has the same id.
pub open spec fn file_id_repeats(files: Seq<EvidenceFile>, i: int) -> bool {
    exists|j: int| 0 <= j < i && #[trigger] files[j].id@ == files[i].id@
}

/// An earlier file has the same local path.
pub open spec fn file_path_repeats(files: Seq<EvidenceFile>, i: int) -> bool {
    exists|j: int| 0 <= j < i && #[trigger] files[j].local_path@ == files[i].local_path@
}

/// Some file has this id.
pub open spec fn is_file_id(files: Seq<EvidenceFile>, id: Seq<char>) -> bool {
    exists|j: int| 0 <= j < files.len() && #[trigger] files[j].id@ == id
}

/// Some archive member is stored in the file with this id.
pub open spec fn is_archive_file_id(members: Seq<EvidenceArchiveMember>, id: Seq<char>) -> bool {
    exists|j: int| 0 <= j < members.len() && #[trigger] members[j].archive_file_id@ == id
}

/// The member's id is a file id or the id of an earlier member.
pub open spec fn member_id_repeats(
    files: Seq<EvidenceFile>,
    members: Seq<EvidenceArchiveMember>,
    i: int,
) -> bool {
    is_file_id(files, members[i].id@) || exists|j: int|
        0 <= j < i && #[trigger] members[j].id@ == members[i].id@
}

/// An earlier member names the same archive and entry.
pub open spec fn member_entry_repeats(members: Seq<EvidenceArchiveMember>, i: int) -> bool {
    exists|j: int|
        0 <= j < i && #[trigger] members[j].archive_file_id@ == members[i].archive_file_id@
            && members[j].member_path@ == members[i].member_path@
}

pub open spec fn file_issues(files: Seq<EvidenceFile>, i: nat) -> Seq<(Seq<char>, Seq<char>)> {
    let f = files[i as int];
    let p = "files"@;
    only_if(
        is_blank(f.id@) || is_blank(f.transformation@),
        (indexed(p, i, Seq::empty()), "id and transformation are required"@),
    ) + only_if(file_id_repeats(files, i as int), (indexed(p, i, ".id"@), "must be unique"@)) + only_if(
        file_path_repeats(files, i as int),
        (indexed(p, i, ".local_path"@), "must be unique"@),
    ) + only_if(
        !is_https_url_text(f.source_url@),
        (indexed(p, i, ".source_url"@), "must be an HTTPS URL"@),
    ) + only_if(
        !is_safe_catalog_path(f.local_path@),
        (indexed(p, i, ".local_path"@), relative_path_message()),
    ) + only_if(
        !is_sha256_text(f.sha256@),
        (indexed(p, i, ".sha256"@), "must be a SHA-256 hexadecimal digest"@),
    ) + only_if(f.size_bytes == 0, (indexed(p, i, ".size_bytes"@), "must be non-zero"@)) + only_if(
        f.upstream_checksum is Some && is_blank(f.upstream_checksum->0@),
        (
            indexed(p, i, ".upstream_checksum"@),
            "must not be empty when the publisher provides one"@,
        ),
    )
}

pub open spec fn files_issues(files: Seq<EvidenceFile>, n: nat) -> Seq<(Seq<char>, Seq<char>)>
    decreases n,
{
    if n == 0 {
        Seq::empty()
    } else {
        files_issues(files, (n - 1) as nat) + file_issues(files, (n - 1) as nat)
    }
}

pub open spec fn member_issues(
    files: Seq<EvidenceFile>,
    members: Seq<EvidenceArchiveMember>,
    i: nat,
) -> Seq<(Seq<char>, Seq<char>)> {
    let m = members[i as int];
    let p = "archive_members"@;
    only_if(
        is_blank(m.id@) || is_blank(m.transformation@),
        (indexed(p, i, Seq::empty()), "id and transformation are required"@),
    ) + only_if(
        member_id_repeats(files, members, i as int),
        (indexed(p, i, ".id"@), "must be unique across files and archive members"@),
    ) + only_if(
        !is_file_id(files, m.archive_file_id@),
        (indexed(p, i, ".archive_file_id"@), "must identify a declared source file"@),
    ) + only_if(
        !is_safe_catalog_path(m.member_path@),
        (indexed(p, i, ".member_path"@), relative_path_message()),
    ) + only_if(
        member_entry_repeats(members, i as int),
        (indexed(p, i, ".member_path"@), "must be unique within its declared archive"@),
    ) + only_if(
        !is_sha256_text(m.sha256@),
        (indexed(p, i, ".sha256"@), "must be a SHA-256 hexadecimal digest"@),
    ) + only_if(m.size_bytes == 0, (indexed(p, i, ".size_bytes"@), "must be non-zero"@))
}

pub open spec fn members_issues(
    files: Seq<EvidenceFile>,
    members: Seq<EvidenceArchiveMember>,
    n: nat,
) -> Seq<(Seq<char>, Seq<char>)>
    decreases n,
{
    if n == 0 {
        Seq::empty()
    } else {
        members_issues(files, members, (n - 1) as nat) + member_issues(
            files,
            members,
            (n - 1) as nat,
        )
    }
}

/// Empirical files without a role that no archive member is stored in.
pub open spec fn unassigned_files_issues(
    files: Seq<EvidenceFile>,
    members: Seq<EvidenceArchiveMember>,
    n: nat,
) -> Seq<(Seq<char>, Seq<char>)>
    decreases n,
{
    if n == 0 {
        Seq::empty()
    } else {
        unassigned_files_issues(files, members, (n - 1) as nat) + only_if(
            files[n - 1].role is None && !is_archive_file_id(members, files[n - 1].id@),
            (
                "files"@,
                "each empirical-evaluation source must designate calibration or held_out unless it is a declared archive backing file"@,
            ),
        )
    }
}

pub open spec fn unassigned_members_issues(members: Seq<EvidenceArchiveMember>, n: nat) -> Seq<
    (Seq<char>, Seq<char>),
>
    decreases n,
{
    if n == 0 {
        Seq::empty()
    } else {
        unassigned_members_issues(members, (n - 1) as nat) + only_if(
            members[n - 1].role is None,
            (
                "archive_members"@,
                "each empirical-evaluation archive member must designate calibration or held_out"@,
            ),
        )
    }
}

/// Some file or archive member carries `role`.
pub open spec fn catalog_has_role(c: EvidenceCatalog, role: DatasetRole) -> bool {
    (exists|j: int| 0 <= j < c.files@.len() && #[trigger] c.files@[j].role == Some(role)) || (
    exists|j: int| 0 <= j < c.archive_members@.len() && #[trigger] c.archive_members@[j].role
        == Some(role))
}

/// Some file or archive member carries a role.
pub open spec fn catalog_declares_a_role(c: EvidenceCatalog) -> bool {
    (exists|j: int| 0 <= j < c.files@.len() && #[trigger] c.files@[j].role is Some) || (exists|
        j: int,
    | 0 <= j < c.archive_members@.len() && #[trigger] c.archive_members@[j].role is Some)
}

/// The problems that depend on the catalog's purpose.
pub open spec fn purpose_issues(c: EvidenceCatalog) -> Seq<(Seq<char>, Seq<char>)> {
    match c.purpose {
        EvidencePurpose::EmpiricalEvaluation => only_if(
            !is_open_license(c.license@),
            (
                "license"@,
                "empirical evaluation requires `CC-BY-4.0` or `CC0-1.0`; `ODbL-1.0` is limited to uncalibrated source observation"@,
            ),
        ) + only_if(
            is_blank_option(c.split_rationale),
            (
                "split_rationale"@,
                "is required for empirical evaluation and must not be empty"@,
            ),
        ) + unassigned_files_issues(c.files@, c.archive_members@, c.files@.len())
            + unassigned_members_issues(c.archive_members@, c.archive_members@.len()) + only_if(
            !catalog_has_role(c, DatasetRole::Calibration) || !catalog_has_role(
                c,
                DatasetRole::HeldOut,
            ),
            ("files"@, "must designate at least one calibration and one held-out file"@),
        ),
        EvidencePurpose::UncalibratedReference => only_if(
            catalog_declares_a_role(c),
            (
                "files"@,
                "uncalibrated reference sources and archive members must not declare calibration or held_out roles"@,
            ),
        ),
    }
}

/// The catalog-level field problems.
pub open spec fn header_field_issues(c: EvidenceCatalog) -> Seq<(Seq<char>, Seq<char>)> {
    only_if(c.schema_version@ != "0.1"@, ("schema_version"@, "must be `0.1`"@)) + only_if(
        is_blank(c.dataset_id@),
        ("dataset_id"@, "must not be empty"@),
    ) + only_if(is_blank(c.title@), ("title"@, "must not be empty"@)) + only_if(
        is_blank(c.landing_page@),
        ("landing_page"@, "must not be empty"@),
    ) + only_if(is_blank(c.license@), ("license"@, "must not be empty"@)) + only_if(
        is_blank(c.citation@),
        ("citation"@, "must not be empty"@),
    ) + only_if(is_blank(c.supported_primitives@), ("supported_primitives"@, "must not be empty"@))
        + only_if(is_blank(c.exclusions@), ("exclusions"@, "must not be empty"@))
}

/// The catalog-level source and license problems.
pub open spec fn header_policy_issues(c: EvidenceCatalog) -> Seq<(Seq<char>, Seq<char>)> {
    only_if(
        !is_https_url_text(c.landing_page@),
        ("landing_page"@, "must be an HTTPS URL"@),
    ) + only_if(
        !is_open_license(c.license@) && c.license@ != "ODbL-1.0"@,
        (
            "license"@,
            "must be the normalized, redistributable license identifier `CC-BY-4.0`, `CC0-1.0`, or `ODbL-1.0`"@,
        ),
    ) + only_if(
        c.license@ == "ODbL-1.0"@ && is_blank_option(c.attribution),
        ("attribution"@, "must be non-empty for an `ODbL-1.0` source"@),
    ) + only_if(!c.redistributable, ("redistributable"@, "must be true"@)) + only_if(
        c.files@.len() == 0,
        ("files"@, "must not be empty"@),
    )
}

/// The catalog-level problems that precede the per-file checks.
pub open spec fn header_issues(c: EvidenceCatalog) -> Seq<(Seq<char>, Seq<char>)> {
    header_field_issues(c) + header_policy_issues(c)
}

/// Every problem of a catalog, in the order they are reported.
pub open spec fn catalog_issues(c: EvidenceCatalog) -> Seq<(Seq<char>, Seq<char>)> {
    header_issues(c) + files_issues(c.files@, c.files@.len()) + members_issues(
        c.files@,
        c.archive_members@,
        c.archive_members@.len(),
    ) + purpose_issues(c)
}

fn issue(path: String, message: &str) -> (r: EvidenceValidationError)
    ensures
        r@ == (path@, message@),
{
    EvidenceValidationError { path, message: owned(message) }
}

fn push_issue(errors: &mut Vec<EvidenceValidationError>, flag: bool, path: String, message: &str)
    ensures
        evidence_issue_texts(final(errors)@) == evidence_issue_texts(old(errors)@) + only_if(
            flag,
            (path@, message@),
        ),
{
    let ghost before = errors@;
    let ghost p = path@;
    reveal(evidence_issue_texts);
    if flag {
        errors.push(issue(path, message));
        assert(evidence_issue_texts(errors@) =~= evidence_issue_texts(before) + seq![
            (p, message@),
        ]);
    } else {
        assert(evidence_issue_texts(errors@) =~= evidence_issue_texts(before) + Seq::empty());
    }
}


fn push_first(errors: &mut Vec<EvidenceValidationError>, flag: bool, path: String, message: &str) -> (r: Ghost<Seq<(Seq<char>, Seq<char>)>>)
    ensures
        r@ == only_if(flag, (path@, message@)),
        evidence_issue_texts(final(errors)@) == evidence_issue_texts(old(errors)@) + r@,
{
    let ghost p = path@;
    push_issue(errors, flag, path, message);
    Ghost(only_if(flag, (p, message@)))
}

fn push_step(
    errors: &mut Vec<EvidenceValidationError>,
    flag: bool,
    path: String,
    message: &str,
    Ghost(start): Ghost<Seq<(Seq<char>, Seq<char>)>>,
    acc: Ghost<Seq<(Seq<char>, Seq<char>)>>,
) -> (r: Ghost<Seq<(Seq<char>, Seq<char>)>>)
    requires
        evidence_issue_texts(old(errors)@) == start + acc@,
    ensures
        r@ == acc@ + only_if(flag, (path@, message@)),
        evidence_issue_texts(final(errors)@) == start + r@,
{
    let ghost p = path@;
    push_issue(errors, flag, path, message);
    proof {
        vstd::seq_lib::lemma_concat_associative(start, acc@, only_if(flag, (p, message@)));
    }
    Ghost(acc@ + only_if(flag, (p, message@)))
}

fn blank_option(o: &Option<String>) -> (r: bool)
    ensures
        r == is_blank_option(*o),
{
    match o {
        None => true,
        Some(x) => is_blank_text(x.as_str()),
    }
}

fn open_license(l: &str) -> (r: bool)
    ensures
        r == is_open_license(l@),
{
    text_eq(l, "CC-BY-4.0") || text_eq(l, "CC0-1.0")
}

fn file_id_seen(files: &Vec<EvidenceFile>, i: usize) -> (r: bool)
    requires
        i < files@.len(),
    ensures
        r == file_id_repeats(files@, i as int),
{
    let mut j: usize = 0;
    while j < i
        invariant
            i < files@.len(),
            j <= i,
            forall|k: int| 0 <= k < j ==> files@[k].id@ != files@[i as int].id@,
        decreases i - j,
    {
        if text_eq(files[j].id.as_str(), files[i].id.as_str()) {
            return true;
        }
        j += 1;
    }
    false
}

fn file_path_seen(files: &Vec<EvidenceFile>, i: usize) -> (r: bool)
    requires
        i < files@.len(),
    ensures
        r == file_path_repeats(files@, i as int),
{
    let mut j: usize = 0;
    while j < i
        invariant
            i < files@.len(),
            j <= i,
            forall|k: int| 0 <= k < j ==> files@[k].local_path@ != files@[i as int].local_path@,
        decreases i - j,
    {
        if text_eq(files[j].local_path.as_str(), files[i].local_path.as_str()) {
            return true;
        }
        j += 1;
    }
    false
}

fn file_id_exists(files: &Vec<EvidenceFile>, id: &str) -> (r: bool)
    ensures
        r == is_file_id(files@, id@),
{
    let mut j: usize = 0;
    while j < files.len()
        invariant
            j <= files@.len(),
            forall|k: int| 0 <= k < j ==> files@[k].id@ != id@,
        decreases files@.len() - j,
    {
        if text_eq(files[j].id.as_str(), id) {
            return true;
        }
        j += 1;
    }
    false
}

fn archive_file_id_exists(members: &Vec<EvidenceArchiveMember>, id: &str) -> (r: bool)
    ensures
        r == is_archive_file_id(members@, id@),
{
    let mut j: usize = 0;
    while j < members.len()
        invariant
            j <= members@.len(),
            forall|k: int| 0 <= k < j ==> members@[k].archive_file_id@ != id@,
        decreases members@.len() - j,
    {
        if text_eq(members[j].archive_file_id.as_str(), id) {
            return true;
        }
        j += 1;
    }
    false
}

fn member_id_seen(
    files: &Vec<EvidenceFile>,
    members: &Vec<EvidenceArchiveMember>,
    i: usize,
) -> (r: bool)
    requires
        i < members@.len(),
    ensures
        r == member_id_repeats(files@, members@, i as int),
{
    if file_id_exists(files, members[i].id.as_str()) {
        return true;
    }
    let mut j: usize = 0;
    while j < i
        invariant
            i < members@.len(),
            j <= i,
            forall|k: int| 0 <= k < j ==> members@[k].id@ != members@[i as int].id@,
        decreases i - j,
    {
        if text_eq(members[j].id.as_str(), members[i].id.as_str()) {
            return true;
        }
        j += 1;
    }
    false
}

fn member_entry_seen(members: &Vec<EvidenceArchiveMember>, i: usize) -> (r: bool)
    requires
        i < members@.len(),
    ensures
        r == member_entry_repeats(members@, i as int),
{
    let mut j: usize = 0;
    while j < i
        invariant
            i < members@.len(),
            j <= i,
            forall|k: int|
                0 <= k < j ==> !(members@[k].archive_file_id@ == members@[
                    i as int
                ].archive_file_id@ && members@[k].member_path@ == members@[i as int].member_path@),
        decreases i - j,
    {
        if text_eq(members[j].archive_file_id.as_str(), members[i].archive_file_id.as_str())
            && text_eq(members[j].member_path.as_str(), members[i].member_path.as_str()) {
            return true;
        }
        j += 1;
    }
    false
}

fn check_file(
    errors: &mut Vec<EvidenceValidationError>,
    files: &Vec<EvidenceFile>,
    i: usize,
)
    requires
        i < files@.len(),
    ensures
        evidence_issue_texts(final(errors)@) == evidence_issue_texts(old(errors)@) + file_issues(
            files@,
            i as nat,
        ),
{
    let ghost start = evidence_issue_texts(errors@);
    let file = &files[i];
    let acc0 = push_first(
        errors,
        is_blank_text(file.id.as_str()) || is_blank_text(file.transformation.as_str()),
        indexed_path("files", i, ""),
        "id and transformation are required",
    );
    let acc1 = push_step(errors, file_id_seen(files, i), indexed_path("files", i, ".id"), "must be unique", Ghost(start), acc0);
    let acc2 = push_step(
        errors,
        file_path_seen(files, i),
        indexed_path("files", i, ".local_path"),
        "must be unique", Ghost(start), acc1);
    let acc3 = push_step(
        errors,
        !is_https_url(file.source_url.as_str()),
        indexed_path("files", i, ".source_url"),
        "must be an HTTPS URL", Ghost(start), acc2);
    let acc4 = push_step(
        errors,
        !(normal_relative_path(file.local_path.as_str()) && !has_char(
            file.local_path.as_str(),
            '\\',
        )),
        indexed_path("files", i, ".local_path"),
        "must be a non-empty relative path without `.` or `..` components", Ghost(start), acc3);
    let acc5 = push_step(
        errors,
        !is_sha256(file.sha256.as_str()),
        indexed_path("files", i, ".sha256"),
        "must be a SHA-256 hexadecimal digest", Ghost(start), acc4);
    let acc6 = push_step(
        errors,
        file.size_bytes == 0,
        indexed_path("files", i, ".size_bytes"),
        "must be non-zero", Ghost(start), acc5);
    let upstream_blank = match &file.upstream_checksum {
        Some(checksum) => is_blank_text(checksum.as_str()),
        None => false,
    };
    let acc7 = push_step(
        errors,
        upstream_blank,
        indexed_path("files", i, ".upstream_checksum"),
        "must not be empty when the publisher provides one", Ghost(start), acc6);
    proof {
        reveal_strlit("");
        assert(""@ =~= Seq::<char>::empty());
        assert(acc7@ == file_issues(files@, i as nat));
    }
}

fn check_member(
    errors: &mut Vec<EvidenceValidationError>,
    files: &Vec<EvidenceFile>,
    members: &Vec<EvidenceArchiveMember>,
    i: usize,
)
    requires
        i < members@.len(),
    ensures
        evidence_issue_texts(final(errors)@) == evidence_issue_texts(old(errors)@) + member_issues(
            files@,
            members@,
            i as nat,
        ),
{
    let ghost start = evidence_issue_texts(errors@);
    let member = &members[i];
    let acc0 = push_first(
        errors,
        is_blank_text(member.id.as_str()) || is_blank_text(member.transformation.as_str()),
        indexed_path("archive_members", i, ""),
        "id and transformation are required",
    );
    let acc1 = push_step(
        errors,
        member_id_seen(files, members, i),
        indexed_path("archive_members", i, ".id"),
        "must be unique across files and archive members", Ghost(start), acc0);
    let acc2 = push_step(
        errors,
        !file_id_exists(files, member.archive_file_id.as_str()),
        indexed_path("archive_members", i, ".archive_file_id"),
        "must identify a declared source file", Ghost(start), acc1);
    let acc3 = push_step(
        errors,
        !(normal_relative_path(member.member_path.as_str()) && !has_char(
            member.member_path.as_str(),
            '\\',
        )),
        indexed_path("archive_members", i, ".member_path"),
        "must be a non-empty relative path without `.` or `..` components", Ghost(start), acc2);
    let acc4 = push_step(
        errors,
        member_entry_seen(members, i),
        indexed_path("archive_members", i, ".member_path"),
        "must be unique within its declared archive", Ghost(start), acc3);
    let acc5 = push_step(
        errors,
        !is_sha256(member.sha256.as_str()),
        indexed_path("archive_members", i, ".sha256"),
        "must be a SHA-256 hexadecimal digest", Ghost(start), acc4);
    let acc6 = push_step(
        errors,
        member.size_bytes == 0,
        indexed_path("archive_members", i, ".size_bytes"),
        "must be non-zero", Ghost(start), acc5);
    proof {
        reveal_strlit("");
        assert(""@ =~= Seq::<char>::empty());
        assert(acc6@ == member_issues(files@, members@, i as nat));
    }
}

fn validate_catalog_purpose(catalog: &EvidenceCatalog, errors: &mut Vec<EvidenceValidationError>)
    ensures
        evidence_issue_texts(final(errors)@) == evidence_issue_texts(old(errors)@)
            + purpose_issues(*catalog),
{
    let ghost start = evidence_issue_texts(errors@);
    let ghost files = catalog.files@;
    let ghost members = catalog.archive_members@;
    match catalog.purpose {
        EvidencePurpose::EmpiricalEvaluation => {
            push_issue(
                errors,
                !open_license(catalog.license.as_str()),
                owned("license"),
                "empirical evaluation requires `CC-BY-4.0` or `CC0-1.0`; `ODbL-1.0` is limited to uncalibrated source observation",
            );
            push_issue(
                errors,
                blank_option(&catalog.split_rationale),
                owned("split_rationale"),
                "is required for empirical evaluation and must not be empty",
            );
            let ghost mid = evidence_issue_texts(errors@);
            let mut has_calibration = false;
            let mut has_held_out = false;
            let mut i: usize = 0;
            while i < catalog.files.len()
                invariant
                    files == catalog.files@,
                    members == catalog.archive_members@,
                    i <= files.len(),
                    evidence_issue_texts(errors@) == mid + unassigned_files_issues(
                        files,
                        members,
                        i as nat,
                    ),
                    has_calibration == exists|j: int|
                        0 <= j < i && #[trigger] files[j].role == Some(DatasetRole::Calibration),
                    has_held_out == exists|j: int|
                        0 <= j < i && #[trigger] files[j].role == Some(DatasetRole::HeldOut),
                decreases files.len() - i,
            {
                let file = &catalog.files[i];
                let unassigned = match file.role {
                    Some(DatasetRole::Calibration) => {
                        has_calibration = true;
                        false
                    },
                    Some(DatasetRole::HeldOut) => {
                        has_held_out = true;
                        false
                    },
                    None => !archive_file_id_exists(&catalog.archive_members, file.id.as_str()),
                };
                push_issue(
                    errors,
                    unassigned,
                    owned("files"),
                    "each empirical-evaluation source must designate calibration or held_out unless it is a declared archive backing file",
                );
                i += 1;
            }
            let ghost mid2 = evidence_issue_texts(errors@);
            let mut k: usize = 0;
            while k < catalog.archive_members.len()
                invariant
                    files == catalog.files@,
                    members == catalog.archive_members@,
                    k <= members.len(),
                    evidence_issue_texts(errors@) == mid2 + unassigned_members_issues(
                        members,
                        k as nat,
                    ),
                    has_calibration == ((exists|j: int|
                        0 <= j < files.len() && #[trigger] files[j].role == Some(
                            DatasetRole::Calibration,
                        )) || exists|j: int|
                        0 <= j < k && #[trigger] members[j].role == Some(
                            DatasetRole::Calibration,
                        )),
                    has_held_out == ((exists|j: int|
                        0 <= j < files.len() && #[trigger] files[j].role == Some(
                            DatasetRole::HeldOut,
                        )) || exists|j: int|
                        0 <= j < k && #[trigger] members[j].role == Some(DatasetRole::HeldOut)),
                decreases members.len() - k,
            {
                let member = &catalog.archive_members[k];
                let unassigned = match member.role {
                    Some(DatasetRole::Calibration) => {
                        has_calibration = true;
                        false
                    },
                    Some(DatasetRole::HeldOut) => {
                        has_held_out = true;
                        false
                    },
                    None => true,
                };
                push_issue(
                    errors,
                    unassigned,
                    owned("archive_members"),
                    "each empirical-evaluation archive member must designate calibration or held_out",
                );
                k += 1;
            }
            push_issue(
                errors,
                !has_calibration || !has_held_out,
                owned("files"),
                "must designate at least one calibration and one held-out file",
            );
            proof {
                assert(evidence_issue_texts(errors@) =~= start + purpose_issues(*catalog));
            }
        },
        EvidencePurpose::UncalibratedReference => {
            let mut declared = false;
            let mut i: usize = 0;
            while i < catalog.files.len()
                invariant
                    files == catalog.files@,
                    i <= files.len(),
                    declared == exists|j: int| 0 <= j < i && #[trigger] files[j].role is Some,
                decreases files.len() - i,
            {
                if catalog.files[i].role.is_some() {
                    declared = true;
                }
                i += 1;
            }
            let mut k: usize = 0;
            while k < catalog.archive_members.len()
                invariant
                    files == catalog.files@,
                    members == catalog.archive_members@,
                    k <= members.len(),
                    declared == ((exists|j: int|
                        0 <= j < files.len() && #[trigger] files[j].role is Some) || exists|
                        j: int,
                    | 0 <= j < k && #[trigger] members[j].role is Some),
                decreases members.len() - k,
            {
                if catalog.archive_members[k].role.is_some() {
                    declared = true;
                }
                k += 1;
            }
            push_issue(
                errors,
                declared,
                owned("files"),
                "uncalibrated reference sources and archive members must not declare calibration or held_out roles",
            );
        },
    }
}

fn check_header_fields(catalog: &EvidenceCatalog, errors: &mut Vec<EvidenceValidationError>)
    ensures
        evidence_issue_texts(final(errors)@) == evidence_issue_texts(old(errors)@) + header_field_issues(
            *catalog,
        ),
{
    let ghost start = evidence_issue_texts(errors@);
    let acc0 = push_first(
        errors,
        !text_eq(catalog.schema_version.as_str(), "0.1"),
        owned("schema_version"),
        "must be `0.1`",
    );
    let acc1 = push_step(
        errors,
        is_blank_text(catalog.dataset_id.as_str()),
        owned("dataset_id"),
        "must not be empty", Ghost(start), acc0);
    let acc2 = push_step(
        errors,
        is_blank_text(catalog.title.as_str()),
        owned("title"),
        "must not be empty", Ghost(start), acc1);
    let acc3 = push_step(
        errors,
        is_blank_text(catalog.landing_page.as_str()),
        owned("landing_page"),
        "must not be empty", Ghost(start), acc2);
    let acc4 = push_step(
        errors,
        is_blank_text(catalog.license.as_str()),
        owned("license"),
        "must not be empty", Ghost(start), acc3);
    let acc5 = push_step(
        errors,
        is_blank_text(catalog.citation.as_str()),
        owned("citation"),
        "must not be empty", Ghost(start), acc4);
    let acc6 = push_step(
        errors,
        is_blank_text(catalog.supported_primitives.as_str()),
        owned("supported_primitives"),
        "must not be empty", Ghost(start), acc5);
    let acc7 = push_step(
        errors,
        is_blank_text(catalog.exclusions.as_str()),
        owned("exclusions"),
        "must not be empty", Ghost(start), acc6);
    proof {
        assert(acc7@ == header_field_issues(*catalog));
    }
}

fn check_header_policy(catalog: &EvidenceCatalog, errors: &mut Vec<EvidenceValidationError>)
    ensures
        evidence_issue_texts(final(errors)@) == evidence_issue_texts(old(errors)@)
            + header_policy_issues(*catalog),
{
    let ghost start = evidence_issue_texts(errors@);
    let acc0 = push_first(
        errors,
        !is_https_url(catalog.landing_page.as_str()),
        owned("landing_page"),
        "must be an HTTPS URL");
    let odbl = text_eq(catalog.license.as_str(), "ODbL-1.0");
    let acc1 = push_step(
        errors,
        !open_license(catalog.license.as_str()) && !odbl,
        owned("license"),
        "must be the normalized, redistributable license identifier `CC-BY-4.0`, `CC0-1.0`, or `ODbL-1.0`", Ghost(start), acc0);
    let acc2 = push_step(
        errors,
        odbl && blank_option(&catalog.attribution),
        owned("attribution"),
        "must be non-empty for an `ODbL-1.0` source", Ghost(start), acc1);
    let acc3 = push_step(
        errors,
        !catalog.redistributable,
        owned("redistributable"),
        "must be true", Ghost(start), acc2);
    let acc4 = push_step(errors, catalog.files.len() == 0, owned("files"), "must not be empty", Ghost(start), acc3);
    proof {
        assert(acc4@ == header_policy_issues(*catalog));
    }
}

fn check_header(catalog: &EvidenceCatalog, errors: &mut Vec<EvidenceValidationError>)
    ensures
        evidence_issue_texts(final(errors)@) == evidence_issue_texts(old(errors)@) + header_issues(
            *catalog,
        ),
{
    let ghost start = evidence_issue_texts(errors@);
    check_header_fields(catalog, errors);
    check_header_policy(catalog, errors);
    proof {
        vstd::seq_lib::lemma_concat_associative(
            start,
            header_field_issues(*catalog),
            header_policy_issues(*catalog),
        );
    }
}

/// Validate that a catalog is specific enough to lock acquired files. It does
/// not judge measurement quality and does not make a source an empirical round.
///
/// Every problem is reported, in field order; the catalog is accepted exactly
/// when there is none.
pub fn validate_catalog(catalog: &EvidenceCatalog) -> (r: Result<(), Vec<EvidenceValidationError>>)
    ensures
        r is Ok <==> catalog_issues(*catalog).len() == 0,
        r matches Err(errors) ==> evidence_issue_texts(errors@) == catalog_issues(*catalog),
{
    let mut errors: Vec<EvidenceValidationError> = Vec::new();
    check_header(catalog, &mut errors);
    proof {
        reveal(evidence_issue_texts);
        assert(evidence_issue_texts(errors@) =~= header_issues(*catalog));
    }
    let ghost files = catalog.files@;
    let ghost members = catalog.archive_members@;
    let mut i: usize = 0;
    while i < catalog.files.len()
        invariant
            files == catalog.files@,
            i <= files.len(),
            evidence_issue_texts(errors@) == header_issues(*catalog) + files_issues(
                files,
                i as nat,
            ),
        decreases files.len() - i,
    {
        check_file(&mut errors, &catalog.files, i);
        proof {
            assert(files_issues(files, (i + 1) as nat) == files_issues(files, i as nat)
                + file_issues(files, i as nat));
        }
        i += 1;
    }
    let mut k: usize = 0;
    while k < catalog.archive_members.len()
        invariant
            files == catalog.files@,
            members == catalog.archive_members@,
            k <= members.len(),
            evidence_issue_texts(errors@) == header_issues(*catalog) + files_issues(
                files,
                files.len(),
            ) + members_issues(files, members, k as nat),
        decreases members.len() - k,
    {
        check_member(&mut errors, &catalog.files, &catalog.archive_members, k);
        proof {
            assert(members_issues(files, members, (k + 1) as nat) == members_issues(
                files,
                members,
                k as nat,
            ) + member_issues(files, members, k as nat));
        }
        k += 1;
    }
    validate_catalog_purpose(catalog, &mut errors);
    proof {
        assert(evidence_issue_texts(errors@) =~= catalog_issues(*catalog));
        reveal(evidence_issue_texts);
    }
    if errors.len() == 0 {
        Ok(())
    } else {
        Err(errors)
    }
}

/// An `ODbL-1.0` source must name its attribution: without one the catalog
/// is refused.
pub proof fn lemma_odbl_requires_attribution(c: EvidenceCatalog)
    requires
        c.license@ == "ODbL-1.0"@,
        is_blank_option(c.attribution),
    ensures
        catalog_issues(c).len() > 0,
{
    assert(header_policy_issues(c).len() > 0);
}

/// `ODbL-1.0` data is limited to uncalibrated source observation: an
/// empirical-evaluation catalog under that license is refused.
pub proof fn lemma_odbl_is_never_empirical(c: EvidenceCatalog)
    requires
        c.license@ == "ODbL-1.0"@,
        c.purpose == EvidencePurpose::EmpiricalEvaluation,
    ensures
        catalog_issues(c).len() > 0,
{
    reveal_strlit("ODbL-1.0");
    reveal_strlit("CC-BY-4.0");
    reveal_strlit("CC0-1.0");
    assert("ODbL-1.0"@[0] == 'O' && "CC-BY-4.0"@[0] == 'C' && "CC0-1.0"@[0] == 'C');
    assert(!is_open_license(c.license@));
    assert(purpose_issues(c).len() > 0);
}

/// An accepted empirical-evaluation catalog designates at least one
/// calibration and one held-out source.
pub proof fn lemma_empirical_catalog_has_both_partitions(c: EvidenceCatalog)
    requires
        catalog_issues(c).len() == 0,
        c.purpose == EvidencePurpose::EmpiricalEvaluation,
    ensures
        catalog_has_role(c, DatasetRole::Calibration),
        catalog_has_role(c, DatasetRole::HeldOut),
{
    assert(purpose_issues(c).len() == 0);
}

/// An accepted uncalibrated-reference catalog declares no partition role, so
/// it cannot be mistaken for an empirical split.
pub proof fn lemma_reference_catalog_declares_no_role(c: EvidenceCatalog)
    requires
        catalog_issues(c).len() == 0,
        c.purpose == EvidencePurpose::UncalibratedReference,
    ensures
        !catalog_declares_a_role(c),
{
    assert(purpose_issues(c).len() == 0);
}

/// Each file of a catalog without file problems has none of its own.
proof fn lemma_files_clean(files: Seq<EvidenceFile>, n: nat)
    requires
        files_issues(files, n).len() == 0,
    ensures
        forall|i: nat| i < n ==> (#[trigger] file_issues(files, i)).len() == 0,
    decreases n,
{
    if n > 0 {
        lemma_files_clean(files, (n - 1) as nat);
    }
}

/// Each member of a catalog without member problems has none of its own.
proof fn lemma_members_clean(files: Seq<EvidenceFile>, members: Seq<EvidenceArchiveMember>, n: nat)
    requires
        members_issues(files, members, n).len() == 0,
    ensures
        forall|i: nat| i < n ==> (#[trigger] member_issues(files, members, i)).len() == 0,
    decreases n,
{
    if n > 0 {
        lemma_members_clean(files, members, (n - 1) as nat);
    }
}

/// What an accepted catalog is: schema `0.1`, one of the three licenses,
/// redistributable, at least one file; file ids and local paths unique;
/// member ids unique across files and members, each member stored in a
/// declared file, once per archive; every path a safe relative path, every
/// digest a SHA-256 hexadecimal digest, and every size non-zero.
#[verifier::spinoff_prover]
#[verifier::rlimit(60)]
pub proof fn lemma_accepted_catalog(c: EvidenceCatalog)
    requires
        catalog_issues(c).len() == 0,
    ensures
        c.schema_version@ == "0.1"@,
        c.license@ == "CC-BY-4.0"@ || c.license@ == "CC0-1.0"@ || c.license@ == "ODbL-1.0"@,
        c.redistributable,
        c.files@.len() > 0,
        forall|i: int, j: int|
            0 <= i < j < c.files@.len() ==> (#[trigger] c.files@[i]).id@ != (#[trigger] c.files@[j]).id@
                && c.files@[i].local_path@ != c.files@[j].local_path@,
        forall|i: int|
            0 <= i < c.files@.len() ==> is_safe_catalog_path((#[trigger] c.files@[i]).local_path@)
                && is_sha256_text(c.files@[i].sha256@) && c.files@[i].size_bytes > 0,
        forall|k: int|
            0 <= k < c.archive_members@.len() ==> is_file_id(c.files@, (#[trigger] c.archive_members@[k]).archive_file_id@)
                && !is_file_id(c.files@, c.archive_members@[k].id@) && is_safe_catalog_path(
                c.archive_members@[k].member_path@,
            ) && is_sha256_text(c.archive_members@[k].sha256@) && c.archive_members@[k].size_bytes > 0,
        forall|k: int, l: int|
            0 <= k < l < c.archive_members@.len() ==> (#[trigger] c.archive_members@[k]).id@
                != (#[trigger] c.archive_members@[l]).id@ && (c.archive_members@[k].archive_file_id@
                != c.archive_members@[l].archive_file_id@ || c.archive_members@[k].member_path@
                != c.archive_members@[l].member_path@),
{
    lemma_accepted_catalog_header(c);
    lemma_accepted_catalog_files(c);
    lemma_accepted_catalog_members(c);
}

#[verifier::spinoff_prover]
proof fn lemma_accepted_catalog_header(c: EvidenceCatalog)
    requires
        catalog_issues(c).len() == 0,
    ensures
        c.schema_version@ == "0.1"@,
        c.license@ == "CC-BY-4.0"@ || c.license@ == "CC0-1.0"@ || c.license@ == "ODbL-1.0"@,
        c.redistributable,
        c.files@.len() > 0,
{
    assert(header_issues(c).len() == 0);
    assert(header_policy_issues(c).len() == 0);
    assert(header_field_issues(c).len() == 0);
}

#[verifier::spinoff_prover]
#[verifier::rlimit(60)]
proof fn lemma_accepted_catalog_files(c: EvidenceCatalog)
    requires
        catalog_issues(c).len() == 0,
    ensures
        forall|i: int, j: int|
            0 <= i < j < c.files@.len() ==> (#[trigger] c.files@[i]).id@ != (#[trigger] c.files@[j]).id@
                && c.files@[i].local_path@ != c.files@[j].local_path@,
        forall|i: int|
            0 <= i < c.files@.len() ==> is_safe_catalog_path((#[trigger] c.files@[i]).local_path@)
                && is_sha256_text(c.files@[i].sha256@) && c.files@[i].size_bytes > 0,
{
    let fs = c.files@;
    assert(files_issues(fs, fs.len()).len() == 0);
    lemma_files_clean(fs, fs.len());
    assert forall|i: int| 0 <= i < fs.len() implies is_safe_catalog_path((#[trigger] fs[i]).local_path@)
        && is_sha256_text(fs[i].sha256@) && fs[i].size_bytes > 0 by {
        assert(file_issues(fs, i as nat).len() == 0);
    }
    assert forall|i: int, j: int| 0 <= i < j < fs.len() implies (#[trigger] fs[i]).id@ != (#[trigger] fs[j]).id@
        && fs[i].local_path@ != fs[j].local_path@ by {
        assert(file_issues(fs, j as nat).len() == 0);
        assert(!file_id_repeats(fs, j));
        assert(!file_path_repeats(fs, j));
    }
}

#[verifier::spinoff_prover]
#[verifier::rlimit(60)]
proof fn lemma_accepted_catalog_members(c: EvidenceCatalog)
    requires
        catalog_issues(c).len() == 0,
    ensures
        forall|k: int|
            0 <= k < c.archive_members@.len() ==> is_file_id(c.files@, (#[trigger] c.archive_members@[k]).archive_file_id@)
                && !is_file_id(c.files@, c.archive_members@[k].id@) && is_safe_catalog_path(
                c.archive_members@[k].member_path@,
            ) && is_sha256_text(c.archive_members@[k].sha256@) && c.archive_members@[k].size_bytes > 0,
        forall|k: int, l: int|
            0 <= k < l < c.archive_members@.len() ==> (#[trigger] c.archive_members@[k]).id@
                != (#[trigger] c.archive_members@[l]).id@ && (c.archive_members@[k].archive_file_id@
                != c.archive_members@[l].archive_file_id@ || c.archive_members@[k].member_path@
                != c.archive_members@[l].member_path@),
{
    let fs = c.files@;
    let ms = c.archive_members@;
    assert(members_issues(fs, ms, ms.len()).len() == 0);
    lemma_members_clean(fs, ms, ms.len());
    assert forall|k: int| 0 <= k < ms.len() implies is_file_id(fs, (#[trigger] ms[k]).archive_file_id@) && !is_file_id(
        fs,
        ms[k].id@,
    ) && is_safe_catalog_path(ms[k].member_path@) && is_sha256_text(ms[k].sha256@) && ms[k].size_bytes > 0 by {
        assert(member_issues(fs, ms, k as nat).len() == 0);
        assert(!member_id_repeats(fs, ms, k));
    }
    assert forall|k: int, l: int| 0 <= k < l < ms.len() implies (#[trigger] ms[k]).id@ != (#[trigger] ms[l]).id@ && (
    ms[k].archive_file_id@ != ms[l].archive_file_id@ || ms[k].member_path@ != ms[l].member_path@) by {
        assert(member_issues(fs, ms, l as nat).len() == 0);
        assert(!member_id_repeats(fs, ms, l));
        assert(!member_entry_repeats(ms, l));
    }
}

} // verus!
