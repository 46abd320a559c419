//! Evidence manifest validation for reproducible benchmark rounds.

use vstd::prelude::*;
use crate::text::{
    indexed, indexed_path, is_blank, only_if, is_blank_text, is_sha256, is_sha256_text, owned, text_eq,
};

verus! {

/// The partition a dataset belongs to.
#[derive(Debug, Clone, Copy, PartialEq, Eq, Structural)]
pub enum DatasetRole {
    Calibration,
    HeldOut,
}

#[derive(Debug, Clone)]
pub struct DatasetEvidence {
    pub id: String,
    pub role: DatasetRole,
    pub source_url: String,
    pub license: String,
    pub sha256: String,
    pub redistributable: bool,
    pub transformation: String,
}

#[derive(Debug, Clone)]
pub struct GeneratorRound {
    pub version: String,
    pub public_fixture_seeds: Vec<u64>,
    pub evaluation_seed_commitment: String,
    pub release_after_round: bool,
}

#[derive(Debug, Clone)]
pub struct BenchmarkManifest {
    pub schema_version: String,
    pub round_id: String,
    pub generator: GeneratorRound,
    pub datasets: Vec<DatasetEvidence>,
    pub claim_boundary: String,
}

/// One field-level problem: the field's path and what is wrong with it.
#[derive(Debug, Clone)]
pub struct BenchmarkValidationError {
    pub path: String,
    pub message: String,
}

impl View for BenchmarkValidationError {
    type V = (Seq<char>, Seq<char>);

    open spec fn view(&self) -> (Seq<char>, Seq<char>) {
        (self.path@, self.message@)
    }
}

impl BenchmarkValidationError {
    /// The `path: message` rendering of the error.
    pub fn to_text(&self) -> (r: String)
        ensures
            r@ == self.path@ + seq![':', ' '] + self.message@,
    {
        let mut out = self.path.clone();
        out.push(':');
        out.push(' ');
        crate::text::append_text(&mut out, self.message.as_str());
        out
    }
}

/// The texts of a list of errors.
pub open spec fn benchmark_issue_texts(errors: Seq<BenchmarkValidationError>) -> Seq<
    (Seq<char>, Seq<char>),
> {
    errors.map_values(|e: BenchmarkValidationError| e@)
}

/// The problems of one dataset entry at `index`, in reporting order.
pub open spec fn dataset_issues(d: DatasetEvidence, index: nat) -> Seq<(Seq<char>, Seq<char>)> {
    let path = indexed("datasets"@, index, Seq::empty());
    only_if(
        is_blank(d.id@) || is_blank(d.source_url@) || is_blank(d.license@) || is_blank(
            d.transformation@,
        ),
        (path, "id, URL, license, and transformation are required"@),
    ) + only_if(!d.redistributable, (path, "must be redistributable"@)) + only_if(
        !is_sha256_text(d.sha256@),
        (indexed("datasets"@, index, ".sha256"@), "must be a SHA-256 hexadecimal digest"@),
    )
}

/// The problems of the first `n` dataset entries.
pub open spec fn datasets_issues(ds: Seq<DatasetEvidence>, n: nat) -> Seq<(Seq<char>, Seq<char>)>
    decreases n,
{
    if n == 0 {
        Seq::empty()
    } else {
        datasets_issues(ds, (n - 1) as nat) + dataset_issues(ds[n - 1], (n - 1) as nat)
    }
}

pub open spec fn has_role(ds: Seq<DatasetEvidence>, role: DatasetRole) -> bool {
    exists|i: int| 0 <= i < ds.len() && #[trigger] ds[i].role == role
}

/// Every problem of a manifest, in the order they are reported.
pub open spec fn manifest_issues(m: BenchmarkManifest) -> Seq<(Seq<char>, Seq<char>)> {
    only_if(m.schema_version@ != "0.1"@, ("schema_version"@, "must be `0.1`"@)) + only_if(
        is_blank(m.round_id@),
        ("round_id"@, "must not be empty"@),
    ) + only_if(is_blank(m.generator.version@), ("generator.version"@, "must not be empty"@))
        + only_if(
        m.generator.public_fixture_seeds@.len() == 0,
        ("generator.public_fixture_seeds"@, "must not be empty"@),
    ) + only_if(
        !is_sha256_text(m.generator.evaluation_seed_commitment@),
        (
            "generator.evaluation_seed_commitment"@,
            "must be a SHA-256 hexadecimal commitment"@,
        ),
    ) + only_if(
        !m.generator.release_after_round,
        (
            "generator.release_after_round"@,
            "must be true for a reproducible public round"@,
        ),
    ) + datasets_issues(m.datasets@, m.datasets@.len()) + only_if(
        !has_role(m.datasets@, DatasetRole::Calibration) || !has_role(
            m.datasets@,
            DatasetRole::HeldOut,
        ),
        (
            "datasets"@,
            "an empirical round requires at least one calibration and one held-out dataset"@,
        ),
    ) + only_if(is_blank(m.claim_boundary@), ("claim_boundary"@, "must state evidence limitations"@))
}

fn issue(path: String, message: &str) -> (r: BenchmarkValidationError)
    ensures
        r@ == (path@, message@),
{
    BenchmarkValidationError { path, message: owned(message) }
}

fn push_issue(
    errors: &mut Vec<BenchmarkValidationError>,
    flag: bool,
    path: &str,
    message: &str,
)
    ensures
        benchmark_issue_texts(final(errors)@) == benchmark_issue_texts(old(errors)@) + only_if(
            flag,
            (path@, message@),
        ),
{
    let ghost before = errors@;
    if flag {
        errors.push(issue(owned(path), message));
        assert(benchmark_issue_texts(errors@) =~= benchmark_issue_texts(before) + seq![
            (path@, message@),
        ]);
    } else {
        assert(benchmark_issue_texts(errors@) =~= benchmark_issue_texts(before) + Seq::empty());
    }
}

fn push_owned_issue(
    errors: &mut Vec<BenchmarkValidationError>,
    flag: bool,
    path: String,
    message: &str,
)
    ensures
        benchmark_issue_texts(final(errors)@) == benchmark_issue_texts(old(errors)@) + only_if(
            flag,
            (path@, message@),
        ),
{
    let ghost before = errors@;
    let ghost p = path@;
    if flag {
        errors.push(issue(path, message));
        assert(benchmark_issue_texts(errors@) =~= benchmark_issue_texts(before) + seq![
            (p, message@),
        ]);
    } else {
        assert(benchmark_issue_texts(errors@) =~= benchmark_issue_texts(before) + Seq::empty());
    }
}

/// Enforce the public evidence contract before a round can advertise empirical
/// results. This deliberately rejects private, non-redistributable inputs.
///
/// Every problem is reported, in field order; the manifest is accepted exactly
/// when there is none.
pub fn validate_manifest(manifest: &BenchmarkManifest) -> (r: Result<
    (),
    Vec<BenchmarkValidationError>,
>)
    ensures
        r is Ok <==> manifest_issues(*manifest).len() == 0,
        r matches Err(errors) ==> benchmark_issue_texts(errors@) == manifest_issues(*manifest),
{
    let mut errors: Vec<BenchmarkValidationError> = Vec::new();
    push_issue(
        &mut errors,
        !text_eq(manifest.schema_version.as_str(), "0.1"),
        "schema_version",
        "must be `0.1`",
    );
    push_issue(
        &mut errors,
        is_blank_text(manifest.round_id.as_str()),
        "round_id",
        "must not be empty",
    );
    push_issue(
        &mut errors,
        is_blank_text(manifest.generator.version.as_str()),
        "generator.version",
        "must not be empty",
    );
    push_issue(
        &mut errors,
        manifest.generator.public_fixture_seeds.len() == 0,
        "generator.public_fixture_seeds",
        "must not be empty",
    );
    push_issue(
        &mut errors,
        !is_sha256(manifest.generator.evaluation_seed_commitment.as_str()),
        "generator.evaluation_seed_commitment",
        "must be a SHA-256 hexadecimal commitment",
    );
    push_issue(
        &mut errors,
        !manifest.generator.release_after_round,
        "generator.release_after_round",
        "must be true for a reproducible public round",
    );
    let ghost head = benchmark_issue_texts(errors@);
    let ghost ds = manifest.datasets@;
    let mut calibration = false;
    let mut held_out = false;
    let mut index: usize = 0;
    while index < manifest.datasets.len()
        invariant
            ds == manifest.datasets@,
            index <= ds.len(),
            benchmark_issue_texts(errors@) == head + datasets_issues(ds, index as nat),
            calibration == exists|j: int| 0 <= j < index && #[trigger] ds[j].role == DatasetRole::Calibration,
            held_out == exists|j: int| 0 <= j < index && #[trigger] ds[j].role == DatasetRole::HeldOut,
        decreases ds.len() - index,
    {
        let dataset = &manifest.datasets[index];
        let ghost before = benchmark_issue_texts(errors@);
        push_owned_issue(
            &mut errors,
            is_blank_text(dataset.id.as_str()) || is_blank_text(dataset.source_url.as_str())
                || is_blank_text(dataset.license.as_str()) || is_blank_text(
                dataset.transformation.as_str(),
            ),
            indexed_path("datasets", index, ""),
            "id, URL, license, and transformation are required",
        );
        push_owned_issue(
            &mut errors,
            !dataset.redistributable,
            indexed_path("datasets", index, ""),
            "must be redistributable",
        );
        push_owned_issue(
            &mut errors,
            !is_sha256(dataset.sha256.as_str()),
            indexed_path("datasets", index, ".sha256"),
            "must be a SHA-256 hexadecimal digest",
        );
        proof {
            reveal_strlit("");
            assert(""@ =~= Seq::<char>::empty());
            assert(benchmark_issue_texts(errors@) =~= before + dataset_issues(
                ds[index as int],
                index as nat,
            ));
        }
        match dataset.role {
            DatasetRole::Calibration => calibration = true,
            DatasetRole::HeldOut => held_out = true,
        }
        index += 1;
    }
    push_issue(
        &mut errors,
        !calibration || !held_out,
        "datasets",
        "an empirical round requires at least one calibration and one held-out dataset",
    );
    push_issue(
        &mut errors,
        is_blank_text(manifest.claim_boundary.as_str()),
        "claim_boundary",
        "must state evidence limitations",
    );
    proof {
        assert(benchmark_issue_texts(errors@) =~= manifest_issues(*manifest));
    }
    if errors.len() == 0 {
        Ok(())
    } else {
        Err(errors)
    }
}

/// An accepted benchmark round has at least one calibration and one
/// held-out dataset.
pub proof fn lemma_round_has_both_partitions(m: BenchmarkManifest)
    requires
        manifest_issues(m).len() == 0,
    ensures
        has_role(m.datasets@, DatasetRole::Calibration),
        has_role(m.datasets@, DatasetRole::HeldOut),
{
}

proof fn lemma_contains_concat(a: Seq<(Seq<char>, Seq<char>)>, b: Seq<(Seq<char>, Seq<char>)>, x: (Seq<char>, Seq<char>))
    ensures
        a.contains(x) || b.contains(x) ==> (a + b).contains(x),
{
    if a.contains(x) {
        let k = choose|k: int| 0 <= k < a.len() && a[k] == x;
        assert((a + b)[k] == x);
    } else if b.contains(x) {
        let k = choose|k: int| 0 <= k < b.len() && b[k] == x;
        assert((a + b)[k + a.len()] == x);
    }
}

/// Every issue of one dataset entry is an issue of the first `n` entries
/// that include it.
proof fn lemma_datasets_issues_include(ds: Seq<DatasetEvidence>, n: nat, i: nat, x: (Seq<char>, Seq<char>))
    requires
        i < n,
        n <= ds.len(),
        dataset_issues(ds[i as int], i).contains(x),
    ensures
        datasets_issues(ds, n).contains(x),
    decreases n,
{
    if i + 1 == n {
        lemma_contains_concat(datasets_issues(ds, i), dataset_issues(ds[i as int], i), x);
    } else {
        lemma_datasets_issues_include(ds, (n - 1) as nat, i, x);
        lemma_contains_concat(datasets_issues(ds, (n - 1) as nat), dataset_issues(ds[n - 1], (n - 1) as nat), x);
    }
}

/// A dataset entry with a blank id, source URL, license or transformation
/// is refused: the manifest's issues name that entry as incomplete, whichever
/// of the four is blank.
#[verifier::spinoff_prover]
#[verifier::rlimit(60)]
pub proof fn lemma_incomplete_dataset_refused(m: BenchmarkManifest, i: nat)
    requires
        i < m.datasets@.len(),
        is_blank(m.datasets@[i as int].id@) || is_blank(m.datasets@[i as int].source_url@) || is_blank(
            m.datasets@[i as int].license@,
        ) || is_blank(m.datasets@[i as int].transformation@),
    ensures
        manifest_issues(m).contains(
            (indexed("datasets"@, i, Seq::empty()), "id, URL, license, and transformation are required"@),
        ),
        manifest_issues(m).len() > 0,
{
    let ds = m.datasets@;
    let x = (indexed("datasets"@, i, Seq::empty()), "id, URL, license, and transformation are required"@);
    let d = ds[i as int];
    let first = only_if(
        is_blank(d.id@) || is_blank(d.source_url@) || is_blank(d.license@) || is_blank(d.transformation@),
        x,
    );
    assert(first[0] == x);
    assert(dataset_issues(d, i)[0] == x);
    lemma_datasets_issues_include(ds, ds.len(), i, x);
    let all = datasets_issues(ds, ds.len());
    let k = choose|k: int| 0 <= k < all.len() && all[k] == x;
    let mi = manifest_issues(m);
    let head = only_if(m.schema_version@ != "0.1"@, ("schema_version"@, "must be `0.1`"@)) + only_if(
        is_blank(m.round_id@),
        ("round_id"@, "must not be empty"@),
    ) + only_if(is_blank(m.generator.version@), ("generator.version"@, "must not be empty"@))
        + only_if(
        m.generator.public_fixture_seeds@.len() == 0,
        ("generator.public_fixture_seeds"@, "must not be empty"@),
    ) + only_if(
        !is_sha256_text(m.generator.evaluation_seed_commitment@),
        (
            "generator.evaluation_seed_commitment"@,
            "must be a SHA-256 hexadecimal commitment"@,
        ),
    ) + only_if(
        !m.generator.release_after_round,
        (
            "generator.release_after_round"@,
            "must be true for a reproducible public round"@,
        ),
    );
    assert(mi[head.len() + k] == x);
}

} // verus!
