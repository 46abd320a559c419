//! Source-file recognition and observation counts of the public trajectory
//! reference datasets (the VRU pedestrian trajectories and the Wuppertal
//! crowd-queue runs).

use vstd::prelude::*;
use crate::digest::{chars_eq_ignore_ascii_case, eq_ignoring_ascii_case};
use crate::literal::{parse_u64_literal, unsigned_literal};
use crate::paths::{
    extension, extension_of, find_last_dot, is_rooted, normal_components, pieces, plain_components,
    split_on, starts_at_current_dir, stem,
};
use crate::text::{chars_are, chars_of, text_of_range};

verus! {

/// The rows of the VRU pedestrian trajectories and what the filter did with them.
#[derive(Debug, Clone, Copy, PartialEq, Eq, Structural)]
pub struct VruObservationCounts {
    pub pedestrian_trajectories: u64,
    pub rows: u64,
    pub first_observations: u64,
    pub non_positive_time_steps: u64,
    pub gaps_over_limit: u64,
    pub speeds_over_limit: u64,
    pub usable_steps: u64,
}

impl Default for VruObservationCounts {
    fn default() -> (r: Self)
        ensures
            r == Self::zero(),
    {
        VruObservationCounts {
            pedestrian_trajectories: 0,
            rows: 0,
            first_observations: 0,
            non_positive_time_steps: 0,
            gaps_over_limit: 0,
            speeds_over_limit: 0,
            usable_steps: 0,
        }
    }
}

impl VruObservationCounts {
    pub open spec fn zero() -> Self {
        VruObservationCounts {
            pedestrian_trajectories: 0,
            rows: 0,
            first_observations: 0,
            non_positive_time_steps: 0,
            gaps_over_limit: 0,
            speeds_over_limit: 0,
            usable_steps: 0,
        }
    }

    /// Each count of `a` plus the same count of `b`.
    pub open spec fn sum(a: Self, b: Self) -> Self {
        VruObservationCounts {
            pedestrian_trajectories: (a.pedestrian_trajectories + b.pedestrian_trajectories) as u64,
            rows: (a.rows + b.rows) as u64,
            first_observations: (a.first_observations + b.first_observations) as u64,
            non_positive_time_steps: (a.non_positive_time_steps + b.non_positive_time_steps) as u64,
            gaps_over_limit: (a.gaps_over_limit + b.gaps_over_limit) as u64,
            speeds_over_limit: (a.speeds_over_limit + b.speeds_over_limit) as u64,
            usable_steps: (a.usable_steps + b.usable_steps) as u64,
        }
    }

    pub open spec fn sum_fits(a: Self, b: Self) -> bool {
        &&& a.pedestrian_trajectories + b.pedestrian_trajectories <= u64::MAX
        &&& a.rows + b.rows <= u64::MAX
        &&& a.first_observations + b.first_observations <= u64::MAX
        &&& a.non_positive_time_steps + b.non_positive_time_steps <= u64::MAX
        &&& a.gaps_over_limit + b.gaps_over_limit <= u64::MAX
        &&& a.speeds_over_limit + b.speeds_over_limit <= u64::MAX
        &&& a.usable_steps + b.usable_steps <= u64::MAX
    }

    /// Add the counts of another trajectory file.
    pub fn add(&mut self, other: &Self)
        requires
            Self::sum_fits(*old(self), *other),
        ensures
            *final(self) == Self::sum(*old(self), *other),
    {
        self.pedestrian_trajectories = self.pedestrian_trajectories + other.pedestrian_trajectories;
        self.rows = self.rows + other.rows;
        self.first_observations = self.first_observations + other.first_observations;
        self.non_positive_time_steps = self.non_positive_time_steps + other.non_positive_time_steps;
        self.gaps_over_limit = self.gaps_over_limit + other.gaps_over_limit;
        self.speeds_over_limit = self.speeds_over_limit + other.speeds_over_limit;
        self.usable_steps = self.usable_steps + other.usable_steps;
    }
}

/// The rows of the crowd-queue runs and what the filter did with them.
#[derive(Debug, Clone, Copy, PartialEq, Eq, Structural)]
pub struct CrowdQueueObservationCounts {
    pub runs: u64,
    pub participants: u64,
    pub rows: u64,
    pub first_observations: u64,
    pub non_positive_frame_steps: u64,
    pub gaps_over_limit: u64,
    pub speeds_over_limit: u64,
    pub usable_steps: u64,
    /// First positive-to-nonpositive y crossings observed within the configured
    /// adjacent-frame gap limit.
    pub gate_crossings: u64,
    pub participants_without_usable_gate_crossing: u64,
}

impl Default for CrowdQueueObservationCounts {
    fn default() -> (r: Self)
        ensures
            r == Self::zero(),
    {
        CrowdQueueObservationCounts {
            runs: 0,
            participants: 0,
            rows: 0,
            first_observations: 0,
            non_positive_frame_steps: 0,
            gaps_over_limit: 0,
            speeds_over_limit: 0,
            usable_steps: 0,
            gate_crossings: 0,
            participants_without_usable_gate_crossing: 0,
        }
    }
}

impl CrowdQueueObservationCounts {
    pub open spec fn zero() -> Self {
        CrowdQueueObservationCounts {
            runs: 0,
            participants: 0,
            rows: 0,
            first_observations: 0,
            non_positive_frame_steps: 0,
            gaps_over_limit: 0,
            speeds_over_limit: 0,
            usable_steps: 0,
            gate_crossings: 0,
            participants_without_usable_gate_crossing: 0,
        }
    }

    /// Each count of `a` plus the same count of `b`.
    pub open spec fn sum(a: Self, b: Self) -> Self {
        CrowdQueueObservationCounts {
            runs: (a.runs + b.runs) as u64,
            participants: (a.participants + b.participants) as u64,
            rows: (a.rows + b.rows) as u64,
            first_observations: (a.first_observations + b.first_observations) as u64,
            non_positive_frame_steps: (a.non_positive_frame_steps + b.non_positive_frame_steps) as u64,
            gaps_over_limit: (a.gaps_over_limit + b.gaps_over_limit) as u64,
            speeds_over_limit: (a.speeds_over_limit + b.speeds_over_limit) as u64,
            usable_steps: (a.usable_steps + b.usable_steps) as u64,
            gate_crossings: (a.gate_crossings + b.gate_crossings) as u64,
            participants_without_usable_gate_crossing: (a.participants_without_usable_gate_crossing
                + b.participants_without_usable_gate_crossing) as u64,
        }
    }

    pub open spec fn sum_fits(a: Self, b: Self) -> bool {
        &&& a.runs + b.runs <= u64::MAX
        &&& a.participants + b.participants <= u64::MAX
        &&& a.rows + b.rows <= u64::MAX
        &&& a.first_observations + b.first_observations <= u64::MAX
        &&& a.non_positive_frame_steps + b.non_positive_frame_steps <= u64::MAX
        &&& a.gaps_over_limit + b.gaps_over_limit <= u64::MAX
        &&& a.speeds_over_limit + b.speeds_over_limit <= u64::MAX
        &&& a.usable_steps + b.usable_steps <= u64::MAX
        &&& a.gate_crossings + b.gate_crossings <= u64::MAX
        &&& a.participants_without_usable_gate_crossing
            + b.participants_without_usable_gate_crossing <= u64::MAX
    }

    /// Add the counts of another run.
    pub fn add(&mut self, other: &Self)
        requires
            Self::sum_fits(*old(self), *other),
        ensures
            *final(self) == Self::sum(*old(self), *other),
    {
        self.runs = self.runs + other.runs;
        self.participants = self.participants + other.participants;
        self.rows = self.rows + other.rows;
        self.first_observations = self.first_observations + other.first_observations;
        self.non_positive_frame_steps = self.non_positive_frame_steps + other.non_positive_frame_steps;
        self.gaps_over_limit = self.gaps_over_limit + other.gaps_over_limit;
        self.speeds_over_limit = self.speeds_over_limit + other.speeds_over_limit;
        self.usable_steps = self.usable_steps + other.usable_steps;
        self.gate_crossings = self.gate_crossings + other.gate_crossings;
        self.participants_without_usable_gate_crossing = self.participants_without_usable_gate_crossing
            + other.participants_without_usable_gate_crossing;
    }
}

/// The pedestrian motion labels of the VRU dataset.
pub open spec fn is_vru_motion_label(l: Seq<char>) -> bool {
    l == "moving"@ || l == "starting"@ || l == "stopping"@ || l == "waiting"@
}

/// The motion label of a VRU pedestrian trajectory file: the path is
/// `VRU_dataset/pedestrians/LABEL/NAME.csv` (any case of `csv`), with a known label.
pub open spec fn vru_motion_label_of(path: Seq<char>) -> Option<Seq<char>> {
    let c = normal_components(path);
    if !is_rooted(path) && !starts_at_current_dir(path) && c.len() == 4 && c[0] == "VRU_dataset"@
        && c[1] == "pedestrians"@ && is_vru_motion_label(c[2]) && (extension(c[3]) matches Some(e)
        && eq_ignoring_ascii_case(e, "csv"@)) {
        Some(c[2])
    } else {
        None
    }
}

fn starts_plainly(s: &Vec<char>) -> (r: bool)
    ensures
        r == (!is_rooted(s@) && !starts_at_current_dir(s@)),
{
    if s.len() > 0 && s[0] == '/' {
        return false;
    }
    if s.len() == 1 && s[0] == '.' {
        proof {
            assert(s@ =~= seq!['.']);
        }
        return false;
    }
    if s.len() >= 2 && s[0] == '.' && s[1] == '/' {
        return false;
    }
    proof {
        if s@ == seq!['.'] {
            assert(s@[0] == '.');
        }
    }
    true
}

/// Whether the extension of the file name `f` is `ext` in any ASCII case.
fn has_extension(f: &Vec<char>, ext: &str) -> (r: bool)
    ensures
        r == (extension(f@) matches Some(e) && eq_ignoring_ascii_case(e, ext@)),
{
    match extension_of(f) {
        Some(e) => chars_eq_ignore_ascii_case(&e, &chars_of(ext)),
        None => false,
    }
}

/// The motion label of a VRU pedestrian trajectory file, if `path` is one.
pub fn vru_motion_label(path: &str) -> (r: Option<String>)
    ensures
        r matches Some(l) ==> vru_motion_label_of(path@) == Some(l@),
        r is None ==> vru_motion_label_of(path@) is None,
{
    let s = chars_of(path);
    if !starts_plainly(&s) {
        return None;
    }
    let c = plain_components(&s);
    if c.len() != 4 {
        return None;
    }
    let label = &c[2];
    if chars_are(&c[0], "VRU_dataset") && chars_are(&c[1], "pedestrians") && (chars_are(label, "moving")
        || chars_are(label, "starting") || chars_are(label, "stopping") || chars_are(label, "waiting"))
        && has_extension(&c[3], "csv") {
        proof {
            assert(label@.subrange(0, label@.len() as int) =~= label@);
        }
        Some(text_of_range(label, 0, label.len()))
    } else {
        None
    }
}

/// Each of the four pedestrian motion labels `moving`, `starting`,
/// `stopping` and `waiting` is recognized: a plain relative path
/// `VRU_dataset/pedestrians/LABEL/FILE` whose file has the extension `csv`
/// (in any case) gives its label exactly when the label is one of them.
pub proof fn lemma_vru_motion_labels(path: Seq<char>, label: Seq<char>, file: Seq<char>)
    requires
        !is_rooted(path),
        !starts_at_current_dir(path),
        normal_components(path) == seq!["VRU_dataset"@, "pedestrians"@, label, file],
        extension(file) matches Some(e) && eq_ignoring_ascii_case(e, "csv"@),
    ensures
        (label == "moving"@ || label == "starting"@ || label == "stopping"@ || label == "waiting"@)
            ==> vru_motion_label_of(path) == Some(label),
        !(label == "moving"@ || label == "starting"@ || label == "stopping"@ || label == "waiting"@)
            ==> vru_motion_label_of(path) is None,
{
    let c = normal_components(path);
    assert(c.len() == 4 && c[0] == "VRU_dataset"@ && c[1] == "pedestrians"@ && c[2] == label && c[3] == file);
}

/// A crowd-queue run named by its text file: run number, priming (`c` or
/// `q`), corridor width in decimetres, and motivation (`h0`, `h-` or `h+`).
#[derive(Debug, Clone)]
pub struct CrowdQueueRunName {
    pub run_id: u64,
    pub width_decimetres: u64,
    pub priming: String,
    pub motivation: String,
}

pub open spec fn crowd_queue_run_name_is(r: Option<CrowdQueueRunName>, path: Seq<char>) -> bool {
    let c = normal_components(path);
    let parts = pieces(stem(c[0]), '_');
    let accepted = !is_rooted(path) && !starts_at_current_dir(path) && c.len() == 1 && (extension(
        c[0],
    ) matches Some(e) && eq_ignoring_ascii_case(e, "txt"@)) && parts.len() == 4 && (parts[1] == "c"@
        || parts[1] == "q"@) && (parts[3] == "h0"@ || parts[3] == "h-"@ || parts[3] == "h+"@)
        && (unsigned_literal(parts[0]) matches Some(n) && n <= u64::MAX) && (unsigned_literal(
        parts[2],
    ) matches Some(w) && 0 < w <= u64::MAX);
    match r {
        None => !accepted,
        Some(d) => accepted && unsigned_literal(parts[0]) == Some(d.run_id as nat) && unsigned_literal(
            parts[2],
        ) == Some(d.width_decimetres as nat) && d.priming@ == parts[1] && d.motivation@ == parts[3],
    }
}

/// Recognize the publisher's run file name `RUN_PRIMING_WIDTH_MOTIVATION.txt`.
/// The path must be a bare file name.
pub fn crowd_queue_run_name(path: &str) -> (r: Option<CrowdQueueRunName>)
    ensures
        crowd_queue_run_name_is(r, path@),
{
    let s = chars_of(path);
    if !starts_plainly(&s) {
        return None;
    }
    let c = plain_components(&s);
    if c.len() != 1 {
        return None;
    }
    let name = &c[0];
    if !has_extension(name, "txt") {
        return None;
    }
    let stem_chars = match find_last_dot(name) {
        Some(p) => {
            let mut v: Vec<char> = Vec::new();
            let mut i: usize = 0;
            while i < p
                invariant
                    p <= name@.len(),
                    i <= p,
                    v@ == name@.take(i as int),
                decreases p - i,
            {
                v.push(name[i]);
                proof {
                    assert(name@.take(i + 1) =~= name@.take(i as int).push(name@[i as int]));
                }
                i += 1;
            }
            v
        },
        None => name.clone(),
    };
    proof {
        assert(stem_chars@ == stem(name@));
    }
    let parts = split_on(&stem_chars, '_');
    if parts.len() != 4 {
        return None;
    }
    if !(chars_are(&parts[1], "c") || chars_are(&parts[1], "q")) {
        return None;
    }
    if !(chars_are(&parts[3], "h0") || chars_are(&parts[3], "h-") || chars_are(&parts[3], "h+")) {
        return None;
    }
    let run_id = match parse_u64_literal(&parts[0]) {
        Some(n) => n,
        None => return None,
    };
    let width_decimetres = match parse_u64_literal(&parts[2]) {
        Some(n) => n,
        None => return None,
    };
    if width_decimetres == 0 {
        return None;
    }
    proof {
        assert(parts@[1]@.subrange(0, parts@[1]@.len() as int) =~= parts@[1]@);
        assert(parts@[3]@.subrange(0, parts@[3]@.len() as int) =~= parts@[3]@);
    }
    Some(
        CrowdQueueRunName {
            run_id,
            width_decimetres,
            priming: text_of_range(&parts[1], 0, parts[1].len()),
            motivation: text_of_range(&parts[3], 0, parts[3].len()),
        },
    )
}

} // verus!
