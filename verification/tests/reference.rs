use chiyoda_core::reference::{
    crowd_queue_run_name, vru_motion_label, CrowdQueueObservationCounts, VruObservationCounts,
};

#[test]
fn recognizes_only_pedestrian_csv_trajectories() {
    assert_eq!(
        vru_motion_label("VRU_dataset/pedestrians/moving/1.csv"),
        Some("moving".to_owned())
    );
    assert_eq!(vru_motion_label("VRU_dataset/cyclists/moving/1.csv"), None);
    assert_eq!(vru_motion_label("VRU_dataset/pedestrians/.svn/entries.csv"), None);
}

#[test]
fn motion_labels_follow_path_component_rules() {
    assert_eq!(vru_motion_label("VRU_dataset/pedestrians/waiting/2.CSV"), Some("waiting".to_owned()));
    assert_eq!(vru_motion_label("VRU_dataset//pedestrians/./stopping/3.csv"), Some("stopping".to_owned()));
    assert_eq!(vru_motion_label("/VRU_dataset/pedestrians/moving/1.csv"), None);
    assert_eq!(vru_motion_label("./VRU_dataset/pedestrians/moving/1.csv"), None);
    assert_eq!(vru_motion_label("VRU_dataset/pedestrians/moving/.csv"), None);
    assert_eq!(vru_motion_label("VRU_dataset/pedestrians/moving/1.txt"), None);
}

#[test]
fn crowd_queue_run_names_carry_run_priming_width_and_motivation() {
    let run = crowd_queue_run_name("010_c_12_h0.txt").expect("publisher naming convention");
    assert_eq!(run.run_id, 10);
    assert_eq!(run.width_decimetres, 12);
    assert_eq!(run.priming, "c");
    assert_eq!(run.motivation, "h0");
    assert!(crowd_queue_run_name("dir/010_c_12_h0.txt").is_none());
    assert!(crowd_queue_run_name("010_x_12_h0.txt").is_none());
    assert!(crowd_queue_run_name("010_c_0_h0.txt").is_none());
    assert!(crowd_queue_run_name("010_c_12_h0.csv").is_none());
    assert!(crowd_queue_run_name("010_c_12.txt").is_none());
    assert_eq!(crowd_queue_run_name("7_q_8_h+.TXT").map(|r| r.run_id), Some(7));
}

#[test]
fn observation_counts_accumulate_per_source() {
    let mut vru = VruObservationCounts::default();
    vru.add(&VruObservationCounts {
        pedestrian_trajectories: 1,
        rows: 4,
        first_observations: 1,
        non_positive_time_steps: 0,
        gaps_over_limit: 1,
        speeds_over_limit: 1,
        usable_steps: 1,
    });
    assert_eq!((vru.rows, vru.usable_steps, vru.gaps_over_limit), (4, 1, 1));
    let mut queue = CrowdQueueObservationCounts::default();
    let run = CrowdQueueObservationCounts { runs: 1, participants: 3, rows: 6, gate_crossings: 2, ..CrowdQueueObservationCounts::default() };
    queue.add(&run);
    queue.add(&run);
    assert_eq!((queue.runs, queue.participants, queue.gate_crossings), (2, 6, 4));
}
