use chiyoda_core::coordination::{
    advance_queue, roadmap_adjacency, CoordinationError, CoordinationRoadmapEdge,
};

fn edge(first_node: usize, second_node: usize) -> CoordinationRoadmapEdge {
    CoordinationRoadmapEdge { first_node, second_node }
}

#[test]
fn roadmap_adjacency_is_undirected_sorted_and_deduplicated() {
    let surfaces = vec!["a".to_owned(), "a".to_owned(), "a".to_owned()];
    let finite = vec![true, true, true];
    let adjacency = roadmap_adjacency(&surfaces, &finite, &vec![edge(2, 0), edge(0, 1), edge(1, 0)])
        .expect("valid roadmap");
    assert_eq!(adjacency, vec![vec![1, 2], vec![0], vec![0]]);
}

#[test]
fn roadmap_errors_name_the_first_refused_node_or_edge() {
    let surfaces = vec!["a".to_owned(), "".to_owned(), "b".to_owned()];
    let finite = vec![true, false, true];
    assert_eq!(
        roadmap_adjacency(&surfaces, &finite, &Vec::new()),
        Err(CoordinationError::EmptyRoadmapSurface { node_index: 1 })
    );
    let surfaces = vec!["a".to_owned(), "a".to_owned(), "b".to_owned()];
    let finite = vec![true, true, true];
    assert_eq!(
        roadmap_adjacency(&surfaces, &finite, &vec![edge(0, 1), edge(1, 1)]),
        Err(CoordinationError::RoadmapSelfLoop { edge_index: 1 })
    );
    assert_eq!(
        roadmap_adjacency(&surfaces, &finite, &vec![edge(0, 2)]),
        Err(CoordinationError::RoadmapCrossSurfaceEdge { edge_index: 0 })
    );
    assert_eq!(
        roadmap_adjacency(&surfaces, &finite, &vec![edge(0, 9)]),
        Err(CoordinationError::UnknownRoadmapNode { edge_index: 0 })
    );
    assert_eq!(
        CoordinationError::RoadmapNodeBoundExceeded { maximum_nodes: 5 }.to_text(),
        "roadmap lattice exceeded its 5-node bound"
    );
}

#[test]
fn queue_grid_tickets_depart_in_fifo_order() {
    let mut active = vec![1u64];
    advance_queue(&mut active, &vec![3, 2], &Vec::new(), 3).expect("room for three");
    assert_eq!(active, vec![1, 2, 3]);
    advance_queue(&mut active, &Vec::new(), &vec![1], 3).expect("head departs");
    assert_eq!(active, vec![2, 3]);
    let error = advance_queue(&mut active, &Vec::new(), &vec![3], 3).expect_err("not the head");
    assert_eq!(error, CoordinationError::NonFifoQueueGridDeparture { ticket: 3 });
    assert_eq!(active, vec![2, 3]);
    let error = advance_queue(&mut active, &vec![4, 5], &Vec::new(), 3).expect_err("full");
    assert_eq!(error, CoordinationError::QueueGridSlotCapacityExceeded { slot_count: 3 });
    advance_queue(&mut active, &vec![4], &vec![3, 2], 3).expect("two heads depart");
    assert_eq!(active, vec![4]);
}
