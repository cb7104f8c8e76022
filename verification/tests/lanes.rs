use paimon_route::error::PaimonError;
use paimon_route::lanes::{
    lane_observation_count_for_test, next_lane_id_for_test, observe_route_lane,
    reset_lane_observations_for_test, LaneObservations,
};

#[test]
fn lane_ids_count_up_from_one() {
    let mut lanes = LaneObservations::new();
    assert_eq!(next_lane_id_for_test(&mut lanes), 1);
    assert_eq!(next_lane_id_for_test(&mut lanes), 2);
    assert_eq!(next_lane_id_for_test(&mut lanes), 3);
    reset_lane_observations_for_test(&mut lanes);
    assert_eq!(next_lane_id_for_test(&mut lanes), 1);
}

#[test]
fn first_observation_records_owner() {
    let mut lanes = LaneObservations::new();
    assert!(observe_route_lane(&mut lanes, "q1", &[1, 2], "exec-a", 7).is_ok());
    assert_eq!(lane_observation_count_for_test(&lanes), 1);
    // The same owner again is fine and records nothing new.
    assert!(observe_route_lane(&mut lanes, "q1", &[1, 2], "exec-a", 7).is_ok());
    assert_eq!(lane_observation_count_for_test(&lanes), 1);
}

#[test]
fn second_lane_for_route_is_rejected() {
    let mut lanes = LaneObservations::new();
    observe_route_lane(&mut lanes, "q1", &[1, 2], "exec-a", 7).unwrap();
    match observe_route_lane(&mut lanes, "q1", &[1, 2], "exec-a", 8) {
        Err(PaimonError::RouteLaneConflict { query_id, previous_executor, previous_lane, executor, lane }) => {
            assert_eq!(query_id, "q1");
            assert_eq!(previous_executor, "exec-a");
            assert_eq!(previous_lane, 7);
            assert_eq!(executor, "exec-a");
            assert_eq!(lane, 8);
        }
        _ => panic!("expected a lane conflict"),
    }
    assert!(matches!(
        observe_route_lane(&mut lanes, "q1", &[1, 2], "exec-b", 7),
        Err(PaimonError::RouteLaneConflict { .. })
    ));
    assert_eq!(lane_observation_count_for_test(&lanes), 1);
}

#[test]
fn routes_are_scoped_by_query_and_key() {
    let mut lanes = LaneObservations::new();
    observe_route_lane(&mut lanes, "q1", &[1], "exec-a", 1).unwrap();
    assert!(observe_route_lane(&mut lanes, "q2", &[1], "exec-b", 2).is_ok());
    assert!(observe_route_lane(&mut lanes, "q1", &[2], "exec-b", 2).is_ok());
    assert_eq!(lane_observation_count_for_test(&lanes), 3);
    reset_lane_observations_for_test(&mut lanes);
    assert_eq!(lane_observation_count_for_test(&lanes), 0);
    assert!(observe_route_lane(&mut lanes, "q1", &[1], "exec-b", 9).is_ok());
}

#[test]
fn lane_ids_stay_unique_between_resets() {
    let mut lanes = LaneObservations::new();
    let ids: Vec<u64> = (0..1000).map(|_| next_lane_id_for_test(&mut lanes)).collect();
    for (i, id) in ids.iter().enumerate() {
        assert_eq!(*id, i as u64 + 1);
    }
    reset_lane_observations_for_test(&mut lanes);
    let again: Vec<u64> = (0..3).map(|_| next_lane_id_for_test(&mut lanes)).collect();
    assert_eq!(again, vec![1, 2, 3]);
}

#[test]
fn run_of_observations_keeps_first_owner() {
    let mut lanes = LaneObservations::new();
    let run: [(&str, &[u8], &str, u64, bool); 6] = [
        ("q1", &[1], "exec-a", 1, true),
        ("q1", &[1], "exec-b", 2, false),
        ("q2", &[1], "exec-b", 2, true),
        ("q1", &[1], "exec-a", 1, true),
        ("q1", &[2], "exec-b", 2, true),
        ("q1", &[1], "exec-a", 3, false),
    ];
    for (query, key, executor, lane, accepted) in run {
        assert_eq!(observe_route_lane(&mut lanes, query, key, executor, lane).is_ok(), accepted);
    }
    assert_eq!(lane_observation_count_for_test(&lanes), 3);
    // Lane ids are not touched by observations.
    assert_eq!(next_lane_id_for_test(&mut lanes), 1);
}
