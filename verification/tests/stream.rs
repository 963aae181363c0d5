use annex::annexb::scan;
use annex::stream::{check_structure, nal_counts, reorder_count, StreamProblem};

#[test]
fn a_well_formed_stream_passes() {
    let nals = [(7, 10), (8, 4), (5, 900), (1, 200), (1, 180), (7, 10), (8, 4), (5, 950)];
    let c = check_structure(&nals).expect("valid");
    assert_eq!((c.total, c.sps, c.pps, c.idr, c.slices), (8, 2, 2, 2, 2));
}

#[test]
fn each_structural_problem_is_named() {
    assert_eq!(check_structure(&[(5, 1)]), Err(StreamProblem::NoParameterSets));
    assert_eq!(check_structure(&[(7, 1), (8, 1), (1, 1)]), Err(StreamProblem::NoIdr));
    assert_eq!(check_structure(&[(8, 1), (7, 1), (5, 1)]), Err(StreamProblem::NotLeadingSps));
    assert_eq!(
        check_structure(&[(7, 1), (8, 1), (5, 1), (5, 1)]),
        Err(StreamProblem::KeyframeWithoutParameterSets)
    );
    assert_eq!(check_structure(&[]), Err(StreamProblem::NoParameterSets));
}

#[test]
fn counts_come_from_a_scanned_stream() {
    let stream = [0, 0, 0, 1, 0x67, 1, 0, 0, 0, 1, 0x68, 2, 0, 0, 0, 1, 0x65, 3, 4];
    let c = nal_counts(&scan(&stream));
    assert_eq!((c.sps, c.pps, c.idr, c.slices), (1, 1, 1, 0));
}

#[test]
fn backwards_timestamps_are_counted() {
    assert_eq!(reorder_count(&[0, 33, 66, 100]), 0);
    assert_eq!(reorder_count(&[0, 66, 33, 100, 90]), 2);
    assert_eq!(reorder_count(&[]), 0);
    assert_eq!(reorder_count(&[5]), 0);
}
