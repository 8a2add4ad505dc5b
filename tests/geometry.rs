use hotelling::{
    all_distinct, get_points_for_plot, partition_line, rewards, rows_distinct, GeometryError,
    Interval, Territory, UNIT,
};

#[test]
fn two_sites_split_the_segment_at_the_midpoint() {
    let region = Interval { lo: 0, hi: UNIT };
    let cells = partition_line(&vec![250_000, 750_000], region).unwrap();
    assert_eq!(
        cells,
        vec![Territory { left: 0, right: 1_000_000 }, Territory { left: 1_000_000, right: 2_000_000 }]
    );
    // half of the unit segment each, in half grid units
    assert_eq!(rewards(&cells), vec![UNIT as u64, UNIT as u64]);
}

#[test]
fn unsorted_sites_keep_their_order() {
    let region = Interval { lo: 0, hi: 1000 };
    let cells = partition_line(&vec![900, 100, 400], region).unwrap();
    assert_eq!(
        cells,
        vec![
            Territory { left: 1300, right: 2000 },
            Territory { left: 0, right: 500 },
            Territory { left: 500, right: 1300 },
        ]
    );
    let w = rewards(&cells);
    assert_eq!(w, vec![700, 500, 800]);
    assert_eq!(w.iter().sum::<u64>(), 2000);
}

#[test]
fn single_site_owns_the_region() {
    let region = Interval { lo: 10, hi: 30 };
    let cells = partition_line(&vec![12], region).unwrap();
    assert_eq!(cells, vec![Territory { left: 20, right: 60 }]);
    assert_eq!(rewards(&cells), vec![40]);
}

#[test]
fn sites_on_the_region_ends() {
    let region = Interval { lo: 0, hi: 10 };
    let cells = partition_line(&vec![10, 0], region).unwrap();
    assert_eq!(cells, vec![Territory { left: 10, right: 20 }, Territory { left: 0, right: 10 }]);
}

#[test]
fn empty_site_set_is_refused() {
    let region = Interval { lo: 0, hi: 10 };
    assert_eq!(partition_line(&vec![], region).unwrap_err(), GeometryError::EmptyPointSet);
}

#[test]
fn coincident_sites_are_refused() {
    let region = Interval { lo: 0, hi: 10 };
    assert_eq!(partition_line(&vec![3, 7, 3], region).unwrap_err(), GeometryError::DuplicatePoints);
    assert!(!all_distinct(&vec![3, 7, 3]));
    assert!(all_distinct(&vec![3, 7, 4]));
}

#[test]
fn planar_rows_distinct() {
    assert!(rows_distinct(&vec![vec![1, 2], vec![2, 1]]));
    assert!(!rows_distinct(&vec![vec![1, 2], vec![0, 0], vec![1, 2]]));
}

#[test]
fn plot_points_on_the_line() {
    let (x, y) = get_points_for_plot(&vec![vec![5], vec![7]]);
    assert_eq!(x, vec![5, 7]);
    assert_eq!(y, vec![0, 0]);
}

#[test]
fn plot_points_in_the_plane() {
    let (x, y) = get_points_for_plot(&vec![vec![5, 1], vec![7, 2]]);
    assert_eq!(x, vec![5, 7]);
    assert_eq!(y, vec![1, 2]);
    let (x, y) = get_points_for_plot(&vec![]);
    assert!(x.is_empty() && y.is_empty());
}
