use ade::layout::{
    LayoutError, LayoutNode, MAX_TERMINALS_PER_WORKSPACE, SplitAxis, SplitDirection, SplitRatio,
    managed_terminal_layout,
};
use ade::PaneId;

fn ratio_value(ratio: SplitRatio) -> f32 {
    ratio.numerator as f32 / ratio.denominator as f32
}

#[test]
fn split_and_close_collapse_the_tree() {
    let first = PaneId::new();
    let right = PaneId::new();
    let down = PaneId::new();
    let mut layout = LayoutNode::pane(first);

    layout.split(first, right, SplitDirection::Right).unwrap();
    layout.split(first, down, SplitDirection::Down).unwrap();
    assert_eq!(layout.pane_ids(), vec![first, down, right]);

    layout.close(down).unwrap();
    assert_eq!(layout.pane_ids(), vec![first, right]);
    layout.validate().unwrap();
}

#[test]
fn find_adjacent_left_right() {
    let a = PaneId::new();
    let b = PaneId::new();
    let layout = LayoutNode::Split {
        axis: SplitAxis::Columns,
        ratio: SplitRatio::half(),
        first: Box::new(LayoutNode::pane(a)),
        second: Box::new(LayoutNode::pane(b)),
    };

    assert_eq!(layout.find_adjacent(a, SplitDirection::Right), Some(b));
    assert_eq!(layout.find_adjacent(b, SplitDirection::Left), Some(a));
    assert_eq!(layout.find_adjacent(a, SplitDirection::Left), None);
    assert_eq!(layout.find_adjacent(b, SplitDirection::Right), None);
}

#[test]
fn find_adjacent_up_down() {
    let a = PaneId::new();
    let b = PaneId::new();
    let layout = LayoutNode::Split {
        axis: SplitAxis::Rows,
        ratio: SplitRatio::half(),
        first: Box::new(LayoutNode::pane(a)),
        second: Box::new(LayoutNode::pane(b)),
    };

    assert_eq!(layout.find_adjacent(a, SplitDirection::Down), Some(b));
    assert_eq!(layout.find_adjacent(b, SplitDirection::Up), Some(a));
    assert_eq!(layout.find_adjacent(a, SplitDirection::Up), None);
    assert_eq!(layout.find_adjacent(b, SplitDirection::Down), None);
}

#[test]
fn find_adjacent_cross_axis_returns_none() {
    let a = PaneId::new();
    let b = PaneId::new();
    let layout = LayoutNode::Split {
        axis: SplitAxis::Columns,
        ratio: SplitRatio::half(),
        first: Box::new(LayoutNode::pane(a)),
        second: Box::new(LayoutNode::pane(b)),
    };

    assert_eq!(layout.find_adjacent(a, SplitDirection::Up), None);
    assert_eq!(layout.find_adjacent(a, SplitDirection::Down), None);
}

#[test]
fn find_adjacent_three_column_row() {
    let a = PaneId::new();
    let b = PaneId::new();
    let c = PaneId::new();
    let layout = LayoutNode::Split {
        axis: SplitAxis::Columns,
        ratio: SplitRatio::new(1, 3),
        first: Box::new(LayoutNode::pane(a)),
        second: Box::new(LayoutNode::Split {
            axis: SplitAxis::Columns,
            ratio: SplitRatio::half(),
            first: Box::new(LayoutNode::pane(b)),
            second: Box::new(LayoutNode::pane(c)),
        }),
    };

    assert_eq!(layout.find_adjacent(a, SplitDirection::Right), Some(b));
    assert_eq!(layout.find_adjacent(b, SplitDirection::Left), Some(a));
    assert_eq!(layout.find_adjacent(b, SplitDirection::Right), Some(c));
    assert_eq!(layout.find_adjacent(c, SplitDirection::Left), Some(b));
}

#[test]
fn find_adjacent_2x2_grid() {
    let tl = PaneId::new();
    let tr = PaneId::new();
    let bl = PaneId::new();
    let br = PaneId::new();
    let layout = LayoutNode::Split {
        axis: SplitAxis::Rows,
        ratio: SplitRatio::half(),
        first: Box::new(LayoutNode::Split {
            axis: SplitAxis::Columns,
            ratio: SplitRatio::half(),
            first: Box::new(LayoutNode::pane(tl)),
            second: Box::new(LayoutNode::pane(tr)),
        }),
        second: Box::new(LayoutNode::Split {
            axis: SplitAxis::Columns,
            ratio: SplitRatio::half(),
            first: Box::new(LayoutNode::pane(bl)),
            second: Box::new(LayoutNode::pane(br)),
        }),
    };

    assert_eq!(layout.find_adjacent(tl, SplitDirection::Right), Some(tr));
    assert_eq!(layout.find_adjacent(tl, SplitDirection::Down), Some(bl));
    assert_eq!(layout.find_adjacent(br, SplitDirection::Left), Some(bl));
    assert_eq!(layout.find_adjacent(br, SplitDirection::Up), Some(tr));
    assert_eq!(layout.find_adjacent(tr, SplitDirection::Left), Some(tl));
    assert_eq!(layout.find_adjacent(tr, SplitDirection::Down), Some(br));
    assert_eq!(layout.find_adjacent(bl, SplitDirection::Right), Some(br));
    assert_eq!(layout.find_adjacent(bl, SplitDirection::Up), Some(tl));
}

#[test]
fn final_pane_cannot_be_closed() {
    let pane = PaneId::new();
    let mut layout = LayoutNode::pane(pane);

    assert_eq!(layout.close(pane), Err(LayoutError::CannotCloseFinalPane));
}

#[test]
fn empty_layout_has_no_panes_and_is_valid() {
    let layout = LayoutNode::Empty;

    assert!(layout.pane_ids().is_empty());
    layout.validate().unwrap();
}

#[test]
fn duplicate_panes_are_rejected() {
    let pane = PaneId::new();
    let layout = LayoutNode::Split {
        axis: SplitAxis::Columns,
        ratio: SplitRatio::half(),
        first: Box::new(LayoutNode::pane(pane)),
        second: Box::new(LayoutNode::pane(pane)),
    };

    assert_eq!(layout.validate(), Err(LayoutError::DuplicatePane(pane)));
}

#[test]
fn managed_terminal_layout_uses_expected_grid_for_each_supported_count() {
    let panes: Vec<_> = (0..MAX_TERMINALS_PER_WORKSPACE)
        .map(|_| PaneId::new())
        .collect();

    assert_grid(&managed_terminal_layout(&panes[..0]), &panes, &[]);
    assert_grid(&managed_terminal_layout(&panes[..1]), &panes, &[1]);
    assert_grid(&managed_terminal_layout(&panes[..2]), &panes, &[2]);
    assert_grid(&managed_terminal_layout(&panes[..3]), &panes, &[3]);
    assert_grid(&managed_terminal_layout(&panes[..4]), &panes, &[2, 2]);
    assert_grid(&managed_terminal_layout(&panes[..5]), &panes, &[3, 2]);
    assert_grid(&managed_terminal_layout(&panes[..6]), &panes, &[3, 3]);
}

fn assert_grid(layout: &LayoutNode, panes: &[PaneId], row_lengths: &[usize]) {
    layout.validate().unwrap();
    assert_eq!(
        layout.pane_ids(),
        panes[..row_lengths.iter().sum::<usize>()]
    );

    match row_lengths {
        [] => assert!(matches!(layout, LayoutNode::Empty)),
        [row_length] => assert_row(layout, &panes[..*row_length]),
        [first_row_length, second_row_length] => {
            let LayoutNode::Split {
                axis,
                ratio,
                first,
                second,
            } = layout
            else {
                panic!("expected a two-row terminal grid");
            };
            assert_eq!(*axis, SplitAxis::Rows);
            assert!((ratio_value(*ratio) - 0.5).abs() < f32::EPSILON);
            assert_row(first, &panes[..*first_row_length]);
            assert_row(
                second,
                &panes[*first_row_length..*first_row_length + *second_row_length],
            );
        }
        _ => panic!("managed terminal layouts support at most two rows"),
    }
}

fn assert_row(layout: &LayoutNode, panes: &[PaneId]) {
    match panes {
        [pane_id] => assert_eq!(layout, &LayoutNode::pane(*pane_id)),
        [first_pane, remaining @ ..] => {
            let LayoutNode::Split {
                axis,
                ratio,
                first,
                second,
            } = layout
            else {
                panic!("expected a terminal row");
            };
            assert_eq!(*axis, SplitAxis::Columns);
            let pane_count = u16::try_from(panes.len()).unwrap();
            assert!((ratio_value(*ratio) - 1.0 / f32::from(pane_count)).abs() < f32::EPSILON);
            assert_eq!(first.as_ref(), &LayoutNode::pane(*first_pane));
            assert_row(second, remaining);
        }
        [] => assert!(matches!(layout, LayoutNode::Empty)),
    }
}

#[test]
fn split_of_a_missing_pane_is_refused_and_changes_nothing() {
    let pane = PaneId::from_u128(1);
    let missing = PaneId::from_u128(2);
    let fresh = PaneId::from_u128(3);
    let mut layout = LayoutNode::pane(pane);
    assert_eq!(
        layout.split(missing, fresh, SplitDirection::Right),
        Err(LayoutError::PaneNotFound(missing))
    );
    assert_eq!(layout, LayoutNode::pane(pane));
}

#[test]
fn split_with_a_pane_already_present_is_refused() {
    let pane = PaneId::from_u128(1);
    let mut layout = LayoutNode::pane(pane);
    assert_eq!(
        layout.split(pane, pane, SplitDirection::Down),
        Err(LayoutError::DuplicatePane(pane))
    );
}

#[test]
fn split_then_close_gives_back_the_layout() {
    let a = PaneId::from_u128(10);
    let b = PaneId::from_u128(11);
    let c = PaneId::from_u128(12);
    let starting_layout = LayoutNode::Split {
        axis: SplitAxis::Columns,
        ratio: SplitRatio::half(),
        first: Box::new(LayoutNode::pane(a)),
        second: Box::new(LayoutNode::pane(b)),
    };
    let mut layout = starting_layout.clone();
    layout.split(b, c, SplitDirection::Down).unwrap();
    assert_eq!(layout.pane_ids(), vec![a, b, c]);
    layout.close(c).unwrap();
    assert_eq!(layout, starting_layout);
}

#[test]
fn set_ratio_updates_the_addressed_split_and_refuses_bad_input() {
    let a = PaneId::from_u128(1);
    let b = PaneId::from_u128(2);
    let mut layout = LayoutNode::pane(a);
    layout.split(a, b, SplitDirection::Right).unwrap();
    layout.set_ratio(&[], SplitRatio::new(7, 10)).unwrap();
    assert!(matches!(layout, LayoutNode::Split { ratio, .. } if ratio == SplitRatio::new(7, 10)));
    assert_eq!(
        layout.set_ratio(&[], SplitRatio::new(1, 20)),
        Err(LayoutError::InvalidRatio)
    );
    assert_eq!(
        layout.set_ratio(&[0], SplitRatio::half()),
        Err(LayoutError::InvalidRatio)
    );
}

#[test]
fn contains_reports_exactly_the_panes_of_the_tree() {
    let a = PaneId::from_u128(1);
    let b = PaneId::from_u128(2);
    let mut layout = LayoutNode::pane(a);
    layout.split(a, b, SplitDirection::Left).unwrap();
    assert!(layout.contains(a));
    assert!(layout.contains(b));
    assert!(!layout.contains(PaneId::from_u128(3)));
    assert_eq!(layout.pane_ids(), vec![a, b]);
}

#[test]
fn split_directions_map_to_axes() {
    assert_eq!(SplitDirection::Left.axis(), SplitAxis::Columns);
    assert_eq!(SplitDirection::Right.axis(), SplitAxis::Columns);
    assert_eq!(SplitDirection::Up.axis(), SplitAxis::Rows);
    assert_eq!(SplitDirection::Down.axis(), SplitAxis::Rows);
}

#[test]
fn ratio_range_includes_both_bounds() {
    assert!(SplitRatio::new(1, 10).is_in_range());
    assert!(SplitRatio::new(9, 10).is_in_range());
    assert!(!SplitRatio::new(19, 20).is_in_range());
    assert!(!SplitRatio::new(1, 0).is_in_range());
}

#[test]
fn validate_refuses_out_of_range_ratios() {
    let layout = LayoutNode::Split {
        axis: SplitAxis::Rows,
        ratio: SplitRatio::new(95, 100),
        first: Box::new(LayoutNode::pane(PaneId::from_u128(1))),
        second: Box::new(LayoutNode::pane(PaneId::from_u128(2))),
    };
    assert_eq!(layout.validate(), Err(LayoutError::InvalidRatio));
}

#[test]
fn find_adjacent_climbs_past_a_split_it_leaves_forward() {
    let a = PaneId::from_u128(1);
    let b = PaneId::from_u128(2);
    let c = PaneId::from_u128(3);
    let mut layout = LayoutNode::pane(a);
    layout.split(a, c, SplitDirection::Right).unwrap();
    layout.split(a, b, SplitDirection::Right).unwrap();
    assert_eq!(layout.find_adjacent(b, SplitDirection::Right), Some(c));
    assert_eq!(layout.find_adjacent(c, SplitDirection::Left), Some(a));
    assert_eq!(layout.find_adjacent(c, SplitDirection::Right), None);
}
