use gridplot::block::{Block, Borders};
use gridplot::chart::{Axis, Chart, Dataset, GraphType, Marker};
use gridplot::columns::{allocate, ColumnSpec};
use gridplot::geometry::{Constraint, Rect};
use gridplot::grid::{Cell, CellSym, Grid};
use gridplot::render::render_dataset;
use gridplot::scroll::{get_start_position, ScrollDirection};
use gridplot::simple::CpuSimple;
use gridplot::style::{Color, Style};

fn plain_axis() -> Axis {
    Axis { labels: None, bounds: (0, 0), title: None, style: Style::default() }
}

fn labeled_axis(labels: &[&str]) -> Axis {
    Axis {
        labels: Some(labels.iter().map(|s| s.to_string()).collect()),
        bounds: (0, 0),
        title: None,
        style: Style::default(),
    }
}

fn named_dataset(name: &str) -> Dataset {
    Dataset {
        name: name.to_string(),
        data: vec![],
        graph_type: GraphType::Scatter,
        marker: Marker::Braille,
        style: Style::default(),
    }
}

#[test]
fn empty_bounds_layout_is_absent() {
    let chart = Chart::new(vec![named_dataset("abc")])
        .x_axis(labeled_axis(&["0", "50"]))
        .y_axis(labeled_axis(&["0%", "100%"]));
    for area in [
        Rect { x: 3, y: 4, width: 0, height: 9 },
        Rect { x: 3, y: 4, width: 9, height: 0 },
        Rect { x: 0, y: 0, width: 0, height: 0 },
    ] {
        let layout = chart.layout(area);
        assert!(layout.label_x.is_none());
        assert!(layout.label_y.is_none());
        assert!(layout.axis_x.is_none());
        assert!(layout.axis_y.is_none());
        assert!(layout.title_x.is_none());
        assert!(layout.title_y.is_none());
        assert!(layout.legend_area.is_none());
        assert_eq!(layout.graph_area, Rect { x: 0, y: 0, width: 0, height: 0 });
    }
}

#[test]
fn scenario_a_reserves_two_rows_and_label_columns() {
    let chart = Chart::new(vec![])
        .x_axis(labeled_axis(&["0", "50", "100"]))
        .y_axis(labeled_axis(&["0%", "100%"]));
    let area = Rect { x: 0, y: 0, width: 40, height: 10 };
    let layout = chart.layout(area);
    // bottom row for x labels, one row above it for the tick line
    assert_eq!(layout.label_x, Some(9));
    assert_eq!(layout.axis_x, Some(8));
    // y labels start at the left edge; widest label "100%" is 4 columns
    assert_eq!(layout.label_y, Some(0));
    assert_eq!(layout.axis_y, Some(4));
    assert_eq!(layout.graph_area.height, 10 - 2);
    assert_eq!(layout.graph_area.width, 40 - (4 + 1));
    assert_eq!(layout.graph_area.x, 5);
    assert_eq!(layout.graph_area.y, 0);
    assert!(layout.legend_area.is_none());
}

#[test]
fn scenario_b_legend_hidden_by_height_ratio() {
    // three datasets with 3-wide names; the resolved graph area is 30 x 10
    let datasets = vec![named_dataset("abc"), named_dataset("def"), named_dataset("ghi")];
    let chart = Chart::new(datasets).x_axis(labeled_axis(&["", ""]));
    let area = Rect { x: 0, y: 0, width: 30, height: 12 };
    let layout = chart.layout(area);
    assert_eq!(layout.graph_area, Rect { x: 0, y: 0, width: 30, height: 10 });
    // legend box would be 5 x 5; 5 < 30/4 holds but 5 < 10/4 fails
    assert!(layout.legend_area.is_none());
}

#[test]
fn legend_shown_when_constraints_allow() {
    let datasets = vec![named_dataset("abc"), named_dataset("def"), named_dataset("ghi")];
    let chart = Chart::new(datasets)
        .x_axis(labeled_axis(&["", ""]))
        .hidden_legend_constraints((Constraint::Ratio(3, 4), Constraint::Ratio(3, 4)));
    let area = Rect { x: 0, y: 0, width: 30, height: 12 };
    let layout = chart.layout(area);
    assert_eq!(layout.graph_area, Rect { x: 0, y: 0, width: 30, height: 10 });
    // 5 < 22 and 5 < 7: shown, flush to the top right of the graph area
    assert_eq!(layout.legend_area, Some(Rect { x: 25, y: 0, width: 5, height: 5 }));
}

#[test]
fn wide_labels_reserve_display_columns() {
    // two CJK characters display as four columns, not two
    let chart = Chart::new(vec![]).y_axis(labeled_axis(&["\u{65e5}\u{672c}"]));
    let area = Rect { x: 0, y: 0, width: 40, height: 10 };
    assert_eq!(chart.max_width_of_labels_left_of_y_axis(area), 4);
}

#[test]
fn label_reserve_capped_at_a_third() {
    let chart = Chart::new(vec![]).y_axis(labeled_axis(&["very long label text"]));
    let area = Rect { x: 0, y: 0, width: 12, height: 10 };
    assert_eq!(chart.max_width_of_labels_left_of_y_axis(area), 4);
}

#[test]
fn constraint_apply_values() {
    assert_eq!(Constraint::Ratio(1, 4).apply(30), 7);
    assert_eq!(Constraint::Ratio(1, 0).apply(30), 0);
    assert_eq!(Constraint::Percentage(50).apply(10), 5);
    assert_eq!(Constraint::Length(7).apply(10), 7);
    assert_eq!(Constraint::Max(4).apply(10), 4);
    assert_eq!(Constraint::Min(15).apply(10), 15);
}

#[test]
fn scenario_c_third_column_dropped() {
    let columns = vec![
        ColumnSpec { min_width: 5, flex_weight: 1, hard_width: None },
        ColumnSpec { min_width: 10, flex_weight: 1, hard_width: None },
        ColumnSpec { min_width: 10, flex_weight: 1, hard_width: None },
    ];
    let r = allocate(20, &columns);
    assert_eq!(r.count(), 2);
    assert_eq!(r.indices, vec![0, 1]);
    let total: u32 = r.widths.iter().map(|w| *w as u32).sum();
    assert!(total <= 20);
    assert!(r.widths[0] >= 5 && r.widths[1] >= 10);
    // leftover 5 split by equal weights, floored, remainder telescoped
    assert_eq!(r.widths, vec![7, 13]);
}

#[test]
fn allocator_respects_hard_widths() {
    let columns = vec![
        ColumnSpec { min_width: 0, flex_weight: 0, hard_width: Some(5) },
        ColumnSpec { min_width: 4, flex_weight: 1, hard_width: None },
    ];
    let r = allocate(10, &columns);
    assert_eq!(r.count(), 2);
    // the hard column keeps exactly 5; the flex column gets its minimum
    // plus the single leftover cell
    assert_eq!(r.widths, vec![5, 5]);
}

#[test]
fn allocator_never_exceeds_total() {
    for total in [0u16, 1, 7, 19, 40] {
        let columns = vec![
            ColumnSpec { min_width: 3, flex_weight: 2, hard_width: None },
            ColumnSpec { min_width: 6, flex_weight: 1, hard_width: Some(6) },
            ColumnSpec { min_width: 9, flex_weight: 3, hard_width: None },
        ];
        let r = allocate(total, &columns);
        let sum: u32 = r.widths.iter().map(|w| *w as u32).sum();
        assert!(sum <= total as u32);
        assert_eq!(r.widths.len(), r.indices.len());
    }
}

#[test]
fn scroll_offset_stays_clamped() {
    assert_eq!(get_start_position(100, 10, ScrollDirection::Still, 95, 99, false), 90);
    assert_eq!(get_start_position(5, 10, ScrollDirection::Still, 3, 4, false), 0);
    assert_eq!(get_start_position(0, 0, ScrollDirection::Down, 7, 7, false), 0);
}

#[test]
fn scroll_down_and_up_track_selection() {
    assert_eq!(get_start_position(100, 10, ScrollDirection::Down, 0, 15, false), 6);
    assert_eq!(get_start_position(100, 10, ScrollDirection::Up, 6, 2, false), 2);
    assert_eq!(get_start_position(100, 10, ScrollDirection::Down, 6, 9, false), 6);
}

#[test]
fn scroll_resize_keeps_selection_visible() {
    let offset = get_start_position(100, 10, ScrollDirection::Still, 50, 5, true);
    assert!(offset <= 5 && 5 < offset + 10);
    let offset = get_start_position(100, 4, ScrollDirection::Still, 0, 42, true);
    assert!(offset <= 42 && 42 < offset + 4);
}

#[test]
fn single_point_scatter_marks_one_cell() {
    let ga = Rect { x: 0, y: 0, width: 10, height: 4 };
    let dataset = Dataset {
        name: String::new(),
        data: vec![(5, 5)],
        graph_type: GraphType::Scatter,
        marker: Marker::Braille,
        style: Style { fg: Some(Color::Indexed(2)), bg: None },
    };
    let mut grid = Grid::new(10, 4);
    render_dataset(&mut grid, ga, (0, 10), (0, 10), &dataset);
    // px = 5 * 19 / 10 = 9, py = 5 * 15 / 10 = 7: cell (4, 1), dot (1, 3)
    let mut marks = 0;
    for y in 0..4u16 {
        for x in 0..10u16 {
            let cell = grid.get(x, y);
            if cell.sym != CellSym::Blank {
                marks += 1;
                assert_eq!((x, y), (4, 1));
                assert_eq!(cell.sym, CellSym::Braille(0x80));
                assert_eq!(cell.style.fg, Some(Color::Indexed(2)));
            }
        }
    }
    assert_eq!(marks, 1);
}

#[test]
fn single_point_line_draws_the_same_mark() {
    let ga = Rect { x: 0, y: 0, width: 10, height: 4 };
    let mut scatter_grid = Grid::new(10, 4);
    let mut line_grid = Grid::new(10, 4);
    let mut dataset = Dataset {
        name: String::new(),
        data: vec![(5, 5)],
        graph_type: GraphType::Scatter,
        marker: Marker::Braille,
        style: Style { fg: Some(Color::Indexed(2)), bg: None },
    };
    render_dataset(&mut scatter_grid, ga, (0, 10), (0, 10), &dataset);
    dataset.graph_type = GraphType::Line;
    render_dataset(&mut line_grid, ga, (0, 10), (0, 10), &dataset);
    for y in 0..4u16 {
        for x in 0..10u16 {
            assert_eq!(scatter_grid.get(x, y), line_grid.get(x, y));
        }
    }
}

#[test]
fn line_connects_consecutive_points() {
    let ga = Rect { x: 0, y: 0, width: 8, height: 8 };
    let dataset = Dataset {
        name: String::new(),
        data: vec![(0, 0), (10, 10)],
        graph_type: GraphType::Line,
        marker: Marker::Dot,
        style: Style { fg: Some(Color::Reset), bg: None },
    };
    let mut grid = Grid::new(8, 8);
    render_dataset(&mut grid, ga, (0, 10), (0, 10), &dataset);
    let mut marks = 0;
    for y in 0..8u16 {
        for x in 0..8u16 {
            if grid.get(x, y).sym == CellSym::Dot {
                marks += 1;
                // the diagonal from bottom-left to top-right
                assert_eq!(y, 7 - x);
            }
        }
    }
    assert_eq!(marks, 8);
}

#[test]
fn out_of_bounds_points_are_clipped() {
    let ga = Rect { x: 0, y: 0, width: 6, height: 6 };
    let dataset = Dataset {
        name: String::new(),
        data: vec![(11, 5), (-1, 5), (5, 11), (5, -1)],
        graph_type: GraphType::Scatter,
        marker: Marker::Dot,
        style: Style::default(),
    };
    let mut grid = Grid::new(6, 6);
    render_dataset(&mut grid, ga, (0, 10), (0, 10), &dataset);
    for y in 0..6u16 {
        for x in 0..6u16 {
            assert_eq!(grid.get(x, y).sym, CellSym::Blank);
        }
    }
}

#[test]
fn render_writes_axis_lines_and_legend() {
    let datasets = vec![
        Dataset {
            name: "one".to_string(),
            data: vec![(5, 5)],
            graph_type: GraphType::Scatter,
            marker: Marker::Braille,
            style: Style { fg: Some(Color::Indexed(1)), bg: None },
        },
    ];
    let chart = Chart::new(datasets)
        .x_axis(labeled_axis(&["0", "100"]))
        .y_axis(labeled_axis(&["0%", "100%"]))
        .hidden_legend_constraints((Constraint::Ratio(3, 4), Constraint::Ratio(3, 4)));
    let area = Rect { x: 0, y: 0, width: 40, height: 12 };
    let layout = chart.layout(area);
    let axis_row = layout.axis_x.expect("axis row");
    let axis_col = layout.axis_y.expect("axis col");
    let legend = layout.legend_area.expect("legend");
    let mut grid = Grid::new(40, 12);
    chart.render(area, &mut grid);
    assert_eq!(grid.get(axis_col, axis_row).sym, CellSym::Corner);
    assert_eq!(grid.get(axis_col + 1, axis_row).sym, CellSym::HLine);
    assert_eq!(grid.get(axis_col, axis_row - 1).sym, CellSym::VLine);
    assert_eq!(grid.get(legend.x, legend.y).sym, CellSym::BorderTL);
    assert_eq!(grid.get(legend.x + 1, legend.y + 1).sym, CellSym::Glyph('o'));
    assert_eq!(grid.get(legend.x + 2, legend.y + 1).sym, CellSym::Glyph('n'));
    assert_eq!(grid.get(legend.x + 3, legend.y + 1).sym, CellSym::Glyph('e'));
}

#[test]
fn render_on_empty_area_changes_nothing() {
    let chart = Chart::new(vec![]).x_axis(labeled_axis(&["0", "1"]));
    let mut grid = Grid::new(5, 5);
    chart.render(Rect { x: 0, y: 0, width: 0, height: 5 }, &mut grid);
    for y in 0..5u16 {
        for x in 0..5u16 {
            assert_eq!(grid.get(x, y), Cell { sym: CellSym::Blank, style: Style::default() });
        }
    }
}

#[test]
fn block_inner_shrinks_by_borders() {
    let block = Block { borders: Borders::all(), style: Style::default() };
    let inner = block.inner(Rect { x: 2, y: 3, width: 10, height: 6 });
    assert_eq!(inner, Rect { x: 3, y: 4, width: 8, height: 4 });
    let none = Block { borders: Borders::none(), style: Style::default() };
    let same = none.inner(Rect { x: 2, y: 3, width: 10, height: 6 });
    assert_eq!(same, Rect { x: 2, y: 3, width: 10, height: 6 });
}

#[test]
fn grid_set_chars_clips_to_width() {
    let mut grid = Grid::new(5, 2);
    let chars: Vec<char> = "hello world".chars().collect();
    grid.set_chars(3, 1, &chars, 10, Style::default());
    assert_eq!(grid.get(3, 1).sym, CellSym::Glyph('h'));
    assert_eq!(grid.get(4, 1).sym, CellSym::Glyph('e'));
    assert_eq!(grid.get(0, 1).sym, CellSym::Blank);
    assert_eq!(grid.get(3, 0).sym, CellSym::Blank);
}

#[test]
fn cpu_simple_prints_caption() {
    let widget = CpuSimple::build();
    let mut grid = Grid::new(20, 3);
    widget.draw(&mut grid, Rect { x: 1, y: 1, width: 18, height: 2 });
    let expect = "CPU Simple";
    for (i, ch) in expect.chars().enumerate() {
        assert_eq!(grid.get(1 + i as u16, 1).sym, CellSym::Glyph(ch));
    }
    assert_eq!(grid.get(0, 1).sym, CellSym::Blank);
}

#[test]
fn chart_builders_set_fields() {
    let chart = Chart::new(vec![])
        .style(Style { fg: Some(Color::Rgb(1, 2, 3)), bg: None })
        .block(Block { borders: Borders::all(), style: Style::default() })
        .x_axis(plain_axis())
        .y_axis(plain_axis())
        .hidden_legend_constraints((Constraint::Length(3), Constraint::Min(2)));
    assert!(chart.block.is_some());
    assert_eq!(chart.style.fg, Some(Color::Rgb(1, 2, 3)));
    assert_eq!(chart.hidden_legend_constraints, (Constraint::Length(3), Constraint::Min(2)));
    assert!(chart.datasets.is_empty());
}

#[test]
fn braille_bits_merge_within_a_cell() {
    let ga = Rect { x: 0, y: 0, width: 10, height: 4 };
    let dataset = Dataset {
        name: String::new(),
        data: vec![(5, 5), (5, 6)],
        graph_type: GraphType::Scatter,
        marker: Marker::Braille,
        style: Style::default(),
    };
    let mut grid = Grid::new(10, 4);
    render_dataset(&mut grid, ga, (0, 10), (0, 10), &dataset);
    // both samples land in cell (4, 1): sub-rows 3 and 2 of the right column
    assert_eq!(grid.get(4, 1).sym, CellSym::Braille(0x80 | 0x20));
    let mut marks = 0;
    for y in 0..4u16 {
        for x in 0..10u16 {
            if grid.get(x, y).sym != CellSym::Blank {
                marks += 1;
            }
        }
    }
    assert_eq!(marks, 1);
}

#[test]
fn later_datasets_overwrite_shared_cells() {
    let ga = Rect { x: 0, y: 0, width: 10, height: 4 };
    let first = Dataset {
        name: String::new(),
        data: vec![(5, 5)],
        graph_type: GraphType::Scatter,
        marker: Marker::Braille,
        style: Style { fg: Some(Color::Indexed(1)), bg: None },
    };
    let second = Dataset {
        name: String::new(),
        data: vec![(5, 6)],
        graph_type: GraphType::Scatter,
        marker: Marker::Braille,
        style: Style { fg: Some(Color::Indexed(2)), bg: None },
    };
    let mut grid = Grid::new(10, 4);
    render_dataset(&mut grid, ga, (0, 10), (0, 10), &first);
    render_dataset(&mut grid, ga, (0, 10), (0, 10), &second);
    // the second dataset owns the shared cell: its glyph and its color
    assert_eq!(grid.get(4, 1).sym, CellSym::Braille(0x20));
    assert_eq!(grid.get(4, 1).style.fg, Some(Color::Indexed(2)));
}

#[test]
fn growing_the_chart_turns_the_legend_on_not_off() {
    // same datasets, names and constraints; only the bounding area grows
    let make = |height: u16| {
        let datasets = vec![named_dataset("abc"), named_dataset("def"), named_dataset("ghi")];
        let chart = Chart::new(datasets)
            .x_axis(labeled_axis(&["", ""]))
            .hidden_legend_constraints((Constraint::Ratio(3, 4), Constraint::Ratio(3, 4)));
        chart.layout(Rect { x: 0, y: 0, width: 30, height })
    };
    let small = make(8);
    let large = make(12);
    assert!(small.legend_area.is_none());
    assert!(large.legend_area.is_some());
}

#[test]
fn colorless_later_dataset_resets_shared_cell_color() {
    let ga = Rect { x: 0, y: 0, width: 10, height: 4 };
    let first = Dataset {
        name: String::new(),
        data: vec![(5, 5)],
        graph_type: GraphType::Scatter,
        marker: Marker::Braille,
        style: Style { fg: Some(Color::Indexed(1)), bg: None },
    };
    let second = Dataset {
        name: String::new(),
        data: vec![(5, 5)],
        graph_type: GraphType::Scatter,
        marker: Marker::Braille,
        style: Style { fg: None, bg: None },
    };
    let mut grid = Grid::new(10, 4);
    render_dataset(&mut grid, ga, (0, 10), (0, 10), &first);
    render_dataset(&mut grid, ga, (0, 10), (0, 10), &second);
    // the later dataset's color wins even when it is unset: the cell falls
    // back to the terminal default instead of keeping the earlier color
    assert_eq!(grid.get(4, 1).style.fg, Some(Color::Reset));
}

#[test]
fn oversized_legend_is_clamped_inside_the_graph_area() {
    // a Min constraint admits a legend far larger than the plot
    let datasets = vec![
        named_dataset("a very wide legend name"),
        named_dataset("b"),
        named_dataset("c"),
        named_dataset("d"),
        named_dataset("e"),
        named_dataset("f"),
        named_dataset("g"),
    ];
    let chart = Chart::new(datasets)
        .x_axis(labeled_axis(&["", ""]))
        .hidden_legend_constraints((Constraint::Min(1000), Constraint::Min(1000)));
    let area = Rect { x: 0, y: 0, width: 20, height: 8 };
    let layout = chart.layout(area);
    let ga = layout.graph_area;
    let la = layout.legend_area.expect("legend");
    assert!(la.x >= ga.x && la.x + la.width <= ga.x + ga.width);
    assert!(la.y >= ga.y && la.y + la.height <= ga.y + ga.height);
    assert_eq!(la.x + la.width, ga.x + ga.width);
    assert_eq!(la.y, ga.y);
}

#[test]
fn render_writes_stay_inside_the_area() {
    // an oversized-legend configuration must still confine every write
    let datasets = vec![
        named_dataset("wide legend name"),
        named_dataset("b"),
        named_dataset("c"),
    ];
    let chart = Chart::new(datasets)
        .x_axis(labeled_axis(&["0", "9"]))
        .y_axis(labeled_axis(&["lo", "hi"]))
        .hidden_legend_constraints((Constraint::Min(1000), Constraint::Min(1000)));
    let area = Rect { x: 2, y: 2, width: 20, height: 8 };
    let mut grid = Grid::new(30, 20);
    chart.render(area, &mut grid);
    for y in 0..20u16 {
        for x in 0..30u16 {
            let inside = x >= 2 && x < 22 && y >= 2 && y < 10;
            if !inside {
                assert_eq!(grid.get(x, y), Cell { sym: CellSym::Blank, style: Style::default() });
            }
        }
    }
}
