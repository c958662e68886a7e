use krapslog::time_axis::{all_renderable, count_footer_markers, place_markers};
use krapslog::time_marker::{Canvas, TimeMarker, TimestampLocation};
use krapslog::{build_time_markers, marker_offsets, try_build_time_markers};

#[test]
fn timemarker_render_top_single_stem() {
    let mut canvas = Canvas::new(25, 5);
    let time_marker = TimeMarker {
        horizontal_offset: 20,
        timestamp_location: TimestampLocation::Top,
        timestamp: 0,
        vertical_offset: 1,
    };

    time_marker.render(&mut canvas);

    let rendered = format!("\n{}", canvas.to_string());
    assert_eq!(rendered, "
                         
                         
                         
  1970-01-01 00:00:00    
                    |    
");
}

#[test]
fn timemarker_render_bottom_single_stem() {
    let mut canvas = Canvas::new(25, 5);
    let time_marker = TimeMarker {
        horizontal_offset: 0,
        timestamp_location: TimestampLocation::Bottom,
        timestamp: 0,
        vertical_offset: 1,
    };

    time_marker.render(&mut canvas);
    let rendered = format!("\n{}", canvas.to_string());
    assert_eq!(rendered, "
|                        
1970-01-01 00:00:00      
                         
                         
                         
");
}

#[test]
fn timemarker_render_top_three_stems() {
    let mut canvas = Canvas::new(80, 5);
    let time_marker = TimeMarker {
        horizontal_offset: 19,
        timestamp_location: TimestampLocation::Top,
        timestamp: 0,
        vertical_offset: 1,
    };
    let time_marker2 = TimeMarker {
        horizontal_offset: 40,
        timestamp_location: TimestampLocation::Top,
        timestamp: 1000,
        vertical_offset: 2,
    };
    let time_marker3 = TimeMarker {
        horizontal_offset: 60,
        timestamp_location: TimestampLocation::Top,
        timestamp: 2000,
        vertical_offset: 3,
    };

    [time_marker, time_marker2, time_marker3]
        .iter()
        .for_each(|marker| {
            marker.render(&mut canvas);
        });

    let rendered = format!("\n{}", canvas.to_string());
    assert_eq!(rendered, "
                                                                                
                                          1970-01-01 00:33:20                   
                      1970-01-01 00:16:40                   |                   
 1970-01-01 00:00:00                    |                   |                   
                   |                    |                   |                   
");
}

#[test]
fn timemarker_render_bottom_three_stems() {
    let mut canvas = Canvas::new(80, 5);
    let time_marker = TimeMarker {
        horizontal_offset: 19,
        timestamp_location: TimestampLocation::Bottom,
        timestamp: 0,
        vertical_offset: 3,
    };
    let time_marker2 = TimeMarker {
        horizontal_offset: 40,
        timestamp_location: TimestampLocation::Bottom,
        timestamp: 1000,
        vertical_offset: 2,
    };
    let time_marker3 = TimeMarker {
        horizontal_offset: 60,
        timestamp_location: TimestampLocation::Bottom,
        timestamp: 2000,
        vertical_offset: 1,
    };

    [time_marker, time_marker2, time_marker3]
        .iter()
        .for_each(|marker| {
            marker.render(&mut canvas);
        });

    let rendered = format!("\n{}", canvas.to_string());
    assert_eq!(rendered, "
                   |                    |                   |                   
                   |                    |                   1970-01-01 00:33:20 
                   |                    1970-01-01 00:16:40                     
                   1970-01-01 00:00:00                                          
                                                                                
");
}

#[test]
fn marker_offsets_() {
    assert_eq![marker_offsets(2, 2), vec![0, 1]];
    assert_eq![marker_offsets(2, 5), vec![0, 4]];
    assert_eq!(marker_offsets(5, 10), vec![0, 2, 4, 6, 9]);
    assert_eq!(marker_offsets(3, 5), vec![0, 2, 4]);
}

fn blank(width: usize) -> String {
    " ".repeat(width)
}

fn row_with(width: usize, pieces: &[(usize, &str)]) -> String {
    let mut row: Vec<char> = blank(width).chars().collect();
    for (column, text) in pieces {
        for (i, c) in text.chars().enumerate() {
            row[column + i] = c;
        }
    }
    row.into_iter().collect()
}

#[test]
fn marker_offsets_start_left_and_end_right() {
    for width in [1usize, 2, 3, 10, 79, 80, 1000] {
        for count in 2..=12usize {
            let offsets = marker_offsets(count, width);
            assert_eq!(offsets.len(), count);
            assert_eq!(offsets[0], 0);
            assert_eq!(offsets[count - 1], width - 1);
            assert!(offsets.iter().all(|column| *column < width));
            assert!(offsets.windows(2).all(|pair| pair[0] <= pair[1]));
        }
    }
}

#[test]
fn marker_offsets_round_up_between_the_edges() {
    assert_eq!(marker_offsets(4, 80), vec![0, 26, 52, 79]);
    assert_eq!(marker_offsets(4, 12), vec![0, 4, 7, 11]);
    assert_eq!(marker_offsets(6, 1), vec![0, 0, 0, 0, 0, 0]);
    assert_eq!(marker_offsets(3, 2), vec![0, 0, 1]);
    assert_eq!(
        marker_offsets(3, usize::MAX),
        vec![0, usize::MAX / 2, usize::MAX - 1]
    );
}

#[test]
fn canvas_starts_blank() {
    let canvas = Canvas::new(3, 2);
    assert_eq!(canvas.width(), 3);
    assert_eq!(canvas.height(), 2);
    assert_eq!(canvas.to_string(), "   \n   \n");
    assert_eq!(Canvas::new(4, 0).to_string(), "");
    assert_eq!(Canvas::new(0, 2).to_string(), "\n\n");
}

#[test]
fn canvas_row_takes_text_at_a_column() {
    let mut canvas = Canvas::new(6, 3);
    canvas.update_row(1, 2, "abc");
    canvas.update_row(2, 0, "|");
    canvas.update_row(1, 4, "xy");
    canvas.update_row(0, 6, "");
    assert_eq!(canvas.to_string(), "      \n  abxy\n|     \n");
}

#[test]
fn draw_writes_the_given_label() {
    let mut canvas = Canvas::new(8, 3);
    let marker = TimeMarker {
        horizontal_offset: 5,
        timestamp_location: TimestampLocation::Top,
        timestamp: 0,
        vertical_offset: 2,
    };
    marker.draw(&mut canvas, "noon");
    assert_eq!(canvas.to_string(), "  noon  \n     |  \n     |  \n");

    let mut canvas = Canvas::new(8, 3);
    let marker = TimeMarker {
        horizontal_offset: 4,
        timestamp_location: TimestampLocation::Bottom,
        timestamp: 0,
        vertical_offset: 0,
    };
    marker.draw(&mut canvas, "dusk");
    assert_eq!(canvas.to_string(), "    dusk\n        \n        \n");
}

#[test]
fn fits_canvas_tells_where_a_label_has_room() {
    let top = TimeMarker {
        horizontal_offset: 18,
        timestamp_location: TimestampLocation::Top,
        timestamp: 0,
        vertical_offset: 1,
    };
    assert!(top.fits_canvas(19, 2, 19));
    assert!(!top.fits_canvas(19, 2, 20));
    assert!(!top.fits_canvas(18, 2, 19));
    assert!(!top.fits_canvas(19, 1, 19));
    let bottom = TimeMarker {
        horizontal_offset: 6,
        timestamp_location: TimestampLocation::Bottom,
        timestamp: 0,
        vertical_offset: 1,
    };
    assert!(bottom.fits_canvas(25, 2, 19));
    assert!(!bottom.fits_canvas(24, 2, 19));
    assert!(!bottom.fits_canvas(25, 1, 19));
}

#[test]
fn try_render_leaves_the_canvas_where_the_label_has_no_room() {
    let mut canvas = Canvas::new(25, 3);
    let marker = TimeMarker {
        horizontal_offset: 10,
        timestamp_location: TimestampLocation::Bottom,
        timestamp: 86400,
        vertical_offset: 1,
    };
    assert!(!marker.try_render(&mut canvas));
    assert_eq!(canvas.to_string(), Canvas::new(25, 3).to_string());

    let marker = TimeMarker {
        horizontal_offset: 6,
        timestamp_location: TimestampLocation::Bottom,
        timestamp: 86400,
        vertical_offset: 1,
    };
    assert!(marker.try_render(&mut canvas));
    assert_eq!(
        canvas.to_string(),
        "      |                  \n      1970-01-02 00:00:00\n                         \n"
    );
}

#[test]
fn try_render_refuses_a_moment_beyond_the_calendar() {
    let mut canvas = Canvas::new(80, 3);
    let marker = TimeMarker {
        horizontal_offset: 40,
        timestamp_location: TimestampLocation::Bottom,
        timestamp: i64::MAX,
        vertical_offset: 1,
    };
    assert!(!marker.try_render(&mut canvas));
    assert_eq!(canvas.to_string(), Canvas::new(80, 3).to_string());
}

#[test]
fn render_shows_the_date_and_time_of_the_timestamp() {
    let mut canvas = Canvas::new(30, 2);
    let marker = TimeMarker {
        horizontal_offset: 2,
        timestamp_location: TimestampLocation::Bottom,
        timestamp: 1574490400,
        vertical_offset: 1,
    };
    marker.render(&mut canvas);
    assert_eq!(
        canvas.to_string(),
        format!("{}\n{}\n", row_with(30, &[(2, "|")]), row_with(30, &[(2, "2019-11-23 06:26:40")]))
    );
}

#[test]
fn no_markers_give_two_empty_blocks() {
    assert_eq!(build_time_markers(&[], 0, 0), (String::new(), String::new()));
    assert_eq!(build_time_markers(&[1, 2, 3], 0, 80), (String::new(), String::new()));
    assert_eq!(
        try_build_time_markers(&[1, 2, 3], 0, 1),
        Some((String::new(), String::new()))
    );
}

#[test]
fn four_markers_stand_two_above_and_two_below() {
    let timestamps: Vec<i64> = vec![0, 1000, 2000, 3000];
    let (header, footer) = build_time_markers(&timestamps, 4, 80);
    let expected_header = format!(
        "{}\n{}\n{}\n",
        row_with(80, &[(61, "1970-01-01 00:50:00")]),
        row_with(80, &[(34, "1970-01-01 00:33:20"), (79, "|")]),
        row_with(80, &[(52, "|"), (79, "|")]),
    );
    let expected_footer = format!(
        "{}\n{}\n{}\n",
        row_with(80, &[(0, "|"), (26, "|")]),
        row_with(80, &[(0, "|"), (26, "1970-01-01 00:16:40")]),
        row_with(80, &[(0, "1970-01-01 00:00:00")]),
    );
    assert_eq!(header, expected_header);
    assert_eq!(footer, expected_footer);
    assert_eq!(
        try_build_time_markers(&timestamps, 4, 80),
        Some((expected_header, expected_footer))
    );
}

#[test]
fn markers_are_spaced_by_index_not_by_the_clock() {
    let timestamps: Vec<i64> = vec![0, 60, 120, 180, 240, 300, 360, 86400];
    let (header, footer) = build_time_markers(&timestamps, 4, 100);
    assert!(footer.contains("1970-01-01 00:00:00"));
    assert!(footer.contains("1970-01-01 00:02:00"));
    assert!(header.contains("1970-01-01 00:04:00"));
    assert!(header.contains("1970-01-01 00:06:00"));
    assert!(!header.contains("1970-01-02"));
}

#[test]
fn markers_that_cannot_be_drawn_give_nothing() {
    let timestamps: Vec<i64> = vec![0, 1000, 2000, 3000];
    assert_eq!(try_build_time_markers(&timestamps, 1, 80), None);
    assert_eq!(try_build_time_markers(&timestamps, 2, 80), None);
    assert_eq!(try_build_time_markers(&timestamps, 5, 80), None);
    assert_eq!(try_build_time_markers(&timestamps, 4, 0), None);
    assert_eq!(try_build_time_markers(&timestamps, 4, 27), None);
    assert!(try_build_time_markers(&timestamps, 4, 28).is_some());
    assert_eq!(try_build_time_markers(&[], 3, 80), None);
    assert_eq!(try_build_time_markers(&[0, 1, 2, i64::MAX], 4, 80), None);
}

#[test]
fn footer_takes_half_of_the_markers_raised_to_an_even_number() {
    let expected = [0usize, 0, 2, 2, 2, 2, 4, 4, 4, 4, 6, 6, 6];
    for (marker_count, footer) in expected.iter().enumerate() {
        assert_eq!(count_footer_markers(marker_count), *footer);
    }
    assert_eq!(count_footer_markers(usize::MAX), usize::MAX / 2 + 1);
}

#[test]
fn markers_are_placed_by_index_and_by_column() {
    let timestamps: Vec<i64> = (0..10).map(|i| i * 100).collect();
    let (header, footer) = place_markers(&timestamps, 5, 80);
    let seen = |markers: &Vec<TimeMarker>| -> Vec<(usize, i64, usize)> {
        markers
            .iter()
            .map(|m| (m.horizontal_offset, m.timestamp, m.vertical_offset))
            .collect()
    };
    assert_eq!(seen(&footer), vec![(0, 0, 2), (20, 200, 1)]);
    assert_eq!(seen(&header), vec![(39, 400, 1), (59, 600, 2), (79, 800, 3)]);
    assert!(footer
        .iter()
        .all(|m| m.timestamp_location == TimestampLocation::Bottom));
    assert!(header
        .iter()
        .all(|m| m.timestamp_location == TimestampLocation::Top));

    let (header, footer) = place_markers(&[7, 8, 9], 3, 40);
    assert_eq!(seen(&footer), vec![(0, 7, 2), (19, 8, 1)]);
    assert_eq!(seen(&header), vec![(39, 9, 1)]);
}

#[test]
fn all_renderable_asks_every_marker() {
    let (header, footer) = place_markers(&[0, 1, 2, 3], 4, 80);
    assert!(all_renderable(&header, 80, 3));
    assert!(all_renderable(&footer, 80, 3));
    assert!(!all_renderable(&header, 80, 2));
    assert!(!all_renderable(&footer, 44, 3));
    assert!(all_renderable(&Vec::new(), 0, 0));
}

#[test]
fn markers_show_the_timestamps_in_the_order_of_time() {
    let shuffled: Vec<i64> = vec![3600, 0, 120, 60];
    let sorted: Vec<i64> = vec![0, 60, 120, 3600];
    let (header, footer) = build_time_markers(&shuffled, 3, 36);
    assert_eq!((header.clone(), footer.clone()), build_time_markers(&sorted, 3, 36));
    assert_eq!(
        header,
        format!(
            "{}\n{}\n",
            row_with(36, &[(17, "1970-01-01 01:00:00")]),
            row_with(36, &[(35, "|")]),
        )
    );
    assert_eq!(
        footer,
        format!(
            "{}\n{}\n{}\n",
            row_with(36, &[(0, "|"), (17, "|")]),
            row_with(36, &[(0, "|"), (17, "1970-01-01 00:02:00")]),
            row_with(36, &[(0, "1970-01-01 00:00:00")]),
        )
    );
    assert_eq!(
        try_build_time_markers(&shuffled, 3, 36),
        try_build_time_markers(&sorted, 3, 36)
    );
    assert_eq!(shuffled, vec![3600, 0, 120, 60]);
}

#[test]
fn markers_are_placed_on_the_sorted_timestamps() {
    let (header, footer) = place_markers(&[900, 100, 500, 300, 700, 100], 4, 80);
    let times = |markers: &Vec<TimeMarker>| -> Vec<i64> {
        markers.iter().map(|m| m.timestamp).collect()
    };
    assert_eq!(times(&footer), vec![100, 300]);
    assert_eq!(times(&header), vec![500, 900]);
}
