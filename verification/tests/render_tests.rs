use waveform::render::{
    border, boxed, clamp_window, colorize, compose_frame, draw_horizontal, fill_column,
    format_clock_millis, join_with_newlines,
    frame_layout, frame_range_for_column, panel_canvas, visible_channels, write_label,
};

#[test]
fn window_is_clamped_into_the_file() {
    assert_eq!(clamp_window(0, 0, 100), (0, 1));
    assert_eq!(clamp_window(90, 20, 100), (80, 20));
    assert_eq!(clamp_window(5, 500, 100), (0, 100));
    assert_eq!(clamp_window(7, 3, 0), (0, 1));
    let once = clamp_window(123, 45, 150);
    assert_eq!(clamp_window(once.0, once.1, 150), once);
}

#[test]
fn columns_tile_the_window() {
    let width = 7;
    let mut expected_start = 100;
    for column in 0..width {
        let range = frame_range_for_column(100, 150, column, width);
        assert_eq!(range.start, expected_start);
        assert!(range.end > range.start);
        expected_start = 100 + (50 * (column + 1)) / width;
    }
    assert_eq!(frame_range_for_column(100, 150, width - 1, width).end, 150);
    // a window narrower than the plot still gives every column a frame
    assert_eq!(frame_range_for_column(10, 12, 3, 8), 10..11);
}

#[test]
fn channels_that_fit() {
    assert_eq!(visible_channels(4, None, 30), vec![0, 1, 2, 3]);
    assert_eq!(visible_channels(4, None, 13), vec![0, 1]);
    assert_eq!(visible_channels(4, None, 5), vec![0]);
    assert_eq!(visible_channels(4, Some(9), 5), vec![3]);
    assert_eq!(visible_channels(0, None, 50), Vec::<usize>::new());
}

#[test]
fn layout_of_a_small_terminal() {
    let layout = frame_layout(10, 10, false, 2, None);
    assert_eq!(layout.width, 36);
    assert_eq!(layout.height, 14);
    assert_eq!(layout.inner_width, 34);
    assert_eq!(layout.plot_rows, 8);
    assert_eq!(layout.channels, vec![0]);
    assert_eq!(layout.panel_height, 8);
    let layout = frame_layout(80, 40, true, 2, None);
    assert_eq!(layout.plot_rows, 32);
    assert_eq!(layout.channels, vec![0, 1]);
    assert_eq!(layout.panel_height, 16);
}

#[test]
fn canvas_grid_and_label() {
    let mut canvas = panel_canvas(5, 8, true);
    assert_eq!(canvas[2], b".....".to_vec());
    assert_eq!(canvas[4], b"-----".to_vec());
    assert_eq!(canvas[5], b".....".to_vec());
    assert_eq!(canvas[0], b"     ".to_vec());
    write_label(&mut canvas[0], b"ch 1 peak");
    assert_eq!(canvas[0], b"ch 1 ".to_vec());
    draw_horizontal(&mut canvas, 99, b'x');
    draw_horizontal(&mut canvas, 1, b'x');
    assert_eq!(canvas[1], b"xxxxx".to_vec());
    fill_column(&mut canvas, 3, 6, 4, b'#');
    assert_eq!(canvas[4], b"---#-".to_vec());
    assert_eq!(canvas[6], b"   # ".to_vec());
    assert_eq!(canvas[7], b"     ".to_vec());
    let plain = panel_canvas(3, 2, false);
    assert_eq!(plain, vec![b"   ".to_vec(), b"   ".to_vec()]);
}

#[test]
fn framed_lines() {
    assert_eq!(border(6, "="), "+====+");
    assert_eq!(border(1, "="), "++");
    assert_eq!(boxed(6, "ab"), "|ab    |");
    assert_eq!(boxed(3, "abcdef"), "|abc|");
    assert_eq!(boxed(4, "h\u{e9}llo"), "|h\u{e9}l|");
    assert_eq!(colorize("x", true, "1;36"), "\u{1b}[1;36mx\u{1b}[0m");
    assert_eq!(colorize("x", false, "1;36"), "x");
}

#[test]
fn clock_readout() {
    assert_eq!(format_clock_millis(0), "00:00.000");
    assert_eq!(format_clock_millis(61_005), "01:01.005");
    assert_eq!(format_clock_millis(6_000_000), "100:00.000");
}

#[test]
fn frame_assembly() {
    let panels = vec![
        vec!["|a|".to_string(), "|b|".to_string()],
        vec!["|c|".to_string()],
    ];
    let frame = compose_frame(8, 6, " t ", " info ", &panels, false, false);
    let expected = [
        "+======+",
        "| t    |",
        "| info |",
        "+======+",
        "|a|",
        "|b|",
        "|c|",
        "+======+",
        "| h/l p|",
        "+======+",
    ]
    .join("\n")
        + "\n";
    assert_eq!(frame, expected);

    let colored = compose_frame(8, 6, "t", "i", &panels, true, true);
    let lines: Vec<&str> = colored.lines().collect();
    assert_eq!(lines.len(), 13);
    assert_eq!(lines[1], "\u{1b}[1;36m|t     |\u{1b}[0m");
    assert_eq!(lines[4], "\u{1b}[0;32m|a|\u{1b}[0m");
    assert_eq!(lines[6], "\u{1b}[0;36m|c|\u{1b}[0m");
    assert_eq!(lines[9], "| Focus|");

    assert_eq!(join_with_newlines(&vec![]), "\n");
    assert_eq!(join_with_newlines(&vec!["x".to_string(), "y".to_string()]), "x\ny\n");
}
