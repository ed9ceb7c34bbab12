use dkparse::chart::{check_chart_size, Chart, ChartError};

fn chart_str(rows: &[&str]) -> String {
    let mut s = String::from("CHART\n");
    for row in rows {
        s.push_str(row);
        s.push('\n');
    }
    s
}

fn chart(rows: &[&str]) -> Chart {
    Chart::read(&chart_str(rows)).unwrap()
}

#[test]
fn chart_test_read_write() {
    let chart_in = chart_str(&[
        "...*...", "..***..", "*.****.", "*******", ".*****.", "..***..", "...*...", ".......",
    ]);
    let chart = Chart::read(&chart_in).unwrap();
    assert_eq!(7, chart.cols());
    assert_eq!(8, chart.rows());

    let chart_out = chart.write_to_string();
    assert_eq!(chart_out, chart_in);
}

#[test]
fn chart_test_missing_stitches() {
    let chart = chart(&["......", "*******"]);
    assert_eq!(7, chart.cols());
    assert_eq!(2, chart.rows());

    let chart_out = chart.write_to_string();
    let fixed_chart = chart_str(&[".......", "*******"]);
    assert_eq!(chart_out, fixed_chart);
}

#[test]
fn chart_test_stitch_get_set() {
    let mut chart = chart(&["@.....", "..**..", "*....^"]);

    assert_eq!('@', chart.stitch(0, 0).unwrap());
    assert_eq!('*', chart.stitch(1, 2).unwrap());
    assert_eq!('^', chart.stitch(chart.rows() - 1, chart.cols() - 1).unwrap());

    chart.set_stitch(1, 2, '#').unwrap();
    assert_eq!('#', chart.stitch(1, 2).unwrap());
}

#[test]
fn chart_test_range_check() {
    let mut chart = chart(&["@.....", "..**..", "*....^"]);

    assert!(chart.stitch(3, 0).is_err());
    assert!(chart.stitch(0, 6).is_err());
    assert!(chart.set_stitch(3, 0, ' ').is_err());
    assert_eq!(chart.set_stitch(0, 6, ' '), Err(ChartError::RangeCheck));
}

#[test]
fn test_repeat() {
    let chart = chart(&["..*..", ".*.*.", ".***.", ".**..", ".*..."]);

    let horiz = chart.repeat(2, 1).unwrap();
    let horiz_str = chart_str(&["..*....*..", ".*.*..*.*.", ".***..***.", ".**...**..", ".*....*..."]);
    assert_eq!(horiz.write_to_string(), horiz_str);

    let vert = chart.repeat(1, 3).unwrap();
    let vert_str = chart_str(&[
        "..*..", ".*.*.", ".***.", ".**..", ".*...", "..*..", ".*.*.", ".***.", ".**..", ".*...",
        "..*..", ".*.*.", ".***.", ".**..", ".*...",
    ]);
    assert_eq!(vert.write_to_string(), vert_str);

    let both = chart.repeat(2, 3).unwrap();
    let both_str = chart_str(&[
        "..*....*..", ".*.*..*.*.", ".***..***.", ".**...**..", ".*....*...", "..*....*..",
        ".*.*..*.*.", ".***..***.", ".**...**..", ".*....*...", "..*....*..", ".*.*..*.*.",
        ".***..***.", ".**...**..", ".*....*...",
    ]);
    assert_eq!(both.write_to_string(), both_str);
}

#[test]
fn repeat_zero_is_refused() {
    let chart = chart(&["*."]);
    assert_eq!(chart.repeat(0, 1).err(), Some(ChartError::ZeroNotLegal));
    assert_eq!(chart.repeat(1, 0).err(), Some(ChartError::ZeroNotLegal));
}

#[test]
fn test_stamp() {
    let big_chart = chart(&["*......", ".......", "......*", ".......", ".......", "......*"]);
    let small_chart = chart(&[".*.", ".**", "**.", "***"]);

    let stamped = big_chart.stamp(&small_chart, 1, 2);

    let stamped_str = chart_str(&["*......", ".......", "..*...*", "..**...", ".**....", ".***..*"]);
    assert_eq!(stamped.write_to_string(), stamped_str);
}

#[test]
fn test_stamp_out_of_bounds() {
    let big_chart = chart(&["*......", ".......", "......*", ".......", ".......", "......*"]);
    let small_chart = chart(&[".*.", ".**", "**.", "***"]);

    let stamped = big_chart.stamp(&small_chart, 5, 3);

    let stamped_str = chart_str(&["*......", ".......", "......*", "......*", "......*", ".....**"]);
    assert_eq!(stamped.write_to_string(), stamped_str);
}

#[test]
fn zip_test_zip() {
    let left = chart(&["*...*", ".*.*.", "..*..", ".*.*.", "*...*"]);
    let right = chart(&["**..**", "**..**", ".****.", ".****.", "..**..", "..**.."]);

    let zipped = left.zip(&right);

    let zipped_str = chart_str(&[
        "*...***..**",
        ".*.*.**..**",
        "..*...****.",
        ".*.*..****.",
        "*...*..**..",
        ".......**..",
    ]);
    assert_eq!(zipped.write_to_string(), zipped_str);
}

#[test]
fn reflect_test_reflect() {
    let chart = chart(&["*..", "**.", ".**"]);
    let reflected = chart.reflect();
    let reflected_str = chart_str(&["..*", ".**", "**."]);
    assert_eq!(reflected.write_to_string(), reflected_str);
}

#[test]
fn test_split_even() {
    let chart = chart(&["..**..", ".****.", "******", ".****.", ".**..."]);

    let (left, right) = chart.split();
    let chart_left_str = chart_str(&["..*", ".**", "***", ".**", ".**"]);
    let chart_right_str = chart_str(&["*..", "**.", "***", "**.", "..."]);

    assert_eq!(left.write_to_string(), chart_left_str);
    assert_eq!(right.write_to_string(), chart_right_str);
}

#[test]
fn split_odd_width_gives_the_extra_column_to_the_right() {
    let chart = chart(&["*.*", ".*."]);
    let (left, right) = chart.split();
    assert_eq!(left.write_to_string(), chart_str(&["*", "."]));
    assert_eq!(right.write_to_string(), chart_str(&[".*", "*."]));
}

#[test]
fn test_trim() {
    let chart = chart(&[".........", "...**....", ".........", "........."]);

    let trimmed = chart.trim().unwrap();

    let trimmed_str = chart_str(&["**"]);

    assert_eq!(trimmed.write_to_string(), trimmed_str);
}

#[test]
fn trim_keeps_the_whole_box() {
    let chart = chart(&["......", "..*...", "....#.", " ....."]);
    let trimmed = chart.trim().unwrap();
    assert_eq!(trimmed.write_to_string(), chart_str(&["*..", "..#"]));
}

#[test]
fn trim_of_an_empty_chart_fails() {
    let chart = chart(&["...", ". ."]);
    assert_eq!(chart.trim().err(), Some(ChartError::EmptyChart));
}

#[test]
fn chart_size_limits() {
    assert_eq!(check_chart_size(65535, 65535), Ok(()));
    assert_eq!(check_chart_size(65536, 10), Err(ChartError::TooWide(65536)));
    assert_eq!(check_chart_size(10, 70000), Err(ChartError::TooTall(70000)));
    assert_eq!(check_chart_size(70000, 70000), Err(ChartError::TooTall(70000)));
}

#[test]
fn dark_pixels_become_stitches() {
    let luma: Vec<u8> = vec![0, 200, 127, 128, 255, 3];
    let chart = Chart::from_luma(3, 2, &luma, 128);
    assert_eq!(chart.write_to_string(), chart_str(&["*.*", "..*"]));
}
