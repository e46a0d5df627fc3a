use screen_lookup::locate::{
    extract_single_word, find_word_in_pos, if_point_in_region, parse_tsv_row, region_at_point,
    LocateError,
};

fn row(level: u32, left: i32, top: i32, width: i32, height: i32, conf: &str, text: &str) -> String {
    format!("{level}\t1\t1\t1\t1\t1\t{left}\t{top}\t{width}\t{height}\t{conf}\t{text}")
}

fn layout(rows: &[String]) -> String {
    let mut s = String::new();
    for r in rows {
        s.push_str(r);
        s.push('\n');
    }
    s
}

#[test]
fn test_extract_singal_word() {
    let line = "arts[8].parse()?;";
    let x = 100;
    let width = 148;
    let word = extract_single_word(line, x, width);
    assert_eq!("parse", word);
}

#[test]
fn extract_first_token_at_start() {
    assert_eq!("arts", extract_single_word("arts[8].parse()?;", 1, 148));
}

#[test]
fn extract_whole_text_when_point_is_past_every_token() {
    // estimate 17 * 148 / 148 = 17; no token ends past it
    assert_eq!("arts[8].parse()?;", extract_single_word("arts[8].parse()?;", 148, 148));
    // estimate 16: the empty piece after the final ';' ends past it
    assert_eq!("", extract_single_word("arts[8].parse()?;", 147, 148));
}

#[test]
fn extract_plain_word_is_kept_wherever_the_point_is() {
    for x in [0, 1, 50, 99, 100, 500] {
        assert_eq!("Community", extract_single_word("Community", x, 100));
        assert_eq!("Area51", extract_single_word("Area51", x, 100));
        assert_eq!("Straße2", extract_single_word("Straße2", x, 100));
    }
}

#[test]
fn extract_splits_on_non_alphanumerics() {
    // "hello world": estimate 11 * 80 / 100 = 8, "hello" ends at 5, "world" at 11
    assert_eq!("world", extract_single_word("hello world", 80, 100));
    assert_eq!("hello", extract_single_word("hello world", 10, 100));
    assert_eq!("ab1cd", extract_single_word("ab1cd", 1, 10));
    assert_eq!("snake", extract_single_word("snake_case", 1, 100));
    assert_eq!("case", extract_single_word("snake_case", 90, 100));
}

#[test]
fn locate_community_box() {
    let tsv = layout(&[
        row(1, 0, 0, 300, 100, "-1", ""),
        row(4, 10, 20, 250, 60, "-1", ""),
        row(5, 60, 30, 120, 40, "96.537102", "Community"),
    ]);
    assert_eq!(Ok("community".to_string()), find_word_in_pos(&tsv, (100, 50)));
}

#[test]
fn locate_keeps_alphanumeric_word_whole() {
    let tsv = layout(&[row(5, 0, 0, 100, 10, "90", "MP3Player")]);
    for x in [1, 50, 99] {
        assert_eq!(Ok("mp3player".to_string()), find_word_in_pos(&tsv, (x, 5)));
    }
}

#[test]
fn locate_takes_the_first_matching_box() {
    let tsv = layout(&[
        row(5, 0, 0, 200, 100, "90", "First"),
        row(5, 0, 0, 200, 100, "95", "Second"),
    ]);
    assert_eq!(Ok("first".to_string()), find_word_in_pos(&tsv, (10, 10)));
}

#[test]
fn locate_skips_boxes_without_confidence() {
    let tsv = layout(&[
        row(5, 0, 0, 200, 100, "0.000000", "Zero"),
        row(5, 0, 0, 200, 100, "-1", "Minus"),
        row(5, 0, 0, 200, 100, "12.5", "Kept"),
    ]);
    assert_eq!(Ok("kept".to_string()), find_word_in_pos(&tsv, (10, 10)));
}

#[test]
fn locate_excludes_box_edges() {
    let tsv = layout(&[row(5, 10, 10, 20, 20, "90", "Edge")]);
    assert_eq!(Err(LocateError::WordNotFoundAtPoint), find_word_in_pos(&tsv, (10, 15)));
    assert_eq!(Err(LocateError::WordNotFoundAtPoint), find_word_in_pos(&tsv, (30, 15)));
    assert_eq!(Ok("edge".to_string()), find_word_in_pos(&tsv, (11, 29)));
}

#[test]
fn locate_reports_no_word() {
    assert_eq!(Err(LocateError::WordNotFoundAtPoint), find_word_in_pos("", (1, 1)));
    let tsv = layout(&[row(5, 0, 0, 10, 10, "90", "far")]);
    assert_eq!(Err(LocateError::WordNotFoundAtPoint), find_word_in_pos(&tsv, (100, 100)));
}

#[test]
fn locate_reports_bad_row() {
    assert_eq!(Err(LocateError::BadRow), find_word_in_pos("1\t2\t3\n", (1, 1)));
}

#[test]
fn locate_reports_bad_number() {
    let tsv = layout(&[row(5, 0, 0, 10, 10, "high", "word")]);
    assert_eq!(Err(LocateError::BadNumber), find_word_in_pos(&tsv, (1, 1)));
    let tsv = "5\t1\t1\t1\t1\t1\tx\t0\t10\t10\t90\tword\n";
    assert_eq!(Err(LocateError::BadNumber), find_word_in_pos(tsv, (1, 1)));
}

#[test]
fn locate_reports_empty_word() {
    let tsv = layout(&[row(5, 0, 0, 100, 10, "90", "")]);
    assert_eq!(Err(LocateError::EmptyWord), find_word_in_pos(&tsv, (1, 1)));
}

#[test]
fn locate_stops_at_the_hit_before_a_bad_row() {
    let tsv = format!("{}\nbroken\n", row(5, 0, 0, 100, 10, "90", "Hit"));
    assert_eq!(Ok("hit".to_string()), find_word_in_pos(&tsv, (1, 1)));
}

#[test]
fn locate_reads_crlf_lines() {
    let tsv = format!("{}\r\n{}\r\n", row(1, 0, 0, 1, 1, "-1", ""), row(5, 0, 0, 50, 50, "90", "Win"));
    assert_eq!(Ok("win".to_string()), find_word_in_pos(&tsv, (2, 2)));
}

#[test]
fn parse_row_fields() {
    let b = parse_tsv_row("5\t1\t1\t1\t1\t1\t-3\t+4\t50\t60\t.5\tword").unwrap();
    assert_eq!((b.left, b.top, b.width, b.height, b.confident), (-3, 4, 50, 60, true));
    assert_eq!("word", b.text);
    assert!(parse_tsv_row("5\t1\t1\t1\t1\t1\t2147483648\t0\t1\t1\t1\tw").is_err());
    assert!(parse_tsv_row("5\t1\t1\t1\t1\t1\t0\t0\t1\t1\t1.2.3\tw").is_err());
}

#[test]
fn point_in_region_uses_opposite_corners() {
    let quad = [(0, 40), (0, 0), (100, 0), (100, 40)];
    assert!(if_point_in_region([50, 20], &quad));
    assert!(!if_point_in_region([0, 20], &quad));
    assert!(!if_point_in_region([50, 40], &quad));
}

#[test]
fn region_at_point_picks_the_first_holder() {
    let a = [(0, 10), (0, 0), (10, 0), (10, 10)];
    let b = [(0, 100), (0, 0), (100, 0), (100, 100)];
    assert_eq!(Some(1), region_at_point(&vec![a, b, b], [50, 50]));
    assert_eq!(Some(0), region_at_point(&vec![a, b], [5, 5]));
    assert_eq!(None, region_at_point(&vec![a], [50, 50]));
}
