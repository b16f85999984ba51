use satscanner::tle::{
    choose_tle_source, fallback_after_failed_download, line_with_checksum, nonblank_line_bounds,
    parse_tles, tle_line_groups, FetchError, TleSource,
};

const ISS_LINE1: &str = "1 25544U 98067A   23272.53181822  .00016717  00000-0  30129-3 0  9997";
const ISS_LINE2: &str = "2 25544  51.6416 288.6677 0006059  58.9416  60.5484 15.49887754418047";

#[test]
fn test_parse_tles() {
    let sample = "ISS (ZARYA)             \n\
                  1 25544U 98067A   23272.53181822  .00016717  00000-0  30129-3 0  9997\n\
                  2 25544  51.6416 288.6677 0006059  58.9416  60.5484 15.49887754418047";
    let tles = parse_tles(sample);
    assert_eq!(tles.len(), 1);
    assert_eq!(tles[0].name, "ISS (ZARYA)");
    assert_eq!(tles[0].elements.object_name, Some("ISS (ZARYA)".to_string()));
}

#[test]
fn parse_keeps_lines_and_norad_id() {
    let text = format!("ISS (ZARYA)\n{}\n{}\n", ISS_LINE1, ISS_LINE2);
    let tles = parse_tles(&text);
    assert_eq!(tles.len(), 1);
    assert_eq!(tles[0].line1, ISS_LINE1);
    assert_eq!(tles[0].line2, ISS_LINE2);
    assert_eq!(tles[0].elements.norad_id, 25544);
}

#[test]
fn parse_skips_blank_lines_and_crlf() {
    let text = format!("\r\n  \n ISS (ZARYA) \r\n\n{}\r\n   \n{}\r\n\n", ISS_LINE1, ISS_LINE2);
    let tles = parse_tles(&text);
    assert_eq!(tles.len(), 1);
    assert_eq!(tles[0].name, "ISS (ZARYA)");
    assert_eq!(tles[0].line1, ISS_LINE1);
}

#[test]
fn parse_skips_rejected_sets_and_keeps_the_rest() {
    // Catalog numbers that differ between the two lines make sgp4 reject the first set.
    let other_line2 = ISS_LINE2.replace("2 25544", "2 25545");
    let short_line1 = &ISS_LINE1[..60];
    let text = format!(
        "MISMATCH\n{}\n{}\nSHORT\n{}\n{}\nISS (ZARYA)\n{}\n{}\n",
        ISS_LINE1, other_line2, short_line1, ISS_LINE2, ISS_LINE1, ISS_LINE2
    );
    let tles = parse_tles(&text);
    assert_eq!(tles.len(), 1);
    assert_eq!(tles[0].name, "ISS (ZARYA)");
}

#[test]
fn parse_does_not_hold_checksum_digits_against_a_set() {
    let odd_line1 = ISS_LINE1.replace("9997", "9998");
    let text = format!("ODD\n{}\n{}\n", odd_line1, ISS_LINE2);
    let tles = parse_tles(&text);
    assert_eq!(tles.len(), 1);
    assert_eq!(tles[0].line1, odd_line1);
}

#[test]
fn parse_rejects_checksum_characters_that_are_not_digits() {
    for bad in ["999/", "999A", "999 "] {
        let odd_line1 = ISS_LINE1.replace("9997", bad);
        let text = format!("ODD\n{}\n{}\n", odd_line1, ISS_LINE2);
        assert_eq!(parse_tles(&text).len(), 0, "checksum character {:?}", bad);
        let odd_line2 = format!("{}:", &ISS_LINE2[..68]);
        let text = format!("ODD\n{}\n{}\n", ISS_LINE1, odd_line2);
        assert_eq!(parse_tles(&text).len(), 0);
    }
}

#[test]
fn checksum_digit_is_recomputed() {
    let fixed = line_with_checksum(ISS_LINE1);
    assert_eq!(fixed.len(), 69);
    assert_eq!(&fixed[..68], &ISS_LINE1.as_bytes()[..68]);
    assert_eq!(fixed[68], b'6');
    assert_eq!(line_with_checksum("1 short"), b"1 short".to_vec());
    let letter = ISS_LINE1.replace("9997", "999A");
    assert_eq!(line_with_checksum(&letter), letter.as_bytes().to_vec());
}

#[test]
fn parse_ignores_incomplete_trailing_group() {
    let text = format!("ISS (ZARYA)\n{}\n{}\nLONELY NAME\n{}\n", ISS_LINE1, ISS_LINE2, ISS_LINE1);
    let tles = parse_tles(&text);
    assert_eq!(tles.len(), 1);
    assert_eq!(parse_tles("").len(), 0);
    assert_eq!(parse_tles("just a name\n").len(), 0);
}

#[test]
fn parse_of_joined_texts_is_joined_result() {
    let a = format!("ISS (ZARYA)\n{}\n{}", ISS_LINE1, ISS_LINE2);
    let b = format!("ISS AGAIN\n{}\n{}", ISS_LINE1, ISS_LINE2);
    let joined = format!("{}\n{}", a, b);
    let names: Vec<String> = parse_tles(&joined).into_iter().map(|t| t.name).collect();
    assert_eq!(names, vec!["ISS (ZARYA)".to_string(), "ISS AGAIN".to_string()]);
}

#[test]
fn line_groups_trim_and_group_by_three() {
    let groups = tle_line_groups("  a \n\n b\t\nc\nd\ne\n\u{a0}f\u{3000}\ng");
    assert_eq!(
        groups,
        vec![
            ("a".to_string(), "b".to_string(), "c".to_string()),
            ("d".to_string(), "e".to_string(), "f".to_string()),
        ]
    );
}

#[test]
fn line_groups_keep_inner_spaces_and_unicode() {
    let groups = tle_line_groups("Ünïcode name  x\nl1\nl2");
    assert_eq!(groups.len(), 1);
    assert_eq!(groups[0].0, "Ünïcode name  x");
}

#[test]
fn line_bounds_are_trimmed_extents_of_nonblank_lines() {
    let chars: Vec<char> = " ab \n\n \t\ncd\r\n  e f".chars().collect();
    assert_eq!(nonblank_line_bounds(&chars), vec![(1, 3), (9, 11), (15, 18)]);
    assert_eq!(nonblank_line_bounds(&Vec::new()), vec![]);
}

#[test]
fn cache_is_used_while_younger_than_two_hours() {
    assert_eq!(choose_tle_source(Some(0)), TleSource::Cache);
    assert_eq!(choose_tle_source(Some(7199)), TleSource::Cache);
    assert_eq!(choose_tle_source(Some(7200)), TleSource::Download);
    assert_eq!(choose_tle_source(None), TleSource::Download);
}

#[test]
fn failed_download_falls_back_to_cache() {
    assert_eq!(fallback_after_failed_download(true), Ok(TleSource::Cache));
    assert_eq!(fallback_after_failed_download(false), Err(FetchError::NoCache));
    assert_eq!(FetchError::NoCache.message(), "No cache available and fetch failed.");
}
