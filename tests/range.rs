use char_range::{a2z_descending, descending_range, InvalidRange};

#[test]
fn a_to_d_prints_four_lines_downwards() {
    let lines = descending_range('a', 'd').unwrap();
    assert_eq!(lines, vec!['d', 'c', 'b', 'a']);
}

#[test]
fn line_count_is_span_plus_one() {
    let lines = descending_range('0', '9').unwrap();
    assert_eq!(lines.len(), ('9' as usize) - ('0' as usize) + 1);
    assert_eq!(lines.len(), 10);
}

#[test]
fn lines_strictly_decrease_from_high_to_low() {
    let lines = descending_range('A', 'z').unwrap();
    assert_eq!(lines[0], 'z');
    assert_eq!(*lines.last().unwrap(), 'A');
    for w in lines.windows(2) {
        assert!((w[0] as u32) > (w[1] as u32));
        assert_eq!(w[0] as u32, w[1] as u32 + 1);
    }
}

#[test]
fn repeated_requests_agree() {
    let first = descending_range('k', 'p');
    let second = descending_range('k', 'p');
    assert_eq!(first, second);
    assert_eq!(first.unwrap(), vec!['p', 'o', 'n', 'm', 'l', 'k']);
}

#[test]
fn reading_lines_back_reversed_gives_ascending_codes() {
    let lines = descending_range('x', '}').unwrap();
    let text: String = lines.iter().map(|c| format!("{}\n", c)).collect();
    let mut codes: Vec<u32> = text
        .lines()
        .map(|l| l.chars().next().unwrap() as u32)
        .collect();
    codes.reverse();
    let expected: Vec<u32> = ('x' as u32..='}' as u32).collect();
    assert_eq!(codes, expected);
}

#[test]
fn equal_bounds_give_one_line() {
    assert_eq!(descending_range('q', 'q').unwrap(), vec!['q']);
}

#[test]
fn inverted_bounds_give_no_lines() {
    assert_eq!(descending_range('d', 'a').unwrap(), Vec::<char>::new());
}

#[test]
fn whole_table_from_nul_to_delete() {
    let lines = descending_range('\0', '\u{7f}').unwrap();
    assert_eq!(lines.len(), 128);
    assert_eq!(lines[0], '\u{7f}');
    assert_eq!(lines[127], '\0');
}

#[test]
fn bound_outside_table_is_rejected() {
    assert_eq!(descending_range('a', '\u{80}'), Err(InvalidRange));
    assert_eq!(descending_range('\u{e9}', 'z'), Err(InvalidRange));
    assert_eq!(descending_range('\u{e9}', '\u{e0}'), Err(InvalidRange));
}

#[test]
fn fixed_range_runs_from_lower_a_to_upper_z() {
    assert_eq!(
        a2z_descending(),
        vec!['a', '`', '_', '^', ']', '\\', '[', 'Z']
    );
}
