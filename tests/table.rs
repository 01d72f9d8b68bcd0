use bitshow::{render_bits, show_me_bits, BitsError};

fn expected_table(value: u64, chunk: u64) -> String {
    let width: u64 = if value > 0xFFFF_FFFF { 64 } else { 32 };
    let fw: usize = match chunk {
        1 => 3,
        2 => 4,
        _ => 6,
    };
    let mut header = String::new();
    let mut idx = width as i64;
    while idx >= 0 {
        header.push_str(&format!("{:>w$}|", idx, w = fw));
        idx -= chunk as i64;
    }
    let cols = (width / chunk) as usize;
    let unit = format!("+{}", "-".repeat(fw));
    let indent = " ".repeat(fw);
    let line = format!("{}{}+\n{}", indent, unit.repeat(cols), indent);
    let mut data = String::new();
    let mut bit = width as i64 - chunk as i64;
    while bit >= 0 {
        let group = (value >> bit) & ((1u64 << chunk) - 1);
        data.push_str(&format!("| {:0>w$b} ", group, w = chunk as usize));
        bit -= chunk as i64;
    }
    format!("{}\n{}{}|\n{}", header, line, data, line)
}

fn data_line(table: &str) -> String {
    table.lines().nth(2).unwrap().trim_start().to_string()
}

fn header_indices(table: &str) -> Vec<u64> {
    table
        .lines()
        .next()
        .unwrap()
        .split('|')
        .filter(|s| !s.trim().is_empty())
        .map(|s| s.trim().parse().unwrap())
        .collect()
}

fn data_groups(table: &str) -> Vec<String> {
    data_line(table)
        .split('|')
        .map(|s| s.trim().to_string())
        .filter(|s| !s.is_empty())
        .collect()
}

#[test]
fn zero_by_four_is_a_32_bit_table() {
    let t = render_bits(0, 4).unwrap();
    assert_eq!(header_indices(&t), vec![32, 28, 24, 20, 16, 12, 8, 4, 0]);
    assert_eq!(data_groups(&t), vec!["0000"; 8]);
    let exact = [
        "    32|    28|    24|    20|    16|    12|     8|     4|     0|\n",
        "      +------+------+------+------+------+------+------+------+\n",
        "      | 0000 | 0000 | 0000 | 0000 | 0000 | 0000 | 0000 | 0000 |\n",
        "      +------+------+------+------+------+------+------+------+\n",
        "      ",
    ]
    .concat();
    assert_eq!(t, exact);
}

#[test]
fn all_ones_in_32_bits_stays_32_bits_wide() {
    let t = render_bits(0xFFFF_FFFF, 4).unwrap();
    assert_eq!(header_indices(&t).len(), 9);
    assert_eq!(data_groups(&t), vec!["1111"; 8]);
}

#[test]
fn value_above_32_bits_gives_a_64_bit_table() {
    let t = render_bits(0x1_0000_0000, 4).unwrap();
    let idx = header_indices(&t);
    assert_eq!(idx.len(), 17);
    assert_eq!(idx[0], 64);
    assert_eq!(idx[16], 0);
    let groups = data_groups(&t);
    assert_eq!(groups.len(), 16);
    assert_eq!(groups[7], "0001");
    assert_eq!(t, expected_table(0x1_0000_0000, 4));
}

#[test]
fn column_count_is_width_over_chunk() {
    for &value in &[0u64, 1, 0xA5, 0xFFFF_FFFF, 0x1_0000_0000, 0xDEAD_BEEF_CAFE_F00D, u64::MAX] {
        for &chunk in &[1u8, 2, 4] {
            let t = render_bits(value, chunk).unwrap();
            let width: usize = if value > 0xFFFF_FFFF { 64 } else { 32 };
            assert_eq!(data_groups(&t).len(), width / chunk as usize);
            assert_eq!(header_indices(&t).len(), width / chunk as usize + 1);
            assert_eq!(t, expected_table(value, chunk as u64));
        }
    }
}

#[test]
fn chunk_of_one_shows_single_bits() {
    let t = render_bits(5, 1).unwrap();
    let groups = data_groups(&t);
    assert_eq!(groups.len(), 32);
    assert_eq!(groups[29..].to_vec(), vec!["1", "0", "1"]);
    assert!(t.starts_with(" 32| 31|"));
    assert!(t.lines().nth(1).unwrap().starts_with("   +---+---+"));
}

#[test]
fn chunk_of_two_shows_bit_pairs() {
    let t = render_bits(0b1110, 2).unwrap();
    let groups = data_groups(&t);
    assert_eq!(groups.len(), 16);
    assert_eq!(groups[14..].to_vec(), vec!["11", "10"]);
    assert!(t.starts_with("  32|  30|"));
}

#[test]
fn invalid_chunk_width_is_rejected() {
    assert_eq!(render_bits(5, 3), Err(BitsError::InvalidChunkWidth(3)));
    assert_eq!(render_bits(5, 0), Err(BitsError::InvalidChunkWidth(0)));
    assert_eq!(render_bits(5, 8), Err(BitsError::InvalidChunkWidth(8)));
}

#[test]
fn show_me_bits_reads_then_renders() {
    assert_eq!(show_me_bits(&"0xff".to_string(), 4), Ok(expected_table(255, 4)));
    assert_eq!(show_me_bits(&"0xzz".to_string(), 4), Err(BitsError::Parse));
    assert_eq!(show_me_bits(&"0xzz".to_string(), 3), Err(BitsError::InvalidChunkWidth(3)));
}
