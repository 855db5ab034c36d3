use tusker::migration::sql_error::caret_excerpt;

fn expected(sql: &str, position: usize) -> String {
    let line_begin = sql[..position].rfind('\n').map(|p| p + 1).unwrap_or(0);
    let line_end = sql[position..].find('\n').unwrap_or(sql.len()) + position;
    let line_position = position - line_begin;
    let mut remaining = position;
    let mut line_number = 1;
    for line in sql.lines() {
        if remaining <= line.len() {
            break;
        } else {
            remaining -= line.len() + 1;
            line_number += 1;
        }
    }
    let prefix = format!("LINE {}: ", line_number);
    let mut msg = format!("{}{}", prefix, &sql[line_begin..line_end]);
    for _ in 0..(prefix.len() + line_position - 1) {
        msg += " ";
    }
    msg += "^";
    msg
}

fn excerpt(sql: &str, position: usize) -> String {
    String::from_utf8(caret_excerpt(sql.as_bytes(), position)).unwrap()
}

#[test]
fn caret_points_into_the_line_of_the_position() {
    let sql = "SELECT 1;\nSELEC 2;\nSELECT 3;\n";
    assert_eq!(excerpt(sql, 12), "LINE 2: SELEC 2;         ^");
    for p in [0, 1, 5, 9, 10, 11, 12, 18, 19, 20, 25, 28] {
        assert_eq!(excerpt(sql, p), expected(sql, p), "position {}", p);
    }
}

#[test]
fn caret_counts_lines_as_str_lines_does() {
    let sql = "a\r\nbb\r\nccc\r\n";
    for p in [0, 1, 2, 3, 4, 5, 6, 7, 8, 9, 10] {
        assert_eq!(excerpt(sql, p), expected(sql, p), "position {}", p);
    }
    let sql = "é\nxé;\n\n";
    for p in [0, 2, 3, 4, 6, 7] {
        assert_eq!(excerpt(sql, p), expected(sql, p), "position {}", p);
    }
}
