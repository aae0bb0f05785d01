use mofetch::codec::{
    ascii_edges, ascii_style, cache_result, code_to_char, decode_cache, frame_delay_ms, header_line,
    index_string, read_frame_size, split_lines, CacheError,
};

fn rows_of(text: &str) -> Vec<Vec<String>> {
    let c = decode_cache(text).unwrap();
    c.frames
        .iter()
        .map(|f| f.rows.iter().map(|r| r.iter().collect::<String>()).collect())
        .collect()
}

#[test]
fn ramp_and_edges() {
    assert_eq!(ascii_style(), " .,:?c79WNB@");
    assert_eq!(ascii_edges(), "|/_\\");
    assert_eq!(index_string("abc", 1), 'b');
}

#[test]
fn code_mapping() {
    assert_eq!(code_to_char(0, true), Ok(' '));
    assert_eq!(code_to_char(11, true), Ok('@'));
    assert_eq!(code_to_char(12, true), Err(CacheError::InvalidCode(12)));
    assert_eq!(code_to_char(999, true), Err(CacheError::InvalidCode(999)));
    assert_eq!(code_to_char(1000, true), Ok('|'));
    assert_eq!(code_to_char(1999, true), Ok('|'));
    assert_eq!(code_to_char(2000, true), Ok('/'));
    assert_eq!(code_to_char(3500, true), Ok('_'));
    assert_eq!(code_to_char(4999, true), Ok('\\'));
    assert_eq!(code_to_char(5000, true), Err(CacheError::InvalidCode(5000)));
    assert_eq!(code_to_char(1000, false), Err(CacheError::InvalidCode(1000)));
}

#[test]
fn encoder_writes_rows() {
    let block = cache_result(&vec![0, 1, 1000, 2000], 2, true).unwrap();
    assert_eq!(block, "\n .\n|/\n");
    let block = cache_result(&vec![11, 10, 9, 8, 7], 2, true).unwrap();
    assert_eq!(block, "\n@B\nNW\n9\n");
    assert_eq!(cache_result(&vec![], 3, true).unwrap(), "\n\n");
}

#[test]
fn encoder_rejects_invalid_codes() {
    assert_eq!(cache_result(&vec![0, 500, 20], 2, true), Err(CacheError::InvalidCode(500)));
    assert_eq!(cache_result(&vec![0, 1, 3000], 2, false), Err(CacheError::InvalidCode(3000)));
}

#[test]
fn round_trip_reproduces_grid() {
    let mut text = header_line(24);
    text.push_str(&cache_result(&vec![0, 1, 1000, 2000], 2, true).unwrap());
    assert_eq!(rows_of(&text), vec![vec![" .".to_string(), "|/".to_string()]]);
    assert_eq!(decode_cache(&text).unwrap().fps, 24);
}

#[test]
fn round_trip_of_several_frames() {
    let mut text = header_line(30);
    text.push_str(&cache_result(&vec![1, 2, 3, 4, 5, 6], 3, true).unwrap());
    text.push_str(&cache_result(&vec![7, 8, 9, 10], 2, true).unwrap());
    assert_eq!(
        rows_of(&text),
        vec![
            vec![".,:".to_string(), "?c7".to_string()],
            vec!["9W".to_string(), "NB".to_string()],
        ]
    );
}

#[test]
fn no_edges_when_disabled() {
    let codes: Vec<u32> = (0..48).map(|i| i % 12).collect();
    let block = cache_result(&codes, 6, false).unwrap();
    assert!(!block.chars().any(|c| "|/_\\".contains(c)));
    let mut text = header_line(24);
    text.push_str(&block);
    for frame in rows_of(&text) {
        for row in frame {
            assert!(!row.chars().any(|c| "|/_\\".contains(c)));
        }
    }
}

#[test]
fn playback_delay() {
    assert_eq!(frame_delay_ms(24), 42);
    assert_eq!(frame_delay_ms(30), 34);
    assert_eq!(frame_delay_ms(1), 1000);
    assert_eq!(frame_delay_ms(1000), 1);
    assert_eq!(frame_delay_ms(3000), 1);
}

#[test]
fn single_block_decodes_to_one_frame() {
    let text = "[] fps=30\nab\ncd\nef\n\n";
    let rows = rows_of(text);
    assert_eq!(rows.len(), 1);
    assert_eq!(rows[0], vec!["ab".to_string(), "cd".to_string(), "ef".to_string()]);
}

#[test]
fn header_line_text() {
    assert_eq!(header_line(24), "[] fps=24\n");
    assert_eq!(header_line(7), "[] fps=7\n");
}

#[test]
fn decode_errors() {
    assert_eq!(decode_cache("").err(), Some(CacheError::MissingHeader));
    assert_eq!(decode_cache("hello\nab\n").err(), Some(CacheError::BadHeader));
    assert_eq!(decode_cache("[] fps=0\nab\n").err(), Some(CacheError::BadHeader));
    assert_eq!(decode_cache("[] fps=\nab\n").err(), Some(CacheError::BadHeader));
    assert_eq!(decode_cache("[] fps=99999999999\nab\n").err(), Some(CacheError::BadHeader));
    assert_eq!(decode_cache("[] fps=24\n").err(), Some(CacheError::NoFrames));
    assert_eq!(decode_cache("[] fps=24\n\nx\n\n").err(), Some(CacheError::NoFrames));
}

#[test]
fn lines_are_split_like_str_lines() {
    let text = "a\r\nbc\n\nd";
    let expected: Vec<Vec<char>> = text.lines().map(|l| l.chars().collect()).collect();
    assert_eq!(split_lines(text), expected);
    assert_eq!(split_lines("x\n"), vec![vec!['x']]);
}

#[test]
fn frame_size_of_first_frame() {
    assert_eq!(read_frame_size("[] fps=24\n\nabc\nabcd\n\nxy\n"), (4, 2));
    assert_eq!(read_frame_size("[] fps=24\n"), (0, 0));
    assert_eq!(read_frame_size(""), (0, 0));
}

#[test]
fn frame_text_ends_rows_with_newlines() {
    let c = decode_cache("[] fps=24\n\nab\ncd\n").unwrap();
    assert_eq!(c.frames[0].text(), "ab\ncd\n");
    assert_eq!(c.frames[0].width(), 2);
    assert_eq!(c.frames[0].height(), 2);
}
