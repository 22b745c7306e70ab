use queues::grep::{grep_chunk, grep_lines, grep_seq, split_into_chunks, CHUNK_SIZE};

fn test1_lines() -> Vec<String> {
    vec![
        "This is a test file".to_string(),
        "We are multithreading!".to_string(),
        "Nothing to see on this line".to_string(),
        "It's a file that's for testing".to_string(),
    ]
}

fn bible_lines() -> Vec<String> {
    let matches = [
        "14:23 That I will not take from a thread even to a shoelatchet, and",
        "thread, saying, This came out first.",
        "38:30 And afterward came out his brother, that had the scarlet thread",
        "scarlet thread in the window which thou didst let us down by: and thou",
        "brake the withs, as a thread of tow is broken when it toucheth the",
        "arms like a thread.",
        "4:3 Thy lips are like a thread of scarlet, and thy speech is comely:",
    ];
    let mut lines = Vec::new();
    for (k, m) in matches.iter().enumerate() {
        for j in 0..4_000 {
            lines.push(format!("{}:{} And the earth was without form, and void", k, j));
        }
        lines.push(m.to_string());
    }
    lines.push("The end.".to_string());
    lines
}

fn expected_thread_lines() -> Vec<String> {
    vec![
        "We are multithreading!".to_string(),
        "14:23 That I will not take from a thread even to a shoelatchet, and".to_string(),
        "thread, saying, This came out first.".to_string(),
        "38:30 And afterward came out his brother, that had the scarlet thread".to_string(),
        "scarlet thread in the window which thou didst let us down by: and thou".to_string(),
        "brake the withs, as a thread of tow is broken when it toucheth the".to_string(),
        "arms like a thread.".to_string(),
        "4:3 Thy lips are like a thread of scarlet, and thy speech is comely:".to_string(),
    ]
}

#[test]
fn single_file() {
    let result = grep_seq("test".to_string(), vec![test1_lines()]);
    assert_eq!(
        result,
        vec![
            "This is a test file".to_string(),
            "It's a file that's for testing".to_string()
        ]
    );
}

#[test]
fn two_files_chunk() {
    let result = grep_chunk("thread".to_string(), vec![test1_lines(), bible_lines()]);
    assert_eq!(result, expected_thread_lines());
}

#[test]
fn two_files_seq_matches_chunked_search() {
    let files = vec![test1_lines(), bible_lines()];
    let seq = grep_seq("thread".to_string(), files.clone());
    let chunked = grep_chunk("thread".to_string(), files);
    assert_eq!(seq, expected_thread_lines());
    assert_eq!(seq, chunked);
}

#[test]
fn grep_lines_keeps_only_lines_containing_the_pattern() {
    let lines = vec![
        "abc".to_string(),
        "xabcx".to_string(),
        "ab c".to_string(),
        "".to_string(),
        "cba".to_string(),
    ];
    let found = grep_lines(&"abc".to_string(), &lines);
    assert_eq!(found, vec!["abc".to_string(), "xabcx".to_string()]);
}

#[test]
fn empty_pattern_matches_every_line() {
    let lines = vec!["one".to_string(), "".to_string()];
    assert_eq!(grep_lines(&String::new(), &lines), lines);
}

#[test]
fn no_files_give_no_lines() {
    assert_eq!(grep_seq("x".to_string(), vec![]), Vec::<String>::new());
    assert_eq!(grep_chunk("x".to_string(), vec![vec![]]), Vec::<String>::new());
}

#[test]
fn chunks_cover_the_lines_in_order() {
    let lines: Vec<String> = (0..25).map(|i| i.to_string()).collect();
    let chunks = split_into_chunks(&lines, 10);
    let sizes: Vec<usize> = chunks.iter().map(|c| c.len()).collect();
    assert_eq!(sizes, vec![10, 10, 5]);
    assert_eq!(chunks.concat(), lines);
    assert!(split_into_chunks(&Vec::new(), 3).is_empty());
    assert_eq!(split_into_chunks(&lines[..20].to_vec(), 10).len(), 2);
    assert_eq!(CHUNK_SIZE, 10_000);
}
