use cmd_relay::Executor;

fn lines(n: usize) -> Vec<String> {
    (0..n).map(|i| format!("line {}", i)).collect()
}

#[test]
fn batch_mode_joins_lines_in_order() {
    let mut ex = Executor::new(false, 0);
    for (i, l) in lines(4).into_iter().enumerate() {
        let chunk = ex.on_line(l, i as u64);
        assert!(chunk.is_none());
    }
    let (chunk, collected) = ex.finish();
    assert!(chunk.is_none());
    assert_eq!(collected.as_deref(), Some("line 0\nline 1\nline 2\nline 3"));
}

#[test]
fn batch_mode_empty_output_is_empty_text() {
    let ex = Executor::new(false, 0);
    let (chunk, collected) = ex.finish();
    assert!(chunk.is_none());
    assert_eq!(collected.as_deref(), Some(""));
}

#[test]
fn batch_mode_single_line_has_no_newline() {
    let mut ex = Executor::new(false, 0);
    ex.on_line("only".to_string(), 1);
    let (_, collected) = ex.finish();
    assert_eq!(collected.as_deref(), Some("only"));
}

#[test]
fn streaming_45_fast_lines_give_two_full_chunks_and_a_trailing_five() {
    // 45 lines, all within 100 time units: the count bound flushes twice at
    // 20 lines, the end of the stream flushes the remaining 5.
    let mut ex = Executor::new(true, 0);
    let mut chunks: Vec<Vec<String>> = Vec::new();
    for (i, l) in lines(45).into_iter().enumerate() {
        let now = (i as u64 * 100) / 45;
        if let Some(c) = ex.on_line(l, now) {
            chunks.push(c);
        }
    }
    let (last, collected) = ex.finish();
    assert!(collected.is_none());
    if let Some(c) = last {
        chunks.push(c);
    }
    assert_eq!(chunks.len(), 3);
    assert_eq!(chunks[0].len(), 20);
    assert_eq!(chunks[1].len(), 20);
    assert_eq!(chunks[2].len(), 5);
    let all: Vec<String> = chunks.concat();
    assert_eq!(all, lines(45));
}

#[test]
fn streaming_no_line_lost_or_duplicated_with_time_flushes() {
    // lines trickle in 90 time units apart: the 500-unit deadline flushes
    // periodically, and the concatenation of chunks is the full output.
    let mut ex = Executor::new(true, 0);
    let mut chunks: Vec<Vec<String>> = Vec::new();
    for (i, l) in lines(13).into_iter().enumerate() {
        if let Some(c) = ex.on_line(l, 90 * (i as u64 + 1)) {
            chunks.push(c);
        }
    }
    let (last, _) = ex.finish();
    if let Some(c) = last {
        chunks.push(c);
    }
    assert!(chunks.len() > 1);
    let all: Vec<String> = chunks.concat();
    assert_eq!(all, lines(13));
}

#[test]
fn streaming_time_trigger_flushes_at_deadline() {
    let mut ex = Executor::new(true, 0);
    assert!(ex.on_line("a".to_string(), 10).is_none());
    assert!(ex.on_line("b".to_string(), 499).is_none());
    let c = ex.on_line("c".to_string(), 500).expect("deadline should flush");
    assert_eq!(c, vec!["a".to_string(), "b".to_string(), "c".to_string()]);
}

#[test]
fn streaming_count_trigger_flushes_on_twenty_first_line() {
    let mut ex = Executor::new(true, 0);
    for i in 0..20 {
        assert!(ex.on_line(format!("l{}", i), 1).is_none());
    }
    let c = ex.on_line("l20".to_string(), 2).expect("21st line should flush");
    assert_eq!(c.len(), 20);
    assert_eq!(c[0], "l0");
    assert_eq!(c[19], "l19");
    let (last, _) = ex.finish();
    assert_eq!(last.expect("trailing line pending"), vec!["l20".to_string()]);
}

#[test]
fn streaming_trailing_partial_batch_is_flushed() {
    let mut ex = Executor::new(true, 0);
    ex.on_line("x".to_string(), 1);
    ex.on_line("y".to_string(), 2);
    let (last, collected) = ex.finish();
    assert!(collected.is_none());
    assert_eq!(last.expect("partial batch"), vec!["x".to_string(), "y".to_string()]);
}

#[test]
fn streaming_nothing_pending_flushes_nothing() {
    let ex = Executor::new(true, 0);
    let (last, collected) = ex.finish();
    assert!(last.is_none());
    assert!(collected.is_none());
}

#[test]
fn join_with_newlines_matches_expected_text() {
    let v: Vec<String> = vec!["a".to_string(), "".to_string(), "c".to_string()];
    assert_eq!(cmd_relay::join_with_newlines(&v), "a\n\nc");
    let empty: Vec<String> = Vec::new();
    assert_eq!(cmd_relay::join_with_newlines(&empty), "");
}
