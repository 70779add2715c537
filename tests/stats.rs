use token_stats::aggregate::{aggregate, lower_median, AggregateResult};
use token_stats::backlog::Backlog;
use token_stats::collector::{Collector, WorkerResult};
use token_stats::error::StatsError;
use token_stats::lines::split_lines;
use token_stats::reservoir::Reservoir;
use token_stats::tokenize::{token_count, tokenize};

fn jsonl(texts: &[&str]) -> Vec<u8> {
    let mut out = String::new();
    for t in texts {
        out.push_str(&format!("{{\"text\": \"{}\", \"id\": 1}}\n", t));
    }
    out.into_bytes()
}

fn words(n: usize) -> String {
    vec!["w"; n].join(" ")
}

fn worker(counts: &[u64], capacity: usize) -> WorkerResult {
    let mut c = Collector::new(capacity);
    for &x in counts {
        c.record(x).unwrap();
    }
    c.finish()
}

#[test]
fn tokenize_drops_whitespace_segments() {
    let toks = tokenize("The quick (\"brown\")  fox");
    assert_eq!(toks, vec!["The", "quick", "(", "\"", "brown", "\"", ")", "fox"]);
    assert_eq!(token_count("a b"), 2);
    assert_eq!(token_count("   \t\n "), 0);
    assert_eq!(token_count(""), 0);
}

#[test]
fn split_lines_handles_endings() {
    assert_eq!(split_lines(&b"a\nb\r\nc".to_vec()), vec![b"a".to_vec(), b"b".to_vec(), b"c".to_vec()]);
    assert_eq!(split_lines(&b"a\n".to_vec()), vec![b"a".to_vec()]);
    assert_eq!(split_lines(&Vec::new()), Vec::<Vec<u8>>::new());
    assert_eq!(split_lines(&b"\n\n".to_vec()), vec![Vec::<u8>::new(), Vec::<u8>::new()]);
    assert_eq!(split_lines(&b"x\r".to_vec()), vec![b"x\r".to_vec()]);
}

#[test]
fn reservoir_small_stream_keeps_everything() {
    let mut r = Reservoir::new(5);
    for x in [7u64, 3, 3, 9] {
        r.offer(x);
    }
    assert_eq!(r.items, vec![7, 3, 3, 9]);
    assert_eq!(r.seen, 4);
    r.offer(1);
    assert_eq!(r.items, vec![7, 3, 3, 9, 1]);
}

#[test]
fn reservoir_drawn_step_replaces_or_skips() {
    let mut r = Reservoir::new(2);
    r.offer_drawn(10, 0);
    r.offer_drawn(20, 1);
    r.offer_drawn(30, 1);
    assert_eq!(r.items, vec![10, 30]);
    r.offer_drawn(40, 3);
    assert_eq!(r.items, vec![10, 30]);
    assert_eq!(r.seen, 4);
    let mut z = Reservoir::new(0);
    z.offer(5);
    assert!(z.items.is_empty());
    assert_eq!(z.seen, 1);
}

#[test]
fn reservoir_large_stream_is_uniform() {
    let k = 10usize;
    let n = 100u64;
    let runs = 4000;
    let mut kept = vec![0u32; n as usize];
    for _ in 0..runs {
        let mut r = Reservoir::new(k);
        for x in 0..n {
            r.offer(x);
        }
        assert_eq!(r.items.len(), k);
        for &x in &r.items {
            kept[x as usize] += 1;
        }
    }
    for &c in &kept {
        let p = c as f64 / runs as f64;
        assert!((p - 0.1).abs() < 0.04, "retention {} too far from k/n", p);
    }
}

#[test]
fn collector_counts_a_file() {
    let mut c = Collector::new(10);
    c.process_file(&jsonl(&["a b", "one two three four"])).unwrap();
    assert_eq!(c.docs_seen, 2);
    assert_eq!(c.total_tokens, 6);
    assert_eq!(c.reservoir.items, vec![2, 4]);
}

#[test]
fn collector_rejects_bad_records_whole() {
    let mut c = Collector::new(10);
    let mut bytes = jsonl(&["a b"]);
    bytes.extend_from_slice(b"not json\n");
    assert_eq!(c.process_file(&bytes), Err(StatsError::RecordParse { line: 1 }));
    assert_eq!(c.docs_seen, 0);
    assert_eq!(c.total_tokens, 0);
    let missing = b"{\"body\": \"x\"}\n".to_vec();
    assert_eq!(c.process_file(&missing), Err(StatsError::RecordParse { line: 0 }));
    let not_string = b"{\"text\": 5}\n".to_vec();
    assert_eq!(c.process_file(&not_string), Err(StatsError::RecordParse { line: 0 }));
}

#[test]
fn collector_reports_overflow() {
    let mut c = Collector::new(4);
    c.record(u64::MAX).unwrap();
    assert_eq!(c.record(1), Err(StatsError::CountOverflow));
    assert_eq!(c.total_tokens, u64::MAX);
    assert_eq!(c.process_file(&jsonl(&["a"])), Err(StatsError::CountOverflow));
    assert_eq!(c.docs_seen, 1);
}

#[test]
fn end_to_end_two_files() {
    let mut a = Collector::new(5);
    a.process_file(&jsonl(&[&words(2), &words(4), &words(6)])).unwrap();
    let mut b = Collector::new(5);
    b.process_file(&jsonl(&[&words(10), &words(10)])).unwrap();
    let r = aggregate(vec![a.finish(), b.finish()]).unwrap();
    assert_eq!(r.total_docs, 5);
    assert_eq!(r.total_tokens, 32);
    assert_eq!(r.median_tokens, 6);
    assert!((r.total_tokens as f64 / r.total_docs as f64 - 6.4).abs() < 1e-12);
}

#[test]
fn end_to_end_one_worker_two_files() {
    let mut w = Collector::new(8);
    let mut backlog = Backlog::new(vec!["a".to_string(), "b".to_string()]);
    while let Some(p) = backlog.try_pop() {
        let file = if p == "a" { jsonl(&[&words(2), &words(4), &words(6)]) } else { jsonl(&[&words(10), &words(10)]) };
        w.process_file(&file).unwrap();
    }
    let r = aggregate(vec![w.finish()]).unwrap();
    assert_eq!(r, AggregateResult { total_tokens: 32, total_docs: 5, median_tokens: 6 });
}

#[test]
fn conservation_across_partitions() {
    let docs = [5u64, 1, 8, 3, 3, 12, 0, 7];
    let single = aggregate(vec![worker(&docs, 100)]).unwrap();
    let split = aggregate(vec![worker(&docs[..3], 100), worker(&docs[3..4], 100), worker(&[], 100), worker(&docs[4..], 100)]).unwrap();
    assert_eq!(single.total_tokens, 39);
    assert_eq!(single.total_docs, 8);
    assert_eq!(split.total_tokens, single.total_tokens);
    assert_eq!(split.total_docs, single.total_docs);
}

#[test]
fn median_of_odd_sample() {
    assert_eq!(lower_median(vec![1, 2, 3, 4, 5]), 3);
    assert_eq!(lower_median(vec![5, 3, 1, 4, 2]), 3);
}

#[test]
fn median_of_even_sample_is_lower() {
    assert_eq!(lower_median(vec![4, 1, 3, 2]), 3);
    assert_eq!(lower_median(vec![9]), 9);
    assert_eq!(lower_median(vec![7, 2]), 7);
}

#[test]
fn median_within_sample_bounds() {
    let s = vec![40u64, 2, 17, 17, 99, 5];
    let m = lower_median(s.clone());
    assert!(m >= *s.iter().min().unwrap() && m <= *s.iter().max().unwrap());
    assert_eq!(m, 17);
}

#[test]
fn empty_corpus_is_reported() {
    assert_eq!(aggregate(vec![]), Err(StatsError::EmptyCorpus));
    assert_eq!(aggregate(vec![worker(&[], 10), worker(&[], 10)]), Err(StatsError::EmptyCorpus));
    let mut c = Collector::new(10);
    c.process_file(&Vec::new()).unwrap();
    assert_eq!(aggregate(vec![c.finish()]), Err(StatsError::EmptyCorpus));
}

#[test]
fn empty_sample_is_reported() {
    assert_eq!(aggregate(vec![worker(&[3, 4], 0)]), Err(StatsError::EmptySample));
}

#[test]
fn aggregate_overflow_is_reported() {
    let big = WorkerResult { items: vec![1], total_tokens: u64::MAX, docs_seen: 1 };
    let more = WorkerResult { items: vec![1], total_tokens: 1, docs_seen: 1 };
    assert_eq!(aggregate(vec![big, more]), Err(StatsError::CountOverflow));
}

#[test]
fn backlog_hands_out_each_path_once() {
    for workers in 1..5usize {
        for n in 0..7usize {
            let paths: Vec<String> = (0..n).map(|i| format!("p{}", i)).collect();
            let mut b = Backlog::new(paths.clone());
            let mut taken: Vec<Vec<String>> = vec![Vec::new(); workers];
            let mut turn = 0usize;
            while let Some(p) = b.try_pop() {
                taken[turn % workers].push(p);
                turn += 1 + turn % 3;
            }
            assert!(b.is_empty());
            assert_eq!(b.try_pop(), None);
            let mut all: Vec<String> = taken.into_iter().flatten().collect();
            all.sort();
            let mut expected = paths.clone();
            expected.sort();
            assert_eq!(all, expected);
        }
    }
}
