use voice_input::upkeep::{
    dated, decode_marks, drop_stale, encode_marks, look_after, upkeep_due, Log, Mark,
};

const WEEK: u64 = 7 * 24 * 3600;

fn log(entries: &[(u64, &str)]) -> Log {
    let mut data = Vec::new();
    let mut marks = Vec::new();
    for (written, text) in entries {
        data.extend_from_slice(text.as_bytes());
        marks.push(Mark { written: *written, end: data.len() as u64 });
    }
    Log { data, marks }
}

#[test]
fn exactly_the_entries_of_the_last_week_stay() {
    let l = log(&[(0, "old\n"), (9, "older than a week\n"), (10, "a week\n"), (WEEK, "new\n")]);
    let kept = drop_stale(l, WEEK + 10);
    assert_eq!(kept, log(&[(10, "a week\n"), (WEEK, "new\n")]));
    assert_eq!(drop_stale(kept, 2 * WEEK + 11), log(&[]));
}

#[test]
fn a_recent_log_is_left_alone() {
    let entries = [(5, "a\n"), (6, ""), (7, "b\n")];
    assert_eq!(
        look_after(log(&entries), log(&[(1, "z\n")]), WEEK),
        (log(&entries), log(&[(1, "z\n")]))
    );
    assert_eq!(look_after(log(&[]), log(&[]), WEEK), (log(&[]), log(&[])));
}

#[test]
fn a_log_over_a_megabyte_is_set_aside_without_old_entries() {
    let large = "x".repeat(1024 * 1024);
    let before = log(&[(1, "old\n"), (WEEK, &large), (WEEK + 1, "new\n")]);
    let (now, aside) = look_after(before, log(&[(WEEK, "z\n")]), WEEK + 2);
    assert_eq!(now, log(&[]));
    assert_eq!(aside, log(&[(WEEK, &large), (WEEK + 1, "new\n")]));
    let fits = log(&[(WEEK, &large)]);
    let (now, aside) = look_after(fits, log(&[(0, "y\n"), (WEEK, "z\n")]), WEEK + 2);
    assert_eq!(now, log(&[(WEEK, &large)]));
    assert_eq!(aside, log(&[(WEEK, "z\n")]));
}

#[test]
fn an_entry_from_the_future_stays() {
    let l = log(&[(u64::MAX, "future\n"), (0, "past\n")]);
    assert_eq!(
        drop_stale(l, WEEK + 1),
        log(&[(u64::MAX, "future\n"), (0, "past\n")])
    );
}

#[test]
fn an_index_is_read_back() {
    let marks = [Mark { written: 1, end: 0x0102 }, Mark { written: u64::MAX, end: 0x0103 }];
    let index = encode_marks(&marks);
    assert_eq!(index[..16], [0, 0, 0, 0, 0, 0, 0, 1, 0, 0, 0, 0, 0, 0, 1, 2]);
    assert_eq!(index.len(), 32);
    assert_eq!(decode_marks(&index), marks.to_vec());
    assert_eq!(decode_marks(&index[..31]), marks[..1].to_vec());
    let mut joined = encode_marks(&marks[..1]);
    joined.extend(encode_marks(&marks[1..]));
    assert_eq!(joined, index);
}

#[test]
fn a_log_is_found_as_it_was_left() {
    let l = log(&[(3, "a\n"), (4, "bc\n")]);
    let index = encode_marks(&l.marks);
    assert_eq!(dated(l.data.clone(), &index, 99), l);
    assert_eq!(dated(Vec::new(), &[], 99), log(&[]));
}

#[test]
fn what_no_index_covers_has_the_time_of_the_last_write() {
    assert_eq!(dated(b"abc".to_vec(), &[], 7), log(&[(7, "abc")]));
    let short = encode_marks(&[Mark { written: 3, end: 1 }]);
    assert_eq!(dated(b"abc".to_vec(), &short, 7), log(&[(3, "a"), (7, "bc")]));
    let long = encode_marks(&[Mark { written: 3, end: 4 }]);
    assert_eq!(dated(b"abc".to_vec(), &long, 7), log(&[(7, "abc")]));
    let back = encode_marks(&[Mark { written: 3, end: 2 }, Mark { written: 4, end: 1 }]);
    assert_eq!(dated(b"abc".to_vec(), &back, 7), log(&[(7, "abc")]));
}

#[test]
fn logs_are_looked_after_every_hour() {
    assert!(upkeep_due(None));
    assert!(!upkeep_due(Some(3599)));
    assert!(upkeep_due(Some(3600)));
}
