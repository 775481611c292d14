use kvs::{KvsReader, Pos};

fn pos(term: u64) -> Pos {
    Pos { term, offset: 3, len: 9 }
}

#[test]
fn first_read_of_a_term_opens_its_file() {
    let mut reader = KvsReader::new();
    let plan = reader.read_and(0, pos(4));
    assert!(plan.open);
    assert!(plan.close.is_empty());
    assert_eq!(plan.at, pos(4));
    assert!(reader.open_term(4));
    assert!(reader.is_open(4));
    let plan = reader.read_and(0, pos(4));
    assert!(!plan.open);
}

#[test]
fn a_file_that_could_not_be_opened_leaves_no_trace() {
    let mut reader = KvsReader::new();
    assert!(reader.read_and(0, pos(4)).open);
    assert!(!reader.is_open(4));
    assert!(reader.read_and(0, pos(4)).open);
    assert!(!reader.is_open(4));
}

#[test]
fn handles_below_the_safe_point_are_closed_before_a_read() {
    let mut reader = KvsReader::new();
    for term in [5, 1, 3, 2] {
        assert!(reader.read_and(0, pos(term)).open);
        assert!(reader.open_term(term));
    }
    let plan = reader.read_and(3, pos(5));
    assert_eq!(plan.close, vec![1, 2]);
    assert!(!plan.open);
    assert!(!reader.is_open(1));
    assert!(!reader.is_open(2));
    assert!(reader.is_open(3));
    assert!(reader.is_open(5));
}

#[test]
fn a_term_below_the_safe_point_is_opened_again() {
    let mut reader = KvsReader::new();
    reader.read_and(0, pos(1));
    reader.open_term(1);
    let plan = reader.read_and(2, pos(1));
    assert_eq!(plan.close, vec![1]);
    assert!(plan.open);
    assert!(!reader.is_open(1));
    assert!(reader.open_term(1));
    assert!(reader.is_open(1));
}

#[test]
fn close_stale_handles_returns_the_closed_terms() {
    let mut reader = KvsReader::new();
    assert!(reader.open_term(7));
    assert!(reader.open_term(2));
    assert!(!reader.open_term(7));
    assert!(reader.open_term(4));
    assert_eq!(reader.close_stale_handles(2), Vec::<u64>::new());
    assert_eq!(reader.close_stale_handles(5), vec![2, 4]);
    assert_eq!(reader.close_stale_handles(5), Vec::<u64>::new());
    assert!(reader.is_open(7));
    assert_eq!(reader.close_stale_handles(u64::MAX), vec![7]);
    assert!(!reader.is_open(7));
}
