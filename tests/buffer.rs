use lexer_core::{Analyser, Lexer};

fn letters() -> Lexer<char> {
    Lexer::new(&['a', 'b', 'c', 'd', 'e'][..])
}

#[test]
fn new_starts_at_zero_with_input() {
    let lexer = letters();
    assert_eq!(lexer.pos(), 0);
    assert_eq!(lexer.contents(), &['a', 'b', 'c', 'd', 'e'][..]);
}

#[test]
fn new_from_empty() {
    let lexer: Lexer<u8> = Lexer::new(&[][..]);
    assert_eq!(lexer.pos(), 0);
    assert!(lexer.contents().is_empty());
    assert!(lexer.is_end());
}

#[test]
fn new_copies_from_vec() {
    let data: Vec<u8> = vec![7, 8, 9];
    let lexer = Lexer::new(data.as_slice());
    assert_eq!(lexer.contents(), &[7, 8, 9][..]);
    assert_eq!(data, vec![7, 8, 9]);
}

#[test]
fn extract_with_cursor_before_range() {
    let mut lexer = letters();
    let removed = lexer.extract(1..3);
    assert_eq!(removed, vec!['b', 'c']);
    assert_eq!(lexer.contents(), &['a', 'd', 'e'][..]);
    assert_eq!(lexer.pos(), 0);
}

#[test]
fn extract_with_cursor_inside_range() {
    let mut lexer = letters();
    lexer.set_pos(2).unwrap();
    let removed = lexer.extract(1..3);
    assert_eq!(removed, vec!['b', 'c']);
    assert_eq!(lexer.contents(), &['a', 'd', 'e'][..]);
    assert_eq!(lexer.pos(), 1);
}

#[test]
fn extract_with_cursor_at_range_start() {
    let mut lexer = letters();
    lexer.set_pos(1).unwrap();
    lexer.extract(1..3);
    assert_eq!(lexer.pos(), 1);
}

#[test]
fn extract_with_cursor_after_range_moves_back_by_end() {
    let mut lexer = letters();
    lexer.set_pos(4).unwrap();
    let removed = lexer.extract(1..3);
    assert_eq!(removed, vec!['b', 'c']);
    assert_eq!(lexer.contents(), &['a', 'd', 'e'][..]);
    // Moved back by the range's end (3), not by its length (2).
    assert_eq!(lexer.pos(), 1);
    assert_ne!(lexer.pos(), 2);
}

#[test]
fn extract_with_cursor_at_range_end_stays() {
    let mut lexer = letters();
    lexer.set_pos(3).unwrap();
    lexer.extract(1..3);
    assert_eq!(lexer.pos(), 3);
}

#[test]
fn extract_with_cursor_at_end_of_buffer_stays() {
    let mut lexer = letters();
    lexer.set_pos(5).unwrap();
    lexer.extract(2..5);
    assert_eq!(lexer.contents(), &['a', 'b'][..]);
    assert_eq!(lexer.pos(), 5);
    assert!(lexer.is_end());
}

#[test]
fn extract_empty_range_changes_nothing() {
    let mut lexer = letters();
    lexer.set_pos(2).unwrap();
    let removed = lexer.extract(2..2);
    assert!(removed.is_empty());
    assert_eq!(lexer.contents(), &['a', 'b', 'c', 'd', 'e'][..]);
    assert_eq!(lexer.pos(), 2);
}

#[test]
fn extract_whole_buffer() {
    let mut lexer = letters();
    lexer.set_pos(3).unwrap();
    let removed = lexer.extract(0..5);
    assert_eq!(removed, vec!['a', 'b', 'c', 'd', 'e']);
    assert!(lexer.contents().is_empty());
    assert_eq!(lexer.pos(), 0);
    assert!(lexer.is_end());
}

#[test]
fn extract_keeps_order_of_both_parts() {
    let mut lexer = Lexer::new(&[10u32, 20, 30, 40, 50, 60, 70][..]);
    let removed = lexer.extract(2..5);
    assert_eq!(removed, vec![30, 40, 50]);
    assert_eq!(lexer.contents(), &[10, 20, 60, 70][..]);
    let again = lexer.extract(0..1);
    assert_eq!(again, vec![10]);
    assert_eq!(lexer.contents(), &[20, 60, 70][..]);
}

#[test]
fn drain_returns_current_contents() {
    let mut lexer = letters();
    lexer.extract(0..2);
    lexer.set_pos(1).unwrap();
    assert_eq!(lexer.drain(), vec!['c', 'd', 'e']);
}

#[test]
fn set_pos_overwrites_cursor() {
    let mut lexer = letters();
    assert!(lexer.set_pos(4).is_ok());
    assert_eq!(lexer.pos(), 4);
    assert!(lexer.set_pos(9).is_ok());
    assert_eq!(lexer.pos(), 9);
    assert!(lexer.is_end());
    assert_eq!(lexer.contents(), &['a', 'b', 'c', 'd', 'e'][..]);
}

#[test]
fn is_end_follows_cursor() {
    let mut lexer = letters();
    assert!(!lexer.is_end());
    lexer.set_pos(4).unwrap();
    assert!(!lexer.is_end());
    lexer.set_pos(5).unwrap();
    assert!(lexer.is_end());
}
