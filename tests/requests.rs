use bookstore::dtos::{BookFilterDto, BookFilterPayload, Pagination, PaginationPayload};

#[test]
fn pagination_defaults() {
    let p = Pagination::default();
    assert_eq!(p.offset(), 0);
    assert_eq!(p.limit(), 100);
    let p = PaginationPayload { offset: Some(20), limit: Some(5) };
    assert_eq!(p.offset(), 20);
    assert_eq!(p.limit(), 5);
}

#[test]
fn filter_patterns() {
    let f = BookFilterDto::default();
    assert_eq!(f.title(), "%");
    assert_eq!(f.author(), "%");
    assert_eq!(f.limit(), 100);
    let f = BookFilterPayload { title: Some("Dune".to_string()), author: Some("Her".to_string()), offset: Some(3), limit: None };
    assert_eq!(f.title(), "Dune%");
    assert_eq!(f.author(), "Her%");
    assert_eq!(f.offset(), 3);
    assert_eq!(f.limit(), 100);
}
