use h4::insertable::InsertableIterator;

#[test]
fn test_iteration() {
    let values = vec![0, 1, 2, 3, 4, 5];
    let mut insertable = InsertableIterator::new(values);

    for i in 0..6 {
        let peeked = insertable.peek();
        assert_eq!(peeked, Some(&i));
        let consumed = insertable.next();
        assert_eq!(consumed, Some(i));
    }
}

#[test]
fn test_insert() {
    let values = vec![3, 4, 5];
    let mut insertable = InsertableIterator::new(values);
    insertable.insert_elements(vec![0, 1, 2]);

    for i in 0..6 {
        let peeked = insertable.peek();
        assert_eq!(peeked, Some(&i));
        let consumed = insertable.next();
        assert_eq!(consumed, Some(i));
    }
}

#[test]
fn test_insert_mid_iter() {
    let values = vec![3, 4, 5];
    let mut insertable = InsertableIterator::new(values);
    insertable.insert_elements(vec![0, 1, 2]);

    insertable.next();
    insertable.next();
    insertable.next();
    insertable.next();

    insertable.insert_elements(vec![0, 1, 2, 3]);

    for i in 0..6 {
        let peeked = insertable.peek();
        assert_eq!(peeked, Some(&i));
        let consumed = insertable.next();
        assert_eq!(consumed, Some(i));
    }
}

#[test]
fn test_from_string() {
    let string = "A very cool string".to_string();
    let chars: Vec<char> = string.chars().collect();

    let mut iterator = InsertableIterator::from(chars);

    while iterator.next() != None {}
}

#[test]
fn test_exhaustion() {
    let mut insertable = InsertableIterator::new(vec![7]);
    assert_eq!(insertable.next(), Some(7));
    assert_eq!(insertable.peek(), None);
    assert_eq!(insertable.next(), None);
}

#[test]
fn test_insert_preserves_order() {
    let mut insertable = InsertableIterator::new(Vec::<char>::new());
    insertable.insert_elements(vec!['c', 'd']);
    insertable.insert_elements(vec!['a', 'b']);
    let collected: Vec<char> = std::iter::from_fn(|| insertable.next()).collect();
    assert_eq!(collected, vec!['a', 'b', 'c', 'd']);
}
