use vector_data_analysis::stack::List;

#[test]
fn basics() {
    let mut list = List::default();

    assert_eq!(list.pop(), None);

    list.push(1);
    list.push(2);
    list.push(3);
    assert_eq!(list.size(), 3);

    assert_eq!(list.pop(), Some(3));
    assert_eq!(list.pop(), Some(2));
    assert_eq!(list.size(), 1);

    list.push(4);
    list.push(5);
    assert_eq!(list.size(), 3);

    assert_eq!(list.pop(), Some(5));
    assert_eq!(list.pop(), Some(4));
    assert_eq!(list.size(), 1);

    assert_eq!(list.pop(), Some(1));
    assert_eq!(list.pop(), None);
    assert_eq!(list.size(), 0);
    assert!(list.empty());
}

#[test]
fn top() {
    let mut list = List::default();
    assert_eq!(list.top(), None);
    assert_eq!(list.top_mut(), None);
    list.push(1);
    list.push(2);
    list.push(3);

    assert_eq!(list.top(), Some(&3));
    assert_eq!(list.top_mut(), Some(&mut 3));

    if let Some(value) = list.top_mut() {
        *value = 42
    };

    assert_eq!(list.top(), Some(&42));
    assert_eq!(list.pop(), Some(42));
}

#[test]
fn into_iter() {
    let mut list = List::default();
    list.push(1);
    list.push(2);
    list.push(3);

    let mut iter = list.into_iter();
    assert_eq!(iter.next(), Some(3));
    assert_eq!(iter.next(), Some(2));
    assert_eq!(iter.next(), Some(1));
    assert_eq!(iter.next(), None);
}

#[test]
fn iter() {
    let mut list = List::default();
    list.push(1);
    list.push(2);
    list.push(3);

    let mut iter = list.iter();
    assert_eq!(iter.next(), Some(&3));
    assert_eq!(iter.next(), Some(&2));
    assert_eq!(iter.next(), Some(&1));
}

#[test]
fn iter_mut() {
    let mut list = List::default();
    list.push(1);
    list.push(2);
    list.push(3);

    let mut iter = list.iter_mut();
    assert_eq!(iter.next(), Some(&mut 3));
    assert_eq!(iter.next(), Some(&mut 2));
    assert_eq!(iter.next(), Some(&mut 1));
}

#[test]
fn iter_mut_writes_through() {
    let mut list = List::new();
    list.push(1);
    list.push(2);
    {
        let mut iter = list.iter_mut();
        if let Some(x) = iter.next() {
            *x = 20;
        }
        if let Some(x) = iter.next() {
            *x = 10;
        }
        assert_eq!(iter.next(), None);
    }
    assert_eq!(list.pop(), Some(20));
    assert_eq!(list.pop(), Some(10));
    assert!(list.empty());
}

#[test]
fn empty_list_has_no_entries() {
    let list: List<u8> = List::new();
    assert!(list.empty());
    assert_eq!(list.size(), 0);
    let mut iter = list.iter();
    assert_eq!(iter.next(), None);
}
