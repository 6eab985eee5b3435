use vector_data_analysis::basics::{
    _build_user, _nth_fibonacci_loop, _nth_fibonacci_recursion, build_user_short,
    calculate_length, calculate_length_reference, change, first_word, longest, plus_one,
    return_example, shoes_in_size, value_in_cents, Coin, ImportantExcerpt,
    PointWithMultipleGenerics, PointWithOneGeneric, Shoe, UsState,
};

#[test]
fn filters_by_size() {
    let shoes = vec![
        Shoe {
            size: 10,
            style: String::from("sneaker"),
        },
        Shoe {
            size: 13,
            style: String::from("sandal"),
        },
        Shoe {
            size: 10,
            style: String::from("boot"),
        },
    ];

    let in_my_size = shoes_in_size(shoes, 10);

    assert_eq!(
        in_my_size,
        vec![
            Shoe {
                size: 10,
                style: String::from("sneaker")
            },
            Shoe {
                size: 10,
                style: String::from("boot")
            },
        ]
    );
}

#[test]
fn fibonacci_both_ways() {
    let expected: [u128; 8] = [1, 1, 2, 3, 5, 8, 13, 21];
    for (n, e) in expected.iter().enumerate() {
        assert_eq!(_nth_fibonacci_loop(n as u8), *e);
        assert_eq!(_nth_fibonacci_recursion(n as u8) as u128, *e);
    }
    assert_eq!(_nth_fibonacci_loop(90), 4660046610375530309);
}

#[test]
fn plus_one_on_options() {
    assert_eq!(plus_one(Some(5)), Some(6));
    assert_eq!(plus_one(None), None);
}

#[test]
fn coins_in_cents() {
    assert_eq!(value_in_cents(&Coin::Penny), 1);
    assert_eq!(value_in_cents(&Coin::Nickel), 5);
    assert_eq!(value_in_cents(&Coin::Dime), 10);
    assert_eq!(value_in_cents(&Coin::Quarter(UsState::Alaska)), 25);
    assert_eq!(value_in_cents(&Coin::Quarter(UsState::Alabama)), 25);
}

#[test]
fn first_word_of_text() {
    assert_eq!(first_word("hello world"), "hello");
    assert_eq!(first_word("hello"), "hello");
    assert_eq!(first_word(" lead"), "");
}

#[test]
fn lengths_in_bytes() {
    let (s, n) = calculate_length(String::from("she sells"));
    assert_eq!((s.as_str(), n), ("she sells", 9));
    assert_eq!(calculate_length_reference(&String::from("é")), 2);
}

#[test]
fn change_appends_saying() {
    let mut s = String::from("hello");
    change(&mut s);
    assert_eq!(s, "hello, but the value of those shells will fall");
}

#[test]
fn return_example_is_one_hundred() {
    assert_eq!(return_example(), 100);
}

#[test]
fn users_start_active() {
    let u = _build_user(String::from("a@b.c"), String::from("ab"));
    assert_eq!((u.email.as_str(), u._username.as_str(), u.active, u.sign_in_count), ("a@b.c", "ab", true, 1));
    let v = build_user_short(String::from("x@y.z"), String::from("xy"));
    assert_eq!((v.email.as_str(), v._username.as_str(), v.active, v.sign_in_count), ("x@y.z", "xy", true, 1));
}

#[test]
fn points_and_mixup() {
    let p = PointWithOneGeneric { x: 5, y: 10 };
    assert_eq!(*p.x(), 5);
    let p3 = PointWithMultipleGenerics { x: 5, y: 4 };
    let p4 = PointWithMultipleGenerics { x: "Hello", y: 'C' };
    let p5 = p3.mixup(p4);
    assert_eq!((p5.x, p5.y), (5, 'C'));
}

#[test]
fn longest_by_bytes() {
    assert_eq!(longest("abcd", "xyz"), "abcd");
    assert_eq!(longest("ab", "xy"), "xy");
    let e = ImportantExcerpt { _part: "Call me Ishmael" };
    assert_eq!(e._level(), 3);
}
