use vector_data_analysis::adder::{add_two, bad_add_two, greeting, Guess, Rectangle};

#[test]
fn add_two_and_two() {
    assert_eq!(4, add_two(2));
}

#[test]
fn add_three_and_two() {
    assert_eq!(5, add_two(3));
}

#[test]
fn one_hundred() {
    assert_eq!(102, add_two(100));
}

#[test]
fn lib_it_adds_two() {
    assert_eq!(4, add_two(2));
}

#[test]
fn bad_add_two_adds_three() {
    assert_eq!(5, bad_add_two(2));
}

#[test]
fn larger_can_hold_smaller() {
    let larger = Rectangle {
        width: 8,
        height: 7,
    };
    let smaller = Rectangle {
        width: 5,
        height: 1,
    };

    assert!(larger._can_hold(&smaller));
}

#[test]
fn smaller_cannot_hold_larger() {
    let larger = Rectangle {
        width: 8,
        height: 7,
    };
    let smaller = Rectangle {
        width: 5,
        height: 1,
    };

    assert!(!smaller._can_hold(&larger));
}

#[test]
fn greeting_contains_name() {
    let result = greeting("Carol");
    assert!(result.contains("Carol"));
}

#[test]
fn greeting_is_exact() {
    assert_eq!(greeting("Stacy"), "Hello Stacy!");
}

#[test]
fn guess_in_range_is_made() {
    let _ = Guess::new(1);
    let _ = Guess::new(100);
}

#[test]
fn it_works_results() -> Result<(), String> {
    let x = 2 + 2;
    if x == 4 {
        Ok(())
    } else {
        Err(String::from("two plus two does not equal four"))
    }
}
