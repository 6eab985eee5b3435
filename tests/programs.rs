use vector_data_analysis::closures::{Cacher, Cacher2};
use vector_data_analysis::restaurant::{eat_at_front_restaurant2, Appetizer, Breakfast};
use vector_data_analysis::rps::{
    computer_play, determine_winner, move_from_index, parse_move, parse_scores,
};
use vector_data_analysis::shapes::{area_basic, area_struct, area_tuple, Rectangle};
use vector_data_analysis::stats::{mean_floor, mode};
use vector_data_analysis::summary::{
    _returns_summarizable, largest, NewsArticle, Summary, Summary2, Summary3, Tweet,
};
use vector_data_analysis::workout::{needs_amount, plan_workout, Workout};

#[test]
fn winner_of_each_round() {
    assert_eq!(determine_winner('r', 's'), 0);
    assert_eq!(determine_winner('p', 'r'), 0);
    assert_eq!(determine_winner('s', 'p'), 0);
    assert_eq!(determine_winner('s', 'r'), 1);
    assert_eq!(determine_winner('r', 'p'), 1);
    assert_eq!(determine_winner('p', 'p'), 2);
}

#[test]
fn moves_from_numbers_and_keys() {
    assert_eq!(move_from_index(0), 'r');
    assert_eq!(move_from_index(1), 'p');
    assert_eq!(move_from_index(2), 's');
    assert_eq!(parse_move('R'), Some('r'));
    assert_eq!(parse_move('q'), Some('q'));
    assert_eq!(parse_move('x'), None);
    for _ in 0..20 {
        assert!(matches!(computer_play(), 'r' | 'p' | 's'));
    }
}

#[test]
fn scores_from_file_contents() {
    assert_eq!(parse_scores(b"12\n7\n"), (12, 7));
    assert_eq!(parse_scores(b"3\n4\n5\n"), (3, 4));
    assert_eq!(parse_scores(b" "), (0, 0));
    assert_eq!(parse_scores(b"300\n0\n"), (44, 0));
}

#[test]
fn mean_and_mode() {
    assert_eq!(mean_floor(&[1, 2, 4]), Some(2));
    assert_eq!(mean_floor(&[]), None);
    assert_eq!(mean_floor(&[usize::MAX, 1]), None);
    assert_eq!(mode(&[3, 1, 3, 2, 1, 3]), 3);
    assert_eq!(mode(&[]), 0);
    assert_eq!(mode(&[4, 5, 5, 4]), 4);
}

#[test]
fn areas() {
    assert_eq!(area_basic(30, 50), 1500);
    assert_eq!(area_tuple((30, 50)), 1500);
    let r = Rectangle { width: 30, height: 50 };
    assert_eq!(area_struct(&r), 1500);
    assert_eq!(r.area(), 1500);
    assert!(r.can_hold(&Rectangle { width: 10, height: 40 }));
    assert!(!r.can_hold(&Rectangle::square(51)));
}

#[test]
fn summaries() {
    let item = _returns_summarizable();
    assert_eq!(item.summarize(), "horse_ebooks: of course, as you probably already know, people");
    let tweet = Tweet {
        username: String::from("horse_ebooks"),
        content: String::from("people"),
        reply: false,
        retweet: false,
    };
    assert_eq!(tweet.summarize3(), "(Read more from @horse_ebooks...)");
    let article = NewsArticle {
        headline: String::from("Penguins win the Stanley Cup Championship!"),
        location: String::from("Pittsburgh, PA, USA"),
        author: String::from("Iceburgh"),
        content: String::from("The Pittsburgh Penguins once again are the best hockey team in the NHL."),
    };
    assert_eq!(
        article.summarize(),
        "Penguins win the Stanley Cup Championship!, by Iceburgh (Pittsburgh, PA, USA)"
    );
    assert_eq!(article.summarize2(), "(Read more...)");
    let t = Tweet { username: String::from("a"), content: String::from("b"), reply: true, retweet: false };
    assert_eq!(t.summarize(), "a: b");
}

#[test]
fn largest_of_lists() {
    assert_eq!(largest(&[34, 50, 25, 100, 65]), 100);
    assert_eq!(largest(&['y', 'm', 'a', 'q']), 'y');
}

#[test]
fn cachers_remember() {
    let mut c = Cacher::new(|n| n * 2);
    assert_eq!(c.value(3), 6);
    assert_eq!(c.value(10), 6);
    let mut c2 = Cacher2::new(|s: &str| s.len());
    assert_eq!(c2.value("Hello"), 5);
    assert_eq!(c2.value("World!"), 6);
    assert_eq!(c2.value("Hello"), 5);
}

#[test]
fn workouts() {
    assert_eq!(plan_workout(10, 3, 10), Workout::Strength(10));
    assert_eq!(plan_workout(30, 3, 30), Workout::Rest);
    assert_eq!(plan_workout(30, 7, 30), Workout::Run(30));
    assert!(!needs_amount(30, 3));
    assert!(needs_amount(30, 2));
}

#[test]
fn restaurant_orders() {
    eat_at_front_restaurant2();
    let meal = Breakfast::summer("Rye");
    assert_eq!(meal.toast, "Rye");
    assert_ne!(Appetizer::Soup, Appetizer::Salad);
}
