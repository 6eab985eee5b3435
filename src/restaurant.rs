//! A restaurant's front and back of house, as a tour of module visibility.

use vstd::prelude::*;
use vstd::string::StringExecFns;

verus! {

/// Puts a party on the waiting list.
pub fn add_to_waitlist() {
}

/// Seats a party.
pub fn seat_at_table() {
}

fn take_order() {
}

fn serve_order() {
}

fn take_payment() {
}

fn cook_order() {
}

/// Cooks an order again and serves it.
fn fix_incorrect_order() {
    cook_order();
    serve_order();
}

/// A guest arrives at the front: onto the waiting list, twice over.
pub fn eat_at_front_restaurant1() {
    add_to_waitlist();
    add_to_waitlist();
}

/// A guest arrives at the front: onto the waiting list, three times over.
pub fn eat_at_front_restaurant2() {
    add_to_waitlist();
    add_to_waitlist();
    add_to_waitlist();
}

/// A breakfast: the toast is the guest's choice, the fruit the chef's.
pub struct Breakfast {
    pub toast: String,
    seasonal_fruit: String,
}

impl Breakfast {
    /// The toast ordered.
    pub closed spec fn toast_view(&self) -> Seq<char> {
        self.toast@
    }

    /// The fruit of the season, which guests cannot change.
    pub closed spec fn fruit(&self) -> Seq<char> {
        self.seasonal_fruit@
    }

    /// A summer breakfast with `toast`; the fruit is peaches.
    pub fn summer(toast: &str) -> (r: Breakfast)
        ensures
            r.toast_view() == toast@,
            r.fruit() == "peaches"@,
    {
        Breakfast { toast: String::from_str(toast), seasonal_fruit: String::from_str("peaches") }
    }
}

/// Starters on the menu.
#[derive(Debug, Clone, Copy, PartialEq, Eq, Structural)]
pub enum Appetizer {
    Soup,
    Salad,
}

/// Two starters are ordered.
pub fn eat_at_back_restaurant2() {
    let _order1 = Appetizer::Soup;
    let _order2 = Appetizer::Salad;
}

} // verus!
