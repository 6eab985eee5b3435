//! Small functions over numbers, options, enums, strings and structs.

use vstd::prelude::*;
use vstd::string::{StringExecFns, StringSliceAdditionalSpecFns};

use vstd::utf8::encode_utf8;

use crate::minigrep::chars_of;

verus! {

/// The Fibonacci numbers, starting `1, 1, 2, 3, 5`.
pub open spec fn fib(n: nat) -> nat
    decreases n,
{
    if n < 2 {
        1
    } else {
        fib((n - 1) as nat) + fib((n - 2) as nat)
    }
}

/// The Fibonacci numbers never decrease.
pub proof fn lemma_fib_monotonic(m: nat, n: nat)
    requires
        m <= n,
    ensures
        fib(m) <= fib(n),
    decreases n,
{
    if m < n {
        lemma_fib_monotonic(m, (n - 1) as nat);
    }
}

/// The `n`-th Fibonacci number, by recursion.
pub fn _nth_fibonacci_recursion(n: u8) -> (r: usize)
    requires
        fib(n as nat) <= usize::MAX,
    ensures
        r == fib(n as nat),
    decreases n,
{
    if n < 2 {
        1
    } else {
        proof {
            lemma_fib_monotonic((n - 1) as nat, n as nat);
            lemma_fib_monotonic((n - 2) as nat, n as nat);
        }
        _nth_fibonacci_recursion(n - 1) + _nth_fibonacci_recursion(n - 2)
    }
}

/// The `n`-th Fibonacci number, by a loop.
pub fn _nth_fibonacci_loop(n: u8) -> (r: u128)
    requires
        fib(n as nat) <= u128::MAX,
    ensures
        r == fib(n as nat),
{
    let mut n_minus_1: u128 = 1;
    let mut n_minus_2: u128;
    let mut term: u128 = 1;
    let mut i: u8 = 1;
    while i < n
        invariant
            1 <= i,
            i < n ==> i <= n,
            n >= 1 ==> i <= n,
            n < 1 ==> i == 1,
            term == fib(i as nat),
            n_minus_1 == fib((i - 1) as nat),
            fib(n as nat) <= u128::MAX,
        decreases n - i,
    {
        proof {
            lemma_fib_monotonic(i as nat + 1, n as nat);
        }
        n_minus_2 = n_minus_1;
        n_minus_1 = term;
        term = n_minus_1 + n_minus_2;
        i += 1;
    }
    term
}

/// One more than the value inside, if any.
pub fn plus_one(x: Option<i32>) -> (r: Option<i32>)
    requires
        x is Some ==> x->0 < i32::MAX,
    ensures
        r == match x {
            None => None,
            Some(i) => Some((i + 1) as i32),
        },
{
    match x {
        None => None,
        Some(i) => Some(i + 1),
    }
}

/// States of the union, as far as quarters go.
#[derive(Debug, Clone, Copy, PartialEq, Eq, Structural)]
pub enum UsState {
    Alabama,
    Alaska,
}

/// A coin of the United States.
#[derive(Debug, Clone, Copy, PartialEq, Eq, Structural)]
pub enum Coin {
    Penny,
    Nickel,
    Dime,
    Quarter(UsState),
}

/// What `coin` is worth, in cents.
pub open spec fn cents(coin: Coin) -> u8 {
    match coin {
        Coin::Penny => 1,
        Coin::Nickel => 5,
        Coin::Dime => 10,
        Coin::Quarter(_) => 25,
    }
}

/// What `coin` is worth, in cents.
pub fn value_in_cents(coin: &Coin) -> (r: u8)
    ensures
        r == cents(*coin),
{
    match coin {
        Coin::Penny => 1,
        Coin::Nickel => 5,
        Coin::Dime => 10,
        Coin::Quarter(_) => 25,
    }
}

/// Where the first word of `s` ends: the first space, or the end of `s`.
pub open spec fn first_space(s: Seq<char>, from: int) -> int
    decreases s.len() - from,
{
    if from >= s.len() {
        s.len() as int
    } else if s[from] == ' ' {
        from
    } else {
        first_space(s, from + 1)
    }
}

/// The text of `s` before its first space; all of `s` when it has none.
pub fn first_word(s: &str) -> (r: &str)
    ensures
        r@ == s@.subrange(0, first_space(s@, 0)),
{
    let c = chars_of(s);
    let mut i: usize = 0;
    while i < c.len() && c[i] != ' '
        invariant
            i <= c@.len(),
            c@ == s@,
            first_space(s@, 0) == first_space(s@, i as int),
        decreases c@.len() - i,
    {
        i += 1;
    }
    s.substring_char(0, i)
}

/// The string back, with its length in bytes.
pub fn calculate_length(s: String) -> (r: (String, usize))
    ensures
        r.0 == s,
        r.1 == encode_utf8(s@).len() as usize,
{
    let length = s.as_str().len();
    (s, length)
}

/// The length of `s` in bytes.
pub fn calculate_length_reference(s: &String) -> (r: usize)
    ensures
        r == encode_utf8(s@).len() as usize,
{
    s.as_str().len()
}

/// Appends the end of the saying to `some_string`.
pub fn change(some_string: &mut String)
    ensures
        final(some_string)@ == old(some_string)@ + ", but the value of those shells will fall"@,
{
    some_string.append(", but the value of those shells will fall");
}

/// 5 times 20.
pub fn return_example() -> (r: i32)
    ensures
        r == 100,
{
    let mut x: i32 = 5;
    x *= 20;
    x
}

/// An account.
pub struct User {
    pub _username: String,
    pub email: String,
    pub sign_in_count: u64,
    pub active: bool,
}

/// A new active account with one sign-in.
pub fn _build_user(email: String, username: String) -> (r: User)
    ensures
        r.email == email,
        r._username == username,
        r.active,
        r.sign_in_count == 1,
{
    User { email: email, _username: username, active: true, sign_in_count: 1 }
}

/// A new active account with one sign-in, fields given by shorthand.
pub fn build_user_short(email: String, _username: String) -> (r: User)
    ensures
        r.email == email,
        r._username == _username,
        r.active,
        r.sign_in_count == 1,
{
    User { email, _username, active: true, sign_in_count: 1 }
}

/// A point whose coordinates share one type.
pub struct PointWithOneGeneric<T> {
    pub x: T,
    pub y: T,
}

impl<T> PointWithOneGeneric<T> {
    /// The first coordinate.
    pub fn x(&self) -> (r: &T)
        ensures
            *r == self.x,
    {
        &self.x
    }
}

/// A point whose coordinates may differ in type.
pub struct PointWithMultipleGenerics<T, U> {
    pub x: T,
    pub y: U,
}

impl<T, U> PointWithMultipleGenerics<T, U> {
    /// This point's `x` with `other`'s `y`.
    pub fn mixup<V, W>(self, other: PointWithMultipleGenerics<V, W>) -> (r:
        PointWithMultipleGenerics<T, W>)
        ensures
            r.x == self.x,
            r.y == other.y,
    {
        PointWithMultipleGenerics { x: self.x, y: other.y }
    }
}

/// The longer of two strings by byte length; `y` on a tie.
pub fn longest<'a>(x: &'a str, y: &'a str) -> (r: &'a str)
    ensures
        r == if x.spec_bytes().len() as usize > y.spec_bytes().len() as usize {
            x
        } else {
            y
        },
{
    if x.len() > y.len() {
        x
    } else {
        y
    }
}

/// A part of a text, borrowed from it.
pub struct ImportantExcerpt<'a> {
    pub _part: &'a str,
}

impl<'a> ImportantExcerpt<'a> {
    /// The level of the excerpt: always 3.
    pub fn _level(&self) -> (r: i32)
        ensures
            r == 3,
    {
        3
    }
}

/// A shoe, by size and style.
#[derive(PartialEq, Debug)]
pub struct Shoe {
    pub size: u32,
    pub style: String,
}

/// Whether a shoe has the size `shoe_size`, as a predicate.
pub open spec fn has_size(shoe_size: u32) -> spec_fn(Shoe) -> bool {
    |s: Shoe| s.size == shoe_size
}

/// The shoes of size `shoe_size`, in their order.
pub fn shoes_in_size(shoes: Vec<Shoe>, shoe_size: u32) -> (r: Vec<Shoe>)
    ensures
        r@ == shoes@.filter(has_size(shoe_size)),
{
    let ghost all = shoes@;
    let mut kept: Vec<Shoe> = Vec::new();
    for s in it: shoes.into_iter()
        invariant
            it.seq() == all,
            kept@ == all.take(it.index() as int).filter(has_size(shoe_size)),
    {
        proof {
            let i = it.index() as int;
            assert(all.take(i + 1) =~= all.take(i).push(s));
            all.take(i).lemma_filter_push(s, has_size(shoe_size));
        }
        if s.size == shoe_size {
            kept.push(s);
        }
    }
    assert(all.take(all.len() as int) =~= all);
    kept
}

} // verus!
