//! Summaries of media items through traits, and a largest-entry search over
//! any partially ordered type.

use vstd::prelude::*;
use vstd::std_specs::cmp::{PartialOrdIs, PartialOrdSpec};
use vstd::string::StringExecFns;

verus! {

/// Something that can be summed up in one line.
pub trait Summary {
    fn summarize(&self) -> String;
}

/// A news article.
pub struct NewsArticle {
    pub headline: String,
    pub location: String,
    pub author: String,
    pub content: String,
}

/// A short post.
pub struct Tweet {
    pub username: String,
    pub content: String,
    pub reply: bool,
    pub retweet: bool,
}

impl Summary for NewsArticle {
    /// `"<headline>, by <author> (<location>)"`.
    fn summarize(&self) -> (r: String)
        ensures
            r@ == self.headline@ + ", by "@ + self.author@ + " ("@ + self.location@ + ")"@,
    {
        let mut r = self.headline.clone();
        r.append(", by ");
        r.append(self.author.as_str());
        r.append(" (");
        r.append(self.location.as_str());
        r.append(")");
        r
    }
}

impl Summary for Tweet {
    /// `"<username>: <content>"`.
    fn summarize(&self) -> (r: String)
        ensures
            r@ == self.username@ + ": "@ + self.content@,
    {
        let mut r = self.username.clone();
        r.append(": ");
        r.append(self.content.as_str());
        r
    }
}

/// A summary that needs nothing of the item.
pub trait Summary2 {
    fn summarize2(&self) -> (r: String)
        ensures
            r@ == "(Read more...)"@,
    {
        String::from_str("(Read more...)")
    }
}

impl Summary2 for NewsArticle {

}

/// A summary built from the item's author.
pub trait Summary3 {
    fn summarize_author(&self) -> String;

    fn summarize3(&self) -> String {
        let author = self.summarize_author();
        let mut r = String::from_str("(Read more from ");
        r.append(author.as_str());
        r.append("...)");
        r
    }
}

impl Summary3 for Tweet {
    /// `"@<username>"`.
    fn summarize_author(&self) -> (r: String)
        ensures
            r@ == "@"@ + self.username@,
    {
        let mut r = String::from_str("@");
        r.append(self.username.as_str());
        r
    }
}

/// A tweet, handed out as something to summarize.
pub fn _returns_summarizable() -> impl Summary {
    Tweet {
        username: String::from_str("horse_ebooks"),
        content: String::from_str("of course, as you probably already know, people"),
        reply: false,
        retweet: false,
    }
}

/// The entry a left-to-right scan of `s[..n]` keeps: the first entry, replaced
/// by each later entry that compares greater than the one kept.
pub open spec fn scan_largest<T: PartialOrd>(s: Seq<T>, n: int) -> T
    decreases n,
{
    if n <= 1 {
        s[0]
    } else {
        let m = scan_largest(s, n - 1);
        if s[n - 1].is_gt(&m) {
            s[n - 1]
        } else {
            m
        }
    }
}

/// The largest entry of a non-empty `list`. For a type whose `>` is a total
/// order this is its maximum; ties keep the earliest.
pub fn largest<T: PartialOrd + Copy>(list: &[T]) -> (r: T)
    requires
        list@.len() > 0,
    ensures
        list@.contains(r),
        T::obeys_partial_cmp_spec() ==> r == scan_largest(list@, list@.len() as int),
{
    let mut largest = list[0];
    let mut i: usize = 1;
    while i < list.len()
        invariant
            1 <= i <= list@.len(),
            list@.contains(largest),
            T::obeys_partial_cmp_spec() ==> largest == scan_largest(list@, i as int),
        decreases list@.len() - i,
    {
        let item = list[i];
        if item > largest {
            largest = item;
        }
        i += 1;
    }
    largest
}

/// A pair of values of one type.
pub struct _Pair<T> {
    pub x: T,
    pub y: T,
}

impl<T> _Pair<T> {
    /// The pair `(x, y)`.
    pub fn _new(x: T, y: T) -> (r: Self)
        ensures
            r.x == x,
            r.y == y,
    {
        Self { x, y }
    }
}

} // verus!
