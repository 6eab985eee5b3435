//! Line search: the lines of a text that contain a query, with or without
//! regard to case.

use vstd::prelude::*;

verus! {

/// Whether `needle` occurs in `hay` as a run of consecutive characters.
pub open spec fn contains_seq(hay: Seq<char>, needle: Seq<char>) -> bool {
    exists|i: int|
        0 <= i && i + needle.len() <= hay.len() && #[trigger] hay.subrange(i, i + needle.len())
            == needle
}

/// Where the line that starts at `start` ends: the first `'\n'` at or after
/// `start`, or the end of `s`.
pub open spec fn line_end(s: Seq<char>, start: int) -> int
    decreases s.len() - start,
{
    if start >= s.len() {
        s.len() as int
    } else if s[start] == '\n' {
        start
    } else {
        line_end(s, start + 1)
    }
}

/// The text of the line from `start` to `end`, without its line ending: a
/// `'\r'` just before the `'\n'` belongs to the ending.
pub open spec fn line_text(s: Seq<char>, start: int, end: int) -> Seq<char> {
    if end < s.len() && end > start && s[end - 1] == '\r' {
        s.subrange(start, end - 1)
    } else {
        s.subrange(start, end)
    }
}

proof fn lemma_line_end(s: Seq<char>, start: int)
    requires
        0 <= start <= s.len(),
    ensures
        start <= line_end(s, start) <= s.len(),
        forall|i: int| start <= i < line_end(s, start) ==> s[i] != '\n',
        line_end(s, start) < s.len() ==> s[line_end(s, start)] == '\n',
    decreases s.len() - start,
{
    if start < s.len() && s[start] != '\n' {
        lemma_line_end(s, start + 1);
    }
}

/// The lines of `s` from position `start` on.
pub open spec fn lines_from(s: Seq<char>, start: int) -> Seq<Seq<char>>
    decreases s.len() + 1 - start,
        when 0 <= start
        via lines_from_decreases
{
    if start >= s.len() {
        Seq::empty()
    } else {
        seq![line_text(s, start, line_end(s, start))] + lines_from(s, line_end(s, start) + 1)
    }
}

#[via_fn]
proof fn lines_from_decreases(s: Seq<char>, start: int) {
    if 0 <= start < s.len() {
        lemma_line_end(s, start);
    }
}

/// The lines of `s`: split at each `'\n'`, a `'\r'` before it dropped, and no
/// empty line after a final `'\n'`.
pub open spec fn lines_of(s: Seq<char>) -> Seq<Seq<char>> {
    lines_from(s, 0)
}

/// The lines of `contents` that contain `query`, in order.
pub open spec fn matching_lines(query: Seq<char>, contents: Seq<char>) -> Seq<Seq<char>> {
    lines_of(contents).filter(|l: Seq<char>| contains_seq(l, query))
}

/// The characters of `s`, one by one.
pub(crate) fn chars_of(s: &str) -> (r: Vec<char>)
    ensures
        r@ == s@,
{
    let mut r: Vec<char> = Vec::new();
    for c in it: s.chars()
        invariant
            r@ == it.seq().take(it.index() as int),
    {
        r.push(c);
    }
    r
}

/// Whether `needle` occurs in `hay[from..to]`.
fn contains_in(hay: &Vec<char>, from: usize, to: usize, needle: &Vec<char>) -> (r: bool)
    requires
        from <= to <= hay@.len(),
    ensures
        r == contains_seq(hay@.subrange(from as int, to as int), needle@),
{
    let ghost h = hay@.subrange(from as int, to as int);
    let n = needle.len();
    if n > to - from {
        return false;
    }
    let mut i: usize = 0;
    while i <= to - from - n
        invariant
            n == needle@.len(),
            n <= to - from,
            from <= to <= hay@.len(),
            h == hay@.subrange(from as int, to as int),
            forall|k: int| 0 <= k < i ==> #[trigger] h.subrange(k, k + n) != needle@,
        decreases to - from - n + 1 - i,
    {
        let mut j: usize = 0;
        let mut same = true;
        while j < n
            invariant
                j <= n,
                n == needle@.len(),
                i + n <= to - from,
                from <= to <= hay@.len(),
                h == hay@.subrange(from as int, to as int),
                same == (forall|l: int| 0 <= l < j ==> hay@[from + i + l] == needle@[l]),
            decreases n - j,
        {
            if hay[from + i + j] != needle[j] {
                same = false;
            }
            j += 1;
        }
        if same {
            assert(h.subrange(i as int, i + n) =~= needle@);
            return true;
        }
        assert(h.subrange(i as int, i + n)[0] == h[i as int]);
        assert(h.subrange(i as int, i + n) != needle@) by {
            let l = choose|l: int| 0 <= l < n && hay@[from + i + l] != needle@[l];
            assert(h.subrange(i as int, i + n)[l] == hay@[from + i + l]);
        }
        i += 1;
    }
    false
}

/// What `str::to_lowercase` makes of the characters `s`.
pub uninterp spec fn lower_of(s: Seq<char>) -> Seq<char>;

/// Relies on `str::to_lowercase`: the lower-case mapping of Unicode, which
/// depends on the characters alone.
#[verifier::external_body]
fn lowercase(s: &str) -> (r: String)
    ensures
        r@ == lower_of(s@),
{
    s.to_lowercase()
}

/// Whether a line is selected: it contains the query, exactly or, with
/// `ignore_case`, once both are lower-cased.
pub open spec fn line_matches(line: Seq<char>, query: Seq<char>, ignore_case: bool) -> bool {
    if ignore_case {
        contains_seq(lower_of(line), lower_of(query))
    } else {
        contains_seq(line, query)
    }
}

/// `line_matches` for a fixed query, as a predicate on lines.
pub open spec fn line_filter(query: Seq<char>, ignore_case: bool) -> spec_fn(Seq<char>) -> bool {
    |l: Seq<char>| line_matches(l, query, ignore_case)
}

/// The lines of `contents` that `line_matches` selects, in order.
pub open spec fn selected_lines(query: Seq<char>, contents: Seq<char>, ignore_case: bool) -> Seq<
    Seq<char>,
> {
    lines_of(contents).filter(line_filter(query, ignore_case))
}

/// Whether `query` occurs in `line`.
pub fn line_contains(line: &str, query: &str) -> (r: bool)
    ensures
        r == contains_seq(line@, query@),
{
    let h = chars_of(line);
    let q = chars_of(query);
    proof {
        assert(h@.subrange(0, h@.len() as int) =~= h@);
    }
    contains_in(&h, 0, h.len(), &q)
}

/// The lines of `contents` that contain `query` (compared as `line_matches`
/// says), in order, each without its line ending.
fn select_lines<'a>(query: &str, contents: &'a str, ignore_case: bool) -> (r: Vec<&'a str>)
    ensures
        r@.map_values(|l: &'a str| l@) == selected_lines(query@, contents@, ignore_case),
{
    let c = chars_of(contents);
    let folded_query = if ignore_case {
        lowercase(query)
    } else {
        String::new()
    };
    let ghost p = line_filter(query@, ignore_case);
    let mut results: Vec<&'a str> = Vec::new();
    if c.len() == 0 {
        proof {
            assert(lines_of(c@) =~= Seq::<Seq<char>>::empty());
            reveal(Seq::filter);
            assert(results@.map_values(|l: &'a str| l@) =~= selected_lines(query@, contents@, ignore_case));
        }
        return results;
    }
    let mut start: usize = 0;
    proof {
        assert(results@.map_values(|l: &'a str| l@) + lines_from(c@, 0).filter(p) =~= lines_from(c@, 0).filter(p));
    }
    loop
        invariant
            c@ == contents@,
            p == line_filter(query@, ignore_case),
            ignore_case ==> folded_query@ == lower_of(query@),
            start < c@.len(),
            lines_from(c@, 0).filter(p) == results@.map_values(|l: &'a str| l@) + lines_from(c@, start as int).filter(p),
        decreases c@.len() - start,
    {
        let mut end = start;
        proof {
            lemma_line_end(c@, start as int);
        }
        while end < c.len() && c[end] != '\n'
            invariant
                start <= end <= c@.len(),
                line_end(c@, start as int) == line_end(c@, end as int),
            decreases c@.len() - end,
        {
            end += 1;
        }
        let text_end = if end < c.len() && end > start && c[end - 1] == '\r' {
            end - 1
        } else {
            end
        };
        let line = contents.substring_char(start, text_end);
        let ghost text = line_text(c@, start as int, end as int);
        assert(line@ == text);
        let selected = if ignore_case {
            let folded_line = lowercase(line);
            let b = line_contains(folded_line.as_str(), folded_query.as_str());
            assert(b == contains_seq(lower_of(text), lower_of(query@)));
            b
        } else {
            line_contains(line, query)
        };
        let ghost before = results@.map_values(|l: &'a str| l@);
        if selected {
            results.push(line);
        }
        proof {
            let rest = lines_from(c@, end as int + 1);
            assert(lines_from(c@, start as int) == seq![text] + rest);
            rest.lemma_filter_prepend(text, p);
            assert(selected == p(text));
            if selected {
                assert(results@.map_values(|l: &'a str| l@) =~= before + seq![text]);
            } else {
                assert(results@.map_values(|l: &'a str| l@) =~= before);
            }
            assert(lines_from(c@, 0).filter(p) =~= results@.map_values(|l: &'a str| l@) + rest.filter(p));
        }
        if end >= c.len() - 1 {
            proof {
                let rest = lines_from(c@, end as int + 1);
                assert(rest =~= Seq::<Seq<char>>::empty());
                reveal(Seq::filter);
                assert(rest.filter(p) =~= Seq::<Seq<char>>::empty());
                assert(lines_from(c@, 0).filter(p) =~= results@.map_values(|l: &'a str| l@));
            }
            return results;
        }
        start = end + 1;
    }
}

/// The lines of `contents` that contain `query`, in order, each without its
/// line ending.
pub fn search<'a>(query: &'a str, contents: &'a str) -> (r: Vec<&'a str>)
    ensures
        r@.map_values(|l: &'a str| l@) == selected_lines(query@, contents@, false),
{
    select_lines(query, contents, false)
}

/// The lines of `contents` whose lower-cased text contains the lower-cased
/// `query`, in order, each as written in `contents`.
pub fn search_case_insensitive<'a>(query: &'a str, contents: &'a str) -> (r: Vec<&'a str>)
    ensures
        r@.map_values(|l: &'a str| l@) == selected_lines(query@, contents@, true),
{
    select_lines(query, contents, true)
}

/// What to search for and where.
pub struct Config {
    pub query: String,
    pub filename: String,
    pub case_sensitive: bool,
}

impl Config {
    /// The query and the file name from the command line `args` (program
    /// name first), and whether to match case as decided by the caller.
    pub fn new(args: &[String], case_sensitive: bool) -> (r: Result<Config, &'static str>)
        ensures
            match r {
                Ok(config) => args@.len() >= 3 && config.query == args@[1] && config.filename
                    == args@[2] && config.case_sensitive == case_sensitive,
                Err(e) => args@.len() < 3 && e@ == "not enough arguments"@,
            },
    {
        if args.len() < 3 {
            return Err("not enough arguments");
        }
        let query = args[1].clone();
        let filename = args[2].clone();
        Ok(Config { query, filename, case_sensitive })
    }
}

} // verus!
