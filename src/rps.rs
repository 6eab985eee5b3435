//! Rock, paper, scissors: the rules, the computer's move, and the score file.

use rand::Rng;
use vstd::prelude::*;

verus! {

/// Relies on `rand::Rng::gen_range` over the inclusive range `0..=2`, drawn
/// from the thread-local generator: a value in that range.
#[verifier::external_body]
fn random_move_index() -> (r: u8)
    ensures
        r <= 2,
{
    rand::thread_rng().gen_range(0..=2)
}

/// The move numbered `n`: 0 rock, 1 paper, anything else scissors.
pub fn move_from_index(n: u8) -> (r: char)
    ensures
        r == if n == 0 {
            'r'
        } else if n == 1 {
            'p'
        } else {
            's'
        },
{
    match n {
        0 => 'r',
        1 => 'p',
        _ => 's',
    }
}

/// A random move of the computer: `'r'`, `'p'` or `'s'`.
pub fn computer_play() -> (r: char)
    ensures
        r == 'r' || r == 'p' || r == 's',
{
    let n = random_move_index();
    move_from_index(n)
}

/// The move a typed character stands for: `r`, `p`, `s`, or `q` to quit, in
/// either case; `None` for anything else.
pub fn parse_move(c: char) -> (r: Option<char>)
    ensures
        r == if c == 'R' || c == 'r' {
            Some('r')
        } else if c == 'P' || c == 'p' {
            Some('p')
        } else if c == 'S' || c == 's' {
            Some('s')
        } else if c == 'Q' || c == 'q' {
            Some('q')
        } else {
            None
        },
{
    match c {
        'R' | 'r' => Some('r'),
        'P' | 'p' => Some('p'),
        'S' | 's' => Some('s'),
        'Q' | 'q' => Some('q'),
        _ => None,
    }
}

/// Whether `a` beats `b`: rock beats scissors, paper rock, scissors paper.
pub open spec fn beats(a: char, b: char) -> bool {
    (a == 'r' && b == 's') || (a == 'p' && b == 'r') || (a == 's' && b == 'p')
}

/// Who wins a round: 0 the user, 1 the computer, 2 a tie (equal moves).
pub fn determine_winner(user_move: char, computer_move: char) -> (r: u8)
    ensures
        r == if user_move == computer_move {
            2u8
        } else if beats(user_move, computer_move) {
            0u8
        } else {
            1u8
        },
{
    let winner: u8;
    if user_move == computer_move {
        winner = 2;
    } else if (user_move == 'r' && computer_move == 's') || (user_move == 'p' && computer_move
        == 'r') || (user_move == 's' && computer_move == 'p') {
        winner = 0;
    } else {
        winner = 1;
    }
    winner
}

/// Reading a score file: the two scores so far, the line being read, the
/// number being read, and whether reading has stopped.
pub struct ScoreScan {
    pub user: u8,
    pub computer: u8,
    pub line: u8,
    pub current: u8,
    pub done: bool,
}

/// One byte of a score file read: a newline ends a line and stores its number
/// as the user's score on the first line, the computer's on the second, and
/// stops reading on the third; a decimal digit extends the number, wrapping
/// past 255; anything else is skipped.
pub open spec fn score_step(st: ScoreScan, b: u8) -> ScoreScan {
    if st.done {
        st
    } else if b == 10 {
        if st.line == 0 {
            ScoreScan { user: st.current, line: 1, current: 0, ..st }
        } else if st.line == 1 {
            ScoreScan { computer: st.current, line: 2, current: 0, ..st }
        } else {
            ScoreScan { done: true, ..st }
        }
    } else if 48 <= b <= 57 {
        ScoreScan { current: ((st.current * 10 + (b - 48)) % 256) as u8, ..st }
    } else {
        st
    }
}

/// The state after reading all of `bytes`.
pub open spec fn score_scan(bytes: Seq<u8>) -> ScoreScan
    decreases bytes.len(),
{
    if bytes.len() == 0 {
        ScoreScan { user: 0, computer: 0, line: 0, current: 0, done: false }
    } else {
        score_step(score_scan(bytes.drop_last()), bytes.last())
    }
}

/// The user's and the computer's score from the contents of a score file:
/// one decimal number per line, user first.
pub fn parse_scores(bytes: &[u8]) -> (r: (u8, u8))
    ensures
        r == (score_scan(bytes@).user, score_scan(bytes@).computer),
{
    let mut st = ScoreScan { user: 0, computer: 0, line: 0, current: 0, done: false };
    let mut i: usize = 0;
    while i < bytes.len()
        invariant
            i <= bytes@.len(),
            st == score_scan(bytes@.take(i as int)),
            st.line <= 2,
        decreases bytes@.len() - i,
    {
        let b = bytes[i];
        proof {
            assert(bytes@.take(i as int + 1).drop_last() =~= bytes@.take(i as int));
        }
        if st.done {
        } else if b == 10 {
            if st.line == 0 {
                st = ScoreScan { user: st.current, line: 1, current: 0, ..st };
            } else if st.line == 1 {
                st = ScoreScan { computer: st.current, line: 2, current: 0, ..st };
            } else {
                st = ScoreScan { done: true, ..st };
            }
        } else if 48 <= b && b <= 57 {
            st = ScoreScan { current: st.current.wrapping_mul(10).wrapping_add(b - 48), ..st };
        }
        i += 1;
    }
    proof {
        assert(bytes@.take(i as int) =~= bytes@);
    }
    (st.user, st.computer)
}

} // verus!
