//! Terms and the names of their files.
//!
//! The file of term `t` is named by the decimal digits of `t` followed by
//! `.log`. A directory entry belongs to the log when the stem of its name
//! reads as an unsigned number.

use vstd::prelude::*;
use vstd::string::StrSliceExecFns;
use vstd::string::StringExecFns;

verus! {

/// The character of the decimal digit `d`.
pub open spec fn digit_char(d: int) -> char {
    if d == 0 {
        '0'
    } else if d == 1 {
        '1'
    } else if d == 2 {
        '2'
    } else if d == 3 {
        '3'
    } else if d == 4 {
        '4'
    } else if d == 5 {
        '5'
    } else if d == 6 {
        '6'
    } else if d == 7 {
        '7'
    } else if d == 8 {
        '8'
    } else {
        '9'
    }
}

/// The value of the decimal digit `c`, or -1 where `c` is no digit.
pub open spec fn digit_value(c: char) -> int {
    if c == '0' {
        0
    } else if c == '1' {
        1
    } else if c == '2' {
        2
    } else if c == '3' {
        3
    } else if c == '4' {
        4
    } else if c == '5' {
        5
    } else if c == '6' {
        6
    } else if c == '7' {
        7
    } else if c == '8' {
        8
    } else if c == '9' {
        9
    } else {
        -1
    }
}

/// The decimal digits of `n`, without sign or leading zeros.
pub open spec fn decimal_text(n: nat) -> Seq<char>
    decreases n,
{
    if n < 10 {
        seq![digit_char(n as int)]
    } else {
        decimal_text(n / 10).push(digit_char((n % 10) as int))
    }
}

/// The name of the file of `term`.
pub open spec fn log_name(term: u64) -> Seq<char> {
    decimal_text(term as nat) + ".log"@
}

/// Whether every character of `text` is a decimal digit.
pub open spec fn all_digits(text: Seq<char>) -> bool {
    forall|i: int| 0 <= i < text.len() ==> digit_value(#[trigger] text[i]) >= 0
}

/// The number that the digits of `text` spell.
pub open spec fn decimal_value(text: Seq<char>) -> int
    decreases text.len(),
{
    if text.len() == 0 {
        0
    } else {
        decimal_value(text.drop_last()) * 10 + digit_value(text.last())
    }
}

/// `text` without a leading plus sign.
pub open spec fn unsigned_part(text: Seq<char>) -> Seq<char> {
    if text.len() > 0 && text[0] == '+' {
        text.subrange(1, text.len() as int)
    } else {
        text
    }
}

/// The term that `stem` spells: one or more decimal digits, with at most
/// one plus sign before them, whose value fits in 64 bits.
pub open spec fn term_of_stem(stem: Seq<char>) -> Option<u64> {
    let digits = unsigned_part(stem);
    if digits.len() > 0 && all_digits(digits) && decimal_value(digits) <= u64::MAX {
        Some(decimal_value(digits) as u64)
    } else {
        None
    }
}

/// The terms that the stems spell, in the order of the stems; a stem that
/// spells none is passed over.
pub open spec fn terms_of_stems(stems: Seq<Seq<char>>) -> Seq<u64>
    decreases stems.len(),
{
    if stems.len() == 0 {
        Seq::empty()
    } else {
        match term_of_stem(stems.last()) {
            Some(term) => terms_of_stems(stems.drop_last()).push(term),
            None => terms_of_stems(stems.drop_last()),
        }
    }
}

/// Whether `terms` never descends.
pub open spec fn ascending(terms: Seq<u64>) -> bool {
    forall|i: int, j: int| 0 <= i <= j < terms.len() ==> terms[i] <= terms[j]
}

/// The terms of `terms` that are less than `bound`, in their order.
pub open spec fn terms_below(terms: Seq<u64>, bound: u64) -> Seq<u64>
    decreases terms.len(),
{
    if terms.len() == 0 {
        Seq::empty()
    } else if terms.last() < bound {
        terms_below(terms.drop_last(), bound).push(terms.last())
    } else {
        terms_below(terms.drop_last(), bound)
    }
}

/// The text of the decimal digit `d`.
fn digit_text(d: u64) -> (text: &'static str)
    requires
        d < 10,
    ensures
        text@ == seq![digit_char(d as int)],
{
    proof {
        reveal_strlit("0");
        reveal_strlit("1");
        reveal_strlit("2");
        reveal_strlit("3");
        reveal_strlit("4");
        reveal_strlit("5");
        reveal_strlit("6");
        reveal_strlit("7");
        reveal_strlit("8");
        reveal_strlit("9");
    }
    let text = if d == 0 {
        "0"
    } else if d == 1 {
        "1"
    } else if d == 2 {
        "2"
    } else if d == 3 {
        "3"
    } else if d == 4 {
        "4"
    } else if d == 5 {
        "5"
    } else if d == 6 {
        "6"
    } else if d == 7 {
        "7"
    } else if d == 8 {
        "8"
    } else {
        "9"
    };
    assert(text@ =~= seq![digit_char(d as int)]);
    text
}

/// The decimal digits of `n`, without sign or leading zeros.
fn decimal(n: u64) -> (text: String)
    ensures
        text@ == decimal_text(n as nat),
    decreases n,
{
    if n < 10 {
        String::from_str(digit_text(n))
    } else {
        let front = decimal(n / 10);
        let text = front.concat(digit_text(n % 10));
        assert(text@ =~= decimal_text((n / 10) as nat).push(digit_char((n % 10) as int)));
        text
    }
}

/// The name of the file that holds the records of `term`.
pub fn log_path(term: u64) -> (path: String)
    ensures
        path@ == log_name(term),
{
    decimal(term).concat(".log")
}

/// The value of the digit `c`, if it is one.
fn digit(c: char) -> (d: Option<u64>)
    ensures
        digit_value(c) >= 0 ==> d == Some(digit_value(c) as u64),
        digit_value(c) < 0 ==> d.is_none(),
{
    if c == '0' {
        Some(0)
    } else if c == '1' {
        Some(1)
    } else if c == '2' {
        Some(2)
    } else if c == '3' {
        Some(3)
    } else if c == '4' {
        Some(4)
    } else if c == '5' {
        Some(5)
    } else if c == '6' {
        Some(6)
    } else if c == '7' {
        Some(7)
    } else if c == '8' {
        Some(8)
    } else if c == '9' {
        Some(9)
    } else {
        None
    }
}

/// A number spelled by digits is never negative.
proof fn lemma_decimal_value_nonnegative(text: Seq<char>)
    requires
        all_digits(text),
    ensures
        decimal_value(text) >= 0,
    decreases text.len(),
{
    if text.len() != 0 {
        lemma_decimal_value_nonnegative(text.drop_last());
    }
}

/// More digits never spell a smaller number.
proof fn lemma_decimal_value_grows(text: Seq<char>, n: int)
    requires
        all_digits(text),
        0 <= n <= text.len(),
    ensures
        decimal_value(text.take(n)) <= decimal_value(text),
    decreases text.len(),
{
    if n == text.len() {
        assert(text.take(n) =~= text);
    } else {
        lemma_decimal_value_grows(text.drop_last(), n);
        lemma_decimal_value_nonnegative(text.drop_last());
        assert(text.drop_last().take(n) =~= text.take(n));
    }
}

/// The digits of a number are digits, do not start with a plus sign, and
/// spell the number.
proof fn lemma_decimal_text_spells(n: nat)
    ensures
        decimal_text(n).len() > 0,
        all_digits(decimal_text(n)),
        decimal_text(n)[0] != '+',
        decimal_value(decimal_text(n)) == n,
    decreases n,
{
    let text = decimal_text(n);
    if n < 10 {
        assert(text.drop_last() =~= Seq::<char>::empty());
        assert(decimal_value(text.drop_last()) == 0);
        assert(digit_value(digit_char(n as int)) == n);
    } else {
        let front = decimal_text(n / 10);
        lemma_decimal_text_spells(n / 10);
        assert(text.drop_last() =~= front);
        assert(digit_value(digit_char((n % 10) as int)) == n % 10);
        assert(text[0] == front[0]);
        assert forall|i: int| 0 <= i < text.len() implies digit_value(#[trigger] text[i])
            >= 0 by {
            if i < front.len() {
                assert(text[i] == front[i]);
            }
        }
    }
}

/// The name that a term file gets is read back as its term: the stem of
/// `log_path(term)`, the name without `.log`, spells `term`.
pub proof fn lemma_log_name_spells_term(term: u64)
    ensures
        log_name(term) == decimal_text(term as nat) + ".log"@,
        term_of_stem(decimal_text(term as nat)) == Some(term),
{
    lemma_decimal_text_spells(term as nat);
}

/// The term that the stem of a file name spells, if it spells one.
pub fn parse_term(stem: &str) -> (term: Option<u64>)
    ensures
        term == term_of_stem(stem@),
{
    let n: usize = stem.unicode_len();
    let mut i: usize = 0;
    if n > 0 && stem.get_char(0) == '+' {
        i = 1;
    }
    let start: usize = i;
    let ghost digits = unsigned_part(stem@);
    if i == n {
        return None;
    }
    let mut acc: u64 = 0;
    while i < n
        invariant
            start <= i <= n,
            n == stem@.len(),
            digits == stem@.subrange(start as int, n as int),
            digits == unsigned_part(stem@),
            all_digits(digits.take(i - start)),
            acc == decimal_value(digits.take(i - start)),
        decreases n - i,
    {
        let c: char = stem.get_char(i);
        let ghost seen = digits.take(i - start);
        let ghost next = digits.take(i - start + 1);
        proof {
            assert(next.drop_last() =~= seen);
            assert(next.last() == c);
        }
        match digit(c) {
            None => {
                assert(digits[i - start] == c);
                return None;
            },
            Some(d) => {
                if acc > (u64::MAX - d) / 10 {
                    proof {
                        assert(decimal_value(next) == acc * 10 + d);
                        if all_digits(digits) {
                            lemma_decimal_value_grows(digits, i - start + 1);
                        }
                    }
                    return None;
                }
                acc = acc * 10 + d;
                assert forall|j: int| 0 <= j < next.len() implies digit_value(
                    #[trigger] next[j],
                ) >= 0 by {
                    if j < seen.len() {
                        assert(next[j] == seen[j]);
                    }
                }
            },
        }
        i += 1;
    }
    proof {
        assert(digits.take(n - start) =~= digits);
    }
    Some(acc)
}

/// Puts `term` into the ascending `terms`, behind the terms that are not
/// greater.
fn insert_ascending(terms: &mut Vec<u64>, term: u64)
    requires
        ascending(old(terms)@),
    ensures
        ascending(final(terms)@),
        final(terms)@.to_multiset() == old(terms)@.to_multiset().insert(term),
{
    let mut at: usize = terms.len();
    while at > 0 && terms[at - 1] > term
        invariant
            at <= terms.len(),
            *terms == *old(terms),
            forall|j: int| at <= j < terms.len() ==> terms[j] > term,
        decreases at,
    {
        at -= 1;
    }
    let ghost before = terms@;
    terms.insert(at, term);
    proof {
        let after = terms@;
        assert(after.remove(at as int) =~= before);
        vstd::seq_lib::to_multiset_remove(after, at as int);
        before.to_multiset_ensures();
        after.to_multiset_ensures();
        assert(after.contains(term)) by {
            assert(after[at as int] == term);
        }
        assert(after.to_multiset() =~= before.to_multiset().insert(term));
        assert forall|i: int, j: int| 0 <= i <= j < after.len() implies after[i] <= after[j] by {
            if j < at {
                assert(after[i] == before[i] && after[j] == before[j]);
            } else if i > at {
                assert(after[i] == before[i - 1] && after[j] == before[j - 1]);
            } else if i < at && j > at {
                assert(after[i] == before[i] && after[j] == before[j - 1]);
            }
        }
    }
}

/// The terms that the stems of the names in a log directory spell, in
/// ascending order. A term that several stems spell stays as often as it is
/// spelled.
pub fn sorted_terms(stems: &Vec<String>) -> (terms: Vec<u64>)
    ensures
        ascending(terms@),
        terms@.to_multiset() == terms_of_stems(stems.deep_view()).to_multiset(),
{
    let mut terms: Vec<u64> = Vec::new();
    let mut i: usize = 0;
    while i < stems.len()
        invariant
            i <= stems.len(),
            ascending(terms@),
            terms@.to_multiset() == terms_of_stems(stems.deep_view().take(i as int)).to_multiset(),
        decreases stems.len() - i,
    {
        let ghost seen = stems.deep_view().take(i as int);
        let ghost next = stems.deep_view().take(i + 1);
        proof {
            assert(next.drop_last() =~= seen);
            assert(next.last() == stems[i as int]@);
        }
        match parse_term(stems[i].as_str()) {
            Some(term) => {
                insert_ascending(&mut terms, term);
                proof {
                    terms_of_stems(seen).to_multiset_ensures();
                }
            },
            None => {},
        }
        i += 1;
    }
    proof {
        assert(stems.deep_view().take(stems.len() as int) =~= stems.deep_view());
    }
    terms
}

/// The terms of a directory listing whose files a compaction into
/// `compact_term` has made obsolete: those less than `compact_term`.
pub fn stale_terms(terms: &Vec<u64>, compact_term: u64) -> (stale: Vec<u64>)
    ensures
        stale@ == terms_below(terms@, compact_term),
{
    let mut stale: Vec<u64> = Vec::new();
    let mut i: usize = 0;
    while i < terms.len()
        invariant
            i <= terms.len(),
            stale@ == terms_below(terms@.take(i as int), compact_term),
        decreases terms.len() - i,
    {
        proof {
            assert(terms@.take(i + 1).drop_last() =~= terms@.take(i as int));
        }
        if terms[i] < compact_term {
            stale.push(terms[i]);
        }
        i += 1;
    }
    proof {
        assert(terms@.take(terms.len() as int) =~= terms@);
    }
    stale
}

} // verus!
