//! The checkpoint of a run: the number of input lines that earlier runs
//! have consumed, kept as a decimal number in a text file.

use vstd::prelude::*;
use crate::text::{trimmed, chars_of, trim_bounds};

verus! {

/// Whether `c` is a decimal digit.
pub open spec fn is_digit(c: char) -> bool {
    '0' <= c <= '9'
}

/// The value of a decimal digit, and zero for any other character.
pub open spec fn digit_value(c: char) -> nat {
    if is_digit(c) {
        (c as u32 - '0' as u32) as nat
    } else {
        0
    }
}

/// Whether `s` is made of decimal digits only.
pub open spec fn all_digits(s: Seq<char>) -> bool {
    forall|i: int| 0 <= i < s.len() ==> is_digit(#[trigger] s[i])
}

/// The number that the digits of `s` write in base ten.
pub open spec fn decimal(s: Seq<char>) -> nat
    decreases s.len(),
{
    if s.len() == 0 {
        0
    } else {
        decimal(s.drop_last()) * 10 + digit_value(s.last())
    }
}

/// `s` without a leading plus sign.
pub open spec fn unsigned(s: Seq<char>) -> Seq<char> {
    if s.len() > 0 && s[0] == '+' {
        s.drop_first()
    } else {
        s
    }
}

/// The number that a stored text holds: white space around it and a plus
/// sign before it are allowed; nothing for a text that is no number or
/// whose number does not fit the machine's range.
pub open spec fn stored_number(text: Seq<char>) -> Option<nat> {
    let digits = unsigned(trimmed(text));
    if digits.len() > 0 && all_digits(digits) && decimal(digits) <= usize::MAX {
        Some(decimal(digits))
    } else {
        None
    }
}

/// The checkpoint that a stored text stands for: the number in it, and
/// zero for a text that holds none.
pub open spec fn checkpoint_of(text: Seq<char>) -> nat {
    match stored_number(text) {
        Some(n) => n,
        None => 0,
    }
}

/// Why no checkpoint could be loaded.
#[derive(Debug, Clone, Copy, PartialEq, Eq, Structural)]
pub enum CheckpointLoadError {
    /// Nothing is stored.
    Missing,
    /// What is stored is no number.
    Corrupt,
}

/// What loading a checkpoint gives, from what is stored.
pub open spec fn loaded(stored: Option<Seq<char>>) -> Result<nat, CheckpointLoadError> {
    match stored {
        None => Err(CheckpointLoadError::Missing),
        Some(text) => match stored_number(text) {
            Some(n) => Ok(n),
            None => Err(CheckpointLoadError::Corrupt),
        },
    }
}

/// A number never gets smaller when digits are appended.
pub proof fn lemma_decimal_grows(s: Seq<char>, n: int)
    requires
        0 <= n <= s.len(),
    ensures
        decimal(s.take(n)) <= decimal(s),
    decreases s.len() - n,
{
    if n < s.len() {
        lemma_decimal_grows(s, n + 1);
        assert(s.take(n + 1).drop_last() =~= s.take(n));
    } else {
        assert(s.take(n) =~= s);
    }
}

/// The number that a stored text holds.
pub fn read_number(text: &str) -> (n: Option<usize>)
    ensures
        match n {
            Some(v) => stored_number(text@) == Some(v as nat),
            None => stored_number(text@) is None,
        },
{
    let chars = chars_of(text);
    let bounds = trim_bounds(&chars);
    let end = bounds.1;
    let start = if bounds.0 < end && chars[bounds.0] == '+' { bounds.0 + 1 } else { bounds.0 };
    let ghost digits = chars@.subrange(start as int, end as int);
    proof {
        let body = chars@.subrange(bounds.0 as int, end as int);
        if bounds.0 < end {
            assert(body[0] == chars@[bounds.0 as int]);
            assert(body.drop_first() =~= chars@.subrange(bounds.0 + 1, end as int));
        }
        assert(digits == unsigned(trimmed(text@)));
        assert(digits.take(0) =~= Seq::<char>::empty());
    }
    if start == end {
        return None;
    }
    let mut value: usize = 0;
    let mut i: usize = start;
    while i < end
        invariant
            start <= i <= end <= chars@.len(),
            digits == chars@.subrange(start as int, end as int),
            digits == unsigned(trimmed(text@)),
            all_digits(digits.take(i - start)),
            value == decimal(digits.take(i - start)),
        decreases end - i,
    {
        let c = chars[i];
        proof {
            let k = i - start;
            assert(digits[k] == c);
            assert(digits.take(k + 1).drop_last() =~= digits.take(k));
            assert(digits.take(k + 1).last() == c);
            lemma_decimal_grows(digits, k + 1);
        }
        if !('0' <= c && c <= '9') {
            return None;
        }
        let d = (c as u32 - '0' as u32) as usize;
        let next = match value.checked_mul(10) {
            Some(tens) => tens.checked_add(d),
            None => None,
        };
        match next {
            Some(v) => { value = v; },
            None => { return None; },
        }
        i = i + 1;
    }
    proof {
        assert(digits.take(digits.len() as int) =~= digits);
    }
    Some(value)
}

/// The model of what is stored.
pub open spec fn stored_view(stored: Option<&str>) -> Option<Seq<char>> {
    match stored {
        Some(text) => Some(text@),
        None => None,
    }
}

/// The model of what loading gave.
pub open spec fn loaded_view(r: Result<usize, CheckpointLoadError>) -> Result<nat, CheckpointLoadError> {
    match r {
        Ok(n) => Ok(n as nat),
        Err(e) => Err(e),
    }
}

/// Loads the checkpoint from what is stored, if anything is.
pub fn load_checkpoint(stored: Option<&str>) -> (r: Result<usize, CheckpointLoadError>)
    ensures
        loaded_view(r) == loaded(stored_view(stored)),
{
    match stored {
        None => Err(CheckpointLoadError::Missing),
        Some(text) => match read_number(text) {
            Some(n) => Ok(n),
            None => Err(CheckpointLoadError::Corrupt),
        },
    }
}

/// Reads a stored checkpoint. A text that holds no number gives zero: a
/// checkpoint that cannot be read is no reason to fail.
pub fn parse_checkpoint(text: &str) -> (n: usize)
    ensures
        n == checkpoint_of(text@),
{
    match read_number(text) {
        Some(n) => n,
        None => 0,
    }
}

/// The line at which a run starts: the stored checkpoint if the run is to
/// resume and one can be loaded, the first line otherwise.
pub fn resume_offset(resume: bool, stored: Option<&str>) -> (skip: usize)
    ensures
        skip == match stored {
            Some(text) => if resume { checkpoint_of(text@) } else { 0 },
            None => 0,
        },
{
    if !resume {
        return 0;
    }
    match load_checkpoint(stored) {
        Ok(n) => n,
        Err(_) => 0,
    }
}

/// The checkpoint to store after a run that skipped `skip` lines of a file
/// of `lines` lines: the lines consumed so far, by this run and by those
/// before it.
pub fn next_checkpoint(skip: usize, lines: usize) -> (n: usize)
    ensures
        n == if skip <= lines { lines } else { skip },
{
    if skip <= lines { lines } else { skip }
}

} // verus!
