//! The decisions the prompt and full-screen front ends make on raw user
//! input: mapping menu digits to priorities and statuses, validating
//! titles, reading ids, and moving the list selection. The front ends
//! themselves only read lines, call these, and render.

use crate::task_manager::{TaskPriority, TaskStatus};
use vstd::prelude::*;

verus! {

/// A character with Unicode's White_Space property, the set `str::trim`
/// strips.
pub open spec fn is_space(c: char) -> bool {
    let u = c as u32;
    (0x9 <= u && u <= 0xd) || u == 0x20 || u == 0x85 || u == 0xa0 || u == 0x1680 || (0x2000 <= u
        && u <= 0x200a) || u == 0x2028 || u == 0x2029 || u == 0x202f || u == 0x205f || u == 0x3000
}

/// Executable counterpart of [`is_space`].
fn is_space_char(c: char) -> (r: bool)
    ensures
        r == is_space(c),
{
    let u = c as u32;
    (0x9 <= u && u <= 0xd) || u == 0x20 || u == 0x85 || u == 0xa0 || u == 0x1680 || (0x2000 <= u
        && u <= 0x200a) || u == 0x2028 || u == 0x2029 || u == 0x202f || u == 0x205f || u == 0x3000
}

/// Whether a title survives trimming: it holds at least one character that
/// is not whitespace. Creation is refused on titles that do not.
pub fn title_is_valid(title: &str) -> (r: bool)
    ensures
        r == exists|k: int| 0 <= k < title@.len() && !is_space(title@[k]),
{
    let n = title.unicode_len();
    for i in 0..n
        invariant
            n == title@.len(),
            forall|k: int| 0 <= k < i ==> is_space(title@[k]),
    {
        if !is_space_char(title.get_char(i)) {
            return true;
        }
    }
    false
}

/// A decimal digit character.
pub open spec fn is_digit(c: char) -> bool {
    0x30 <= c as u32 && c as u32 <= 0x39
}

/// The numeric value of a digit character.
pub open spec fn digit_val(c: char) -> int {
    c as u32 - 0x30
}

/// The number a digit string denotes, most significant digit first.
pub open spec fn dec_val(s: Seq<char>) -> int
    decreases s.len(),
{
    if s.len() == 0 {
        0
    } else {
        dec_val(s.drop_last()) * 10 + digit_val(s.last())
    }
}

/// A digit string denotes a non-negative number.
proof fn lemma_dec_val_nonneg(s: Seq<char>)
    requires
        forall|k: int| 0 <= k < s.len() ==> is_digit(#[trigger] s[k]),
    ensures
        dec_val(s) >= 0,
    decreases s.len(),
{
    if s.len() > 0 {
        lemma_dec_val_nonneg(s.drop_last());
    }
}

/// Reading more digits never shrinks the value.
proof fn lemma_dec_val_prefix_le(s: Seq<char>, i: int, j: int)
    requires
        0 <= i <= j <= s.len(),
        forall|k: int| 0 <= k < s.len() ==> is_digit(#[trigger] s[k]),
    ensures
        dec_val(s.take(i)) <= dec_val(s.take(j)),
    decreases j - i,
{
    if i < j {
        lemma_dec_val_prefix_le(s, i, j - 1);
        let shorter = s.take(j - 1);
        let longer = s.take(j);
        assert(longer.drop_last() =~= shorter);
        assert(forall|k: int| 0 <= k < shorter.len() ==> is_digit(#[trigger] shorter[k]));
        lemma_dec_val_nonneg(shorter);
        assert(dec_val(longer) == dec_val(shorter) * 10 + digit_val(longer.last()));
    }
}

/// The digit part of a number the prompt accepts: an optional leading `+`
/// sign is dropped, the rest must be digits.
pub open spec fn unsigned_digits(s: Seq<char>) -> Seq<char> {
    if s.len() > 0 && s[0] == '+' {
        s.drop_first()
    } else {
        s
    }
}

/// Reads a task id exactly the way `u32` text is read elsewhere in Rust:
/// `Some` exactly when an optional leading `+` is followed by one or more
/// digits whose value fits in `u32`, and then the denoted value.
pub fn parse_u32_str(s: &str) -> (r: Option<u32>)
    ensures
        r matches Some(v) ==> unsigned_digits(s@).len() > 0 && (forall|k: int|
            0 <= k < unsigned_digits(s@).len() ==> is_digit(#[trigger] unsigned_digits(s@)[k]))
            && v as int == dec_val(unsigned_digits(s@)),
        (unsigned_digits(s@).len() > 0 && (forall|k: int|
            0 <= k < unsigned_digits(s@).len() ==> is_digit(#[trigger] unsigned_digits(s@)[k]))
            && dec_val(unsigned_digits(s@)) <= u32::MAX) ==> r is Some,
{
    let ghost d = unsigned_digits(s@);
    let n = s.unicode_len();
    let start: usize = if n > 0 && s.get_char(0) == '+' {
        1
    } else {
        0
    };
    proof {
        assert(d =~= s@.subrange(start as int, n as int));
    }
    if start >= n {
        return None;
    }
    let mut val: u64 = 0;
    let mut i = start;
    while i < n
        invariant
            n == s@.len(),
            d == unsigned_digits(s@),
            d =~= s@.subrange(start as int, n as int),
            start <= i <= n,
            forall|k: int| 0 <= k < i - start ==> is_digit(#[trigger] d[k]),
            val as int == dec_val(d.take(i - start)),
            val <= u32::MAX as u64,
        decreases n - i,
    {
        let c = s.get_char(i);
        let u = c as u32;
        if u < 0x30 || u > 0x39 {
            proof {
                assert(d[i - start] == s@[i as int]);
            }
            return None;
        }
        let nv = val * 10 + (u - 0x30) as u64;
        proof {
            assert(d.take(i + 1 - start).drop_last() =~= d.take(i - start));
            assert(d.take(i + 1 - start).last() == d[i - start]);
            assert(d[i - start] == s@[i as int]);
            assert(nv as int == dec_val(d.take(i + 1 - start)));
        }
        if nv > u32::MAX as u64 {
            proof {
                if forall|k: int| 0 <= k < d.len() ==> is_digit(#[trigger] d[k]) {
                    lemma_dec_val_prefix_le(d, i + 1 - start, d.len() as int);
                    assert(d.take(d.len() as int) =~= d);
                }
            }
            return None;
        }
        val = nv;
        i = i + 1;
    }
    proof {
        assert(d.take(n - start) =~= d);
    }
    Some(val as u32)
}

/// The priority a menu answer selects: `1`, `2`, `3` name `Low`, `Medium`,
/// `High`; anything else falls back to `Low`.
pub fn priority_from_choice(choice: &str) -> (r: TaskPriority)
    ensures
        choice@ == "1"@ ==> r == TaskPriority::Low,
        choice@ == "2"@ ==> r == TaskPriority::Medium,
        choice@ == "3"@ ==> r == TaskPriority::High,
        choice@ != "1"@ && choice@ != "2"@ && choice@ != "3"@ ==> r == TaskPriority::Low,
{
    proof {
        reveal_strlit("1");
        reveal_strlit("2");
        reveal_strlit("3");
    }
    let n = choice.unicode_len();
    if n != 1 {
        return TaskPriority::Low;
    }
    let c = choice.get_char(0);
    proof {
        assert(c == '1' ==> choice@ =~= "1"@);
        assert(c == '2' ==> choice@ =~= "2"@);
        assert(c == '3' ==> choice@ =~= "3"@);
    }
    if c == '2' {
        TaskPriority::Medium
    } else if c == '3' {
        TaskPriority::High
    } else {
        TaskPriority::Low
    }
}

/// The status a menu answer selects: `1`, `2`, `3` name `Todo`,
/// `InProgress`, `Done`; anything else selects nothing.
pub fn status_from_choice(choice: &str) -> (r: Option<TaskStatus>)
    ensures
        choice@ == "1"@ ==> r == Some(TaskStatus::Todo),
        choice@ == "2"@ ==> r == Some(TaskStatus::InProgress),
        choice@ == "3"@ ==> r == Some(TaskStatus::Done),
        choice@ != "1"@ && choice@ != "2"@ && choice@ != "3"@ ==> r is None,
{
    proof {
        reveal_strlit("1");
        reveal_strlit("2");
        reveal_strlit("3");
    }
    let n = choice.unicode_len();
    if n != 1 {
        return None;
    }
    let c = choice.get_char(0);
    proof {
        assert(c == '1' ==> choice@ =~= "1"@);
        assert(c == '2' ==> choice@ =~= "2"@);
        assert(c == '3' ==> choice@ =~= "3"@);
    }
    if c == '1' {
        Some(TaskStatus::Todo)
    } else if c == '2' {
        Some(TaskStatus::InProgress)
    } else if c == '3' {
        Some(TaskStatus::Done)
    } else {
        None
    }
}

/// Where the full-screen list's cursor lands after a "down" key, given the
/// current selection and how many rows the list shows.
pub fn selection_down(selected: Option<usize>, len: usize) -> (r: usize)
    ensures
        r as int == (match selected {
            Some(i) => if i == 0 {
                if len == 0 {
                    0int
                } else {
                    len - 1
                }
            } else {
                i - 1
            },
            None => 0int,
        }),
{
    match selected {
        Some(i) => {
            if i == 0 {
                if len == 0 {
                    0
                } else {
                    len - 1
                }
            } else {
                i - 1
            }
        },
        None => 0,
    }
}

/// Where the full-screen list's cursor lands after an "up" key.
pub fn selection_up(selected: Option<usize>, len: usize) -> (r: usize)
    requires
        len < usize::MAX,
        selected matches Some(i) ==> i <= len,
    ensures
        r as int == (match selected {
            Some(i) => if i == 0 {
                if len == 0 {
                    0int
                } else {
                    len + 1
                }
            } else {
                i + 1
            },
            None => 0int,
        }),
{
    match selected {
        Some(i) => {
            if i == 0 {
                if len == 0 {
                    0
                } else {
                    len + 1
                }
            } else {
                i + 1
            }
        },
        None => 0,
    }
}

} // verus!
