//! What may stand between the brackets of one character class.
//!
//! A class is written as its interior between `[` and `]`. An interior that
//! closes that bracket itself, as `a]` does, is no interior: the text after
//! the closing bracket would be a pattern of its own. The scan below follows
//! the brackets through an interior the way the class syntax reads them.

use vstd::prelude::*;
use vstd::string::*;

verus! {

/// The number of characters from `i` up to the first `}`, that brace
/// counted in, or up to the end where there is none.
pub open spec fn braced(s: Seq<char>, i: int) -> nat
    decreases s.len() - i,
{
    if i < 0 || i >= s.len() {
        0
    } else if s[i] == '}' {
        1
    } else {
        1 + braced(s, i + 1)
    }
}

/// The lesser of `i` and the length of `s`.
pub open spec fn within(s: Seq<char>, i: int) -> int {
    if i < s.len() {
        i
    } else {
        s.len() as int
    }
}

/// The place after the digits of a code point that begin at `i`: all up to
/// a closing brace where they stand in braces, and else `n` characters.
pub open spec fn digits_end(s: Seq<char>, i: int, n: int) -> int {
    if i < s.len() && s[i] == '{' {
        within(s, i + 1 + braced(s, i + 1))
    } else {
        within(s, i + n)
    }
}

/// The place after the escape whose backslash stands at `i`. Most escapes
/// are the backslash and one character; a code point (`\x`, `\u`, `\U`) and
/// a property (`\p`, `\P`) take their digits or their name with them.
pub open spec fn escape_end(s: Seq<char>, i: int) -> int {
    if i + 1 >= s.len() {
        s.len() as int
    } else if s[i + 1] == 'x' {
        digits_end(s, i + 2, 2)
    } else if s[i + 1] == 'u' {
        digits_end(s, i + 2, 4)
    } else if s[i + 1] == 'U' {
        digits_end(s, i + 2, 8)
    } else if s[i + 1] == 'p' || s[i + 1] == 'P' {
        digits_end(s, i + 2, 1)
    } else {
        i + 2
    }
}

/// The place after the one character or escape that begins at `i`.
pub open spec fn item_end(s: Seq<char>, i: int) -> int {
    if s[i] == '\\' {
        escape_end(s, i)
    } else {
        i + 1
    }
}

/// The place after what may follow an opening bracket, where `i` is the
/// place after the bracket: a `^`, and then one `]`, which is a literal
/// there.
pub open spec fn opened(s: Seq<char>, i: int) -> int {
    let j = if i < s.len() && s[i] == '^' {
        i + 1
    } else {
        i
    };
    if j < s.len() && s[j] == ']' {
        j + 1
    } else {
        j
    }
}

/// One of the operators `&&`, `--` and `~~` begins at `i`.
pub open spec fn operator_at(s: Seq<char>, i: int) -> bool {
    i + 1 < s.len() && s[i] == s[i + 1] && (s[i] == '&' || s[i] == '-' || s[i] == '~')
}

/// A range goes on at `j`, the place after its first end: a `-` stands
/// there, and what follows is neither a second `-` nor the `]` that closes
/// the class. A `-` at the very end of the interior has that `]` behind it.
pub open spec fn range_at(s: Seq<char>, j: int) -> bool {
    j + 1 < s.len() && s[j] == '-' && s[j + 1] != ']' && s[j + 1] != '-'
}

/// From `i` on, inside `depth` nested classes, no `]` closes the outermost
/// class. A `[` opens a nested class and a `]` closes the innermost one;
/// the second end of a range is a literal whatever it is, and so is what a
/// backslash escapes.
pub open spec fn stays_open(s: Seq<char>, i: int, depth: nat) -> bool
    decreases s.len() - i,
{
    if i < 0 || i >= s.len() {
        true
    } else if s[i] == ']' {
        depth > 0 && stays_open(s, i + 1, (depth - 1) as nat)
    } else if s[i] == '[' {
        stays_open(s, opened(s, i + 1), depth + 1)
    } else if operator_at(s, i) {
        stays_open(s, i + 2, depth)
    } else {
        let j = item_end(s, i);
        if range_at(s, j) {
            stays_open(s, item_end(s, j + 1), depth)
        } else {
            stays_open(s, j, depth)
        }
    }
}

/// Whether `interior` can stand between the brackets of one class: no
/// closing bracket ends the class before the end of the interior.
pub open spec fn one_class(interior: Seq<char>) -> bool {
    stays_open(interior, opened(interior, 0), 0)
}

/// The characters of `s`, one by one.
fn chars_of(s: &str) -> (cs: Vec<char>)
    ensures
        cs@ == s@,
{
    let n: usize = s.unicode_len();
    let mut cs: Vec<char> = Vec::new();
    let mut i: usize = 0;
    while i < n
        invariant
            i <= n,
            n == s@.len(),
            cs@ == s@.take(i as int),
        decreases n - i,
    {
        cs.push(s.get_char(i));
        i = i + 1;
        proof {
            assert(s@.take(i as int) =~= s@.take(i - 1).push(s@[i - 1]));
        }
    }
    proof {
        assert(s@.take(n as int) =~= s@);
    }
    cs
}

/// The place after the first `}` at or after `from`, or the end.
fn count_braced(cs: &Vec<char>, from: usize) -> (end: usize)
    requires
        from <= cs@.len(),
    ensures
        end == within(cs@, from + braced(cs@, from as int)),
        from <= end <= cs@.len(),
{
    let n: usize = cs.len();
    let mut k: usize = from;
    while k < n && cs[k] != '}'
        invariant
            n == cs@.len(),
            from <= k <= n,
            from + braced(cs@, from as int) == k + braced(cs@, k as int),
        decreases n - k,
    {
        k = k + 1;
    }
    if k < n {
        k + 1
    } else {
        n
    }
}

/// The place after the digits that begin at `i`.
fn end_of_digits(cs: &Vec<char>, i: usize, n: usize) -> (end: usize)
    requires
        i <= cs@.len(),
        0 < n <= 8,
    ensures
        end == digits_end(cs@, i as int, n as int),
        i <= end <= cs@.len(),
        i < cs@.len() ==> i < end,
{
    let len: usize = cs.len();
    if i < len && cs[i] == '{' {
        count_braced(cs, i + 1)
    } else if n <= len && i <= len - n {
        i + n
    } else {
        len
    }
}

/// The place after the escape whose backslash stands at `i`.
fn end_of_escape(cs: &Vec<char>, i: usize) -> (end: usize)
    requires
        i < cs@.len(),
    ensures
        end == escape_end(cs@, i as int),
        i < end <= cs@.len(),
{
    let len: usize = cs.len();
    if i + 1 >= len {
        len
    } else {
        let c = cs[i + 1];
        if c == 'x' {
            end_of_digits(cs, i + 2, 2)
        } else if c == 'u' {
            end_of_digits(cs, i + 2, 4)
        } else if c == 'U' {
            end_of_digits(cs, i + 2, 8)
        } else if c == 'p' || c == 'P' {
            end_of_digits(cs, i + 2, 1)
        } else {
            i + 2
        }
    }
}

/// The place after the character or escape that begins at `i`.
fn end_of_item(cs: &Vec<char>, i: usize) -> (end: usize)
    requires
        i < cs@.len(),
    ensures
        end == item_end(cs@, i as int),
        i < end <= cs@.len(),
{
    let len: usize = cs.len();
    if cs[i] == '\\' {
        end_of_escape(cs, i)
    } else if i + 1 < len {
        i + 1
    } else {
        len
    }
}

/// The place after what may follow an opening bracket.
fn after_opening(cs: &Vec<char>, i: usize) -> (end: usize)
    requires
        i <= cs@.len(),
    ensures
        end == opened(cs@, i as int),
        i <= end <= cs@.len(),
{
    let len: usize = cs.len();
    let j: usize = if i < len && cs[i] == '^' {
        i + 1
    } else {
        i
    };
    if j < len && cs[j] == ']' {
        j + 1
    } else {
        j
    }
}

/// Whether `interior` can stand between the brackets of one class.
pub fn is_one_class(interior: &str) -> (yes: bool)
    ensures
        yes == one_class(interior@),
{
    let cs = chars_of(interior);
    let n: usize = cs.len();
    let mut i: usize = after_opening(&cs, 0);
    let mut depth: usize = 0;
    while i < n
        invariant
            n == cs@.len(),
            cs@ == interior@,
            i <= n,
            depth <= i,
            one_class(interior@) == stays_open(cs@, i as int, depth as nat),
        decreases n - i,
    {
        let c = cs[i];
        if c == ']' {
            if depth == 0 {
                return false;
            }
            depth = depth - 1;
            i = i + 1;
        } else if c == '[' {
            depth = depth + 1;
            i = after_opening(&cs, i + 1);
        } else if i + 1 < n && cs[i + 1] == c && (c == '&' || c == '-' || c == '~') {
            i = i + 2;
        } else {
            let j = end_of_item(&cs, i);
            if j < n && cs[j] == '-' && j + 1 < n && cs[j + 1] != ']' && cs[j + 1] != '-' {
                i = end_of_item(&cs, j + 1);
            } else {
                i = j;
            }
        }
    }
    true
}

} // verus!
