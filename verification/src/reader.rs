//! Fault-tolerant line-oriented integer parsing: each line is trimmed and
//! read as a base-10 signed 32-bit integer; malformed lines are skipped.

use vstd::prelude::*;
use vstd::string::*;

verus! {

/// ASCII whitespace: what trimming removes from the ends of a line.
pub open spec fn is_space(c: char) -> bool {
    c == ' ' || c == '\t' || c == '\n' || c == '\r' || c == '\u{000B}' || c == '\u{000C}'
}

/// A decimal digit.
pub open spec fn is_digit(c: char) -> bool {
    '0' as u32 <= c as u32 && c as u32 <= '9' as u32
}

/// The numeric value of one decimal digit.
pub open spec fn digit_val(c: char) -> nat
    recommends
        is_digit(c),
{
    (c as u32 - '0' as u32) as nat
}

/// The value of a run of decimal digits, most significant first.
pub open spec fn digits_val(s: Seq<char>) -> nat
    decreases s.len(),
{
    if s.len() == 0 {
        0
    } else {
        digits_val(s.drop_last()) * 10 + digit_val(s.last())
    }
}

/// Every character is a decimal digit.
pub open spec fn all_digits(s: Seq<char>) -> bool {
    forall|i: int| 0 <= i < s.len() ==> is_digit(#[trigger] s[i])
}

/// The sequence with its leading whitespace removed.
pub open spec fn trim_front(s: Seq<char>) -> Seq<char>
    decreases s.len(),
{
    if s.len() > 0 && is_space(s.first()) {
        trim_front(s.drop_first())
    } else {
        s
    }
}

/// The sequence with its trailing whitespace removed.
pub open spec fn trim_back(s: Seq<char>) -> Seq<char>
    decreases s.len(),
{
    if s.len() > 0 && is_space(s.last()) {
        trim_back(s.drop_last())
    } else {
        s
    }
}

/// The sequence with whitespace removed from both ends.
pub open spec fn trimmed(s: Seq<char>) -> Seq<char> {
    trim_back(trim_front(s))
}

/// A well-formed base-10 signed integer literal: an optional leading `-`,
/// then at least one digit and nothing else.
pub open spec fn is_int_literal(t: Seq<char>) -> bool {
    if t.len() > 0 && t[0] == '-' {
        t.len() > 1 && all_digits(t.skip(1))
    } else {
        t.len() > 0 && all_digits(t)
    }
}

/// The mathematical value of a well-formed integer literal.
pub open spec fn int_of(t: Seq<char>) -> int
    recommends
        is_int_literal(t),
{
    if t.len() > 0 && t[0] == '-' {
        -(digits_val(t.skip(1)) as int)
    } else {
        digits_val(t) as int
    }
}

/// What parsing a line yields: the value of the trimmed text when it is a
/// well-formed literal in the 32-bit signed range, and nothing otherwise.
pub open spec fn parsed_i32(s: Seq<char>) -> Option<i32> {
    let t = trimmed(s);
    if is_int_literal(t) && -2147483648 <= int_of(t) <= 2147483647 {
        Option::Some(int_of(t) as i32)
    } else {
        Option::None
    }
}

/// Removing a leading all-whitespace prefix, up to a non-space (or the
/// end), is exactly what `trim_front` does.
proof fn lemma_trim_front_skip(s: Seq<char>, lo: int)
    requires
        0 <= lo <= s.len(),
        forall|j: int| 0 <= j < lo ==> is_space(#[trigger] s[j]),
        lo == s.len() || !is_space(s[lo]),
    ensures
        trim_front(s) == s.skip(lo),
    decreases lo,
{
    if lo == 0 {
        assert(s.skip(0) =~= s);
    } else {
        assert(is_space(s.first()));
        let d = s.drop_first();
        assert forall|j: int| 0 <= j < lo - 1 implies is_space(#[trigger] d[j]) by {
            assert(d[j] == s[j + 1]);
        }
        lemma_trim_front_skip(d, lo - 1);
        assert(d.skip(lo - 1) =~= s.skip(lo));
    }
}

/// Keeping everything up to the last non-space (or nothing) is exactly
/// what `trim_back` does.
proof fn lemma_trim_back_take(s: Seq<char>, hi: int)
    requires
        0 <= hi <= s.len(),
        forall|j: int| hi <= j < s.len() ==> is_space(#[trigger] s[j]),
        hi == 0 || !is_space(s[hi - 1]),
    ensures
        trim_back(s) == s.take(hi),
    decreases s.len(),
{
    if hi == s.len() {
        assert(s.take(hi) =~= s);
        if s.len() > 0 {
            assert(!is_space(s.last()));
        }
    } else {
        assert(is_space(s.last()));
        let d = s.drop_last();
        lemma_trim_back_take(d, hi);
        assert(d.take(hi) =~= s.take(hi));
    }
}

/// A region free of whitespace at both ends, with only whitespace outside
/// it, is exactly the trimmed sequence.
proof fn lemma_trimmed_region(s: Seq<char>, lo: int, hi: int)
    requires
        0 <= lo <= hi <= s.len(),
        forall|j: int| 0 <= j < lo ==> is_space(#[trigger] s[j]),
        forall|j: int| hi <= j < s.len() ==> is_space(#[trigger] s[j]),
        lo == hi || (!is_space(s[lo]) && !is_space(s[hi - 1])),
    ensures
        trimmed(s) == s.subrange(lo, hi),
{
    if lo == hi {
        lemma_trim_front_skip(s, s.len() as int);
        assert(trim_front(s) =~= Seq::<char>::empty());
        lemma_trim_back_take(trim_front(s), 0);
        assert(s.subrange(lo, hi) =~= Seq::<char>::empty());
    } else {
        lemma_trim_front_skip(s, lo);
        let u = s.skip(lo);
        assert forall|j: int| hi - lo <= j < u.len() implies is_space(#[trigger] u[j]) by {
            assert(u[j] == s[j + lo]);
        }
        assert(u[hi - lo - 1] == s[hi - 1]);
        lemma_trim_back_take(u, hi - lo);
        assert(u.take(hi - lo) =~= s.subrange(lo, hi));
    }
}

/// The value of a digit run never shrinks when digits are appended.
proof fn lemma_digits_val_prefix(s: Seq<char>, j: int)
    requires
        0 <= j <= s.len(),
    ensures
        digits_val(s.take(j)) <= digits_val(s),
    decreases s.len(),
{
    if j == s.len() {
        assert(s.take(j) =~= s);
    } else {
        let d = s.drop_last();
        lemma_digits_val_prefix(d, j);
        assert(d.take(j) =~= s.take(j));
    }
}

/// Decides ASCII whitespace.
fn is_space_char(c: char) -> (r: bool)
    ensures
        r == is_space(c),
{
    c == ' ' || c == '\t' || c == '\n' || c == '\r' || c == '\u{000B}' || c == '\u{000C}'
}

/// Trims the line and reads it as a base-10 signed 32-bit integer:
/// `Some` exactly when the trimmed text is an optional `-` followed by one
/// or more digits and the value fits; `None` on anything else.
pub fn parse_i32(s: &str) -> (r: Option<i32>)
    ensures
        r == parsed_i32(s@),
{
    let n = s.unicode_len();
    let mut lo: usize = 0;
    while lo < n && is_space_char(s.get_char(lo))
        invariant
            lo <= n,
            n == s@.len(),
            forall|j: int| 0 <= j < lo ==> is_space(#[trigger] s@[j]),
        decreases n - lo,
    {
        lo += 1;
    }
    let mut hi: usize = n;
    while hi > lo && is_space_char(s.get_char(hi - 1))
        invariant
            lo <= hi <= n,
            n == s@.len(),
            forall|j: int| hi <= j < n ==> is_space(#[trigger] s@[j]),
        decreases hi,
    {
        hi -= 1;
    }
    proof {
        lemma_trimmed_region(s@, lo as int, hi as int);
    }
    let ghost t = trimmed(s@);
    if lo == hi {
        return Option::None;
    }
    let neg = s.get_char(lo) == '-';
    let start = if neg {
        lo + 1
    } else {
        lo
    };
    if start == hi {
        return Option::None;
    }
    let ghost dpart = s@.subrange(start as int, hi as int);
    proof {
        if neg {
            assert(t.skip(1) =~= dpart);
        } else {
            assert(t =~= dpart);
        }
    }
    let mut v: u64 = 0;
    let mut i: usize = start;
    while i < hi
        invariant
            start <= i <= hi,
            hi <= n,
            n == s@.len(),
            start < hi,
            lo <= start,
            t == trimmed(s@),
            t == s@.subrange(lo as int, hi as int),
            dpart == s@.subrange(start as int, hi as int),
            neg ==> start == lo + 1 && s@[lo as int] == '-',
            !neg ==> start == lo && s@[lo as int] != '-',
            neg ==> t.skip(1) == dpart,
            !neg ==> t == dpart,
            forall|j: int| start <= j < i ==> is_digit(#[trigger] s@[j]),
            v == digits_val(s@.subrange(start as int, i as int)),
            v <= 2147483648,
        decreases hi - i,
    {
        let c = s.get_char(i);
        let u = c as u32;
        if u < 48 || u > 57 {
            proof {
                assert(!is_digit(s@[i as int]));
                if neg {
                    assert(dpart[i - start] == s@[i as int]);
                    assert(!all_digits(t.skip(1)));
                } else {
                    assert(dpart[i - start] == s@[i as int]);
                    assert(!all_digits(t));
                }
            }
            return Option::None;
        }
        let d = (u - 48) as u64;
        proof {
            assert(is_digit(s@[i as int]));
            assert(d == digit_val(s@[i as int]));
            let p = s@.subrange(start as int, i as int);
            let p1 = s@.subrange(start as int, i as int + 1);
            assert(p1.drop_last() =~= p);
            assert(p1.last() == s@[i as int]);
        }
        let w = v * 10 + d;
        if w > 2147483648 {
            proof {
                if is_int_literal(t) {
                    assert(all_digits(dpart));
                    lemma_digits_val_prefix(dpart, i as int + 1 - start);
                    assert(dpart.take(i as int + 1 - start) =~= s@.subrange(
                        start as int,
                        i as int + 1,
                    ));
                    assert(digits_val(dpart) >= w);
                }
            }
            return Option::None;
        }
        v = w;
        i += 1;
    }
    proof {
        assert(s@.subrange(start as int, i as int) =~= dpart);
        assert(all_digits(dpart));
        assert(is_int_literal(t));
        assert(digits_val(dpart) == v);
    }
    if neg {
        if v == 2147483648 {
            Option::Some(i32::MIN)
        } else {
            Option::Some(-(v as i32))
        }
    } else {
        if v > 2147483647 {
            Option::None
        } else {
            Option::Some(v as i32)
        }
    }
}

/// The values of the lines that parse, in read order.
pub open spec fn parsed_values(lines: Seq<Seq<char>>) -> Seq<i32>
    decreases lines.len(),
{
    if lines.len() == 0 {
        Seq::empty()
    } else {
        parsed_values(lines.drop_last()) + match parsed_i32(lines.last()) {
            Option::Some(v) => seq![v],
            Option::None => Seq::empty(),
        }
    }
}

/// Reads every line as an integer, in order, skipping each line that does
/// not parse; one diagnostic notice is owed per skipped line, so the
/// caller owes `lines.len() - result.len()` notices.
pub fn read_all(lines: &Vec<String>) -> (r: Vec<i32>)
    ensures
        r@ == parsed_values(lines.deep_view()),
        r@.len() <= lines@.len(),
{
    let mut out: Vec<i32> = Vec::new();
    let mut i: usize = 0;
    while i < lines.len()
        invariant
            i <= lines@.len(),
            out@ == parsed_values(lines.deep_view().take(i as int)),
            out@.len() <= i,
        decreases lines@.len() - i,
    {
        let line: &String = &lines[i];
        match parse_i32(line.as_str()) {
            Option::Some(v) => out.push(v),
            Option::None => {},
        }
        proof {
            let full = lines.deep_view();
            assert(full.take(i as int + 1).drop_last() =~= full.take(i as int));
            assert(full.take(i as int + 1).last() == lines@[i as int]@);
        }
        i += 1;
    }
    proof {
        assert(lines.deep_view().take(lines@.len() as int) =~= lines.deep_view());
    }
    out
}

} // verus!
