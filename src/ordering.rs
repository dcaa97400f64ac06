use vstd::prelude::*;
use std::cmp::Ordering;

verus! {

/// The same comparison seen from the other side.
pub open spec fn flip(o: Ordering) -> Ordering {
    match o {
        Ordering::Less => Ordering::Greater,
        Ordering::Equal => Ordering::Equal,
        Ordering::Greater => Ordering::Less,
    }
}

pub open spec fn is_digit(c: char) -> bool {
    '0' <= c && c <= '9'
}

pub open spec fn digit_value(c: char) -> nat {
    (c as int - '0' as int) as nat
}

/// Orders two characters by their code points.
pub open spec fn char_order(x: char, y: char) -> Ordering {
    if x < y {
        Ordering::Less
    } else if y < x {
        Ordering::Greater
    } else {
        Ordering::Equal
    }
}

/// Lexicographic order of `a` and `b` from position `i` on.
pub open spec fn lex_from(a: Seq<char>, b: Seq<char>, i: int) -> Ordering
    decreases a.len() - i,
{
    if i >= a.len() && i >= b.len() {
        Ordering::Equal
    } else if i >= a.len() {
        Ordering::Less
    } else if i >= b.len() {
        Ordering::Greater
    } else if a[i] != b[i] {
        char_order(a[i], b[i])
    } else {
        lex_from(a, b, i + 1)
    }
}

/// Plain name order: character by character, a proper prefix first.
pub open spec fn lex_order(a: Seq<char>, b: Seq<char>) -> Ordering {
    lex_from(a, b, 0)
}

/// Length of the run of ASCII digits that starts at position `i` of `s`.
pub open spec fn digit_run(s: Seq<char>, i: int) -> nat
    decreases s.len() - i,
{
    if 0 <= i < s.len() && is_digit(s[i]) {
        1 + digit_run(s, i + 1)
    } else {
        0
    }
}

/// Value of the `k` decimal digits of `s` that start at position `i`.
pub open spec fn digits_value(s: Seq<char>, i: int, k: nat) -> nat
    decreases k,
{
    if k == 0 {
        0
    } else {
        digits_value(s, i, (k - 1) as nat) * 10 + digit_value(s[i + k - 1])
    }
}

/// The number that the run of digits at position `i` stands for (leading
/// zeros do not count; the run may be of any length).
pub open spec fn run_number(s: Seq<char>, i: int) -> nat {
    digits_value(s, i, digit_run(s, i))
}

/// Orders two numbers.
pub open spec fn number_order(x: int, y: int) -> Ordering {
    if x < y {
        Ordering::Less
    } else if x > y {
        Ordering::Greater
    } else {
        Ordering::Equal
    }
}

pub open spec fn rest_len(s: Seq<char>, i: int) -> nat {
    if i < s.len() {
        (s.len() - i) as nat
    } else {
        0
    }
}

/// Natural order of `a` from position `i` and `b` from position `j` on:
/// where both hold a digit, the two runs of digits are compared by value;
/// elsewhere the characters are compared one by one.
pub open spec fn natural_from(a: Seq<char>, b: Seq<char>, i: int, j: int) -> Ordering
    decreases rest_len(a, i) + rest_len(b, j),
{
    if i >= a.len() && j >= b.len() {
        Ordering::Equal
    } else if i >= a.len() {
        Ordering::Less
    } else if j >= b.len() {
        Ordering::Greater
    } else if 0 <= i && 0 <= j && is_digit(a[i]) && is_digit(b[j]) {
        let x = run_number(a, i);
        let y = run_number(b, j);
        if x < y {
            Ordering::Less
        } else if x > y {
            Ordering::Greater
        } else {
            natural_from(a, b, i + digit_run(a, i), j + digit_run(b, j))
        }
    } else if a[i] != b[j] {
        char_order(a[i], b[j])
    } else {
        natural_from(a, b, i + 1, j + 1)
    }
}

/// Natural (zero-suppressed numeric) order of two names.
pub open spec fn natural_order(a: Seq<char>, b: Seq<char>) -> Ordering {
    natural_from(a, b, 0, 0)
}


/// Swapping the arguments of the name order flips its result.
pub proof fn lemma_lex_flip(a: Seq<char>, b: Seq<char>, i: int)
    ensures
        lex_from(b, a, i) == flip(lex_from(a, b, i)),
    decreases a.len() - i,
{
    if i < a.len() && i < b.len() && a[i] == b[i] {
        lemma_lex_flip(a, b, i + 1);
    }
}

/// Swapping the arguments of the natural order flips its result.
pub proof fn lemma_natural_flip(a: Seq<char>, b: Seq<char>, i: int, j: int)
    ensures
        natural_from(b, a, j, i) == flip(natural_from(a, b, i, j)),
    decreases rest_len(a, i) + rest_len(b, j),
{
    if i < a.len() && j < b.len() {
        if 0 <= i && 0 <= j && is_digit(a[i]) && is_digit(b[j]) {
            if run_number(a, i) == run_number(b, j) {
                lemma_natural_flip(a, b, i + digit_run(a, i), j + digit_run(b, j));
            }
        } else if a[i] == b[j] {
            lemma_natural_flip(a, b, i + 1, j + 1);
        }
    }
}

/// Compares two names character by character (the order of `str`).
pub fn name_compare(a: &str, b: &str) -> (r: Ordering)
    ensures
        r == lex_order(a@, b@),
{
    let la = a.unicode_len();
    let lb = b.unicode_len();
    let mut i: usize = 0;
    while i < la && i < lb
        invariant
            la == a@.len(),
            lb == b@.len(),
            i <= la,
            i <= lb,
            lex_order(a@, b@) == lex_from(a@, b@, i as int),
        decreases la - i,
    {
        let ca = a.get_char(i);
        let cb = b.get_char(i);
        if ca < cb {
            return Ordering::Less;
        } else if cb < ca {
            return Ordering::Greater;
        }
        i = i + 1;
    }
    if i >= la && i >= lb {
        Ordering::Equal
    } else if i >= la {
        Ordering::Less
    } else {
        Ordering::Greater
    }
}

/// The position just past the run of ASCII digits of `s` that starts at
/// `start`.
pub fn digit_run_end(s: &str, start: usize) -> (r: usize)
    requires
        start <= s@.len(),
    ensures
        r == start + digit_run(s@, start as int),
        r <= s@.len(),
{
    let n = s.unicode_len();
    let mut i: usize = start;
    while i < n && is_ascii_digit(s.get_char(i))
        invariant
            n == s@.len(),
            start <= i <= n,
            digit_run(s@, start as int) == (i - start) + digit_run(s@, i as int),
        decreases n - i,
    {
        i = i + 1;
    }
    i
}

/// Digit `t` of the run `s[i..i + len]` written with `width - len` leading
/// zeros.
fn padded_digit(s: &str, i: usize, len: usize, width: usize, t: usize) -> (d: u32)
    requires
        len <= width,
        t < width,
        i + len <= s@.len(),
        i + len <= usize::MAX,
        forall|k: int| i <= k < i + len ==> is_digit(#[trigger] s@[k]),
    ensures
        t < width - len ==> d == 0,
        t >= width - len ==> d == digit_value(s@[i + t - (width - len)]),
        d <= 9,
{
    if t < width - len {
        0
    } else {
        let c = s.get_char(i + (t - (width - len)));
        c as u32 - '0' as u32
    }
}

/// Compares the numbers that the runs of digits of `a` at `i` and of `b` at
/// `j` stand for, by their full value; returns the order and the positions
/// just past the two runs.
pub fn compare_digit_runs(a: &str, i: usize, b: &str, j: usize) -> (r: (Ordering, usize, usize))
    requires
        i <= a@.len(),
        j <= b@.len(),
    ensures
        r.0 == number_order(run_number(a@, i as int) as int, run_number(b@, j as int) as int),
        r.1 == i + digit_run(a@, i as int),
        r.2 == j + digit_run(b@, j as int),
        r.1 <= a@.len(),
        r.2 <= b@.len(),
{
    let ea = digit_run_end(a, i);
    let eb = digit_run_end(b, j);
    proof {
        lemma_run_digits(a@, i as int);
        lemma_run_digits(b@, j as int);
    }
    let la = ea - i;
    let lb = eb - j;
    let width = if la < lb {
        lb
    } else {
        la
    };
    let ghost pa: int = (width - la) as int;
    let ghost pb: int = (width - lb) as int;
    let ghost mut va: int = 0;
    let ghost mut vb: int = 0;
    let mut ord = Ordering::Equal;
    let mut t: usize = 0;
    while t < width
        invariant
            la == digit_run(a@, i as int),
            lb == digit_run(b@, j as int),
            la <= width,
            lb <= width,
            i + la <= a@.len(),
            j + lb <= b@.len(),
            i + la == ea,
            j + lb == eb,
            forall|k: int| i <= k < i + la ==> is_digit(#[trigger] a@[k]),
            forall|k: int| j <= k < j + lb ==> is_digit(#[trigger] b@[k]),
            pa == width - la,
            pb == width - lb,
            t <= width,
            va == if t <= pa {
                0
            } else {
                digits_value(a@, i as int, (t - pa) as nat) as int
            },
            vb == if t <= pb {
                0
            } else {
                digits_value(b@, j as int, (t - pb) as nat) as int
            },
            va >= 0,
            vb >= 0,
            ord == number_order(va, vb),
        decreases width - t,
    {
        let da = padded_digit(a, i, la, width, t);
        let db = padded_digit(b, j, lb, width, t);
        if matches!(ord, Ordering::Equal) {
            ord = if da < db {
                Ordering::Less
            } else if da > db {
                Ordering::Greater
            } else {
                Ordering::Equal
            };
        }
        proof {
            if t >= pa {
                assert(digits_value(a@, i as int, (t + 1 - pa) as nat) == digits_value(
                    a@,
                    i as int,
                    (t - pa) as nat,
                ) * 10 + digit_value(a@[i + t - pa]));
            }
            if t >= pb {
                assert(digits_value(b@, j as int, (t + 1 - pb) as nat) == digits_value(
                    b@,
                    j as int,
                    (t - pb) as nat,
                ) * 10 + digit_value(b@[j + t - pb]));
            }
            va = va * 10 + da;
            vb = vb * 10 + db;
        }
        t = t + 1;
    }
    (ord, ea, eb)
}

/// Every character of the run of digits at `i` is a digit, and the run lies
/// within `s`.
proof fn lemma_run_digits(s: Seq<char>, i: int)
    requires
        0 <= i <= s.len(),
    ensures
        i + digit_run(s, i) <= s.len(),
        forall|k: int| i <= k < i + digit_run(s, i) ==> is_digit(#[trigger] s[k]),
    decreases s.len() - i,
{
    if i < s.len() && is_digit(s[i]) {
        lemma_run_digits(s, i + 1);
    }
}

fn is_ascii_digit(c: char) -> (r: bool)
    ensures
        r == is_digit(c),
{
    '0' <= c && c <= '9'
}

/// Compares two names in natural order: runs of digits are compared by their
/// numeric value (leading zeros do not count), other characters one by one.
pub fn natural_sort_compare(a: &str, b: &str) -> (r: Ordering)
    ensures
        r == natural_order(a@, b@),
{
    let la = a.unicode_len();
    let lb = b.unicode_len();
    let mut i: usize = 0;
    let mut j: usize = 0;
    loop
        invariant
            la == a@.len(),
            lb == b@.len(),
            i <= la,
            j <= lb,
            natural_order(a@, b@) == natural_from(a@, b@, i as int, j as int),
        decreases rest_len(a@, i as int) + rest_len(b@, j as int),
    {
        if i >= la && j >= lb {
            return Ordering::Equal;
        } else if i >= la {
            return Ordering::Less;
        } else if j >= lb {
            return Ordering::Greater;
        }
        let ca = a.get_char(i);
        let cb = b.get_char(j);
        if is_ascii_digit(ca) && is_ascii_digit(cb) {
            let (order, ni, nj) = compare_digit_runs(a, i, b, j);
            if !matches!(order, Ordering::Equal) {
                return order;
            }
            i = ni;
            j = nj;
        } else if ca < cb {
            return Ordering::Less;
        } else if cb < ca {
            return Ordering::Greater;
        } else {
            i = i + 1;
            j = j + 1;
        }
    }
}

} // verus!
