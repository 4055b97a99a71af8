//! Text helpers: decimal rendering of integers and the flags stored as `0`/`1`.

use vstd::prelude::*;
use vstd::string::{StrSliceExecFns, StringExecFns};

verus! {

/// The character that stands for the decimal digit `d`.
pub open spec fn digit_char(d: int) -> char {
    if d == 0 {
        '0'
    } else if d == 1 {
        '1'
    } else if d == 2 {
        '2'
    } else if d == 3 {
        '3'
    } else if d == 4 {
        '4'
    } else if d == 5 {
        '5'
    } else if d == 6 {
        '6'
    } else if d == 7 {
        '7'
    } else if d == 8 {
        '8'
    } else {
        '9'
    }
}

/// Decimal digits of a natural number, most significant first, without
/// leading zeros (`0` itself is the single digit `0`).
pub open spec fn decimal_digits(n: nat) -> Seq<char>
    decreases n,
{
    if n < 10 {
        seq![digit_char(n as int)]
    } else {
        decimal_digits(n / 10).push(digit_char((n % 10) as int))
    }
}

/// Decimal text of an integer: a minus sign for negative values, then the
/// digits of its magnitude.
pub open spec fn decimal(n: int) -> Seq<char> {
    if n < 0 {
        seq!['-'] + decimal_digits((-n) as nat)
    } else {
        decimal_digits(n as nat)
    }
}

/// Text of a boolean as the store keeps it: `1` for true, `0` for false.
pub open spec fn flag_text(b: bool) -> Seq<char> {
    if b {
        seq!['1']
    } else {
        seq!['0']
    }
}

fn push_digit(s: &mut String, d: u64)
    requires
        d < 10,
    ensures
        final(s)@ == old(s)@.push(digit_char(d as int)),
{
    proof {
        reveal_strlit("0");
        reveal_strlit("1");
        reveal_strlit("2");
        reveal_strlit("3");
        reveal_strlit("4");
        reveal_strlit("5");
        reveal_strlit("6");
        reveal_strlit("7");
        reveal_strlit("8");
        reveal_strlit("9");
    }
    let ghost before = s@;
    let digit: &str = if d == 0 {
        "0"
    } else if d == 1 {
        "1"
    } else if d == 2 {
        "2"
    } else if d == 3 {
        "3"
    } else if d == 4 {
        "4"
    } else if d == 5 {
        "5"
    } else if d == 6 {
        "6"
    } else if d == 7 {
        "7"
    } else if d == 8 {
        "8"
    } else {
        "9"
    };
    assert(digit@ =~= seq![digit_char(d as int)]);
    s.append(digit);
    assert(s@ =~= before.push(digit_char(d as int)));
}

fn push_decimal_digits(s: &mut String, n: u64)
    ensures
        final(s)@ == old(s)@ + decimal_digits(n as nat),
    decreases n,
{
    if n >= 10 {
        push_decimal_digits(s, n / 10);
    }
    push_digit(s, n % 10);
    assert(s@ =~= old(s)@ + decimal_digits(n as nat));
}

/// Appends the decimal text of `n` to `s`.
pub fn push_decimal(s: &mut String, n: i64)
    ensures
        final(s)@ == old(s)@ + decimal(n as int),
{
    if n < 0 {
        let magnitude: u64 = (-(n + 1)) as u64 + 1;
        proof {
            reveal_strlit("-");
        }
        s.append("-");
        push_decimal_digits(s, magnitude);
        assert(s@ =~= old(s)@ + decimal(n as int));
    } else {
        push_decimal_digits(s, n as u64);
    }
}

/// The decimal text of `n` as a new string.
pub fn decimal_string(n: i64) -> (r: String)
    ensures
        r@ == decimal(n as int),
{
    let mut s = String::new();
    push_decimal(&mut s, n);
    assert(s@ =~= decimal(n as int));
    s
}

/// The text of a flag as a new string.
pub fn flag_string(b: bool) -> (r: String)
    ensures
        r@ == flag_text(b),
{
    proof {
        reveal_strlit("1");
        reveal_strlit("0");
    }
    let r = if b {
        String::from_str("1")
    } else {
        String::from_str("0")
    };
    assert(r@ =~= flag_text(b));
    r
}

/// `a` comes before `b` because of position `k`: the two agree before `k`,
/// and there `a` has ended while `b` goes on, or `a` has the smaller character.
pub open spec fn precedes_at(a: Seq<char>, b: Seq<char>, k: int) -> bool {
    &&& 0 <= k <= a.len()
    &&& k < b.len()
    &&& forall|j: int| 0 <= j < k ==> a[j] == b[j]
    &&& (k == a.len() || a[k] < b[k])
}

/// Lexicographic order of texts by character code: the order in which
/// timestamps of one zero-padded format sort chronologically.
pub open spec fn text_lt(a: Seq<char>, b: Seq<char>) -> bool {
    exists|k: int| precedes_at(a, b, k)
}

/// `a` is `b` or comes before it.
pub open spec fn text_le(a: Seq<char>, b: Seq<char>) -> bool {
    a == b || text_lt(a, b)
}

/// No text comes before itself.
pub proof fn lemma_text_lt_irreflexive(a: Seq<char>)
    ensures
        !text_lt(a, a),
{
    assert forall|k: int| !precedes_at(a, a, k) by {}
}

/// The order is transitive.
pub proof fn lemma_text_lt_transitive(a: Seq<char>, b: Seq<char>, c: Seq<char>)
    requires
        text_lt(a, b),
        text_lt(b, c),
    ensures
        text_lt(a, c),
{
    let k1 = choose|k: int| precedes_at(a, b, k);
    let k2 = choose|k: int| precedes_at(b, c, k);
    let k = if k1 <= k2 {
        k1
    } else {
        k2
    };
    assert(precedes_at(a, c, k));
}

proof fn lemma_text_order_total_from(a: Seq<char>, b: Seq<char>, k: int)
    requires
        0 <= k <= a.len(),
        k <= b.len(),
        forall|j: int| 0 <= j < k ==> a[j] == b[j],
    ensures
        text_lt(a, b) || a == b || text_lt(b, a),
    decreases a.len() - k,
{
    if k == a.len() {
        if k == b.len() {
            assert(a =~= b);
        } else {
            assert(precedes_at(a, b, k));
        }
    } else if k == b.len() {
        assert(precedes_at(b, a, k));
    } else if a[k] == b[k] {
        lemma_text_order_total_from(a, b, k + 1);
    } else if a[k] < b[k] {
        assert(precedes_at(a, b, k));
    } else {
        assert(precedes_at(b, a, k));
    }
}

/// Of two different texts one comes before the other.
pub proof fn lemma_text_order_total(a: Seq<char>, b: Seq<char>)
    ensures
        text_lt(a, b) || a == b || text_lt(b, a),
{
    lemma_text_order_total_from(a, b, 0);
}

/// `a` is at most `b` exactly when `b` does not come before `a`.
pub proof fn lemma_text_le_is_not_after(a: Seq<char>, b: Seq<char>)
    ensures
        text_le(a, b) <==> !text_lt(b, a),
{
    lemma_text_order_total(a, b);
    lemma_text_lt_irreflexive(a);
    if text_lt(a, b) && text_lt(b, a) {
        lemma_text_lt_transitive(a, b, a);
    }
}

/// Whether `a` comes before `b` in lexicographic order.
pub fn text_before(a: &str, b: &str) -> (r: bool)
    ensures
        r == text_lt(a@, b@),
{
    let la = a.unicode_len();
    let lb = b.unicode_len();
    let mut i: usize = 0;
    while i < la && i < lb
        invariant
            la == a@.len(),
            lb == b@.len(),
            i <= la,
            i <= lb,
            forall|j: int| 0 <= j < i ==> a@[j] == b@[j],
        decreases la - i,
    {
        let ca = a.get_char(i);
        let cb = b.get_char(i);
        if ca != cb {
            proof {
                if ca < cb {
                    assert(precedes_at(a@, b@, i as int));
                } else {
                    assert forall|k: int| !precedes_at(a@, b@, k) by {
                        if precedes_at(a@, b@, k) && k > i {
                            assert(a@[i as int] == b@[i as int]);
                        }
                    }
                }
            }
            return ca < cb;
        }
        i = i + 1;
    }
    proof {
        if la < lb {
            assert(precedes_at(a@, b@, la as int));
        } else {
            assert forall|k: int| !precedes_at(a@, b@, k) by {}
        }
    }
    la < lb
}

/// Number of times `c` stands among the first `n` characters of `s`.
pub open spec fn occurrences_before(s: Seq<char>, c: char, n: int) -> int
    decreases n,
{
    if n <= 0 {
        0
    } else {
        occurrences_before(s, c, n - 1) + if s[n - 1] == c {
            1int
        } else {
            0int
        }
    }
}

/// Number of times `c` stands in `s`.
pub open spec fn occurrences(s: Seq<char>, c: char) -> int {
    occurrences_before(s, c, s.len() as int)
}

/// `part` stands in `whole` from position `at` on.
pub open spec fn occurs_at(whole: Seq<char>, part: Seq<char>, at: int) -> bool {
    &&& 0 <= at
    &&& at + part.len() <= whole.len()
    &&& whole.subrange(at, at + part.len()) == part
}

/// `part` stands somewhere in `whole`.
pub open spec fn contains_text(whole: Seq<char>, part: Seq<char>) -> bool {
    exists|at: int| occurs_at(whole, part, at)
}

proof fn lemma_occurrences_concat_before(a: Seq<char>, b: Seq<char>, c: char, n: int)
    requires
        0 <= n <= a.len() + b.len(),
    ensures
        n <= a.len() ==> occurrences_before(a + b, c, n) == occurrences_before(a, c, n),
        n >= a.len() ==> occurrences_before(a + b, c, n) == occurrences(a, c)
            + occurrences_before(b, c, n - a.len()),
    decreases n,
{
    if n > 0 {
        lemma_occurrences_concat_before(a, b, c, n - 1);
    }
}

/// A character stands in a concatenation as often as in its two parts together.
pub proof fn lemma_occurrences_concat(a: Seq<char>, b: Seq<char>, c: char)
    ensures
        occurrences(a + b, c) == occurrences(a, c) + occurrences(b, c),
{
    lemma_occurrences_concat_before(a, b, c, (a.len() + b.len()) as int);
}

proof fn lemma_occurrences_not_negative(s: Seq<char>, c: char, n: int)
    ensures
        occurrences_before(s, c, n) >= 0,
    decreases n,
{
    if n > 0 {
        lemma_occurrences_not_negative(s, c, n - 1);
    }
}

proof fn lemma_occurrence_counted(s: Seq<char>, c: char, n: int, i: int)
    requires
        0 <= i < n <= s.len(),
        s[i] == c,
    ensures
        occurrences_before(s, c, n) >= 1,
    decreases n,
{
    lemma_occurrences_not_negative(s, c, n - 1);
    if i < n - 1 {
        lemma_occurrence_counted(s, c, n - 1, i);
    }
}

/// A text in which `c` never stands contains no text in which `c` stands.
pub proof fn lemma_part_needs_its_characters(
    whole: Seq<char>,
    part: Seq<char>,
    c: char,
    i: int,
)
    requires
        0 <= i < part.len(),
        part[i] == c,
        occurrences(whole, c) == 0,
    ensures
        !contains_text(whole, part),
{
    assert forall|at: int| !occurs_at(whole, part, at) by {
        if occurs_at(whole, part, at) {
            assert(whole.subrange(at, at + part.len())[i] == whole[at + i]);
            lemma_occurrence_counted(whole, c, whole.len() as int, at + i);
        }
    }
}

proof fn lemma_digits_only(n: nat, c: char)
    requires
        forall|d: int| 0 <= d < 10 ==> digit_char(d) != c,
    ensures
        occurrences(decimal_digits(n), c) == 0,
    decreases n,
{
    reveal_with_fuel(occurrences_before, 2);
    if n >= 10 {
        lemma_digits_only(n / 10, c);
        assert(decimal_digits(n) =~= decimal_digits(n / 10) + seq![digit_char((n % 10) as int)]);
        lemma_occurrences_concat(decimal_digits(n / 10), seq![digit_char((n % 10) as int)], c);
    }
    assert(digit_char((n % 10) as int) != c);
}

/// In the decimal text of an integer stand only digits and the minus sign.
pub proof fn lemma_decimal_characters(n: int, c: char)
    requires
        c != '-',
        forall|d: int| 0 <= d < 10 ==> digit_char(d) != c,
    ensures
        occurrences(decimal(n), c) == 0,
{
    reveal_with_fuel(occurrences_before, 2);
    if n < 0 {
        lemma_digits_only((-n) as nat, c);
        lemma_occurrences_concat(seq!['-'], decimal_digits((-n) as nat), c);
    } else {
        lemma_digits_only(n as nat, c);
    }
}

} // verus!
