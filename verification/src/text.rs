//! Character-level text helpers: decimal rendering, truncation, capitalisation.

use vstd::prelude::*;

verus! {

broadcast use vstd::string::group_string_axioms;

/// The ASCII digit for `d` (taken modulo nothing: callers pass `d < 10`).
pub open spec fn digit_char(d: nat) -> char {
    if d == 0 { '0' }
    else if d == 1 { '1' }
    else if d == 2 { '2' }
    else if d == 3 { '3' }
    else if d == 4 { '4' }
    else if d == 5 { '5' }
    else if d == 6 { '6' }
    else if d == 7 { '7' }
    else if d == 8 { '8' }
    else { '9' }
}

/// The decimal rendering of `n`, without sign or leading zeros.
pub open spec fn decimal(n: nat) -> Seq<char>
    decreases n,
{
    if n < 10 {
        seq![digit_char(n)]
    } else {
        decimal(n / 10).push(digit_char(n % 10))
    }
}

/// The number that a string of ASCII digits reads as, most significant digit first.
pub open spec fn digits_value(s: Seq<char>) -> int
    decreases s.len(),
{
    if s.len() == 0 {
        0
    } else {
        digits_value(s.drop_last()) * 10 + ((s.last() as int) - ('0' as int))
    }
}

proof fn lemma_digit_value(d: nat)
    requires
        d < 10,
    ensures
        (digit_char(d) as int) - ('0' as int) == d,
        ('0' as int) <= (digit_char(d) as int) <= ('9' as int),
{
}

/// `decimal(n)` is made of ASCII digits, reads back as `n`, and starts with a zero
/// only when it is `0`.
pub proof fn lemma_decimal_reads_back(n: nat)
    ensures
        digits_value(decimal(n)) == n,
        forall|i: int|
            0 <= i < decimal(n).len() ==> ('0' as int) <= (#[trigger] decimal(n)[i] as int) <= (
            '9' as int),
        decimal(n).len() >= 1,
        decimal(n)[0] == '0' ==> n == 0,
    decreases n,
{
    lemma_digit_value(n % 10);
    if n < 10 {
        lemma_digit_value(n);
        assert(decimal(n).drop_last() =~= Seq::<char>::empty());
        assert(digits_value(decimal(n)) == digits_value(Seq::<char>::empty()) * 10 + ((
        digit_char(n) as int) - ('0' as int)));
    }
    if n >= 10 {
        lemma_decimal_reads_back(n / 10);
        assert(decimal(n).drop_last() =~= decimal(n / 10));
        assert forall|i: int| 0 <= i < decimal(n).len() implies ('0' as int) <= (
        #[trigger] decimal(n)[i] as int) <= ('9' as int) by {
            if i < decimal(n).len() - 1 {
                assert(decimal(n)[i] == decimal(n / 10)[i]);
            }
        }
        assert(decimal(n)[0] == decimal(n / 10)[0]);
        assert(digits_value(decimal(n)) == digits_value(decimal(n / 10)) * 10 + ((digit_char(
            n % 10,
        ) as int) - ('0' as int)));
        assert(n == (n / 10) * 10 + n % 10);
    }
}

/// Truncation keeps the ends: when `input` is longer than `max_chars` and more than
/// three characters fit, the result is a prefix of `input`, three dots and a suffix
/// of `input`, the prefix as long as the suffix or one longer, together filling
/// `max_chars`; when at most three fit, it is only dots.
pub proof fn lemma_truncation_keeps_ends(input: Seq<char>, max_chars: nat)
    ensures
        input.len() <= max_chars ==> middle_truncated(input, max_chars) == input,
        input.len() > max_chars && max_chars <= 3 ==> forall|i: int|
            0 <= i < max_chars ==> #[trigger] middle_truncated(input, max_chars)[i] == '.',
        input.len() > max_chars && max_chars > 3 ==> exists|front: int, back: int|
            #![trigger input.take(front), input.skip(input.len() - back)]
            front + back + 3 == max_chars && (front == back || front == back + 1) && 0 <= back
                && middle_truncated(input, max_chars) == input.take(front) + seq!['.', '.', '.']
                + input.skip(input.len() - back),
{
    if input.len() > max_chars && max_chars > 3 {
        let keep = (max_chars - 3) as nat;
        let front = (keep + 1) / 2;
        let back = keep / 2;
        assert(middle_truncated(input, max_chars) == input.take(front as int) + seq!['.', '.', '.']
            + input.skip(input.len() - back));
    }
}

/// `String::push`: appends one character.
#[verifier::external_body]
pub(crate) fn push_char(s: &mut String, c: char)
    ensures
        final(s)@ == old(s)@.push(c),
{
    s.push(c);
}

fn digit(d: u64) -> (c: char)
    requires
        d < 10,
    ensures
        c == digit_char(d as nat),
{
    match d {
        0 => '0',
        1 => '1',
        2 => '2',
        3 => '3',
        4 => '4',
        5 => '5',
        6 => '6',
        7 => '7',
        8 => '8',
        _ => '9',
    }
}

/// Renders `n` in decimal, as `format!("{n}")` does.
pub fn decimal_string(n: u64) -> (s: String)
    ensures
        s@ == decimal(n as nat),
    decreases n,
{
    if n < 10 {
        let mut s = String::new();
        push_char(&mut s, digit(n));
        s
    } else {
        let mut s = decimal_string(n / 10);
        push_char(&mut s, digit(n % 10));
        s
    }
}

/// The characters of `s`, in order.
pub fn chars_of(s: &str) -> (v: Vec<char>)
    ensures
        v@ == s@,
{
    let mut v: Vec<char> = Vec::new();
    for c in it: s.chars()
        invariant
            v@ == it.seq().take(it.index() as int),
    {
        v.push(c);
    }
    v
}


/// Whether the two strings hold the same characters.
pub fn same_text(a: &str, b: &str) -> (r: bool)
    ensures
        r == (a@ == b@),
{
    let x = chars_of(a);
    let y = chars_of(b);
    if x.len() != y.len() {
        return false;
    }
    let mut i: usize = 0;
    while i < x.len()
        invariant
            x@ == a@,
            y@ == b@,
            x@.len() == y@.len(),
            i <= x@.len(),
            forall|j: int| 0 <= j < i ==> x@[j] == y@[j],
        decreases x@.len() - i,
    {
        if x[i] != y[i] {
            return false;
        }
        i += 1;
    }
    assert(x@ =~= y@);
    true
}

/// A `String` holding exactly the characters of `chars`.
pub fn string_from_chars(chars: &[char]) -> (s: String)
    ensures
        s@ == chars@,
{
    let mut s = String::new();
    let mut i: usize = 0;
    while i < chars.len()
        invariant
            i <= chars@.len(),
            s@ == chars@.take(i as int),
        decreases chars@.len() - i,
    {
        push_char(&mut s, chars[i]);
        assert(chars@.take(i as int).push(chars@[i as int]) =~= chars@.take(i + 1));
        i += 1;
    }
    assert(chars@.take(chars@.len() as int) =~= chars@);
    s
}

/// `input` shortened to at most `max_chars` characters by replacing its middle with
/// dots: the front keeps the extra character when the kept count is odd, and when
/// no character can be kept besides the dots, the result is only dots.
pub open spec fn middle_truncated(input: Seq<char>, max_chars: nat) -> Seq<char> {
    if input.len() <= max_chars {
        input
    } else if max_chars <= 3 {
        Seq::new(max_chars, |i: int| '.')
    } else {
        let keep = (max_chars - 3) as nat;
        let front = (keep + 1) / 2;
        let back = keep / 2;
        input.take(front as int) + seq!['.', '.', '.'] + input.skip(input.len() - back)
    }
}

/// Shortens `input` to at most `max_chars` characters, keeping both ends.
pub fn middle_truncate(input: &str, max_chars: usize) -> (out: String)
    ensures
        out@ == middle_truncated(input@, max_chars as nat),
        out@.len() == if input@.len() <= max_chars { input@.len() } else { max_chars as nat },
{
    let chars = chars_of(input);
    let n = chars.len();
    if n <= max_chars {
        return string_from_chars(chars.as_slice());
    }
    let mut out: Vec<char> = Vec::new();
    if max_chars <= 3 {
        let mut i: usize = 0;
        while i < max_chars
            invariant
                i <= max_chars,
                out@ == Seq::new(i as nat, |j: int| '.'),
            decreases max_chars - i,
        {
            out.push('.');
            i += 1;
            assert(out@ =~= Seq::new(i as nat, |j: int| '.'));
        }
        return string_from_chars(out.as_slice());
    }
    let keep = max_chars - 3;
    let front = keep / 2 + keep % 2;
    let back = keep / 2;
    let mut i: usize = 0;
    while i < front
        invariant
            front <= n,
            chars@ == input@,
            n == chars@.len(),
            i <= front,
            out@ == chars@.take(i as int),
        decreases front - i,
    {
        out.push(chars[i]);
        i += 1;
        assert(out@ =~= chars@.take(i as int));
    }
    out.push('.');
    out.push('.');
    out.push('.');
    let ghost mid = out@;
    let mut j: usize = n - back;
    while j < n
        invariant
            back <= n,
            chars@ == input@,
            n == chars@.len(),
            n - back <= j <= n,
            out@ == mid + chars@.subrange(n - back, j as int),
        decreases n - j,
    {
        out.push(chars[j]);
        j += 1;
        assert(out@ =~= mid + chars@.subrange(n - back, j as int));
    }
    assert(chars@.subrange(n - back, n as int) =~= chars@.skip(n - back));
    assert(out@ =~= middle_truncated(input@, max_chars as nat));
    string_from_chars(out.as_slice())
}


/// The characters that `char::to_uppercase` yields for `c` (Unicode's full uppercase
/// mapping, which no contract here spells out).
pub uninterp spec fn uppercase_of(c: char) -> Seq<char>;

/// `char::to_uppercase`, collected into a `String`. Its documentation promises at least
/// one character (the character itself when it has no uppercase mapping); ASCII
/// `a`..`z` map to `A`..`Z`, and other ASCII characters, which have no uppercase
/// mapping, map to themselves. Beyond ASCII the mapping is Unicode's, named here and
/// not spelled out.
#[verifier::external_body]
fn char_uppercase(c: char) -> (u: String)
    ensures
        u@ == uppercase_of(c),
        1 <= u@.len(),
        ('a' as int) <= (c as int) <= ('z' as int) ==> u@ == seq![((c as int) - 32) as char],
        (c as int) < 128 && !(('a' as int) <= (c as int) <= ('z' as int)) ==> u@ == seq![c],
{
    c.to_uppercase().collect()
}

/// `value` with its first character upper-cased, or `Unread` when it is empty.
pub open spec fn title_cased(value: Seq<char>) -> Seq<char> {
    if value.len() == 0 {
        "Unread"@
    } else {
        uppercase_of(value[0]) + value.drop_first()
    }
}

/// Upper-cases the first character of `value`; an empty value reads `Unread`.
pub fn title_case(value: &str) -> (out: String)
    ensures
        out@ == title_cased(value@),
        value@.len() > 0 && ('a' as int) <= (value@[0] as int) <= ('z' as int) ==> out@ == seq![
            ((value@[0] as int) - 32) as char,
        ] + value@.drop_first(),
        value@.len() > 0 && (value@[0] as int) < 128 && !(('a' as int) <= (value@[0] as int) <= (
        'z' as int)) ==> out@ == value@,
{
    let chars = chars_of(value);
    if chars.len() == 0 {
        return String::from_str("Unread");
    }
    let mut out = char_uppercase(chars[0]);
    let mut i: usize = 1;
    let ghost head = out@;
    while i < chars.len()
        invariant
            chars@ == value@,
            1 <= i <= chars@.len(),
            out@ == head + chars@.subrange(1, i as int),
        decreases chars@.len() - i,
    {
        push_char(&mut out, chars[i]);
        i += 1;
        assert(out@ =~= head + chars@.subrange(1, i as int));
    }
    assert(chars@.subrange(1, chars@.len() as int) =~= chars@.drop_first());
    assert(value@ =~= seq![value@[0]] + value@.drop_first());
    out
}

/// Lexicographic order on texts by character (the order `str` comparison gives, as
/// UTF-8 preserves the order of code points): `a` sorts strictly before `b`.
pub open spec fn text_precedes(a: Seq<char>, b: Seq<char>) -> bool
    decreases a.len(),
{
    if a.len() == 0 {
        b.len() > 0
    } else if b.len() == 0 {
        false
    } else if a[0] != b[0] {
        (a[0] as int) < (b[0] as int)
    } else {
        text_precedes(a.drop_first(), b.drop_first())
    }
}

/// `text_precedes` is a strict total order.
pub proof fn lemma_text_order(a: Seq<char>, b: Seq<char>, c: Seq<char>)
    ensures
        !text_precedes(a, a),
        text_precedes(a, b) ==> !text_precedes(b, a),
        text_precedes(a, b) && text_precedes(b, c) ==> text_precedes(a, c),
        a != b ==> text_precedes(a, b) || text_precedes(b, a),
    decreases a.len(),
{
    if a.len() > 0 && b.len() > 0 && c.len() > 0 {
        lemma_text_order(a.drop_first(), b.drop_first(), c.drop_first());
    } else if a.len() > 0 && b.len() > 0 {
        lemma_text_order(a.drop_first(), b.drop_first(), b.drop_first());
    } else if a.len() > 0 {
        lemma_text_order(a.drop_first(), a.drop_first(), a.drop_first());
    }
    if a != b && a.len() > 0 && b.len() > 0 && a[0] == b[0] {
        if a.drop_first() == b.drop_first() {
            assert(a =~= seq![a[0]] + a.drop_first());
            assert(b =~= seq![b[0]] + b.drop_first());
        }
    }
    if a.len() == 0 && b.len() == 0 {
        assert(a =~= b);
    }
    if a.len() > 0 && b.len() > 0 && a[0] != b[0] {
        assert((a[0] as int) != (b[0] as int));
    }
}

/// Texts are ordered by their first differing character, and a text sorts before
/// every longer text that starts with it.
pub proof fn lemma_text_precedes_first_difference(a: Seq<char>, b: Seq<char>, i: int)
    requires
        0 <= i <= a.len(),
        i <= b.len(),
        a.take(i) == b.take(i),
    ensures
        i < a.len() && i < b.len() && a[i] != b[i] ==> (text_precedes(a, b) <==> (a[i] as int) < (
        b[i] as int)),
        i == a.len() && i < b.len() ==> text_precedes(a, b),
        i == b.len() ==> !text_precedes(a, b),
    decreases i,
{
    if i > 0 {
        assert(a[0] == a.take(i)[0] && b[0] == b.take(i)[0]);
        assert(a.drop_first().take(i - 1) =~= a.take(i).drop_first());
        assert(b.drop_first().take(i - 1) =~= b.take(i).drop_first());
        lemma_text_precedes_first_difference(a.drop_first(), b.drop_first(), i - 1);
        if i < a.len() {
            assert(a.drop_first()[i - 1] == a[i]);
        }
        if i < b.len() {
            assert(b.drop_first()[i - 1] == b[i]);
        }
    }
}

proof fn lemma_text_precedes_step(a: Seq<char>, b: Seq<char>, i: int)
    requires
        0 <= i < a.len(),
        i < b.len(),
        a[i] == b[i],
    ensures
        text_precedes(a.skip(i), b.skip(i)) == text_precedes(a.skip(i + 1), b.skip(i + 1)),
{
    assert(a.skip(i).drop_first() =~= a.skip(i + 1));
    assert(b.skip(i).drop_first() =~= b.skip(i + 1));
}

/// Whether `a` sorts strictly before `b` by character.
pub fn text_precedes_exec(a: &str, b: &str) -> (r: bool)
    ensures
        r == text_precedes(a@, b@),
{
    let x = chars_of(a);
    let y = chars_of(b);
    let mut i: usize = 0;
    assert(x@.skip(0) =~= x@);
    assert(y@.skip(0) =~= y@);
    while i < x.len() && i < y.len()
        invariant
            x@ == a@,
            y@ == b@,
            i <= x@.len(),
            i <= y@.len(),
            text_precedes(a@, b@) == text_precedes(x@.skip(i as int), y@.skip(i as int)),
        decreases x@.len() - i,
    {
        if x[i] != y[i] {
            assert(x@.skip(i as int)[0] == x@[i as int]);
            assert(y@.skip(i as int)[0] == y@[i as int]);
            return x[i] < y[i];
        }
        proof {
            lemma_text_precedes_step(x@, y@, i as int);
        }
        i += 1;
    }
    i == x.len() && i < y.len()
}

} // verus!
