//! Text on the level of characters: taking strings apart, putting them
//! together, comparing them, and writing numbers out.

use vstd::prelude::*;

verus! {

/// `String::push` appends the given character to the end of the string.
pub assume_specification[ String::push ](s: &mut String, c: char)
    ensures
        final(s)@ == old(s)@.push(c),
;

/// The characters of a text that may be missing.
pub open spec fn optional_text(text: Option<&str>) -> Option<Seq<char>> {
    match text {
        Some(text) => Some(text@),
        None => None,
    }
}

/// The characters of a string that may be missing.
pub open spec fn optional_string(text: Option<String>) -> Option<Seq<char>> {
    match text {
        Some(text) => Some(text@),
        None => None,
    }
}

/// Borrows a string that may be missing.
pub fn borrowed(text: &Option<String>) -> (borrowed: Option<&str>)
    ensures
        optional_text(borrowed) == optional_string(*text),
{
    match text {
        Some(text) => Some(text.as_str()),
        None => None,
    }
}

/// The characters of `s`, one after the other.
pub fn chars_of(s: &str) -> (chars: Vec<char>)
    ensures
        chars@ == s@,
{
    let mut chars: Vec<char> = Vec::new();
    for c in it: s.chars()
        invariant
            chars@ == it.seq().take(it.index() as int),
            it.seq() == s@,
    {
        chars.push(c);
    }
    chars
}

/// The string made of `chars[from..to]`.
pub fn string_of(chars: &Vec<char>, from: usize, to: usize) -> (s: String)
    requires
        from <= to <= chars@.len(),
    ensures
        s@ == chars@.subrange(from as int, to as int),
{
    let mut s = String::new();
    let mut i: usize = from;
    while i < to
        invariant
            from <= i <= to <= chars@.len(),
            s@ == chars@.subrange(from as int, i as int),
        decreases to - i,
    {
        s.push(chars[i]);
        i += 1;
    }
    s
}

/// Whether two strings hold the same characters.
pub fn same_text(a: &str, b: &str) -> (same: bool)
    ensures
        same == (a@ == b@),
{
    let x = chars_of(a);
    let y = chars_of(b);
    if x.len() != y.len() {
        return false;
    }
    let mut i: usize = 0;
    while i < x.len()
        invariant
            0 <= i <= x@.len(),
            x@.len() == y@.len(),
            x@ == a@,
            y@ == b@,
            forall|k: int| 0 <= k < i ==> x@[k] == y@[k],
        decreases x@.len() - i,
    {
        if x[i] != y[i] {
            return false;
        }
        i += 1;
    }
    assert(a@ =~= b@);
    true
}

/// `a` and `b` agree before position `k`, and there `a` is the smaller: it
/// either ends or holds the smaller character.
pub open spec fn smaller_at(a: Seq<char>, b: Seq<char>, k: int) -> bool {
    &&& 0 <= k <= a.len()
    &&& k < b.len()
    &&& forall|i: int| 0 <= i < k ==> a[i] == b[i]
    &&& (k == a.len() || a[k] < b[k])
}

/// Lexicographic order of character sequences, the order in which ordered
/// tables list their keys.
pub open spec fn precedes(a: Seq<char>, b: Seq<char>) -> bool {
    exists|k: int| smaller_at(a, b, k)
}

/// Whether `a` comes strictly before `b`.
pub fn comes_before(a: &str, b: &str) -> (before: bool)
    ensures
        before == precedes(a@, b@),
{
    let x = chars_of(a);
    let y = chars_of(b);
    let mut i: usize = 0;
    while i < x.len() && i < y.len()
        invariant
            0 <= i <= x@.len(),
            i <= y@.len(),
            x@ == a@,
            y@ == b@,
            forall|k: int| 0 <= k < i ==> x@[k] == y@[k],
        decreases x@.len() - i,
    {
        if x[i] != y[i] {
            let before = x[i] < y[i];
            proof {
                if before {
                    assert(smaller_at(a@, b@, i as int));
                } else if precedes(a@, b@) {
                    let k = choose|k: int| smaller_at(a@, b@, k);
                    if k < i {
                        assert(x@[k] == y@[k]);
                    } else if k > i {
                        assert(a@[i as int] == b@[i as int]);
                    }
                    assert(false);
                }
            }
            return before;
        }
        i += 1;
    }
    let before = i < y.len();
    proof {
        if before {
            assert(smaller_at(a@, b@, i as int));
        } else if precedes(a@, b@) {
            let k = choose|k: int| smaller_at(a@, b@, k);
            assert(x@[k] == y@[k]);
            assert(false);
        }
    }
    before
}

/// No text precedes itself.
pub proof fn lemma_precedes_irreflexive(a: Seq<char>)
    ensures
        !precedes(a, a),
{
}

/// The order is transitive.
pub proof fn lemma_precedes_transitive(a: Seq<char>, b: Seq<char>, c: Seq<char>)
    requires
        precedes(a, b),
        precedes(b, c),
    ensures
        precedes(a, c),
{
    let j = choose|k: int| smaller_at(a, b, k);
    let k = choose|k: int| smaller_at(b, c, k);
    if j < k {
        assert(smaller_at(a, c, j));
    } else {
        assert(smaller_at(a, c, k));
    }
}

/// Of two different texts, one precedes the other.
pub proof fn lemma_precedes_total(a: Seq<char>, b: Seq<char>)
    ensures
        a == b || precedes(a, b) || precedes(b, a),
    decreases a.len(),
{
    if a.len() == 0 {
        if b.len() > 0 {
            assert(smaller_at(a, b, 0));
        } else {
            assert(a =~= b);
        }
    } else if b.len() == 0 {
        assert(smaller_at(b, a, 0));
    } else if a[0] != b[0] {
        if a[0] < b[0] {
            assert(smaller_at(a, b, 0));
        } else {
            assert(smaller_at(b, a, 0));
        }
    } else {
        let s = a.drop_first();
        let t = b.drop_first();
        lemma_precedes_total(s, t);
        if s == t {
            assert(a =~= seq![a[0]] + s);
            assert(b =~= seq![b[0]] + t);
        } else if precedes(s, t) {
            let k = choose|k: int| smaller_at(s, t, k);
            assert forall|i: int| 0 <= i < k + 1 implies a[i] == b[i] by {
                if i > 0 {
                    assert(s[i - 1] == t[i - 1]);
                }
            }
            assert(smaller_at(a, b, k + 1));
        } else {
            let k = choose|k: int| smaller_at(t, s, k);
            assert forall|i: int| 0 <= i < k + 1 implies b[i] == a[i] by {
                if i > 0 {
                    assert(t[i - 1] == s[i - 1]);
                }
            }
            assert(smaller_at(b, a, k + 1));
        }
    }
}

/// Whether `chars` starts with the characters of `prefix`.
pub fn starts_with(chars: &Vec<char>, prefix: &str) -> (starts: bool)
    ensures
        starts == prefix@.is_prefix_of(chars@),
{
    let wanted = chars_of(prefix);
    if wanted.len() > chars.len() {
        return false;
    }
    let mut i: usize = 0;
    while i < wanted.len()
        invariant
            0 <= i <= wanted@.len() <= chars@.len(),
            wanted@ == prefix@,
            forall|k: int| 0 <= k < i ==> wanted@[k] == chars@[k],
        decreases wanted@.len() - i,
    {
        if wanted[i] != chars[i] {
            assert(prefix@[i as int] != chars@.subrange(0, prefix@.len() as int)[i as int]);
            return false;
        }
        i += 1;
    }
    assert(prefix@ =~= chars@.subrange(0, prefix@.len() as int));
    true
}

/// `chars` without the run of `c` at its end.
pub open spec fn trim_end_of(chars: Seq<char>, c: char) -> Seq<char>
    decreases chars.len(),
{
    if chars.len() > 0 && chars.last() == c {
        trim_end_of(chars.drop_last(), c)
    } else {
        chars
    }
}

/// `s` without the run of `c` at its end.
pub fn trim_end(s: &str, c: char) -> (trimmed: String)
    ensures
        trimmed@ == trim_end_of(s@, c),
{
    let chars = chars_of(s);
    let mut end: usize = chars.len();
    assert(chars@.subrange(0, end as int) =~= s@);
    while end > 0 && chars[end - 1] == c
        invariant
            end <= chars@.len(),
            trim_end_of(chars@.subrange(0, end as int), c) == trim_end_of(s@, c),
        decreases end,
    {
        assert(chars@.subrange(0, end as int).drop_last() =~= chars@.subrange(0, end - 1));
        end -= 1;
    }
    string_of(&chars, 0, end)
}

/// `chars` without the run of `c` at its start.
pub open spec fn trim_start_of(chars: Seq<char>, c: char) -> Seq<char>
    decreases chars.len(),
{
    if chars.len() > 0 && chars[0] == c {
        trim_start_of(chars.drop_first(), c)
    } else {
        chars
    }
}

/// `s` without the run of `c` at its start.
pub fn trim_start(s: &str, c: char) -> (trimmed: String)
    ensures
        trimmed@ == trim_start_of(s@, c),
{
    let chars = chars_of(s);
    let mut start: usize = 0;
    assert(chars@.skip(0) =~= s@);
    while start < chars.len() && chars[start] == c
        invariant
            start <= chars@.len(),
            trim_start_of(chars@.skip(start as int), c) == trim_start_of(s@, c),
        decreases chars@.len() - start,
    {
        assert(chars@.skip(start as int).drop_first() =~= chars@.skip(start + 1));
        start += 1;
    }
    assert(chars@.skip(start as int) =~= chars@.subrange(start as int, chars@.len() as int));
    string_of(&chars, start, chars.len())
}

/// What stands before the first `c` and what stands after it, where there is
/// one.
pub open spec fn split_once(s: Seq<char>, c: char) -> Option<(Seq<char>, Seq<char>)> {
    match s.index_of_first(c) {
        Some(at) => Some((s.take(at), s.skip(at + 1))),
        None => None,
    }
}

/// Splitting at the first `c` gives back what was joined by it.
pub proof fn lemma_split_once(before: Seq<char>, c: char, after: Seq<char>)
    requires
        !before.contains(c),
    ensures
        split_once(before.push(c) + after, c) == Some((before, after)),
{
    let joined = before.push(c) + after;
    assert(joined[before.len() as int] == c);
    lemma_first_index(joined, c, before.len() as int);
    assert(joined.take(before.len() as int) =~= before);
    assert(joined.skip(before.len() as int + 1) =~= after);
}

proof fn lemma_first_index(s: Seq<char>, c: char, at: int)
    requires
        0 <= at < s.len(),
        s[at] == c,
        forall|k: int| 0 <= k < at ==> s[k] != c,
    ensures
        s.index_of_first(c) == Some(at),
{
    s.index_of_first_ensures(c);
    assert(s.contains(c));
}

/// What stands before the first `c` of `s` and what stands after it.
pub fn split_at_first(s: &str, c: char) -> (parts: Option<(String, String)>)
    ensures
        match parts {
            Some((before, after)) => split_once(s@, c) == Some((before@, after@)),
            None => split_once(s@, c) is None,
        },
{
    let chars = chars_of(s);
    let mut at: usize = 0;
    while at < chars.len() && chars[at] != c
        invariant
            at <= chars@.len(),
            chars@ == s@,
            forall|k: int| 0 <= k < at ==> chars@[k] != c,
        decreases chars@.len() - at,
    {
        at += 1;
    }
    if at < chars.len() {
        proof {
            lemma_first_index(s@, c, at as int);
        }
        Some((string_of(&chars, 0, at), string_of(&chars, at + 1, chars.len())))
    } else {
        proof {
            s@.index_of_first_ensures(c);
        }
        None
    }
}

/// The character of a digit.
pub open spec fn digit_char(digit: nat) -> char {
    (48 + digit) as char
}

/// `n` in decimal, without leading zeros.
pub open spec fn decimal(n: nat) -> Seq<char>
    decreases n,
{
    if n < 10 {
        seq![digit_char(n)]
    } else {
        decimal(n / 10).push(digit_char(n % 10))
    }
}

/// The last `width` decimal digits of `n`, leading zeros written out.
pub open spec fn padded_decimal(n: nat, width: nat) -> Seq<char>
    decreases width,
{
    if width == 0 {
        Seq::empty()
    } else {
        padded_decimal(n / 10, (width - 1) as nat).push(digit_char(n % 10))
    }
}

/// A number in decimal is made of digits, one at least.
pub proof fn lemma_decimal_is_digits(n: nat)
    ensures
        decimal(n).len() > 0,
        forall|i: int| 0 <= i < decimal(n).len() ==> '0' <= #[trigger] decimal(n)[i] <= '9',
    decreases n,
{
    if n >= 10 {
        lemma_decimal_is_digits(n / 10);
    }
}

/// Two numbers are the same in decimal only if they are the same.
pub proof fn lemma_decimal_is_injective(a: nat, b: nat)
    requires
        decimal(a) == decimal(b),
    ensures
        a == b,
    decreases a,
{
    lemma_decimal_is_digits(a / 10);
    lemma_decimal_is_digits(b / 10);
    let last = decimal(a).last();
    assert(last == digit_char(a % 10));
    assert(last == digit_char(b % 10));
    if a >= 10 && b >= 10 {
        assert(decimal(a).drop_last() =~= decimal(a / 10));
        assert(decimal(b).drop_last() =~= decimal(b / 10));
        lemma_decimal_is_injective(a / 10, b / 10);
    }
}

/// Writes `n` in decimal.
pub fn write_decimal(out: &mut String, n: u64)
    ensures
        final(out)@ == old(out)@ + decimal(n as nat),
    decreases n,
{
    if n >= 10 {
        write_decimal(out, n / 10);
    }
    let digit: u8 = (n % 10) as u8;
    out.push((48 + digit) as char);
    assert(out@ =~= old(out)@ + decimal(n as nat));
}

/// `n` in decimal.
pub fn decimal_of(n: u64) -> (text: String)
    ensures
        text@ == decimal(n as nat),
{
    let mut text = String::new();
    write_decimal(&mut text, n);
    assert(text@ =~= decimal(n as nat));
    text
}

/// Writes the last `width` decimal digits of `n`, leading zeros written out.
pub fn write_padded(out: &mut String, n: u64, width: u8)
    ensures
        final(out)@ == old(out)@ + padded_decimal(n as nat, width as nat),
    decreases width,
{
    if width > 0 {
        write_padded(out, n / 10, width - 1);
        let digit: u8 = (n % 10) as u8;
        out.push((48 + digit) as char);
    }
    assert(out@ =~= old(out)@ + padded_decimal(n as nat, width as nat));
}

/// The text in double quotes, with what does not print plainly escaped.
pub uninterp spec fn debug_text(s: Seq<char>) -> Seq<char>;

/// `format!` with `{:?}` writes a string in double quotes and escapes what
/// does not print plainly. What it writes is called `debug_text` here: it
/// depends on the characters of the string alone.
#[verifier::external_body]
pub(crate) fn quoted(s: &str) -> (quoted: String)
    ensures
        quoted@ == debug_text(s@),
{
    format!("{:?}", s)
}

/// A text of decimal digits.
pub open spec fn is_digits(text: Seq<char>) -> bool {
    forall|i: int| 0 <= i < text.len() ==> '0' <= #[trigger] text[i] <= '9'
}

/// The number that decimal digits stand for, as one reads them from the left.
pub open spec fn number_of(digits: Seq<char>) -> nat
    decreases digits.len(),
{
    if digits.len() == 0 {
        0
    } else {
        (number_of(digits.drop_last()) * 10 + (digits.last() as int - '0' as int)) as nat
    }
}

/// A number in decimal reads as that number: it is made of digits, does not start with a
/// zero unless it is zero, and stands for the number itself.
pub proof fn law_decimal_reads_back(n: nat)
    ensures
        is_digits(decimal(n)),
        decimal(n).len() > 0,
        decimal(n)[0] == '0' ==> n == 0 && decimal(n).len() == 1,
        number_of(decimal(n)) == n,
    decreases n,
{
    lemma_decimal_is_digits(n);
    if n >= 10 {
        law_decimal_reads_back(n / 10);
        assert(decimal(n).drop_last() =~= decimal(n / 10));
        assert(decimal(n)[0] == decimal(n / 10)[0]);
    } else {
        assert(decimal(n).drop_last() =~= Seq::<char>::empty());
        assert(number_of(Seq::<char>::empty()) == 0);
    }
}

/// Ten to the power of `exponent`.
pub open spec fn power_of_ten(exponent: nat) -> nat
    decreases exponent,
{
    if exponent == 0 {
        1
    } else {
        10 * power_of_ten((exponent - 1) as nat)
    }
}

/// A number written out to a width has that many digits, and reads as the number where
/// it fits the width.
pub proof fn law_padded_decimal_reads_back(n: nat, width: nat)
    requires
        n < power_of_ten(width),
    ensures
        is_digits(padded_decimal(n, width)),
        padded_decimal(n, width).len() == width,
        number_of(padded_decimal(n, width)) == n,
    decreases width,
{
    if width > 0 {
        law_padded_decimal_reads_back(n / 10, (width - 1) as nat);
        assert(padded_decimal(n, width).drop_last() =~= padded_decimal(
            n / 10,
            (width - 1) as nat,
        ));
    }
}

/// Digits behind digits read as the first number, moved up by as many places, and the
/// second.
pub proof fn lemma_number_of_joined(a: Seq<char>, b: Seq<char>)
    requires
        is_digits(a),
        is_digits(b),
    ensures
        is_digits(a + b),
        number_of(a + b) == number_of(a) * power_of_ten(b.len()) + number_of(b),
    decreases b.len(),
{
    if b.len() == 0 {
        assert(a + b =~= a);
        assert(number_of(a) * power_of_ten(0) == number_of(a)) by (nonlinear_arith)
            requires
                power_of_ten(0) == 1,
        ;
    } else {
        let c = b.drop_last();
        assert((a + b).drop_last() =~= a + c);
        lemma_number_of_joined(a, c);
        let x = number_of(a) as int;
        let p = power_of_ten(c.len()) as int;
        let y = number_of(c) as int;
        assert((x * p + y) * 10 == x * (10 * p) + y * 10) by (nonlinear_arith);
        assert('0' <= b[b.len() - 1] <= '9');
        assert((a + b).last() == b.last());
        assert(x * p >= 0) by (nonlinear_arith)
            requires
                x >= 0,
                p >= 0,
        ;
        assert(power_of_ten(b.len()) == 10 * p);
        assert(number_of(b) == y * 10 + (b.last() as int - '0' as int));
        assert(number_of(a + b) == (x * p + y) * 10 + (b.last() as int - '0' as int));
    }
}

/// A text of `n` times the same character.
pub open spec fn run_of(c: char, n: nat) -> Seq<char> {
    Seq::new(n, |i: int| c)
}

/// Trimming takes away a run of the character and nothing else, and leaves none of it at
/// that end.
pub proof fn law_trimming_takes_the_run(text: Seq<char>, c: char)
    ensures
        exists|n: nat|
            n <= text.len() && text == trim_end_of(text, c) + #[trigger] run_of(c, n),
        trim_end_of(text, c).len() == 0 || trim_end_of(text, c).last() != c,
        exists|n: nat|
            n <= text.len() && text == #[trigger] run_of(c, n) + trim_start_of(text, c),
        trim_start_of(text, c).len() == 0 || trim_start_of(text, c)[0] != c,
    decreases text.len(),
{
    if text.len() > 0 && text.last() == c {
        law_trimming_takes_the_run(text.drop_last(), c);
        let n = choose|n: nat|
            n <= text.drop_last().len() && text.drop_last() == trim_end_of(text.drop_last(), c)
                + #[trigger] run_of(c, n);
        assert(run_of(c, n + 1) =~= run_of(c, n).push(c));
        assert(text =~= text.drop_last().push(c));
        assert(text =~= trim_end_of(text, c) + run_of(c, n + 1));
    } else {
        assert(text =~= trim_end_of(text, c) + run_of(c, 0));
    }
    if text.len() > 0 && text[0] == c {
        law_trimming_takes_the_run(text.drop_first(), c);
        let n = choose|n: nat|
            n <= text.drop_first().len() && text.drop_first() == #[trigger] run_of(c, n)
                + trim_start_of(text.drop_first(), c);
        assert(run_of(c, n + 1) =~= seq![c] + run_of(c, n));
        assert(text =~= seq![c] + text.drop_first());
        assert(text =~= run_of(c, n + 1) + trim_start_of(text, c));
    } else {
        assert(text =~= run_of(c, 0) + trim_start_of(text, c));
    }
}

/// Splitting takes a text apart at the first occurrence of the character: nothing but that
/// one character is lost, and a text without it is not split.
pub proof fn law_split_is_at_the_first(text: Seq<char>, c: char)
    ensures
        split_once(text, c) is Some <==> text.contains(c),
        split_once(text, c) matches Some((before, after)) ==> text == before.push(c) + after
            && !before.contains(c),
{
    text.index_of_first_ensures(c);
    if text.contains(c) {
        let (before, after) = split_once(text, c)->0;
        assert(text =~= before.push(c) + after);
        if before.contains(c) {
            let k = before.index_of(c);
            assert(text[k] == c);
        }
    }
}

/// The order of texts is that of a dictionary: a text comes before its continuations, and
/// where two texts part, the smaller character comes first.
pub proof fn law_order_is_lexicographic(
    shared: Seq<char>,
    a: char,
    b: char,
    rest_a: Seq<char>,
    rest_b: Seq<char>,
)
    ensures
        precedes(shared, shared.push(a) + rest_a),
        !precedes(shared.push(a) + rest_a, shared),
        a < b ==> precedes(shared.push(a) + rest_a, shared.push(b) + rest_b),
        a < b ==> !precedes(shared.push(b) + rest_b, shared.push(a) + rest_a),
{
    let x = shared.push(a) + rest_a;
    let y = shared.push(b) + rest_b;
    let k = shared.len() as int;
    assert(smaller_at(shared, x, k));
    if precedes(x, shared) {
        lemma_precedes_transitive(shared, x, shared);
        lemma_precedes_irreflexive(shared);
    }
    if a < b {
        assert forall|i: int| 0 <= i < k implies x[i] == y[i] by {
            assert(x[i] == shared[i]);
            assert(y[i] == shared[i]);
        }
        assert(smaller_at(x, y, k));
        if precedes(y, x) {
            lemma_precedes_transitive(x, y, x);
            lemma_precedes_irreflexive(x);
        }
    }
}

/// A text that may be missing is seen whole, or as missing.
pub proof fn law_optional_texts_are_seen_whole(text: &str, string: String)
    ensures
        optional_text(Some(text)) == Some(text@),
        optional_text(None) is None,
        optional_string(Some(string)) == Some(string@),
        optional_string(None) is None,
{
}

} // verus!
