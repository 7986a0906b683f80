//! Character-level helpers shared by the request parser: whitespace and
//! whitespace-separated tokens, trimming, prefixes, fields and decimal
//! numbers.

use vstd::prelude::*;
use vstd::slice::slice_subrange;
use vstd::string::StringExecFns;

verus! {

/// Whether `c` has the Unicode `White_Space` property.
pub open spec fn is_whitespace(c: char) -> bool {
    let n = c as u32;
    ||| 0x09 <= n <= 0x0D
    ||| n == 0x20
    ||| n == 0x85
    ||| n == 0xA0
    ||| n == 0x1680
    ||| 0x2000 <= n <= 0x200A
    ||| n == 0x2028
    ||| n == 0x2029
    ||| n == 0x202F
    ||| n == 0x205F
    ||| n == 0x3000
}

/// The first position at or after `i` that holds no whitespace, or the
/// length of `s` when only whitespace is left.
pub open spec fn skip_whitespace(s: Seq<char>, i: int) -> int
    decreases s.len() - i,
{
    if 0 <= i < s.len() && is_whitespace(s[i]) {
        skip_whitespace(s, i + 1)
    } else {
        i
    }
}

/// The first position at or after `i` that holds whitespace, or the length
/// of `s` when none is left.
pub open spec fn token_end(s: Seq<char>, i: int) -> int
    decreases s.len() - i,
{
    if 0 <= i < s.len() && !is_whitespace(s[i]) {
        token_end(s, i + 1)
    } else {
        i
    }
}

/// The maximal runs of non-whitespace characters of `s` that begin at or
/// after `i`, in order.
pub open spec fn tokens_from(s: Seq<char>, i: int) -> Seq<Seq<char>>
    decreases s.len() - i,
{
    let start = skip_whitespace(s, i);
    let end = token_end(s, start);
    if 0 <= i && start < s.len() {
        proof {
            lemma_skip_whitespace_bounds(s, i);
            lemma_token_end_bounds(s, start);
        }
        seq![s.subrange(start, end)] + tokens_from(s, end)
    } else {
        Seq::empty()
    }
}

/// The whitespace-separated tokens of `s`: what splitting on any amount of
/// whitespace yields.
pub open spec fn tokens(s: Seq<char>) -> Seq<Seq<char>> {
    tokens_from(s, 0)
}

/// Skipping whitespace goes forward, over whitespace only, and stops at
/// the end or before what is no whitespace.
pub proof fn lemma_skip_whitespace_bounds(s: Seq<char>, i: int)
    requires
        0 <= i,
    ensures
        i <= skip_whitespace(s, i),
        i <= s.len() ==> skip_whitespace(s, i) <= s.len(),
        skip_whitespace(s, i) < s.len() ==> !is_whitespace(s[skip_whitespace(s, i)]),
        forall|k: int| i <= k < skip_whitespace(s, i) ==> is_whitespace(#[trigger] s[k]),
    decreases s.len() - i,
{
    if i < s.len() && is_whitespace(s[i]) {
        lemma_skip_whitespace_bounds(s, i + 1);
    }
}

/// A token goes forward, over what is no whitespace, and stops at the end
/// or before whitespace.
pub proof fn lemma_token_end_bounds(s: Seq<char>, i: int)
    requires
        0 <= i,
    ensures
        i <= token_end(s, i),
        i <= s.len() ==> token_end(s, i) <= s.len(),
        i < s.len() && !is_whitespace(s[i]) ==> i < token_end(s, i),
        token_end(s, i) < s.len() ==> is_whitespace(s[token_end(s, i)]),
        forall|k: int| i <= k < token_end(s, i) ==> !is_whitespace(#[trigger] s[k]),
    decreases s.len() - i,
{
    if i < s.len() && !is_whitespace(s[i]) {
        lemma_token_end_bounds(s, i + 1);
    }
}

/// Whether `s` holds whitespace only.
pub open spec fn all_whitespace(s: Seq<char>) -> bool {
    forall|i: int| 0 <= i < s.len() ==> is_whitespace(#[trigger] s[i])
}

/// Whether `s` holds no whitespace.
pub open spec fn no_whitespace(s: Seq<char>) -> bool {
    forall|i: int| 0 <= i < s.len() ==> !is_whitespace(#[trigger] s[i])
}

/// Over a run of whitespace that ends at `j`, skipping leads to `j`.
pub proof fn lemma_skip_whitespace_run(s: Seq<char>, i: int, j: int)
    requires
        0 <= i <= j <= s.len(),
        forall|k: int| i <= k < j ==> is_whitespace(#[trigger] s[k]),
        j < s.len() ==> !is_whitespace(s[j]),
    ensures
        skip_whitespace(s, i) == j,
    decreases j - i,
{
    if i < j {
        lemma_skip_whitespace_run(s, i + 1, j);
    }
}

/// A run of non-whitespace that ends at `j` is a token that ends at `j`.
pub proof fn lemma_token_end_run(s: Seq<char>, i: int, j: int)
    requires
        0 <= i <= j <= s.len(),
        forall|k: int| i <= k < j ==> !is_whitespace(#[trigger] s[k]),
        j < s.len() ==> is_whitespace(s[j]),
    ensures
        token_end(s, i) == j,
    decreases j - i,
{
    if i < j {
        lemma_token_end_run(s, i + 1, j);
    }
}

/// The tokens from `i` on are those of what is left of `s` after `i`.
pub proof fn lemma_tokens_from_suffix(s: Seq<char>, i: int)
    requires
        0 <= i <= s.len(),
    ensures
        tokens_from(s, i) == tokens(s.skip(i)),
    decreases s.len() - i,
{
    let rest = s.skip(i);
    let start = skip_whitespace(s, i);
    lemma_skip_whitespace_bounds(s, i);
    lemma_skip_whitespace_run(rest, 0, start - i);
    if start < s.len() {
        let end = token_end(s, start);
        lemma_token_end_bounds(s, start);
        lemma_token_end_run(rest, start - i, end - i);
        assert(rest.subrange(start - i, end - i) == s.subrange(start, end));
        lemma_tokens_from_suffix(s, end);
        lemma_tokens_from_suffix(rest, end - i);
        assert(rest.skip(end - i) == s.skip(end));
    }
}

/// The first token of a text is what stands between the whitespace it
/// begins with and the next whitespace. The other tokens are those of what
/// follows.
pub proof fn lemma_tokens_first(space: Seq<char>, token: Seq<char>, rest: Seq<char>)
    requires
        all_whitespace(space),
        token.len() > 0,
        no_whitespace(token),
        rest.len() > 0 ==> is_whitespace(rest[0]),
    ensures
        tokens(space + token + rest) == seq![token] + tokens(rest),
{
    let s = space + token + rest;
    let start = space.len() as int;
    let end = start + token.len();
    assert forall|k: int| 0 <= k < start implies is_whitespace(#[trigger] s[k]) by {
        assert(s[k] == space[k]);
    }
    assert forall|k: int| start <= k < end implies !is_whitespace(#[trigger] s[k]) by {
        assert(s[k] == token[k - start]);
    }
    if end < s.len() {
        assert(s[end] == rest[0]);
    }
    lemma_skip_whitespace_run(s, 0, start);
    lemma_token_end_run(s, start, end);
    assert(s.subrange(start, end) == token);
    assert(s.skip(end) == rest);
    lemma_tokens_from_suffix(s, end);
}

/// Tokens are words: none is empty, and none holds whitespace.
pub proof fn lemma_tokens_are_words(s: Seq<char>, i: int)
    requires
        0 <= i,
    ensures
        forall|k: int|
            0 <= k < tokens_from(s, i).len() ==> (#[trigger] tokens_from(s, i)[k]).len() > 0
                && no_whitespace(tokens_from(s, i)[k]),
    decreases s.len() - i,
{
    let start = skip_whitespace(s, i);
    lemma_skip_whitespace_bounds(s, i);
    if start < s.len() {
        let end = token_end(s, start);
        lemma_token_end_bounds(s, start);
        lemma_tokens_are_words(s, end);
        let first = s.subrange(start, end);
        assert(no_whitespace(first)) by {
            assert forall|k: int| 0 <= k < first.len() implies !is_whitespace(#[trigger] first[k]) by {
                assert(first[k] == s[start + k]);
            }
        }
        assert forall|k: int| 0 <= k < tokens_from(s, i).len() implies (#[trigger] tokens_from(
            s,
            i,
        )[k]).len() > 0 && no_whitespace(tokens_from(s, i)[k]) by {
            if k > 0 {
                assert(tokens_from(s, i)[k] == tokens_from(s, end)[k - 1]);
            }
        }
    }
}

/// Whitespace alone holds no token.
pub proof fn lemma_tokens_of_whitespace(space: Seq<char>)
    requires
        all_whitespace(space),
    ensures
        tokens(space) == Seq::<Seq<char>>::empty(),
{
    lemma_skip_whitespace_run(space, 0, space.len() as int);
}

/// Executable test for the `White_Space` property.
pub fn char_is_whitespace(c: char) -> (b: bool)
    ensures
        b == is_whitespace(c),
{
    let n: u32 = c as u32;
    (0x09 <= n && n <= 0x0D) || n == 0x20 || n == 0x85 || n == 0xA0 || n == 0x1680 || (0x2000 <= n
        && n <= 0x200A) || n == 0x2028 || n == 0x2029 || n == 0x202F || n == 0x205F || n == 0x3000
}

/// The characters of `s`, in order.
pub fn chars_of(s: &str) -> (v: Vec<char>)
    ensures
        v@ == s@,
{
    let mut v: Vec<char> = Vec::new();
    for c in it: s.chars()
        invariant
            it.seq() == s@,
            v@ == s@.take(it.index() as int),
    {
        v.push(c);
    }
    assert(v@ == s@);
    v
}

/// Steps over whitespace from `from`.
pub fn skip_whitespace_at(chars: &[char], from: usize) -> (at: usize)
    requires
        from <= chars@.len(),
    ensures
        at == skip_whitespace(chars@, from as int),
        from <= at <= chars@.len(),
{
    let mut at: usize = from;
    while at < chars.len() && char_is_whitespace(chars[at])
        invariant
            from <= at <= chars@.len(),
            skip_whitespace(chars@, from as int) == skip_whitespace(chars@, at as int),
        decreases chars@.len() - at,
    {
        at = at + 1;
    }
    at
}

/// Steps over a run of non-whitespace characters from `from`.
pub fn token_end_at(chars: &[char], from: usize) -> (at: usize)
    requires
        from <= chars@.len(),
    ensures
        at == token_end(chars@, from as int),
        from <= at <= chars@.len(),
{
    let mut at: usize = from;
    while at < chars.len() && !char_is_whitespace(chars[at])
        invariant
            from <= at <= chars@.len(),
            token_end(chars@, from as int) == token_end(chars@, at as int),
        decreases chars@.len() - at,
    {
        at = at + 1;
    }
    at
}

/// The length of `s` without its trailing whitespace.
pub open spec fn trim_end(s: Seq<char>) -> int
    decreases s.len(),
{
    if s.len() > 0 && is_whitespace(s.last()) {
        trim_end(s.drop_last())
    } else {
        s.len() as int
    }
}

/// `s` without leading and trailing whitespace.
pub open spec fn trim(s: Seq<char>) -> Seq<char> {
    let start = skip_whitespace(s, 0);
    let end = trim_end(s);
    if start < end {
        s.subrange(start, end)
    } else {
        Seq::empty()
    }
}

/// The first position at or after `from` that holds `c`, or the length of
/// `s` when there is none.
pub open spec fn position_of(s: Seq<char>, c: char, from: int) -> int
    decreases s.len() - from,
{
    if 0 <= from < s.len() && s[from] != c {
        position_of(s, c, from + 1)
    } else {
        from
    }
}

/// What lies between the first `c` of `s` and the next one, or the end: the
/// second of the fields that `c` separates. `None` when `s` holds no `c`.
pub open spec fn second_field(s: Seq<char>, c: char) -> Option<Seq<char>> {
    let first = position_of(s, c, 0);
    if first < s.len() {
        Some(s.subrange(first + 1, position_of(s, c, first + 1)))
    } else {
        None
    }
}

/// Over a run of whitespace that `s` ends with, and that begins at `j`,
/// trimming the end leads to `j`.
pub proof fn lemma_trim_end_run(s: Seq<char>, j: int)
    requires
        0 <= j <= s.len(),
        forall|k: int| j <= k < s.len() ==> is_whitespace(#[trigger] s[k]),
        j > 0 ==> !is_whitespace(s[j - 1]),
    ensures
        trim_end(s) == j,
    decreases s.len() - j,
{
    if j < s.len() {
        lemma_trim_end_run(s.drop_last(), j);
    }
}

/// Trimming takes the whitespace around a text away, and nothing else.
pub proof fn lemma_trim(lead: Seq<char>, text: Seq<char>, trail: Seq<char>)
    requires
        all_whitespace(lead),
        all_whitespace(trail),
        text.len() > 0,
        !is_whitespace(text[0]),
        !is_whitespace(text.last()),
    ensures
        trim(lead + text + trail) == text,
{
    let s = lead + text + trail;
    let start = lead.len() as int;
    let end = start + text.len();
    assert forall|k: int| 0 <= k < start implies is_whitespace(#[trigger] s[k]) by {
        assert(s[k] == lead[k]);
    }
    assert forall|k: int| end <= k < s.len() implies is_whitespace(#[trigger] s[k]) by {
        assert(s[k] == trail[k - end]);
    }
    assert(s[start] == text[0]);
    assert(s[end - 1] == text.last());
    lemma_skip_whitespace_run(s, 0, start);
    lemma_trim_end_run(s, end);
    assert(s.subrange(start, end) == text);
}

/// Over a run without `c` that ends at `j`, the search for `c` leads to `j`.
pub proof fn lemma_position_of_run(s: Seq<char>, c: char, i: int, j: int)
    requires
        0 <= i <= j <= s.len(),
        forall|k: int| i <= k < j ==> #[trigger] s[k] != c,
        j < s.len() ==> s[j] == c,
    ensures
        position_of(s, c, i) == j,
    decreases j - i,
{
    if i < j {
        lemma_position_of_run(s, c, i + 1, j);
    }
}

/// `s` without leading and trailing whitespace, as a part of `chars`.
pub fn trimmed(chars: &[char]) -> (out: &[char])
    ensures
        out@ == trim(chars@),
{
    let start = skip_whitespace_at(chars, 0);
    let mut end: usize = chars.len();
    assert(chars@.take(end as int) == chars@);
    while end > 0 && char_is_whitespace(chars[end - 1])
        invariant
            end <= chars@.len(),
            trim_end(chars@) == trim_end(chars@.take(end as int)),
        decreases end,
    {
        assert(chars@.take(end as int).drop_last() == chars@.take(end - 1));
        end = end - 1;
    }
    if start < end {
        slice_subrange(chars, start, end)
    } else {
        slice_subrange(chars, 0, 0)
    }
}

/// Looks for `c` from `from` on.
pub fn find(chars: &[char], c: char, from: usize) -> (at: usize)
    requires
        from <= chars@.len(),
    ensures
        at == position_of(chars@, c, from as int),
        from <= at <= chars@.len(),
{
    let mut at: usize = from;
    while at < chars.len() && chars[at] != c
        invariant
            from <= at <= chars@.len(),
            position_of(chars@, c, from as int) == position_of(chars@, c, at as int),
        decreases chars@.len() - at,
    {
        at = at + 1;
    }
    at
}

/// Whether `chars` begins with `prefix`.
pub fn starts_with(chars: &[char], prefix: &[char]) -> (b: bool)
    ensures
        b == prefix@.is_prefix_of(chars@),
{
    if prefix.len() > chars.len() {
        return false;
    }
    let mut i: usize = 0;
    while i < prefix.len()
        invariant
            i <= prefix@.len() <= chars@.len(),
            forall|k: int| 0 <= k < i ==> prefix@[k] == chars@[k],
        decreases prefix@.len() - i,
    {
        if prefix[i] != chars[i] {
            assert(chars@.subrange(0, prefix@.len() as int)[i as int] != prefix@[i as int]);
            return false;
        }
        i = i + 1;
    }
    true
}

/// Whether `c` is one of `0` to `9`.
pub open spec fn is_digit(c: char) -> bool {
    0x30 <= c as u32 <= 0x39
}

/// The number that the digit `c` stands for.
pub open spec fn digit_value(c: char) -> nat {
    if is_digit(c) {
        (c as u32 - 0x30) as nat
    } else {
        0
    }
}

/// Whether `s` holds decimal digits only.
pub open spec fn all_digits(s: Seq<char>) -> bool {
    forall|i: int| 0 <= i < s.len() ==> is_digit(#[trigger] s[i])
}

/// The number that the decimal digits `s` stand for.
pub open spec fn decimal_value(s: Seq<char>) -> nat
    decreases s.len(),
{
    if s.len() == 0 {
        0
    } else {
        decimal_value(s.drop_last()) * 10 + digit_value(s.last())
    }
}

/// The number written in `s`: an optional `+` and then decimal digits, at
/// least one, whose value fits a `usize`.
pub open spec fn parse_usize(s: Seq<char>) -> Option<usize> {
    let digits = if s.len() > 0 && s[0] == '+' {
        s.drop_first()
    } else {
        s
    };
    if digits.len() > 0 && all_digits(digits) && decimal_value(digits) <= usize::MAX {
        Some(decimal_value(digits) as usize)
    } else {
        None
    }
}

/// A number does not get smaller when digits are appended.
pub proof fn lemma_decimal_value_grows(s: Seq<char>, k: int)
    requires
        0 <= k <= s.len(),
    ensures
        decimal_value(s.take(k)) <= decimal_value(s),
    decreases s.len(),
{
    if k < s.len() {
        assert(s.drop_last().take(k) == s.take(k));
        lemma_decimal_value_grows(s.drop_last(), k);
    } else {
        assert(s.take(k) == s);
    }
}

/// Reads a number as [`parse_usize`] describes it.
pub fn parse_number(chars: &[char]) -> (number: Option<usize>)
    ensures
        number == parse_usize(chars@),
{
    let n = chars.len();
    let start: usize = if n > 0 && chars[0] == '+' {
        1
    } else {
        0
    };
    let ghost digits = chars@.subrange(start as int, n as int);
    assert(digits == if chars@.len() > 0 && chars@[0] == '+' {
        chars@.drop_first()
    } else {
        chars@
    });
    if start >= n {
        return None;
    }
    let mut value: usize = 0;
    let mut i: usize = start;
    assert(digits.take(0) == Seq::<char>::empty());
    while i < n
        invariant
            start <= i <= n,
            n == chars@.len(),
            digits == chars@.subrange(start as int, n as int),
            digits == if chars@.len() > 0 && chars@[0] == '+' {
                chars@.drop_first()
            } else {
                chars@
            },
            all_digits(digits.take(i - start)),
            value == decimal_value(digits.take(i - start)),
        decreases n - i,
    {
        let code: u32 = chars[i] as u32;
        if code < 0x30 || code > 0x39 {
            assert(!is_digit(digits[i - start]));
            return None;
        }
        let digit: usize = (code - 0x30) as usize;
        proof {
            let next = digits.take(i - start + 1);
            assert(next.drop_last() == digits.take(i - start));
            assert(next.last() == chars@[i as int]);
            assert(decimal_value(next) == value * 10 + digit);
            assert(all_digits(next)) by {
                assert forall|k: int| 0 <= k < next.len() implies is_digit(#[trigger] next[k]) by {
                    if k < i - start {
                        assert(digits.take(i - start)[k] == next[k]);
                    }
                }
            }
            lemma_decimal_value_grows(digits, i - start + 1);
        }
        match value.checked_mul(10) {
            None => {
                return None;
            },
            Some(tens) => match tens.checked_add(digit) {
                None => {
                    return None;
                },
                Some(sum) => {
                    value = sum;
                },
            },
        }
        i = i + 1;
    }
    assert(digits.take(n - start) == digits);
    Some(value)
}

/// The decimal digit for `d`, which is below ten.
pub open spec fn digit(d: nat) -> char {
    if d == 0 {
        '0'
    } else if d == 1 {
        '1'
    } else if d == 2 {
        '2'
    } else if d == 3 {
        '3'
    } else if d == 4 {
        '4'
    } else if d == 5 {
        '5'
    } else if d == 6 {
        '6'
    } else if d == 7 {
        '7'
    } else if d == 8 {
        '8'
    } else {
        '9'
    }
}

/// `n` in decimal, without leading zeros.
pub open spec fn decimal(n: nat) -> Seq<char>
    decreases n,
{
    if n < 10 {
        seq![digit(n)]
    } else {
        decimal(n / 10).push(digit(n % 10))
    }
}

/// Reading a number back from its decimal form gives the number.
pub proof fn lemma_decimal_round_trip(n: nat)
    ensures
        decimal(n).len() > 0,
        all_digits(decimal(n)),
        decimal_value(decimal(n)) == n,
        n <= usize::MAX ==> parse_usize(decimal(n)) == Some(n as usize),
    decreases n,
{
    if n < 10 {
        assert(decimal(n).drop_last() == Seq::<char>::empty());
        assert(decimal_value(decimal(n).drop_last()) == 0);
    } else {
        lemma_decimal_round_trip(n / 10);
        let shorter = decimal(n / 10);
        assert(decimal(n).drop_last() == shorter);
        assert(decimal(n)[0] == shorter[0]);
    }
}

/// The digit for `d` as a text of one character.
fn digit_text(d: usize) -> (text: &'static str)
    requires
        d < 10,
    ensures
        text@ == seq![digit(d as nat)],
{
    proof {
        reveal_strlit("0");
        reveal_strlit("1");
        reveal_strlit("2");
        reveal_strlit("3");
        reveal_strlit("4");
        reveal_strlit("5");
        reveal_strlit("6");
        reveal_strlit("7");
        reveal_strlit("8");
        reveal_strlit("9");
    }
    let text = if d == 0 {
        "0"
    } else if d == 1 {
        "1"
    } else if d == 2 {
        "2"
    } else if d == 3 {
        "3"
    } else if d == 4 {
        "4"
    } else if d == 5 {
        "5"
    } else if d == 6 {
        "6"
    } else if d == 7 {
        "7"
    } else if d == 8 {
        "8"
    } else {
        "9"
    };
    assert(text@ =~= seq![digit(d as nat)]);
    text
}

/// Appends `n` in decimal to `out`.
pub fn append_decimal(out: &mut String, n: usize)
    ensures
        final(out)@ == old(out)@ + decimal(n as nat),
    decreases n,
{
    if n >= 10 {
        append_decimal(out, n / 10);
    }
    out.append(digit_text(n % 10));
    assert(out@ =~= old(out)@ + decimal(n as nat));
}

} // verus!
