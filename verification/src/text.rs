//! Text settings: trimming, splitting and decimal numbers, over the characters
//! of a string.
use vstd::prelude::*;

verus! {

/// The characters with Unicode's `White_Space` property.
pub open spec fn is_space(c: char) -> bool {
    ||| 0x09 <= c as u32 <= 0x0d
    ||| c as u32 == 0x20
    ||| c as u32 == 0x85
    ||| c as u32 == 0xa0
    ||| c as u32 == 0x1680
    ||| 0x2000 <= c as u32 <= 0x200a
    ||| c as u32 == 0x2028
    ||| c as u32 == 0x2029
    ||| c as u32 == 0x202f
    ||| c as u32 == 0x205f
    ||| c as u32 == 0x3000
}

pub open spec fn trim_start(s: Seq<char>) -> Seq<char>
    decreases s.len(),
{
    if s.len() > 0 && is_space(s[0]) {
        trim_start(s.subrange(1, s.len() as int))
    } else {
        s
    }
}

pub open spec fn trim_end(s: Seq<char>) -> Seq<char>
    decreases s.len(),
{
    if s.len() > 0 && is_space(s.last()) {
        trim_end(s.drop_last())
    } else {
        s
    }
}

/// `s` without its leading and trailing white space.
pub open spec fn trim(s: Seq<char>) -> Seq<char> {
    trim_end(trim_start(s))
}

pub open spec fn is_digit(c: char) -> bool {
    '0' <= c <= '9'
}

pub open spec fn digit_value(c: char) -> int {
    c as int - '0' as int
}

pub open spec fn all_digits(s: Seq<char>) -> bool {
    forall|i: int| 0 <= i < s.len() ==> is_digit(#[trigger] s[i])
}

/// The number a run of decimal digits stands for.
pub open spec fn digits_value(s: Seq<char>) -> int
    decreases s.len(),
{
    if s.len() == 0 {
        0
    } else {
        digits_value(s.drop_last()) * 10 + digit_value(s.last())
    }
}

/// `s` without the sign `c` it may start with.
pub open spec fn without_sign(s: Seq<char>, c: char) -> Seq<char> {
    if s.len() > 0 && s[0] == c {
        s.subrange(1, s.len() as int)
    } else {
        s
    }
}

/// What an unsigned decimal number reads as: digits, at least one, after an
/// optional plus sign, and no more than `max`.
pub open spec fn unsigned(s: Seq<char>, max: int) -> Option<int> {
    let body = without_sign(s, '+');
    if body.len() > 0 && all_digits(body) && digits_value(body) <= max {
        Some(digits_value(body))
    } else {
        None
    }
}

/// Where the first `sep` at or after `from` stands, or the end of `s`.
pub open spec fn find_from(s: Seq<char>, sep: char, from: int) -> int
    decreases s.len() - from,
{
    if from < 0 || from >= s.len() {
        s.len() as int
    } else if s[from] == sep {
        from
    } else {
        find_from(s, sep, from + 1)
    }
}

/// The pieces of `s` between its separators. There is always at least one.
pub open spec fn split(s: Seq<char>, sep: char) -> Seq<Seq<char>>
    decreases s.len(),
    via split_decreases
{
    let end = find_from(s, sep, 0);
    if end >= s.len() {
        seq![s]
    } else {
        seq![s.subrange(0, end)] + split(s.subrange(end + 1, s.len() as int), sep)
    }
}

#[via_fn]
proof fn split_decreases(s: Seq<char>, sep: char) {
    lemma_find_from(s, sep, 0);
}

pub open spec fn ascii_lower(c: char) -> char {
    if 'A' <= c <= 'Z' {
        (c as u32 + 32) as char
    } else {
        c
    }
}

pub open spec fn eq_ignore_case(a: Seq<char>, b: Seq<char>) -> bool {
    &&& a.len() == b.len()
    &&& forall|i: int| 0 <= i < a.len() ==> ascii_lower(#[trigger] a[i]) == ascii_lower(b[i])
}

/// The values that switch a setting on.
pub open spec fn is_truthy(value: Seq<char>) -> bool {
    let word = trim(value);
    ||| word == "1"@
    ||| eq_ignore_case(word, "true"@)
    ||| eq_ignore_case(word, "yes"@)
    ||| eq_ignore_case(word, "on"@)
}

/// The decimal digits of `n`, most significant first.
pub open spec fn decimal(n: nat) -> Seq<char>
    decreases n,
{
    let last = ('0' as u32 + (n % 10)) as char;
    if n < 10 {
        seq![last]
    } else {
        decimal(n / 10).push(last)
    }
}

pub proof fn lemma_find_from(s: Seq<char>, sep: char, from: int)
    requires
        0 <= from <= s.len(),
    ensures
        from <= find_from(s, sep, from) <= s.len(),
        find_from(s, sep, from) < s.len() ==> s[find_from(s, sep, from)] == sep,
        forall|i: int| from <= i < find_from(s, sep, from) ==> s[i] != sep,
    decreases s.len() - from,
{
    if from < s.len() && s[from] != sep {
        lemma_find_from(s, sep, from + 1);
    }
}

/// The position that holds the separator, with none before it, is the one
/// found.
proof fn lemma_find_is(s: Seq<char>, sep: char, from: int, at: int)
    requires
        0 <= from <= at <= s.len(),
        forall|i: int| from <= i < at ==> s[i] != sep,
        at < s.len() ==> s[at] == sep,
    ensures
        find_from(s, sep, from) == at,
    decreases at - from,
{
    if from < at {
        lemma_find_is(s, sep, from + 1, at);
    }
}

proof fn lemma_digits_step(s: Seq<char>, i: int)
    requires
        0 <= i < s.len(),
    ensures
        digits_value(s.subrange(0, i + 1)) == digits_value(s.subrange(0, i)) * 10 + digit_value(
            s[i],
        ),
{
    assert(s.subrange(0, i + 1).drop_last() =~= s.subrange(0, i));
}

/// Further digits never make a number smaller.
proof fn lemma_digits_grow(s: Seq<char>, i: int)
    requires
        0 <= i <= s.len(),
        all_digits(s),
    ensures
        0 <= digits_value(s.subrange(0, i)) <= digits_value(s),
    decreases s.len() - i,
{
    lemma_digits_nonneg(s.subrange(0, i));
    if i < s.len() {
        lemma_digits_grow(s, i + 1);
        lemma_digits_step(s, i);
        assert(is_digit(s[i]));
    } else {
        assert(s.subrange(0, i) =~= s);
    }
}

proof fn lemma_digits_nonneg(s: Seq<char>)
    requires
        all_digits(s),
    ensures
        0 <= digits_value(s),
    decreases s.len(),
{
    if s.len() > 0 {
        assert(is_digit(s[s.len() - 1]));
        assert forall|i: int| 0 <= i < s.drop_last().len() implies is_digit(
            #[trigger] s.drop_last()[i],
        ) by {
            assert(is_digit(s[i]));
        }
        lemma_digits_nonneg(s.drop_last());
    }
}

/// The characters of `s`.
pub fn chars_of(s: &str) -> (chars: Vec<char>)
    ensures
        chars@ == s@,
{
    let n: usize = s.unicode_len();
    let mut chars: Vec<char> = Vec::new();
    let mut i: usize = 0;
    while i < n
        invariant
            i <= n,
            n == s@.len(),
            chars@ == s@.subrange(0, i as int),
        decreases n - i,
    {
        chars.push(s.get_char(i));
        i += 1;
    }
    proof {
        assert(s@.subrange(0, n as int) =~= s@);
    }
    chars
}

fn is_white_space(c: char) -> (r: bool)
    ensures
        r == is_space(c),
{
    let code: u32 = c as u32;
    (0x09 <= code && code <= 0x0d) || code == 0x20 || code == 0x85 || code == 0xa0 || code
        == 0x1680 || (0x2000 <= code && code <= 0x200a) || code == 0x2028 || code == 0x2029 || code
        == 0x202f || code == 0x205f || code == 0x3000
}

/// Narrows the range `lo..hi` to what trimming leaves of it.
pub fn trim_range(chars: &Vec<char>, lo: usize, hi: usize) -> (r: (usize, usize))
    requires
        lo <= hi <= chars@.len(),
    ensures
        lo <= r.0 <= r.1 <= hi,
        chars@.subrange(r.0 as int, r.1 as int) == trim(chars@.subrange(lo as int, hi as int)),
{
    let ghost whole = chars@.subrange(lo as int, hi as int);
    let mut start: usize = lo;
    while start < hi && is_white_space(chars[start])
        invariant
            lo <= start <= hi <= chars@.len(),
            trim_start(whole) == trim_start(chars@.subrange(start as int, hi as int)),
        decreases hi - start,
    {
        proof {
            let rest = chars@.subrange(start as int, hi as int);
            assert(rest.subrange(1, rest.len() as int) =~= chars@.subrange(
                start as int + 1,
                hi as int,
            ));
        }
        start += 1;
    }
    let ghost body = chars@.subrange(start as int, hi as int);
    let mut end: usize = hi;
    while end > start && is_white_space(chars[end - 1])
        invariant
            lo <= start <= end <= hi <= chars@.len(),
            trim_end(body) == trim_end(chars@.subrange(start as int, end as int)),
        decreases end,
    {
        proof {
            let rest = chars@.subrange(start as int, end as int);
            assert(rest.drop_last() =~= chars@.subrange(start as int, end as int - 1));
        }
        end -= 1;
    }
    (start, end)
}

/// Reads the range `lo..hi` as an unsigned number of at most `max`.
pub fn parse_unsigned(chars: &Vec<char>, lo: usize, hi: usize, max: u64) -> (r: Option<u64>)
    requires
        lo <= hi <= chars@.len(),
    ensures
        match r {
            Some(value) => unsigned(chars@.subrange(lo as int, hi as int), max as int) == Some(
                value as int,
            ),
            None => unsigned(chars@.subrange(lo as int, hi as int), max as int) is None,
        },
{
    let ghost whole = chars@.subrange(lo as int, hi as int);
    let start: usize = if lo < hi && chars[lo] == '+' {
        lo + 1
    } else {
        lo
    };
    let ghost body = chars@.subrange(start as int, hi as int);
    proof {
        assert(without_sign(whole, '+') =~= body);
    }
    if start == hi {
        return None;
    }
    let mut value: u64 = 0;
    let mut i: usize = start;
    while i < hi
        invariant
            start <= i <= hi <= chars@.len(),
            body == chars@.subrange(start as int, hi as int),
            forall|k: int| 0 <= k < i - start ==> is_digit(#[trigger] body[k]),
            value == digits_value(body.subrange(0, i - start)),
            value <= max,
            whole == chars@.subrange(lo as int, hi as int),
            without_sign(whole, '+') == body,
        decreases hi - i,
    {
        let c: char = chars[i];
        assert(c == body[i - start]);
        if !('0' <= c && c <= '9') {
            return None;
        }
        let digit: u64 = (c as u32 - '0' as u32) as u64;
        proof {
            lemma_digits_step(body, i - start);
        }
        let next: u128 = value as u128 * 10 + digit as u128;
        if next > max as u128 {
            proof {
                if all_digits(body) {
                    lemma_digits_grow(body, i - start + 1);
                }
            }
            return None;
        }
        value = next as u64;
        i += 1;
    }
    proof {
        assert(body.subrange(0, hi - start) =~= body);
    }
    Some(value)
}

/// The ranges of the pieces that `sep` splits `lo..hi` into.
pub fn split_ranges(chars: &Vec<char>, lo: usize, hi: usize, sep: char) -> (ranges: Vec<
    (usize, usize),
>)
    requires
        lo <= hi <= chars@.len(),
    ensures
        ranges@.len() == split(chars@.subrange(lo as int, hi as int), sep).len(),
        ranges@.len() > 0,
        forall|k: int|
            0 <= k < ranges@.len() ==> lo <= (#[trigger] ranges@[k]).0 <= ranges@[k].1 <= hi
                && chars@.subrange(ranges@[k].0 as int, ranges@[k].1 as int) == split(
                chars@.subrange(lo as int, hi as int),
                sep,
            )[k],
{
    let ghost whole = chars@.subrange(lo as int, hi as int);
    let mut ranges: Vec<(usize, usize)> = Vec::new();
    let mut start: usize = lo;
    let mut i: usize = lo;
    while i < hi
        invariant
            lo <= start <= i <= hi <= chars@.len(),
            whole == chars@.subrange(lo as int, hi as int),
            split(whole, sep).len() == ranges@.len() + split(
                chars@.subrange(start as int, hi as int),
                sep,
            ).len(),
            forall|k: int|
                0 <= k < ranges@.len() ==> lo <= (#[trigger] ranges@[k]).0 <= ranges@[k].1 <= hi
                    && chars@.subrange(ranges@[k].0 as int, ranges@[k].1 as int) == split(
                    whole,
                    sep,
                )[k],
            forall|k: int|
                0 <= k < split(chars@.subrange(start as int, hi as int), sep).len()
                    ==> #[trigger] split(chars@.subrange(start as int, hi as int), sep)[k] == split(
                    whole,
                    sep,
                )[ranges@.len() + k],
            forall|k: int| start <= k < i ==> chars@[k] != sep,
        decreases hi - i,
    {
        if chars[i] == sep {
            proof {
                let rest = chars@.subrange(start as int, hi as int);
                lemma_find_is(rest, sep, 0, i - start);
                assert(rest.subrange(0, i - start) =~= chars@.subrange(start as int, i as int));
                assert(rest.subrange(i - start + 1, rest.len() as int) =~= chars@.subrange(
                    i as int + 1,
                    hi as int,
                ));
                let tail = split(chars@.subrange(i as int + 1, hi as int), sep);
                assert(split(rest, sep) == seq![rest.subrange(0, i - start)] + tail);
                assert(split(rest, sep)[0] == split(whole, sep)[ranges@.len() as int]);
                assert forall|k: int| 0 <= k < tail.len() implies #[trigger] tail[k] == split(
                    whole,
                    sep,
                )[ranges@.len() + 1 + k] by {
                    assert(split(rest, sep)[k + 1] == tail[k]);
                }
            }
            ranges.push((start, i));
            start = i + 1;
        }
        i += 1;
    }
    proof {
        let rest = chars@.subrange(start as int, hi as int);
        lemma_find_is(rest, sep, 0, rest.len() as int);
        assert(split(rest, sep) == seq![rest]);
        assert(split(rest, sep)[0] == split(whole, sep)[ranges@.len() as int]);
    }
    ranges.push((start, hi));
    ranges
}

/// The position of the first `sep` in `lo..hi`, if there is one.
pub fn find_char(chars: &Vec<char>, lo: usize, hi: usize, sep: char) -> (r: Option<usize>)
    requires
        lo <= hi <= chars@.len(),
    ensures
        ({
            let s = chars@.subrange(lo as int, hi as int);
            let at = find_from(s, sep, 0);
            match r {
                Some(i) => lo <= i < hi && at == i - lo && at < s.len(),
                None => at == s.len(),
            }
        }),
{
    let ghost s = chars@.subrange(lo as int, hi as int);
    let mut i: usize = lo;
    while i < hi
        invariant
            lo <= i <= hi <= chars@.len(),
            s == chars@.subrange(lo as int, hi as int),
            forall|k: int| 0 <= k < i - lo ==> s[k] != sep,
        decreases hi - i,
    {
        if chars[i] == sep {
            proof {
                lemma_find_is(s, sep, 0, i - lo);
            }
            return Some(i);
        }
        i += 1;
    }
    proof {
        lemma_find_is(s, sep, 0, s.len() as int);
    }
    None
}

fn lower(c: char) -> (r: char)
    ensures
        r == ascii_lower(c),
{
    if 'A' <= c && c <= 'Z' {
        ((c as u8) + 32) as char
    } else {
        c
    }
}

/// Whether the range `lo..hi` spells `word`, but for the case of its letters.
pub fn spells(chars: &Vec<char>, lo: usize, hi: usize, word: &str) -> (r: bool)
    requires
        lo <= hi <= chars@.len(),
    ensures
        r == eq_ignore_case(chars@.subrange(lo as int, hi as int), word@),
{
    let ghost s = chars@.subrange(lo as int, hi as int);
    if hi - lo != word.unicode_len() {
        return false;
    }
    let mut i: usize = lo;
    while i < hi
        invariant
            lo <= i <= hi <= chars@.len(),
            s == chars@.subrange(lo as int, hi as int),
            hi - lo == word@.len(),
            forall|k: int|
                0 <= k < i - lo ==> ascii_lower(#[trigger] s[k]) == ascii_lower(word@[k]),
        decreases hi - i,
    {
        assert(s[i - lo] == chars@[i as int]);
        if lower(chars[i]) != lower(word.get_char(i - lo)) {
            return false;
        }
        i += 1;
    }
    true
}

/// Whether `value`, what the setting holds if it is set, switches it on.
pub fn flag(value: Option<&str>) -> (r: bool)
    ensures
        r == match value {
            Some(value) => is_truthy(value@),
            None => false,
        },
{
    match value {
        Some(value) => {
            let chars: Vec<char> = chars_of(value);
            let range: (usize, usize) = trim_range(&chars, 0, chars.len());
            proof {
                assert(chars@.subrange(0, chars@.len() as int) =~= value@);
                reveal_strlit("1");
            }
            let ghost word = chars@.subrange(range.0 as int, range.1 as int);
            let one: bool = range.1 - range.0 == 1 && chars[range.0] == '1';
            proof {
                if one {
                    assert(word =~= "1"@);
                } else if word == "1"@ {
                    assert("1"@.len() == 1);
                    assert(word.len() == range.1 - range.0);
                    assert(word[0] == chars@[range.0 as int]);
                }
            }
            one || spells(&chars, range.0, range.1, "true") || spells(
                &chars,
                range.0,
                range.1,
                "yes",
            ) || spells(&chars, range.0, range.1, "on")
        },
        None => false,
    }
}

fn digit_text(digit: u64) -> (r: &'static str)
    requires
        digit < 10,
    ensures
        r@ == seq![('0' as u32 + digit) as char],
{
    proof {
        reveal_strlit("0");
        reveal_strlit("1");
        reveal_strlit("2");
        reveal_strlit("3");
        reveal_strlit("4");
        reveal_strlit("5");
        reveal_strlit("6");
        reveal_strlit("7");
        reveal_strlit("8");
        reveal_strlit("9");
    }
    let text: &'static str = match digit {
        0 => "0",
        1 => "1",
        2 => "2",
        3 => "3",
        4 => "4",
        5 => "5",
        6 => "6",
        7 => "7",
        8 => "8",
        _ => "9",
    };
    assert(text@ =~= seq![('0' as u32 + digit) as char]);
    text
}

/// Appends the decimal digits of `n`.
pub fn append_decimal(out: &mut String, n: u64)
    ensures
        final(out)@ == old(out)@ + decimal(n as nat),
    decreases n,
{
    if n >= 10 {
        append_decimal(out, n / 10);
    }
    let ghost before = out@;
    out.append(digit_text(n % 10));
    proof {
        let last = ('0' as u32 + (n as nat % 10)) as char;
        assert(out@ == before + seq![last]);
        assert(out@ =~= old(out)@ + decimal(n as nat));
    }
}

/// White space and nothing else.
pub open spec fn is_blank(s: Seq<char>) -> bool {
    forall|i: int| 0 <= i < s.len() ==> is_space(#[trigger] s[i])
}

/// A text that neither starts nor ends with white space.
pub open spec fn is_tight(s: Seq<char>) -> bool {
    s.len() > 0 ==> !is_space(s[0]) && !is_space(s[s.len() - 1])
}

proof fn lemma_trim_start_drops(blank: Seq<char>, s: Seq<char>)
    requires
        is_blank(blank),
    ensures
        trim_start(blank + s) == trim_start(s),
    decreases blank.len(),
{
    if blank.len() == 0 {
        assert(blank + s =~= s);
    } else {
        let rest = blank.subrange(1, blank.len() as int);
        assert((blank + s)[0] == blank[0]);
        assert((blank + s).subrange(1, (blank + s).len() as int) =~= rest + s);
        lemma_trim_start_drops(rest, s);
    }
}

proof fn lemma_trim_end_drops(s: Seq<char>, blank: Seq<char>)
    requires
        is_blank(blank),
    ensures
        trim_end(s + blank) == trim_end(s),
    decreases blank.len(),
{
    if blank.len() == 0 {
        assert(s + blank =~= s);
    } else {
        assert((s + blank).last() == blank[blank.len() - 1]);
        assert((s + blank).drop_last() =~= s + blank.drop_last());
        lemma_trim_end_drops(s, blank.drop_last());
    }
}

/// Trimming takes all white space from around a text, and nothing of the text.
pub proof fn law_trimming_leaves_the_text(before: Seq<char>, s: Seq<char>, after: Seq<char>)
    requires
        is_blank(before),
        is_blank(after),
        is_tight(s),
    ensures
        trim(before + s + after) == s,
        trim(s) == s,
{
    let empty = Seq::<char>::empty();
    assert(before + s + after =~= before + (s + after));
    lemma_trim_start_drops(before, s + after);
    if s.len() == 0 {
        assert(s + after =~= after + empty);
        lemma_trim_start_drops(after, empty);
        assert(trim_start(empty) == empty);
        assert(s =~= empty);
    } else {
        assert((s + after)[0] == s[0]);
        lemma_trim_end_drops(s, after);
        assert(s.last() == s[s.len() - 1]);
    }
}

/// The digits of a number, and what they stand for.
pub proof fn lemma_decimal(n: nat)
    ensures
        decimal(n).len() > 0,
        all_digits(decimal(n)),
        digits_value(decimal(n)) == n,
        is_tight(decimal(n)),
        decimal(n)[0] != '+',
    decreases n,
{
    let last = ('0' as u32 + (n % 10)) as char;
    let digit = n % 10;
    assert(0 <= digit < 10);
    assert(is_digit(last));
    assert(digit_value(last) == digit);
    if n < 10 {
        assert(decimal(n).drop_last() =~= Seq::<char>::empty());
        assert(digits_value(decimal(n).drop_last()) == 0);
    } else {
        lemma_decimal(n / 10);
        let front = decimal(n / 10);
        assert(decimal(n).drop_last() =~= front);
        assert forall|i: int| 0 <= i < decimal(n).len() implies is_digit(
            #[trigger] decimal(n)[i],
        ) by {
            if i < front.len() {
                assert(is_digit(front[i]));
            }
        }
        assert(is_digit(decimal(n)[0]));
        assert(is_digit(decimal(n)[decimal(n).len() - 1]));
    }
}

/// A number that is written in decimal reads as that number, with or without a plus sign,
/// and where it is more than may be read, as none.
pub proof fn law_a_number_reads_as_it_was_written(n: nat, max: int)
    ensures
        unsigned(decimal(n), max) == if n <= max {
            Some(n as int)
        } else {
            None
        },
        unsigned(seq!['+'] + decimal(n), max) == unsigned(decimal(n), max),
{
    lemma_decimal(n);
    let signed = seq!['+'] + decimal(n);
    assert(signed[0] == '+');
    assert(signed.subrange(1, signed.len() as int) =~= decimal(n));
}

/// What reads as a number has digits only, but for one plus sign before them.
pub proof fn law_only_digits_read_as_a_number(s: Seq<char>, max: int)
    requires
        unsigned(s, max) is Some,
    ensures
        s.len() > 0,
        forall|i: int|
            0 <= i < s.len() ==> '0' <= #[trigger] s[i] <= '9' || (i == 0 && s[i] == '+'
                && s.len() > 1),
        0 <= unsigned(s, max)->0 <= max,
{
    let body = without_sign(s, '+');
    lemma_digits_nonneg(body);
    assert forall|i: int| 0 <= i < s.len() implies '0' <= #[trigger] s[i] <= '9' || (i == 0 && s[i]
        == '+' && s.len() > 1) by {
        if s[0] == '+' {
            if i > 0 {
                assert(is_digit(body[i - 1]));
            }
        } else {
            assert(is_digit(body[i]));
        }
    }
}

/// One more digit makes the number ten times what it was, and that digit more.
pub proof fn law_each_digit_counts_ten_times_the_next(s: Seq<char>, digit: char, max: int)
    requires
        s.len() > 0,
        '0' <= s[0] <= '9',
        '0' <= digit <= '9',
        unsigned(s.push(digit), max) is Some,
    ensures
        unsigned(s, max) is Some,
        unsigned(s.push(digit), max)->0 == unsigned(s, max)->0 * 10 + (digit as u32 - '0' as u32),
{
    let longer = s.push(digit);
    assert(longer.drop_last() =~= s);
    assert(longer[0] == s[0]);
    assert(without_sign(longer, '+') == longer);
    assert forall|i: int| 0 <= i < s.len() implies is_digit(#[trigger] s[i]) by {
        assert(is_digit(longer[i]));
    }
    lemma_digits_nonneg(s);
}

/// A text splits where the separator stands and nowhere else: what comes before the first
/// one is the first piece, and what follows it splits in turn.
pub proof fn law_a_text_splits_at_its_separators(first: Seq<char>, sep: char, rest: Seq<char>)
    requires
        forall|i: int| 0 <= i < first.len() ==> first[i] != sep,
    ensures
        split(first, sep) == seq![first],
        split(first + seq![sep] + rest, sep) == seq![first] + split(rest, sep),
        find_from(first + seq![sep] + rest, sep, 0) == first.len(),
{
    lemma_find_is(first, sep, 0, first.len() as int);
    let whole = first + seq![sep] + rest;
    assert(whole[first.len() as int] == sep);
    assert forall|i: int| 0 <= i < first.len() implies whole[i] != sep by {
        assert(whole[i] == first[i]);
    }
    lemma_find_is(whole, sep, 0, first.len() as int);
    assert(whole.subrange(0, first.len() as int) =~= first);
    assert(whole.subrange(first.len() as int + 1, whole.len() as int) =~= rest);
}

/// White space around a word, and the case of its letters, do not matter to whether it
/// switches a setting on.
pub proof fn law_flags_are_read_without_regard_to_case(
    before: Seq<char>,
    word: Seq<char>,
    other: Seq<char>,
    after: Seq<char>,
)
    requires
        is_blank(before),
        is_blank(after),
        is_tight(word),
        is_tight(other),
        word.len() == other.len(),
        forall|i: int|
            0 <= i < word.len() ==> #[trigger] word[i] == other[i] || ('A' <= word[i] <= 'Z'
                && other[i] == (word[i] as u32 + 32) as char),
    ensures
        is_truthy(before + word + after) == is_truthy(other),
{
    law_trimming_leaves_the_text(before, word, after);
    law_trimming_leaves_the_text(before, other, after);
    reveal_strlit("1");
    assert forall|i: int| 0 <= i < word.len() implies ascii_lower(#[trigger] word[i])
        == ascii_lower(other[i]) by {
        if word[i] != other[i] {
            assert('A' <= word[i] <= 'Z');
        }
    }
    if word == "1"@ {
        assert(word[0] == '1');
        assert(other =~= word);
    }
    if other == "1"@ {
        assert(other[0] == '1');
        assert(word[0] == other[0]);
        assert(other =~= word);
    }
    assert forall|w: Seq<char>| eq_ignore_case(word, w) == #[trigger] eq_ignore_case(other, w) by {
        if eq_ignore_case(word, w) {
            assert forall|i: int| 0 <= i < other.len() implies ascii_lower(#[trigger] other[i])
                == ascii_lower(w[i]) by {
                assert(ascii_lower(word[i]) == ascii_lower(w[i]));
            }
        }
        if eq_ignore_case(other, w) {
            assert forall|i: int| 0 <= i < word.len() implies ascii_lower(#[trigger] word[i])
                == ascii_lower(w[i]) by {
                assert(ascii_lower(other[i]) == ascii_lower(w[i]));
            }
        }
    }
}

/// Only a word of one to four letters switches a setting on; the digit one does.
pub proof fn law_few_words_switch_a_setting_on(word: Seq<char>)
    requires
        is_tight(word),
    ensures
        is_truthy(word) <==> {
            ||| word =~= seq!['1']
            ||| word.len() == 2 && (word[0] == 'o' || word[0] == 'O') && (word[1] == 'n' || word[1]
                == 'N')
            ||| word.len() == 3 && (word[0] == 'y' || word[0] == 'Y') && (word[1] == 'e' || word[1]
                == 'E') && (word[2] == 's' || word[2] == 'S')
            ||| word.len() == 4 && (word[0] == 't' || word[0] == 'T') && (word[1] == 'r' || word[1]
                == 'R') && (word[2] == 'u' || word[2] == 'U') && (word[3] == 'e' || word[3] == 'E')
        },
{
    law_trimming_leaves_the_text(Seq::empty(), word, Seq::empty());
    reveal_strlit("1");
    reveal_strlit("true");
    reveal_strlit("yes");
    reveal_strlit("on");
    assert("1"@ =~= seq!['1']);
    law_a_small_word_is_spelled_in_any_case(word, "on"@);
    law_a_small_word_is_spelled_in_any_case(word, "yes"@);
    law_a_small_word_is_spelled_in_any_case(word, "true"@);
}

/// A word of small letters is spelled by the same letters, small or large.
pub proof fn law_a_small_word_is_spelled_in_any_case(a: Seq<char>, w: Seq<char>)
    requires
        forall|i: int| 0 <= i < w.len() ==> 'a' <= #[trigger] w[i] <= 'z',
    ensures
        eq_ignore_case(a, w) <==> a.len() == w.len() && forall|i: int|
            0 <= i < w.len() ==> #[trigger] a[i] == w[i] || a[i] as u32 + 32 == w[i] as u32,
{
    if a.len() == w.len() {
        assert forall|i: int| 0 <= i < w.len() implies (ascii_lower(#[trigger] a[i])
            == ascii_lower(w[i])) == (a[i] == w[i] || a[i] as u32 + 32 == w[i] as u32) by {
            assert('a' <= w[i] <= 'z');
            if 'A' <= a[i] <= 'Z' {
                let code = (a[i] as u32 + 32) as u32;
                assert(code as char as u32 == code);
            }
        }
        if eq_ignore_case(a, w) {
            assert forall|i: int| 0 <= i < w.len() implies #[trigger] a[i] == w[i] || a[i] as u32
                + 32 == w[i] as u32 by {
                assert(ascii_lower(a[i]) == ascii_lower(w[i]));
            }
        }
    }
}

/// A last piece comes after all that came before it.
pub proof fn law_a_last_piece_comes_last(s: Seq<char>, sep: char, last: Seq<char>)
    requires
        forall|i: int| 0 <= i < last.len() ==> last[i] != sep,
    ensures
        split(s + seq![sep] + last, sep) == split(s, sep).push(last),
    decreases s.len(),
{
    lemma_find_from(s, sep, 0);
    let end = find_from(s, sep, 0);
    if end >= s.len() {
        law_a_text_splits_at_its_separators(s, sep, last);
        law_a_text_splits_at_its_separators(last, sep, last);
        assert(seq![s] + seq![last] =~= seq![s].push(last));
    } else {
        let first = s.subrange(0, end);
        let rest = s.subrange(end + 1, s.len() as int);
        assert(s =~= first + seq![sep] + rest);
        law_a_last_piece_comes_last(rest, sep, last);
        law_a_text_splits_at_its_separators(first, sep, rest + seq![sep] + last);
        assert(s + seq![sep] + last =~= first + seq![sep] + (rest + seq![sep] + last));
        assert(seq![first] + split(rest, sep).push(last) =~= (seq![first] + split(rest, sep)).push(
            last,
        ));
    }
}

/// Two texts with a separator between them split into the pieces of the one and then those
/// of the other.
pub proof fn law_joined_texts_split_apart(s: Seq<char>, sep: char, rest: Seq<char>)
    ensures
        split(s + seq![sep] + rest, sep) == split(s, sep) + split(rest, sep),
    decreases s.len(),
{
    lemma_find_from(s, sep, 0);
    let end = find_from(s, sep, 0);
    if end >= s.len() {
        law_a_text_splits_at_its_separators(s, sep, rest);
    } else {
        let first = s.subrange(0, end);
        let tail = s.subrange(end + 1, s.len() as int);
        law_joined_texts_split_apart(tail, sep, rest);
        assert(s =~= first + seq![sep] + tail);
        law_a_text_splits_at_its_separators(first, sep, tail + seq![sep] + rest);
        assert(s + seq![sep] + rest =~= first + seq![sep] + (tail + seq![sep] + rest));
        assert(seq![first] + (split(tail, sep) + split(rest, sep)) =~= (seq![first] + split(
            tail,
            sep,
        )) + split(rest, sep));
    }
}

/// Blanks, tabs and the ends of lines are white space, and so are the wider blanks; letters,
/// digits and signs are not.
pub proof fn law_signs_and_letters_are_no_white_space(c: char)
    ensures
        c == ' ' || c == '\t' || c == '\n' || c == '\r' ==> is_space(c),
        '!' <= c <= '~' ==> !is_space(c),
        c as u32 == 0x85 || c as u32 == 0xa0 || c as u32 == 0x3000 ==> is_space(c),
        0x2000 <= c as u32 <= 0x200a ==> is_space(c),
        c as u32 > 0x3000 ==> !is_space(c),
{
}

} // verus!
