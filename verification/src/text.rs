//! Small string tools the rest of the crate is built from, each with its meaning stated over the
//! characters of the string.

use vstd::prelude::*;
use vstd::string::*;

verus! {

/// Appends one character to a string: `String::push`.
#[verifier::external_body]
pub(crate) fn push_char(s: &mut String, c: char)
    ensures
        final(s)@ == old(s)@.push(c),
{
    s.push(c);
}

/// The characters of `s`, in order.
pub fn chars_of(s: &str) -> (v: Vec<char>)
    ensures
        v@ == s@,
{
    let n = s.unicode_len();
    let mut v: Vec<char> = Vec::new();
    let mut i: usize = 0;
    while i < n
        invariant
            n == s@.len(),
            i <= n,
            v@ == s@.subrange(0, i as int),
        decreases n - i,
    {
        v.push(s.get_char(i));
        i += 1;
    }
    v
}

/// A string holding exactly `chars`.
pub fn string_of(chars: &[char]) -> (s: String)
    ensures
        s@ == chars@,
{
    let mut s = String::new();
    let mut i: usize = 0;
    while i < chars.len()
        invariant
            i <= chars@.len(),
            s@ == chars@.subrange(0, i as int),
        decreases chars.len() - i,
    {
        push_char(&mut s, chars[i]);
        i += 1;
    }
    s
}

/// Whether two strings hold the same characters.
pub fn str_eq(a: &str, b: &str) -> (r: bool)
    ensures
        r == (a@ == b@),
{
    let n = a.unicode_len();
    if n != b.unicode_len() {
        return false;
    }
    let mut i: usize = 0;
    while i < n
        invariant
            n == a@.len(),
            n == b@.len(),
            i <= n,
            forall|j: int| 0 <= j < i ==> a@[j] == b@[j],
        decreases n - i,
    {
        if a.get_char(i) != b.get_char(i) {
            return false;
        }
        i += 1;
    }
    assert(a@ =~= b@);
    true
}

/// Whether `s` begins with `prefix`.
pub fn starts_with(s: &str, prefix: &str) -> (r: bool)
    ensures
        r == (prefix@.len() <= s@.len() && s@.subrange(0, prefix@.len() as int) == prefix@),
{
    let n = prefix.unicode_len();
    if n > s.unicode_len() {
        return false;
    }
    let mut i: usize = 0;
    while i < n
        invariant
            n == prefix@.len(),
            n <= s@.len(),
            i <= n,
            forall|j: int| 0 <= j < i ==> s@[j] == prefix@[j],
        decreases n - i,
    {
        if s.get_char(i) != prefix.get_char(i) {
            return false;
        }
        i += 1;
    }
    assert(s@.subrange(0, n as int) =~= prefix@);
    true
}

/// The decimal digit `d` as a character.
pub open spec fn digit(d: nat) -> char {
    ((48 + d) as u32) as char
}

/// `n` written in decimal, with no leading zeros (`0` is one digit).
pub open spec fn decimal(n: nat) -> Seq<char>
    decreases n,
{
    if n < 10 {
        seq![digit(n)]
    } else {
        decimal(n / 10).push(digit(n % 10))
    }
}

/// `n` at least `width` digits wide, padded with leading zeros.
pub open spec fn zero_padded(n: nat, width: nat) -> Seq<char> {
    let digits = decimal(n);
    if digits.len() < width {
        Seq::new((width - digits.len()) as nat, |_i: int| '0') + digits
    } else {
        digits
    }
}

/// `n` as written in decimal.
pub fn decimal_string(n: u64) -> (s: String)
    ensures
        s@ == decimal(n as nat),
    decreases n,
{
    if n < 10 {
        let mut s = String::new();
        let c = char_digit(n as u8);
        push_char(&mut s, c);
        s
    } else {
        let mut s = decimal_string(n / 10);
        let c = char_digit((n % 10) as u8);
        push_char(&mut s, c);
        s
    }
}

/// The character of a decimal digit.
pub fn char_digit(d: u8) -> (c: char)
    requires
        d < 10,
    ensures
        c == digit(d as nat),
{
    match d {
        0 => '0',
        1 => '1',
        2 => '2',
        3 => '3',
        4 => '4',
        5 => '5',
        6 => '6',
        7 => '7',
        8 => '8',
        _ => '9',
    }
}

/// A signed number in decimal, with a leading `-` when negative.
pub open spec fn signed_decimal(n: int) -> Seq<char> {
    if n < 0 {
        seq!['-'] + decimal((-n) as nat)
    } else {
        decimal(n as nat)
    }
}

/// `n` as written in decimal, sign included.
pub fn signed_string(n: i64) -> (s: String)
    ensures
        s@ == signed_decimal(n as int),
{
    if n < 0 {
        let magnitude: u64 = if n == i64::MIN {
            9223372036854775808u64
        } else {
            (-n) as u64
        };
        let mut s = String::new();
        push_char(&mut s, '-');
        let digits = decimal_string(magnitude);
        s.append(digits.as_str());
        s
    } else {
        decimal_string(n as u64)
    }
}

/// `n` in decimal, zero-padded to two digits.
pub fn two_digits(n: u64) -> (s: String)
    ensures
        s@ == zero_padded(n as nat, 2),
{
    let digits = decimal_string(n);
    if n < 10 {
        let mut s = String::new();
        push_char(&mut s, '0');
        s.append(digits.as_str());
        assert(decimal(n as nat).len() == 1);
        assert(s@ =~= zero_padded(n as nat, 2));
        s
    } else {
        proof {
            lemma_decimal_len_at_least_two(n as nat);
        }
        digits
    }
}

/// A number of ten or more takes at least two digits.
pub proof fn lemma_decimal_len_at_least_two(n: nat)
    requires
        n >= 10,
    ensures
        decimal(n).len() >= 2,
    decreases n,
{
    if n / 10 >= 10 {
        lemma_decimal_len_at_least_two(n / 10);
    } else {
        assert(decimal(n / 10).len() == 1);
    }
}

/// How many digits `n` takes: the length of `decimal(n)` never exceeds that of a bigger bound.
pub proof fn lemma_decimal_len_bound(n: nat, k: nat)
    requires
        n < pow10(k),
        k >= 1,
    ensures
        decimal(n).len() <= k,
    decreases n,
{
    if n >= 10 {
        assert(k >= 2) by {
            if k == 1 {
                assert(pow10(1) == 10) by {
                    reveal_with_fuel(pow10, 2);
                }
            }
        }
        assert(n / 10 < pow10((k - 1) as nat)) by {
            assert(pow10(k) == 10 * pow10((k - 1) as nat));
        }
        lemma_decimal_len_bound(n / 10, (k - 1) as nat);
    }
}

/// Ten to the `k`.
pub open spec fn pow10(k: nat) -> nat
    decreases k,
{
    if k == 0 {
        1
    } else {
        10 * pow10((k - 1) as nat)
    }
}

/// A Unicode scalar value: a code point that is not a surrogate.
pub open spec fn is_scalar(v: int) -> bool {
    (0 <= v && v < 0xd800) || (0xe000 <= v && v <= 0x10ffff)
}

/// The character a code point names: `char::from_u32`, which refuses a surrogate or anything past
/// the last code point.
#[verifier::external_body]
pub(crate) fn char_from_u32(v: u32) -> (r: Option<char>)
    ensures
        r == (if is_scalar(v as int) {
            Some(v as char)
        } else {
            None
        }),
{
    char::from_u32(v)
}

/// A control character: general category Cc, the C0 set, DEL and the C1 set.
pub open spec fn is_control(c: char) -> bool {
    (c as u32) <= 0x1f || (0x7f <= (c as u32) && (c as u32) <= 0x9f)
}

/// Whether `c` is a control character: `char::is_control`.
pub fn control(c: char) -> (r: bool)
    ensures
        r == is_control(c),
{
    let v = c as u32;
    v <= 0x1f || (0x7f <= v && v <= 0x9f)
}

/// White space as Unicode's `White_Space` property lists it.
pub open spec fn is_whitespace(c: char) -> bool {
    let v = c as u32;
    (0x09 <= v && v <= 0x0d) || v == 0x20 || v == 0x85 || v == 0xa0 || v == 0x1680 || (0x2000
        <= v && v <= 0x200a) || v == 0x2028 || v == 0x2029 || v == 0x202f || v == 0x205f || v
        == 0x3000
}

/// Whether `c` is white space: `char::is_whitespace`.
pub fn whitespace(c: char) -> (r: bool)
    ensures
        r == is_whitespace(c),
{
    let v = c as u32;
    (0x09 <= v && v <= 0x0d) || v == 0x20 || v == 0x85 || v == 0xa0 || v == 0x1680 || (0x2000
        <= v && v <= 0x200a) || v == 0x2028 || v == 0x2029 || v == 0x202f || v == 0x205f || v
        == 0x3000
}


/// `words` with `sep` between each two of them.
pub open spec fn joined(words: Seq<Seq<char>>, sep: Seq<char>) -> Seq<char>
    decreases words.len(),
{
    if words.len() == 0 {
        Seq::empty()
    } else if words.len() == 1 {
        words[0]
    } else {
        joined(words.drop_last(), sep) + sep + words.last()
    }
}

/// The characters of each string.
pub open spec fn views(v: Seq<String>) -> Seq<Seq<char>> {
    v.map_values(|s: String| s@)
}

/// `words` with `sep` between each two of them: `[String]::join`.
pub fn join_words(words: &Vec<String>, sep: &str) -> (r: String)
    ensures
        r@ == joined(views(words@), sep@),
{
    let mut r = String::new();
    let mut i: usize = 0;
    while i < words.len()
        invariant
            i <= words@.len(),
            r@ == joined(views(words@.subrange(0, i as int)), sep@),
        decreases words.len() - i,
    {
        let ghost before = views(words@.subrange(0, i as int));
        let ghost after = views(words@.subrange(0, i as int + 1));
        assert(after.drop_last() =~= before);
        assert(after.last() == words@[i as int]@);
        if i > 0 {
            r.append(sep);
        } else {
            assert(before.len() == 0);
            assert(r@ =~= Seq::<char>::empty());
        }
        r.append(words[i].as_str());
        proof {
            if i > 0 {
                assert(r@ =~= joined(before, sep@) + sep@ + words@[i as int]@);
            } else {
                assert(r@ =~= words@[i as int]@);
            }
        }
        i += 1;
    }
    assert(words@.subrange(0, words@.len() as int) =~= words@);
    r
}

/// The runs of `s` split at white space so far, and the run still open at its end.
pub open spec fn split_state(s: Seq<char>) -> (Seq<Seq<char>>, Seq<char>)
    decreases s.len(),
{
    if s.len() == 0 {
        (Seq::empty(), Seq::empty())
    } else {
        let (done, current) = split_state(s.drop_last());
        let c = s.last();
        if is_whitespace(c) {
            if current.len() > 0 {
                (done.push(current), Seq::empty())
            } else {
                (done, current)
            }
        } else {
            (done, current.push(c))
        }
    }
}

/// The maximal runs of `s` that hold no white space, in order: `str::split_whitespace`.
pub open spec fn words_of(s: Seq<char>) -> Seq<Seq<char>> {
    let (done, current) = split_state(s);
    if current.len() > 0 {
        done.push(current)
    } else {
        done
    }
}

/// The words of `s`.
pub fn split_whitespace(s: &str) -> (r: Vec<String>)
    ensures
        views(r@) == words_of(s@),
{
    let n = s.unicode_len();
    let mut done: Vec<String> = Vec::new();
    let mut current = String::new();
    let mut i: usize = 0;
    while i < n
        invariant
            n == s@.len(),
            i <= n,
            (views(done@), current@) == split_state(s@.subrange(0, i as int)),
        decreases n - i,
    {
        let c = s.get_char(i);
        assert(s@.subrange(0, i as int + 1).drop_last() =~= s@.subrange(0, i as int));
        assert(s@.subrange(0, i as int + 1).last() == c);
        if whitespace(c) {
            if current.unicode_len() > 0 {
                let ghost before = done@;
                let mut word = String::new();
                std::mem::swap(&mut word, &mut current);
                done.push(word);
                assert(views(done@) =~= views(before).push(word@));
            }
        } else {
            push_char(&mut current, c);
        }
        i += 1;
    }
    assert(s@.subrange(0, n as int) =~= s@);
    if current.unicode_len() > 0 {
        let ghost before = done@;
        done.push(current);
        assert(views(done@) =~= views(before).push(current@));
    }
    done
}


/// The pieces of `s` between the occurrences of `sep`, empty ones included: `str::split`.
pub open spec fn pieces(s: Seq<char>, sep: char) -> Seq<Seq<char>>
    decreases s.len(),
{
    if s.len() == 0 {
        seq![Seq::empty()]
    } else {
        let p = pieces(s.drop_last(), sep);
        if s.last() == sep {
            p.push(Seq::empty())
        } else {
            p.update(p.len() - 1, p.last().push(s.last()))
        }
    }
}

pub proof fn lemma_pieces_nonempty(s: Seq<char>, sep: char)
    ensures
        pieces(s, sep).len() >= 1,
    decreases s.len(),
{
    if s.len() > 0 {
        lemma_pieces_nonempty(s.drop_last(), sep);
    }
}

/// The pieces of `s` between the occurrences of `sep`.
pub fn split_chars(s: &Vec<char>, sep: char) -> (r: Vec<Vec<char>>)
    ensures
        r@.map_values(|p: Vec<char>| p@) == pieces(s@, sep),
{
    let mut done: Vec<Vec<char>> = Vec::new();
    let mut current: Vec<char> = Vec::new();
    let mut i: usize = 0;
    while i < s.len()
        invariant
            i <= s@.len(),
            done@.map_values(|p: Vec<char>| p@).push(current@) == pieces(s@.subrange(0, i as int), sep),
        decreases s.len() - i,
    {
        let c = s[i];
        let ghost before = done@.map_values(|p: Vec<char>| p@).push(current@);
        assert(s@.subrange(0, i as int + 1).drop_last() =~= s@.subrange(0, i as int));
        proof {
            lemma_pieces_nonempty(s@.subrange(0, i as int), sep);
        }
        if c == sep {
            let mut finished: Vec<char> = Vec::new();
            std::mem::swap(&mut finished, &mut current);
            let ghost old_done = done@;
            done.push(finished);
            assert(done@.map_values(|p: Vec<char>| p@) =~= old_done.map_values(|p: Vec<char>| p@).push(finished@));
            assert(done@.map_values(|p: Vec<char>| p@).push(current@) =~= before.push(Seq::empty()));
        } else {
            current.push(c);
            assert(done@.map_values(|p: Vec<char>| p@).push(current@) =~= before.update(
                before.len() - 1,
                before.last().push(c),
            ));
        }
        i += 1;
    }
    assert(s@.subrange(0, s@.len() as int) =~= s@);
    let ghost old_done = done@;
    done.push(current);
    assert(done@.map_values(|p: Vec<char>| p@) =~= old_done.map_values(|p: Vec<char>| p@).push(current@));
    done
}

/// What parsing `s` as an `i64` gives: an optional sign, then one or more ASCII digits whose value
/// fits.
pub open spec fn parse_i64_spec(s: Seq<char>) -> Option<int> {
    let negative = s.len() > 0 && s[0] == '-';
    let digits = if s.len() > 0 && (s[0] == '-' || s[0] == '+') {
        s.drop_first()
    } else {
        s
    };
    if digits.len() > 0 && all_digits(digits) {
        let v: int = if negative {
            -(digits_value(digits) as int)
        } else {
            digits_value(digits) as int
        };
        if i64::MIN <= v <= i64::MAX {
            Some(v)
        } else {
            None
        }
    } else {
        None
    }
}

pub open spec fn is_digit(c: char) -> bool {
    '0' <= c && c <= '9'
}

pub open spec fn all_digits(s: Seq<char>) -> bool {
    forall|i: int| 0 <= i < s.len() ==> is_digit(#[trigger] s[i])
}

/// The number an all-digit string spells.
pub open spec fn digits_value(s: Seq<char>) -> nat
    decreases s.len(),
{
    if s.len() == 0 {
        0
    } else {
        digits_value(s.drop_last()) * 10 + ((s.last() as u32) - 48) as nat
    }
}

/// `s` read as an `i64`: `str::parse::<i64>`.
pub fn parse_i64(s: &Vec<char>) -> (r: Option<i64>)
    ensures
        match parse_i64_spec(s@) {
            Some(v) => r == Some(v as i64),
            None => r is None,
        },
{
    let n = s.len();
    let negative = n > 0 && s[0] == '-';
    let first: usize = if n > 0 && (s[0] == '-' || s[0] == '+') {
        1
    } else {
        0
    };
    let ghost digits = s@.subrange(first as int, n as int);
    assert(digits =~= if s@.len() > 0 && (s@[0] == '-' || s@[0] == '+') {
        s@.drop_first()
    } else {
        s@
    });
    if first == n {
        return None;
    }
    let limit: u128 = 9223372036854775808;
    let mut value: u128 = 0;
    let mut i = first;
    assert(s@.subrange(first as int, first as int) =~= Seq::<char>::empty());
    while i < n
        invariant
            first <= i <= n == s@.len(),
            digits == s@.subrange(first as int, n as int),
            digits == (if s@.len() > 0 && (s@[0] == '-' || s@[0] == '+') {
                s@.drop_first()
            } else {
                s@
            }),
            forall|j: int| first <= j < i ==> is_digit(#[trigger] s@[j]),
            value == if digits_value(s@.subrange(first as int, i as int)) <= limit {
                digits_value(s@.subrange(first as int, i as int))
            } else {
                (limit + 1) as nat
            },
            limit == 9223372036854775808,
        decreases n - i,
    {
        let c = s[i];
        if !('0' <= c && c <= '9') {
            proof {
                let k = (i - first) as int;
                assert(digits[k] == c);
                assert(!all_digits(digits));
            }
            return None;
        }
        let d = (c as u32 - 48) as u128;
        let ghost prefix = s@.subrange(first as int, i as int);
        let ghost next = s@.subrange(first as int, i as int + 1);
        assert(next.drop_last() =~= prefix);
        value = value * 10 + d;
        if value > limit {
            value = limit + 1;
        }
        i += 1;
    }
    proof {
        assert forall|j: int| 0 <= j < digits.len() implies is_digit(#[trigger] digits[j]) by {
            assert(digits[j] == s@[first + j]);
        }
    }
    if negative {
        if value > limit {
            None
        } else if value == limit {
            Some(-9223372036854775807 - 1)
        } else {
            let v = value as i64;
            Some(-v)
        }
    } else {
        if value >= limit {
            None
        } else {
            Some(value as i64)
        }
    }
}

/// The first position at or after `from` and before `to` where `c` stands.
pub fn find_char(s: &Vec<char>, from: usize, to: usize, c: char) -> (r: Option<usize>)
    requires
        from <= to <= s@.len(),
    ensures
        match r {
            Some(i) => from <= i < to && s@[i as int] == c && forall|j: int|
                from <= j < i ==> s@[j] != c,
            None => forall|j: int| from <= j < to ==> s@[j] != c,
        },
{
    let mut i = from;
    while i < to
        invariant
            from <= i <= to <= s@.len(),
            forall|j: int| from <= j < i ==> s@[j] != c,
        decreases to - i,
    {
        if s[i] == c {
            return Some(i);
        }
        i += 1;
    }
    None
}


/// Where `c` first stands in `s`.
pub open spec fn first_index(s: Seq<char>, c: char) -> Option<int>
    decreases s.len(),
{
    if s.len() == 0 {
        None
    } else if s[0] == c {
        Some(0)
    } else {
        match first_index(s.drop_first(), c) {
            Some(i) => Some(i + 1),
            None => None,
        }
    }
}

pub proof fn lemma_first_index(s: Seq<char>, c: char, i: int)
    requires
        0 <= i <= s.len(),
        i < s.len() ==> s[i] == c,
        forall|j: int| 0 <= j < i ==> s[j] != c,
    ensures
        first_index(s, c) == if i < s.len() {
            Some(i)
        } else {
            None::<int>
        },
    decreases s.len(),
{
    if s.len() > 0 && i > 0 {
        lemma_first_index(s.drop_first(), c, i - 1);
    }
}

/// The characters of `v` from `from` up to `to`.
pub fn copy_range(v: &Vec<char>, from: usize, to: usize) -> (r: Vec<char>)
    requires
        from <= to <= v@.len(),
    ensures
        r@ == v@.subrange(from as int, to as int),
{
    let mut r: Vec<char> = Vec::new();
    let mut i = from;
    while i < to
        invariant
            from <= i <= to <= v@.len(),
            r@ == v@.subrange(from as int, i as int),
        decreases to - i,
    {
        r.push(v[i]);
        i += 1;
    }
    r
}


/// A line without the carriage return that ended it.
pub open spec fn without_cr(line: Seq<char>) -> Seq<char> {
    if line.len() > 0 && line.last() == '\r' {
        line.drop_last()
    } else {
        line
    }
}

/// The lines of `s`: split at each newline, a carriage return before a newline dropped, and no
/// empty last line after a final newline: `str::lines`.
pub open spec fn lines_of(s: Seq<char>) -> Seq<Seq<char>> {
    let p = pieces(s, '\n');
    let ended = p.drop_last().map_values(|l: Seq<char>| without_cr(l));
    if p.last().len() > 0 {
        ended.push(p.last())
    } else {
        ended
    }
}

/// The lines of `s`.
pub fn lines(s: &str) -> (r: Vec<Vec<char>>)
    ensures
        r@.map_values(|l: Vec<char>| l@) == lines_of(s@),
{
    let chars = chars_of(s);
    let p = split_chars(&chars, '\n');
    proof {
        lemma_pieces_nonempty(s@, '\n');
    }
    let ghost pv = p@.map_values(|l: Vec<char>| l@);
    let n = p.len();
    let mut r: Vec<Vec<char>> = Vec::new();
    let mut i: usize = 0;
    while i + 1 < n
        invariant
            1 <= n == p@.len(),
            i + 1 <= n,
            pv == p@.map_values(|l: Vec<char>| l@),
            r@.map_values(|l: Vec<char>| l@) == pv.subrange(0, i as int).map_values(|l: Seq<char>| without_cr(l)),
        decreases n - i,
    {
        let line = &p[i];
        let k = line.len();
        let kept = if k > 0 && line[k - 1] == '\r' {
            copy_range(line, 0, k - 1)
        } else {
            copy_range(line, 0, k)
        };
        assert(kept@ =~= without_cr(pv[i as int]));
        let ghost before = r@;
        r.push(kept);
        assert(r@ == before.push(kept));
        assert(r@.map_values(|l: Vec<char>| l@) =~= before.map_values(|l: Vec<char>| l@).push(kept@));
        assert(pv.subrange(0, i as int + 1).map_values(|l: Seq<char>| without_cr(l)) =~= pv.subrange(0, i as int).map_values(|l: Seq<char>| without_cr(l)).push(without_cr(pv[i as int])));
        i += 1;
    }
    assert(pv.subrange(0, n - 1) =~= pv.drop_last());
    if p[n - 1].len() > 0 {
        let last = copy_range(&p[n - 1], 0, p[n - 1].len());
        assert(pv.last() == p@[n - 1]@);
        assert(last@ =~= pv.last());
        let ghost before = r@;
        r.push(last);
        assert(r@ == before.push(last));
        assert(r@.map_values(|l: Vec<char>| l@) =~= before.map_values(|l: Vec<char>| l@).push(pv.last()));
    }
    r
}

/// What parsing `s` as an unsigned number no larger than `max` gives: an optional `+`, then one or
/// more ASCII digits whose value fits.
pub open spec fn parse_unsigned_spec(s: Seq<char>, max: nat) -> Option<nat> {
    let digits = if s.len() > 0 && s[0] == '+' {
        s.drop_first()
    } else {
        s
    };
    if digits.len() > 0 && all_digits(digits) && digits_value(digits) <= max {
        Some(digits_value(digits))
    } else {
        None
    }
}

/// The characters of `s` from `from` to `to` read as an unsigned number no larger than `max`:
/// `str::parse` for an unsigned type whose largest value is `max`.
pub fn parse_unsigned(s: &Vec<char>, from: usize, to: usize, max: u64) -> (r: Option<u64>)
    requires
        from <= to <= s@.len(),
    ensures
        match parse_unsigned_spec(s@.subrange(from as int, to as int), max as nat) {
            Some(v) => r == Some(v as u64),
            None => r is None,
        },
{
    let ghost whole = s@.subrange(from as int, to as int);
    let first: usize = if from < to && s[from] == '+' {
        from + 1
    } else {
        from
    };
    let ghost digits = s@.subrange(first as int, to as int);
    assert(digits =~= if whole.len() > 0 && whole[0] == '+' {
        whole.drop_first()
    } else {
        whole
    });
    if first == to {
        return None;
    }
    let mut value: u128 = 0;
    let cap: u128 = max as u128 + 1;
    let mut i = first;
    assert(s@.subrange(first as int, first as int) =~= Seq::<char>::empty());
    while i < to
        invariant
            from <= first <= i <= to <= s@.len(),
            whole == s@.subrange(from as int, to as int),
            cap == max + 1,
            digits == s@.subrange(first as int, to as int),
            digits == (if whole.len() > 0 && whole[0] == '+' {
                whole.drop_first()
            } else {
                whole
            }),
            forall|j: int| first <= j < i ==> is_digit(#[trigger] s@[j]),
            value == if digits_value(s@.subrange(first as int, i as int)) < cap {
                digits_value(s@.subrange(first as int, i as int))
            } else {
                cap as nat
            },
        decreases to - i,
    {
        let c = s[i];
        if !('0' <= c && c <= '9') {
            proof {
                let k = (i - first) as int;
                assert(digits[k] == c);
                assert(!all_digits(digits));
            }
            return None;
        }
        let d = (c as u32 - 48) as u128;
        let ghost prefix = s@.subrange(first as int, i as int);
        let ghost next = s@.subrange(first as int, i as int + 1);
        assert(next.drop_last() =~= prefix);
        value = value * 10 + d;
        if value > cap {
            value = cap;
        }
        i += 1;
    }
    proof {
        assert forall|j: int| 0 <= j < digits.len() implies is_digit(#[trigger] digits[j]) by {
            assert(digits[j] == s@[first + j]);
        }
    }
    if value >= cap {
        None
    } else {
        Some(value as u64)
    }
}


/// Whether `a` comes before `b` character by character, a prefix first: the order of `str`.
pub open spec fn lex_less(a: Seq<char>, b: Seq<char>) -> bool
    decreases a.len(),
{
    if a.len() == 0 {
        b.len() > 0
    } else if b.len() == 0 {
        false
    } else if a[0] != b[0] {
        (a[0] as u32) < (b[0] as u32)
    } else {
        lex_less(a.drop_first(), b.drop_first())
    }
}

pub fn str_less(a: &str, b: &str) -> (r: bool)
    ensures
        r == lex_less(a@, b@),
{
    let n = a.unicode_len();
    let m = b.unicode_len();
    let mut i: usize = 0;
    assert(a@.skip(0) =~= a@);
    assert(b@.skip(0) =~= b@);
    while i < n && i < m && a.get_char(i) == b.get_char(i)
        invariant
            n == a@.len(),
            m == b@.len(),
            i <= n,
            i <= m,
            lex_less(a@, b@) == lex_less(a@.skip(i as int), b@.skip(i as int)),
        decreases n - i,
    {
        assert(a@.skip(i as int).drop_first() =~= a@.skip(i + 1));
        assert(b@.skip(i as int).drop_first() =~= b@.skip(i + 1));
        i += 1;
    }
    if i == n {
        i < m
    } else if i == m {
        false
    } else {
        (a.get_char(i) as u32) < (b.get_char(i) as u32)
    }
}

/// `x` put into its place in a list kept in order and free of repeats.
pub open spec fn insert_sorted(s: Seq<Seq<char>>, x: Seq<char>) -> Seq<Seq<char>>
    decreases s.len(),
{
    if s.len() == 0 {
        seq![x]
    } else if s[0] == x {
        s
    } else if lex_less(x, s[0]) {
        seq![x] + s
    } else {
        seq![s[0]] + insert_sorted(s.drop_first(), x)
    }
}

/// The distinct words of `words`, in order: what a sorted set of them walks through.
pub open spec fn sorted_set(words: Seq<Seq<char>>) -> Seq<Seq<char>>
    decreases words.len(),
{
    if words.len() == 0 {
        Seq::empty()
    } else {
        insert_sorted(sorted_set(words.drop_last()), words.last())
    }
}

fn insert_word(set: &mut Vec<String>, x: String)
    ensures
        views(final(set)@) == insert_sorted(views(old(set)@), x@),
{
    let ghost s = views(set@);
    let mut k: usize = 0;
    assert(s.skip(0) =~= s);
    assert(s.take(0) + s.skip(0) =~= s);
    while k < set.len() && !str_eq(set[k].as_str(), x.as_str()) && !str_less(x.as_str(), set[k].as_str())
        invariant
            k <= set@.len(),
            s == views(set@),
            insert_sorted(s, x@) == s.take(k as int) + insert_sorted(s.skip(k as int), x@),
        decreases set.len() - k,
    {
        let ghost rest = s.skip(k as int);
        assert(rest[0] == set@[k as int]@);
        assert(rest.drop_first() =~= s.skip(k + 1));
        assert(s.take(k as int) + (seq![rest[0]] + insert_sorted(s.skip(k + 1), x@)) =~= s.take(k + 1) + insert_sorted(s.skip(k + 1), x@));
        k += 1;
    }
    if k < set.len() && str_eq(set[k].as_str(), x.as_str()) {
        assert(s.skip(k as int)[0] == set@[k as int]@);
        assert(s.take(k as int) + s.skip(k as int) =~= s);
        return;
    }
    if k < set.len() {
        assert(s.skip(k as int)[0] == set@[k as int]@);
    } else {
        assert(s.skip(k as int).len() == 0);
    }
    let ghost before = set@;
    set.insert(k, x);
    assert(views(set@) =~= s.take(k as int) + (seq![x@] + s.skip(k as int)));
}

/// The distinct words of `words`, in order.
pub fn sorted_words(words: &Vec<String>) -> (r: Vec<String>)
    ensures
        views(r@) == sorted_set(views(words@)),
{
    let mut set: Vec<String> = Vec::new();
    let mut i: usize = 0;
    while i < words.len()
        invariant
            i <= words@.len(),
            views(set@) == sorted_set(views(words@.subrange(0, i as int))),
        decreases words.len() - i,
    {
        assert(views(words@.subrange(0, i as int + 1)).drop_last() =~= views(words@.subrange(0, i as int)));
        assert(views(words@.subrange(0, i as int + 1)).last() == words@[i as int]@);
        insert_word(&mut set, words[i].clone());
        i += 1;
    }
    assert(words@.subrange(0, words@.len() as int) =~= words@);
    set
}

/// An optional string as plain values.
pub open spec fn opt_view(o: Option<String>) -> Option<Seq<char>> {
    match o {
        Some(s) => Some(s@),
        None => None,
    }
}

} // verus!
