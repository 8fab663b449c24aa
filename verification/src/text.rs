//! Characters, strings and terminal display widths.
//!
//! Text is modelled as a sequence of `char`s (the view of `str` and
//! `String`); positions handed across this library count characters.
use vstd::prelude::*;

verus! {

pub assume_specification[ String::push ](s: &mut String, ch: char)
    ensures
        final(s)@ == old(s)@.push(ch),
;

/// Longest text (in characters) that the width arithmetic of this library
/// accepts; a character is at most three columns wide.
pub open spec fn text_fits(s: Seq<char>) -> bool {
    3 * s.len() <= usize::MAX
}

/// Unicode `White_Space`, the property behind `char::is_whitespace`.
pub open spec fn is_white_space(c: char) -> bool {
    let u = c as u32;
    (0x09 <= u && u <= 0x0d) || u == 0x20 || u == 0x85 || u == 0xa0 || u == 0x1680
        || (0x2000 <= u && u <= 0x200a) || u == 0x2028 || u == 0x2029 || u == 0x202f
        || u == 0x205f || u == 0x3000
}

/// General category `Cc`, the property behind `char::is_control`.
pub open spec fn is_control_char(c: char) -> bool {
    let u = c as u32;
    u <= 0x1f || (0x7f <= u && u <= 0x9f)
}

/// Whether `c` is white space (`char::is_whitespace`).
pub fn is_whitespace(c: char) -> (b: bool)
    ensures
        b == is_white_space(c),
{
    let u = c as u32;
    (0x09 <= u && u <= 0x0d) || u == 0x20 || u == 0x85 || u == 0xa0 || u == 0x1680
        || (0x2000 <= u && u <= 0x200a) || u == 0x2028 || u == 0x2029 || u == 0x202f
        || u == 0x205f || u == 0x3000
}

/// Whether `c` is a control character (`char::is_control`).
pub fn is_control(c: char) -> (b: bool)
    ensures
        b == is_control_char(c),
{
    let u = c as u32;
    u <= 0x1f || (0x7f <= u && u <= 0x9f)
}

/// Number of bytes in the UTF-8 encoding of `c`.
pub open spec fn utf8_len(c: char) -> nat {
    let u = c as u32;
    if u < 0x80 {
        1
    } else if u < 0x800 {
        2
    } else if u < 0x10000 {
        3
    } else {
        4
    }
}

/// Number of bytes in the UTF-8 encoding of `s`.
pub open spec fn utf8_byte_len(s: Seq<char>) -> nat
    decreases s.len(),
{
    if s.len() == 0 {
        0
    } else {
        utf8_byte_len(s.drop_last()) + utf8_len(s.last())
    }
}

/// The ASCII lowercase of `c` (`char::to_ascii_lowercase`).
pub open spec fn ascii_lower(c: char) -> char {
    if 'A' <= c && c <= 'Z' {
        ((c as u32) + 32) as char
    } else {
        c
    }
}

pub open spec fn ascii_lower_seq(s: Seq<char>) -> Seq<char> {
    Seq::new(s.len(), |i: int| ascii_lower(s[i]))
}

/// The characters of `s`, in order.
pub fn chars_of(s: &str) -> (v: Vec<char>)
    ensures
        v@ == s@,
{
    let mut v: Vec<char> = Vec::new();
    for c in it: s.chars()
        invariant
            v@ == it.seq().take(it.index() as int),
            it.seq() == s@,
    {
        v.push(c);
    }
    v
}

/// A string holding exactly the given characters.
pub fn string_of(v: &[char]) -> (s: String)
    ensures
        s@ == v@,
{
    let mut s = String::new();
    let mut i: usize = 0;
    while i < v.len()
        invariant
            i <= v.len(),
            s@ == v@.take(i as int),
        decreases v.len() - i,
    {
        s.push(v[i]);
        assert(v@.take(i as int + 1) =~= v@.take(i as int).push(v@[i as int]));
        i += 1;
    }
    assert(v@.take(v.len() as int) =~= v@);
    s
}

/// A string holding `v[from..to]`.
pub fn string_of_range(v: &[char], from: usize, to: usize) -> (s: String)
    requires
        from <= to <= v@.len(),
    ensures
        s@ == v@.subrange(from as int, to as int),
{
    let mut s = String::new();
    let mut i: usize = from;
    while i < to
        invariant
            from <= i <= to <= v.len(),
            s@ == v@.subrange(from as int, i as int),
        decreases to - i,
    {
        s.push(v[i]);
        assert(v@.subrange(from as int, i as int + 1) =~= v@.subrange(from as int, i as int).push(
            v@[i as int],
        ));
        i += 1;
    }
    s
}

/// Appends `v[from..to]` to `s`.
pub fn push_range(s: &mut String, v: &[char], from: usize, to: usize)
    requires
        from <= to <= v@.len(),
    ensures
        final(s)@ == old(s)@ + v@.subrange(from as int, to as int),
{
    let mut i: usize = from;
    while i < to
        invariant
            from <= i <= to <= v.len(),
            s@ == old(s)@ + v@.subrange(from as int, i as int),
        decreases to - i,
    {
        s.push(v[i]);
        assert(v@.subrange(from as int, i as int + 1) =~= v@.subrange(from as int, i as int).push(
            v@[i as int],
        ));
        i += 1;
    }
}

/// Appends all of `t` to `s`.
pub fn push_str(s: &mut String, t: &str)
    ensures
        final(s)@ == old(s)@ + t@,
{
    let v = chars_of(t);
    push_range(s, &v, 0, v.len());
    assert(v@.subrange(0, v@.len() as int) =~= v@);
}

/// `n` copies of `c`.
pub open spec fn repeat_char(c: char, n: nat) -> Seq<char> {
    Seq::new(n, |i: int| c)
}

/// A string of `n` copies of `c` (`str::repeat` on a one-character string).
pub fn repeat(c: char, n: usize) -> (s: String)
    ensures
        s@ == repeat_char(c, n as nat),
{
    let mut s = String::new();
    let mut i: usize = 0;
    while i < n
        invariant
            i <= n,
            s@ == repeat_char(c, i as nat),
        decreases n - i,
    {
        s.push(c);
        assert(repeat_char(c, (i + 1) as nat) =~= repeat_char(c, i as nat).push(c));
        i += 1;
    }
    s
}

/// Number of leading white-space characters of `s`.
pub open spec fn leading_ws(s: Seq<char>) -> nat
    decreases s.len(),
{
    if s.len() == 0 || !is_white_space(s[0]) {
        0
    } else {
        1 + leading_ws(s.drop_first())
    }
}

/// Number of trailing white-space characters of `s`.
pub open spec fn trailing_ws(s: Seq<char>) -> nat
    decreases s.len(),
{
    if s.len() == 0 || !is_white_space(s.last()) {
        0
    } else {
        1 + trailing_ws(s.drop_last())
    }
}

/// `s` without leading white space (`str::trim_start`).
pub open spec fn trim_start_seq(s: Seq<char>) -> Seq<char> {
    s.skip(leading_ws(s) as int)
}

/// `s` without trailing white space (`str::trim_end`).
pub open spec fn trim_end_seq(s: Seq<char>) -> Seq<char> {
    s.take(s.len() - trailing_ws(s))
}

/// `s` without leading and trailing white space (`str::trim`).
pub open spec fn trim_seq(s: Seq<char>) -> Seq<char> {
    trim_end_seq(trim_start_seq(s))
}

pub proof fn lemma_leading_ws(s: Seq<char>)
    ensures
        leading_ws(s) <= s.len(),
        forall|i: int| 0 <= i < leading_ws(s) ==> is_white_space(#[trigger] s[i]),
        leading_ws(s) < s.len() ==> !is_white_space(s[leading_ws(s) as int]),
    decreases s.len(),
{
    if s.len() > 0 && is_white_space(s[0]) {
        lemma_leading_ws(s.drop_first());
        assert forall|i: int| 0 <= i < leading_ws(s) implies is_white_space(#[trigger] s[i]) by {
            if i > 0 {
                assert(s[i] == s.drop_first()[i - 1]);
            }
        }
    }
}

pub proof fn lemma_trailing_ws(s: Seq<char>)
    ensures
        trailing_ws(s) <= s.len(),
        forall|i: int| s.len() - trailing_ws(s) <= i < s.len() ==> is_white_space(#[trigger] s[i]),
        trailing_ws(s) < s.len() ==> !is_white_space(s[s.len() - trailing_ws(s) - 1]),
    decreases s.len(),
{
    if s.len() > 0 && is_white_space(s.last()) {
        lemma_trailing_ws(s.drop_last());
        assert forall|i: int| s.len() - trailing_ws(s) <= i < s.len() implies is_white_space(
            #[trigger] s[i],
        ) by {
            if i < s.len() - 1 {
                assert(s[i] == s.drop_last()[i]);
            }
        }
    }
}

/// Trimming never lengthens a text.
pub proof fn lemma_trim_len(s: Seq<char>)
    ensures
        trim_seq(s).len() <= s.len(),
        trim_start_seq(s).len() <= s.len(),
        trim_end_seq(s).len() <= s.len(),
{
    lemma_leading_ws(s);
    lemma_trailing_ws(s);
    lemma_trailing_ws(trim_start_seq(s));
}

/// Index of the first non-white-space character of `v` (or its length).
pub fn skip_ws_start(v: &[char]) -> (n: usize)
    ensures
        n == leading_ws(v@),
{
    proof {
        lemma_leading_ws(v@);
    }
    let mut i: usize = 0;
    while i < v.len() && is_whitespace(v[i])
        invariant
            i <= v.len(),
            i <= leading_ws(v@),
            forall|k: int| 0 <= k < leading_ws(v@) ==> is_white_space(#[trigger] v@[k]),
            leading_ws(v@) < v@.len() ==> !is_white_space(v@[leading_ws(v@) as int]),
            leading_ws(v@) <= v@.len(),
        decreases v.len() - i,
    {
        i += 1;
    }
    i
}

/// Number of trailing white-space characters of `v`.
pub fn count_ws_end(v: &[char]) -> (n: usize)
    ensures
        n == trailing_ws(v@),
{
    proof {
        lemma_trailing_ws(v@);
    }
    let mut n: usize = 0;
    while n < v.len() && is_whitespace(v[v.len() - 1 - n])
        invariant
            n <= v.len(),
            n <= trailing_ws(v@),
            forall|i: int| v@.len() - trailing_ws(v@) <= i < v@.len() ==> is_white_space(
                #[trigger] v@[i],
            ),
            trailing_ws(v@) < v@.len() ==> !is_white_space(v@[v@.len() - trailing_ws(v@) - 1]),
            trailing_ws(v@) <= v@.len(),
        decreases v.len() - n,
    {
        n += 1;
    }
    n
}

/// The characters of `s` without leading and trailing white space.
pub fn trimmed(s: &str) -> (v: Vec<char>)
    ensures
        v@ == trim_seq(s@),
{
    let chars = chars_of(s);
    let start = skip_ws_start(&chars);
    proof {
        lemma_leading_ws(chars@);
    }
    let mut rest: Vec<char> = Vec::new();
    assert(rest@ =~= chars@.subrange(start as int, start as int));
    let mut i = start;
    while i < chars.len()
        invariant
            start <= i <= chars.len(),
            start == leading_ws(chars@),
            rest@ == chars@.subrange(start as int, i as int),
        decreases chars.len() - i,
    {
        rest.push(chars[i]);
        i += 1;
    }
    assert(rest@ =~= trim_start_seq(chars@));
    let n = count_ws_end(&rest);
    proof {
        lemma_trailing_ws(rest@);
    }
    rest.truncate(rest.len() - n);
    assert(rest@ =~= trim_seq(s@));
    rest
}

/// `s` without leading and trailing white space (`str::trim`).
pub fn trim(s: &str) -> (t: String)
    ensures
        t@ == trim_seq(s@),
{
    let v = trimmed(s);
    string_of(&v)
}


/// The decimal digit for `d` (below ten).
pub open spec fn digit(d: nat) -> char {
    (('0' as u32) + d) as char
}

/// The decimal representation of `n`, as `to_string` writes it.
pub open spec fn decimal(n: nat) -> Seq<char>
    decreases n,
{
    if n < 10 {
        seq![digit(n)]
    } else {
        decimal(n / 10).push(digit(n % 10))
    }
}

/// `n` written in decimal (`u64::to_string`).
pub fn decimal_string(n: u64) -> (s: String)
    ensures
        s@ == decimal(n as nat),
{
    let mut digits: Vec<char> = Vec::new();
    let mut m = n;
    let ghost mut rest: Seq<char> = Seq::empty();
    loop
        invariant_except_break
            decimal(n as nat) == decimal(m as nat) + rest,
        invariant
            digits@ == rest.reverse(),
        ensures
            decimal(n as nat) == rest,
        decreases m,
    {
        let d = m % 10;
        let c = if d == 0 {
            '0'
        } else if d == 1 {
            '1'
        } else if d == 2 {
            '2'
        } else if d == 3 {
            '3'
        } else if d == 4 {
            '4'
        } else if d == 5 {
            '5'
        } else if d == 6 {
            '6'
        } else if d == 7 {
            '7'
        } else if d == 8 {
            '8'
        } else {
            '9'
        };
        assert(c == digit((m % 10) as nat));
        digits.push(c);
        proof {
            let r2 = seq![c] + rest;
            if m >= 10 {
                assert(decimal(m as nat) == decimal((m / 10) as nat).push(c));
                assert(decimal((m / 10) as nat).push(c) + rest =~= decimal((m / 10) as nat) + r2);
            } else {
                assert(decimal(m as nat) == seq![c]);
                assert(seq![c] + rest =~= r2);
            }
            assert(r2.reverse() =~= rest.reverse().push(c));
            rest = r2;
        }
        if m < 10 {
            break;
        }
        m = m / 10;
    }
    assert(decimal(n as nat) =~= rest);
    let mut s = String::new();
    let mut i = digits.len();
    while i > 0
        invariant
            i <= digits@.len(),
            digits@ == rest.reverse(),
            s@ == rest.take((digits@.len() - i) as int),
            rest.len() == digits@.len(),
        decreases i,
    {
        i -= 1;
        s.push(digits[i]);
        assert(rest.take((digits@.len() - i) as int) =~= rest.take((digits@.len() - i - 1) as int).push(digits@[i as int]));
    }
    assert(rest.take(rest.len() as int) =~= rest);
    s
}


/// `s` with `t` inserted at position `at` and `remove` characters after it dropped.
pub open spec fn spliced(s: Seq<char>, at: int, remove: int, t: Seq<char>) -> Seq<char> {
    s.take(at) + t + s.skip(at + remove)
}

/// `v[..at] + ins + v[at + remove..]`.
pub fn splice(v: &[char], at: usize, remove: usize, ins: &[char]) -> (r: Vec<char>)
    requires
        at <= v@.len(),
        remove <= v@.len() - at,
    ensures
        r@ == spliced(v@, at as int, remove as int, ins@),
{
    let mut r: Vec<char> = Vec::new();
    let mut i: usize = 0;
    while i < at
        invariant
            i <= at <= v@.len(),
            r@ == v@.take(i as int),
        decreases at - i,
    {
        r.push(v[i]);
        assert(v@.take(i as int + 1) =~= v@.take(i as int).push(v@[i as int]));
        i += 1;
    }
    let mut j: usize = 0;
    while j < ins.len()
        invariant
            j <= ins@.len(),
            at <= v@.len(),
            remove <= v@.len() - at,
            r@ == v@.take(at as int) + ins@.take(j as int),
        decreases ins.len() - j,
    {
        r.push(ins[j]);
        assert(ins@.take(j as int + 1) =~= ins@.take(j as int).push(ins@[j as int]));
        j += 1;
    }
    let vlen = v.len();
    let mut k: usize = at + remove;
    assert(ins@.take(ins@.len() as int) =~= ins@);
    while k < v.len()
        invariant
            at + remove <= k <= v@.len(),
            r@ == v@.take(at as int) + ins@ + v@.subrange(at + remove, k as int),
        decreases v.len() - k,
    {
        r.push(v[k]);
        assert(v@.subrange(at + remove, k as int + 1) =~= v@.subrange(at + remove, k as int).push(v@[k as int]));
        k += 1;
    }
    assert(v@.subrange(at + remove, v@.len() as int) =~= v@.skip(at + remove));
    r
}

/// `s` without the occurrences of `c`.
pub open spec fn without_char(s: Seq<char>, c: char) -> Seq<char>
    decreases s.len(),
{
    if s.len() == 0 {
        s
    } else if s.last() == c {
        without_char(s.drop_last(), c)
    } else {
        without_char(s.drop_last(), c).push(s.last())
    }
}

/// The characters of `s` other than `c`.
pub fn chars_without(s: &str, c: char) -> (r: Vec<char>)
    ensures
        r@ == without_char(s@, c),
{
    let v = chars_of(s);
    let mut r: Vec<char> = Vec::new();
    let mut i: usize = 0;
    while i < v.len()
        invariant
            i <= v@.len(),
            v@ == s@,
            r@ == without_char(v@.take(i as int), c),
        decreases v.len() - i,
    {
        assert(v@.take(i as int + 1).drop_last() =~= v@.take(i as int));
        if v[i] != c {
            r.push(v[i]);
        }
        i += 1;
    }
    assert(v@.take(v@.len() as int) =~= v@);
    r
}

/// Number of leading characters of `s` that belong to `set`.
pub open spec fn leading_in(s: Seq<char>, set: Seq<char>) -> nat
    decreases s.len(),
{
    if s.len() == 0 || !set.contains(s[0]) {
        0
    } else {
        1 + leading_in(s.drop_first(), set)
    }
}

/// Number of trailing characters of `s` that belong to `set`.
pub open spec fn trailing_in(s: Seq<char>, set: Seq<char>) -> nat
    decreases s.len(),
{
    if s.len() == 0 || !set.contains(s.last()) {
        0
    } else {
        1 + trailing_in(s.drop_last(), set)
    }
}

/// `s` without leading and trailing characters of `set` (`str::trim_matches`).
pub open spec fn trim_in(s: Seq<char>, set: Seq<char>) -> Seq<char> {
    let t = s.skip(leading_in(s, set) as int);
    t.take(t.len() - trailing_in(t, set))
}

/// `s` without trailing characters of `set` (`str::trim_end_matches`).
pub open spec fn trim_end_in(s: Seq<char>, set: Seq<char>) -> Seq<char> {
    s.take(s.len() - trailing_in(s, set))
}

pub proof fn lemma_leading_in(s: Seq<char>, set: Seq<char>)
    ensures
        leading_in(s, set) <= s.len(),
        forall|i: int| 0 <= i < leading_in(s, set) ==> set.contains(#[trigger] s[i]),
        leading_in(s, set) < s.len() ==> !set.contains(s[leading_in(s, set) as int]),
    decreases s.len(),
{
    if s.len() > 0 && set.contains(s[0]) {
        lemma_leading_in(s.drop_first(), set);
        assert forall|i: int| 0 <= i < leading_in(s, set) implies set.contains(#[trigger] s[i]) by {
            if i > 0 {
                assert(s[i] == s.drop_first()[i - 1]);
            }
        }
    }
}

pub proof fn lemma_trailing_in(s: Seq<char>, set: Seq<char>)
    ensures
        trailing_in(s, set) <= s.len(),
        forall|i: int| s.len() - trailing_in(s, set) <= i < s.len() ==> set.contains(#[trigger] s[i]),
        trailing_in(s, set) < s.len() ==> !set.contains(s[s.len() - trailing_in(s, set) - 1]),
    decreases s.len(),
{
    if s.len() > 0 && set.contains(s.last()) {
        lemma_trailing_in(s.drop_last(), set);
        assert forall|i: int| s.len() - trailing_in(s, set) <= i < s.len() implies set.contains(
            #[trigger] s[i],
        ) by {
            if i < s.len() - 1 {
                assert(s[i] == s.drop_last()[i]);
            }
        }
    }
}

fn member(set: &[char], c: char) -> (b: bool)
    ensures
        b == set@.contains(c),
{
    let mut i: usize = 0;
    while i < set.len()
        invariant
            i <= set@.len(),
            forall|k: int| 0 <= k < i ==> set@[k] != c,
        decreases set.len() - i,
    {
        if set[i] == c {
            assert(set@[i as int] == c);
            return true;
        }
        i += 1;
    }
    false
}

/// `v` without trailing characters of `set`.
pub fn trim_end_set(v: &[char], set: &[char]) -> (r: Vec<char>)
    ensures
        r@ == trim_end_in(v@, set@),
{
    proof {
        lemma_trailing_in(v@, set@);
    }
    let mut n: usize = 0;
    while n < v.len() && member(set, v[v.len() - 1 - n])
        invariant
            n <= v@.len(),
            n <= trailing_in(v@, set@),
            forall|i: int| v@.len() - trailing_in(v@, set@) <= i < v@.len() ==> set@.contains(#[trigger] v@[i]),
            trailing_in(v@, set@) < v@.len() ==> !set@.contains(v@[v@.len() - trailing_in(v@, set@) - 1]),
            trailing_in(v@, set@) <= v@.len(),
        decreases v.len() - n,
    {
        n += 1;
    }
    let mut r: Vec<char> = Vec::new();
    let mut i: usize = 0;
    while i < v.len() - n
        invariant
            n <= v@.len(),
            i <= v@.len() - n,
            r@ == v@.take(i as int),
        decreases v.len() - n - i,
    {
        r.push(v[i]);
        assert(v@.take(i as int + 1) =~= v@.take(i as int).push(v@[i as int]));
        i += 1;
    }
    r
}

/// `v` without leading characters of `set`.
pub fn trim_start_set(v: &[char], set: &[char]) -> (r: Vec<char>)
    ensures
        r@ == v@.skip(leading_in(v@, set@) as int),
{
    proof {
        lemma_leading_in(v@, set@);
    }
    let mut i: usize = 0;
    while i < v.len() && member(set, v[i])
        invariant
            i <= v@.len(),
            i <= leading_in(v@, set@),
            forall|k: int| 0 <= k < leading_in(v@, set@) ==> set@.contains(#[trigger] v@[k]),
            leading_in(v@, set@) < v@.len() ==> !set@.contains(v@[leading_in(v@, set@) as int]),
            leading_in(v@, set@) <= v@.len(),
        decreases v.len() - i,
    {
        i += 1;
    }
    let mut r: Vec<char> = Vec::new();
    let mut k = i;
    while k < v.len()
        invariant
            i <= k <= v@.len(),
            r@ == v@.subrange(i as int, k as int),
        decreases v.len() - k,
    {
        r.push(v[k]);
        assert(v@.subrange(i as int, k as int + 1) =~= v@.subrange(i as int, k as int).push(v@[k as int]));
        k += 1;
    }
    assert(v@.subrange(i as int, v@.len() as int) =~= v@.skip(i as int));
    r
}

/// `v` without leading and trailing characters of `set`.
pub fn trim_set(v: &[char], set: &[char]) -> (r: Vec<char>)
    ensures
        r@ == trim_in(v@, set@),
{
    let t = trim_start_set(v, set);
    trim_end_set(&t, set)
}

/// The white-space characters, as a set for `trim_in`.
pub open spec fn white_space_set() -> Seq<char> {
    seq![
        '\u{9}', '\u{a}', '\u{b}', '\u{c}', '\u{d}', ' ', '\u{85}', '\u{a0}', '\u{1680}',
        '\u{2000}', '\u{2001}', '\u{2002}', '\u{2003}', '\u{2004}', '\u{2005}', '\u{2006}',
        '\u{2007}', '\u{2008}', '\u{2009}', '\u{200a}', '\u{2028}', '\u{2029}', '\u{202f}',
        '\u{205f}', '\u{3000}',
    ]
}

/// Whether `n` occurs in `h` starting at position `i`.
pub open spec fn occurs_at(h: Seq<char>, n: Seq<char>, i: int) -> bool {
    0 <= i && i + n.len() <= h.len() && h.subrange(i, i + n.len()) == n
}

/// Whether `n` occurs somewhere in `h` (`str::contains`).
pub open spec fn has_substring(h: Seq<char>, n: Seq<char>) -> bool {
    exists|i: int| occurs_at(h, n, i)
}

/// Whether `needle` occurs in `haystack`.
pub fn contains_str(haystack: &str, needle: &str) -> (b: bool)
    ensures
        b == has_substring(haystack@, needle@),
{
    let h = chars_of(haystack);
    let n = chars_of(needle);
    if n.len() > h.len() {
        assert forall|i: int| !occurs_at(h@, n@, i) by {}
        return false;
    }
    if n.len() == 0 {
        assert(h@.subrange(0, 0) =~= n@);
        assert(occurs_at(h@, n@, 0));
        return true;
    }
    let hlen = h.len();
    let last = hlen - n.len();
    let mut i: usize = 0;
    while i <= last
        invariant
            hlen == h@.len(),
            n@.len() >= 1,
            h@ == haystack@,
            n@ == needle@,
            last + n@.len() == h@.len(),
            i <= last + 1,
            forall|k: int| 0 <= k < i ==> !occurs_at(h@, n@, k),
        decreases last + 1 - i,
    {
        let mut j: usize = 0;
        while j < n.len() && h[i + j] == n[j]
            invariant
                hlen == h@.len(),
                h@ == haystack@,
                n@ == needle@,
                i <= last,
                last + n@.len() == h@.len(),
                j <= n@.len(),
                forall|k: int| 0 <= k < j ==> h@[i + k] == n@[k],
            decreases n@.len() - j,
        {
            j += 1;
        }
        if j == n.len() {
            assert(h@.subrange(i as int, i + n@.len()) =~= n@);
            assert(occurs_at(h@, n@, i as int));
            return true;
        }
        assert(!occurs_at(h@, n@, i as int)) by {
            if occurs_at(h@, n@, i as int) {
                assert(h@.subrange(i as int, i + n@.len())[j as int] == n@[j as int]);
            }
        }
        i += 1;
    }
    assert forall|k: int| !occurs_at(h@, n@, k) by {
        if 0 <= k && k + n@.len() <= h@.len() {
            assert(k < i);
        }
    }
    false
}

/// Whether two strings hold the same characters.
pub fn str_eq(a: &str, b: &str) -> (r: bool)
    ensures
        r == (a@ == b@),
{
    let x = chars_of(a);
    let y = chars_of(b);
    if x.len() != y.len() {
        return false;
    }
    let mut i: usize = 0;
    while i < x.len()
        invariant
            x@ == a@,
            y@ == b@,
            x@.len() == y@.len(),
            i <= x@.len(),
            forall|k: int| 0 <= k < i ==> x@[k] == y@[k],
        decreases x@.len() - i,
    {
        if x[i] != y[i] {
            return false;
        }
        i += 1;
    }
    assert(x@ =~= y@);
    true
}

/// The ASCII lowercase of `c`.
pub fn to_ascii_lower(c: char) -> (l: char)
    ensures
        l == ascii_lower(c),
{
    if 'A' <= c && c <= 'Z' {
        assert((c as u32) < 128);
        ((c as u8) + 32) as char
    } else {
        c
    }
}

/// The characters of `s` in ASCII lowercase.
pub fn ascii_lowercase_chars(s: &str) -> (r: Vec<char>)
    ensures
        r@ == ascii_lower_seq(s@),
{
    let v = chars_of(s);
    let mut r: Vec<char> = Vec::new();
    let mut i: usize = 0;
    while i < v.len()
        invariant
            v@ == s@,
            i <= v@.len(),
            r@ == ascii_lower_seq(v@).take(i as int),
        decreases v@.len() - i,
    {
        let l = to_ascii_lower(v[i]);
        r.push(l);
        assert(ascii_lower_seq(v@).take(i as int + 1) =~= ascii_lower_seq(v@).take(i as int).push(l));
        i += 1;
    }
    assert(ascii_lower_seq(v@).take(v@.len() as int) =~= ascii_lower_seq(v@));
    r
}

/// Whether `a` and `b` are equal up to ASCII case (`str::eq_ignore_ascii_case`).
pub fn eq_ignore_ascii_case(a: &str, b: &str) -> (r: bool)
    ensures
        r == (ascii_lower_seq(a@) == ascii_lower_seq(b@)),
{
    let x = ascii_lowercase_chars(a);
    let y = ascii_lowercase_chars(b);
    if x.len() != y.len() {
        return false;
    }
    let mut i: usize = 0;
    while i < x.len()
        invariant
            x@ == ascii_lower_seq(a@),
            y@ == ascii_lower_seq(b@),
            x@.len() == y@.len(),
            i <= x@.len(),
            forall|k: int| 0 <= k < i ==> x@[k] == y@[k],
        decreases x@.len() - i,
    {
        if x[i] != y[i] {
            return false;
        }
        i += 1;
    }
    assert(x@ =~= y@);
    true
}

} // verus!
