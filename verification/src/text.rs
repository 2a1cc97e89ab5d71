//! Character-level helpers shared by every module: building strings, splitting
//! text into lines and words, parsing integers and rendering decimal numbers.
//!
//! Text is handled as sequences of `char`. The spec functions here say what std's
//! `str::lines`, `str::split_whitespace`, `str::trim`, `str::split_once` and the
//! integer `FromStr` impls compute; the executable functions are proved against them.

use vstd::prelude::*;

verus! {

// ---------------------------------------------------------------------------
// Building strings
// ---------------------------------------------------------------------------

/// Appends one character to a string (std's `String::push`).
///
/// Trusted: the new string is the old one followed by `c`.
#[verifier::external_body]
pub(crate) fn push_char(s: &mut String, c: char)
    ensures
        final(s)@ == old(s)@.push(c),
{
    s.push(c);
}

/// The characters of a string slice, in order.
pub fn chars_of(s: &str) -> (v: Vec<char>)
    ensures
        v@ == s@,
{
    let mut v: Vec<char> = Vec::new();
    for c in it: s.chars()
        invariant
            v@ == it.seq().take(it.index() as int),
    {
        v.push(c);
    }
    v
}

/// Appends a sequence of characters to a string.
pub fn push_chars(s: &mut String, chars: &[char])
    ensures
        final(s)@ == old(s)@ + chars@,
{
    let ghost start = s@;
    let mut i: usize = 0;
    while i < chars.len()
        invariant
            i <= chars.len(),
            s@ == start + chars@.take(i as int),
        decreases chars.len() - i,
    {
        push_char(s, chars[i]);
        i += 1;
        assert(chars@.take(i as int) =~= chars@.take(i - 1).push(chars@[i - 1]));
    }
    assert(chars@.take(i as int) =~= chars@);
}

/// Appends a string slice to a string.
pub fn push_str(s: &mut String, t: &str)
    ensures
        final(s)@ == old(s)@ + t@,
{
    let v = chars_of(t);
    push_chars(s, v.as_slice());
}

/// A string holding exactly the given characters.
pub fn string_of(chars: &[char]) -> (s: String)
    ensures
        s@ == chars@,
{
    let mut s = String::new();
    push_chars(&mut s, chars);
    s
}

/// A string holding the characters of a string slice.
pub fn owned(t: &str) -> (s: String)
    ensures
        s@ == t@,
{
    let mut s = String::new();
    push_str(&mut s, t);
    s
}

/// A copy of a string.
pub fn copy_string(t: &String) -> (s: String)
    ensures
        s@ == t@,
{
    owned(t.as_str())
}

/// Whether two character sequences are equal.
pub fn chars_eq(a: &[char], b: &[char]) -> (r: bool)
    ensures
        r == (a@ == b@),
{
    if a.len() != b.len() {
        return false;
    }
    let mut i: usize = 0;
    while i < a.len()
        invariant
            i <= a.len(),
            a.len() == b.len(),
            forall|j: int| 0 <= j < i ==> a@[j] == b@[j],
        decreases a.len() - i,
    {
        if a[i] != b[i] {
            return false;
        }
        i += 1;
    }
    assert(a@ =~= b@);
    true
}

/// Whether a character sequence spells a given string slice.
pub fn eq_str(a: &[char], lit: &str) -> (r: bool)
    ensures
        r == (a@ == lit@),
{
    let b = chars_of(lit);
    chars_eq(a, b.as_slice())
}

/// Whether a character sequence begins with the given prefix.
pub fn starts_with(a: &[char], prefix: &[char]) -> (r: bool)
    ensures
        r == (prefix@.len() <= a@.len() && a@.take(prefix@.len() as int) == prefix@),
{
    if prefix.len() > a.len() {
        return false;
    }
    let mut i: usize = 0;
    while i < prefix.len()
        invariant
            i <= prefix.len() <= a.len(),
            forall|j: int| 0 <= j < i ==> a@[j] == prefix@[j],
        decreases prefix.len() - i,
    {
        if a[i] != prefix[i] {
            assert(a@.take(prefix@.len() as int)[i as int] != prefix@[i as int]);
            return false;
        }
        i += 1;
    }
    assert(a@.take(prefix@.len() as int) =~= prefix@);
    true
}

/// The characters `a[from..to]`.
pub fn slice_chars(a: &[char], from: usize, to: usize) -> (r: Vec<char>)
    requires
        from <= to <= a.len(),
    ensures
        r@ == a@.subrange(from as int, to as int),
{
    let mut r: Vec<char> = Vec::new();
    let mut i: usize = from;
    while i < to
        invariant
            from <= i <= to <= a.len(),
            r@ == a@.subrange(from as int, i as int),
        decreases to - i,
    {
        r.push(a[i]);
        i += 1;
        assert(r@ =~= a@.subrange(from as int, i as int));
    }
    r
}

// ---------------------------------------------------------------------------
// Whitespace, trimming, lines and words
// ---------------------------------------------------------------------------

/// Unicode `White_Space`, as std's `char::is_whitespace` decides it.
pub open spec fn is_ws(c: char) -> bool {
    let u = c as u32;
    ||| 0x09 <= u <= 0x0D
    ||| u == 0x20
    ||| u == 0x85
    ||| u == 0xA0
    ||| u == 0x1680
    ||| 0x2000 <= u <= 0x200A
    ||| u == 0x2028
    ||| u == 0x2029
    ||| u == 0x202F
    ||| u == 0x205F
    ||| u == 0x3000
}

/// Whether `c` is whitespace.
pub fn is_whitespace(c: char) -> (r: bool)
    ensures
        r == is_ws(c),
{
    let u = c as u32;
    (0x09 <= u && u <= 0x0D) || u == 0x20 || u == 0x85 || u == 0xA0 || u == 0x1680 || (0x2000
        <= u && u <= 0x200A) || u == 0x2028 || u == 0x2029 || u == 0x202F || u == 0x205F || u
        == 0x3000
}

/// Text without its leading whitespace.
pub open spec fn trim_start(s: Seq<char>) -> Seq<char>
    decreases s.len(),
{
    if s.len() > 0 && is_ws(s[0]) {
        trim_start(s.drop_first())
    } else {
        s
    }
}

/// Text without its trailing whitespace.
pub open spec fn trim_end(s: Seq<char>) -> Seq<char>
    decreases s.len(),
{
    if s.len() > 0 && is_ws(s.last()) {
        trim_end(s.drop_last())
    } else {
        s
    }
}

/// Text without leading and trailing whitespace (std's `str::trim`).
pub open spec fn trim(s: Seq<char>) -> Seq<char> {
    trim_end(trim_start(s))
}

/// `str::trim` on a character sequence.
pub fn trim_chars(s: &[char]) -> (r: Vec<char>)
    ensures
        r@ == trim(s@),
{
    let mut i: usize = 0;
    assert(s@.skip(0) =~= s@);
    while i < s.len() && is_whitespace(s[i])
        invariant
            i <= s.len(),
            trim_start(s@) == trim_start(s@.skip(i as int)),
        decreases s.len() - i,
    {
        assert(s@.skip(i as int).drop_first() =~= s@.skip(i + 1));
        i += 1;
    }
    let mut j: usize = s.len();
    while j > i && is_whitespace(s[j - 1])
        invariant
            i <= j <= s.len(),
            trim_start(s@) == s@.skip(i as int),
            trim_end(s@.skip(i as int)) == trim_end(s@.subrange(i as int, j as int)),
        decreases j,
    {
        assert(s@.subrange(i as int, j as int).drop_last() =~= s@.subrange(i as int, j - 1));
        j -= 1;
    }
    slice_chars(s, i, j)
}

/// A line with one trailing carriage return removed.
pub open spec fn strip_cr(s: Seq<char>) -> Seq<char> {
    if s.len() > 0 && s.last() == '\r' {
        s.drop_last()
    } else {
        s
    }
}

/// The texts held by a sequence of character vectors.
pub open spec fn view_all(v: Seq<Vec<char>>) -> Seq<Seq<char>> {
    v.map_values(|w: Vec<char>| w@)
}

/// Lines completed so far and the line being read, after reading `s`.
pub open spec fn lines_fold(s: Seq<char>) -> (Seq<Seq<char>>, Seq<char>)
    decreases s.len(),
{
    if s.len() == 0 {
        (Seq::empty(), Seq::empty())
    } else {
        let (done, cur) = lines_fold(s.drop_last());
        if s.last() == '\n' {
            (done.push(strip_cr(cur)), Seq::empty())
        } else {
            (done, cur.push(s.last()))
        }
    }
}

/// The lines of a text (std's `str::lines`): split at `\n`, one `\r` before each
/// `\n` removed, no empty line after a final `\n`.
pub open spec fn lines(s: Seq<char>) -> Seq<Seq<char>> {
    let (done, cur) = lines_fold(s);
    if cur.len() > 0 {
        done.push(cur)
    } else {
        done
    }
}

/// `str::lines` on a character sequence.
pub fn split_lines(s: &[char]) -> (r: Vec<Vec<char>>)
    ensures
        view_all(r@) == lines(s@),
{
    let mut done: Vec<Vec<char>> = Vec::new();
    let mut cur: Vec<char> = Vec::new();
    let mut i: usize = 0;
    while i < s.len()
        invariant
            i <= s.len(),
            (view_all(done@), cur@) == lines_fold(s@.take(i as int)),
        decreases s.len() - i,
    {
        assert(s@.take(i + 1).drop_last() =~= s@.take(i as int));
        let ghost old_done = view_all(done@);
        let ghost old_cur = cur@;
        if s[i] == '\n' {
            if cur.len() > 0 && cur[cur.len() - 1] == '\r' {
                cur.pop();
            }
            assert(cur@ =~= strip_cr(old_cur));
            let line = cur;
            done.push(line);
            cur = Vec::new();
            assert(view_all(done@) =~= old_done.push(strip_cr(old_cur)));
        } else {
            cur.push(s[i]);
        }
        i += 1;
    }
    assert(s@.take(i as int) =~= s@);
    if cur.len() > 0 {
        let ghost old_done = view_all(done@);
        let ghost old_cur = cur@;
        done.push(cur);
        assert(view_all(done@) =~= old_done.push(old_cur));
    }
    done
}

/// Words completed so far and the word being read, after reading `s`.
pub open spec fn words_fold(s: Seq<char>) -> (Seq<Seq<char>>, Seq<char>)
    decreases s.len(),
{
    if s.len() == 0 {
        (Seq::empty(), Seq::empty())
    } else {
        let (done, cur) = words_fold(s.drop_last());
        if is_ws(s.last()) {
            if cur.len() > 0 {
                (done.push(cur), Seq::empty())
            } else {
                (done, cur)
            }
        } else {
            (done, cur.push(s.last()))
        }
    }
}

/// The maximal runs of non-whitespace characters (std's `str::split_whitespace`).
pub open spec fn words(s: Seq<char>) -> Seq<Seq<char>> {
    let (done, cur) = words_fold(s);
    if cur.len() > 0 {
        done.push(cur)
    } else {
        done
    }
}

/// Words completed before more text is read stay completed, in order.
proof fn lemma_words_fold_grows(p: Seq<char>, q: Seq<char>)
    ensures
        words_fold(p).0.is_prefix_of(words_fold(p + q).0),
    decreases q.len(),
{
    if q.len() == 0 {
        assert(p + q =~= p);
    } else {
        lemma_words_fold_grows(p, q.drop_last());
        assert((p + q).drop_last() =~= p + q.drop_last());
    }
}

/// Text with no whitespace reads as one word still being read.
proof fn lemma_words_fold_plain(x: Seq<char>)
    requires
        forall|i: int| 0 <= i < x.len() ==> !is_ws(#[trigger] x[i]),
    ensures
        words_fold(x) == (Seq::<Seq<char>>::empty(), x),
    decreases x.len(),
{
    if x.len() > 0 {
        lemma_words_fold_plain(x.drop_last());
        assert(!is_ws(x[x.len() - 1]));
        assert(x.drop_last().push(x.last()) =~= x);
    }
}

/// The first word of a text that starts with a run of non-whitespace followed by
/// a space is that run.
pub proof fn lemma_first_word(x: Seq<char>, rest: Seq<char>)
    requires
        x.len() > 0,
        forall|i: int| 0 <= i < x.len() ==> !is_ws(#[trigger] x[i]),
    ensures
        words(x + seq![' '] + rest).len() > 0,
        words(x + seq![' '] + rest)[0] == x,
{
    lemma_words_fold_plain(x);
    let p = x + seq![' '];
    assert(p.drop_last() =~= x);
    assert(is_ws(' '));
    assert(words_fold(p).0 == seq![x]);
    lemma_words_fold_grows(p, rest);
    assert(x + seq![' '] + rest =~= p + rest);
    let (done, cur) = words_fold(p + rest);
    assert(seq![x].is_prefix_of(done));
    assert(done.take(1) =~= seq![x]);
    assert(done.take(1)[0] == done[0]);
    assert(done[0] == x);
    if cur.len() > 0 {
        assert(done.push(cur)[0] == x);
    }
}

/// `str::split_whitespace` on a character sequence.
pub fn split_words(s: &[char]) -> (r: Vec<Vec<char>>)
    ensures
        view_all(r@) == words(s@),
{
    let mut done: Vec<Vec<char>> = Vec::new();
    let mut cur: Vec<char> = Vec::new();
    let mut i: usize = 0;
    while i < s.len()
        invariant
            i <= s.len(),
            (view_all(done@), cur@) == words_fold(s@.take(i as int)),
        decreases s.len() - i,
    {
        assert(s@.take(i + 1).drop_last() =~= s@.take(i as int));
        let ghost old_done = view_all(done@);
        let ghost old_cur = cur@;
        if is_whitespace(s[i]) {
            if cur.len() > 0 {
                let word = cur;
                done.push(word);
                cur = Vec::new();
                assert(view_all(done@) =~= old_done.push(old_cur));
            }
        } else {
            cur.push(s[i]);
        }
        i += 1;
    }
    assert(s@.take(i as int) =~= s@);
    if cur.len() > 0 {
        let ghost old_done = view_all(done@);
        let ghost old_cur = cur@;
        done.push(cur);
        assert(view_all(done@) =~= old_done.push(old_cur));
    }
    done
}

// ---------------------------------------------------------------------------
// Searching and splitting at one character
// ---------------------------------------------------------------------------

/// The first index at or after `i` holding `c`, or -1.
pub open spec fn find_from(s: Seq<char>, c: char, i: int) -> int
    decreases s.len() - i,
{
    if i < 0 || i >= s.len() {
        -1
    } else if s[i] == c {
        i
    } else {
        find_from(s, c, i + 1)
    }
}

/// The first index holding `c`, or -1.
pub open spec fn find_first(s: Seq<char>, c: char) -> int {
    find_from(s, c, 0)
}

/// The last index below `n` holding `c`, or -1.
pub open spec fn rfind_below(s: Seq<char>, c: char, n: int) -> int
    decreases n,
{
    if n <= 0 || n > s.len() {
        -1
    } else if s[n - 1] == c {
        n - 1
    } else {
        rfind_below(s, c, n - 1)
    }
}

/// The last index holding `c`, or -1.
pub open spec fn find_last(s: Seq<char>, c: char) -> int {
    rfind_below(s, c, s.len() as int)
}

pub proof fn lemma_find_from_range(s: Seq<char>, c: char, i: int)
    ensures
        find_from(s, c, i) == -1 || (i <= find_from(s, c, i) < s.len() && s[find_from(s, c, i)]
            == c),
    decreases s.len() - i,
{
    if 0 <= i < s.len() && s[i] != c {
        lemma_find_from_range(s, c, i + 1);
    }
}

/// The first `c` at or after `i` is at `j` when none lies between.
proof fn lemma_find_from_at(s: Seq<char>, c: char, i: int, j: int)
    requires
        0 <= i <= j < s.len(),
        s[j] == c,
        forall|t: int| i <= t < j ==> s[t] != c,
    ensures
        find_from(s, c, i) == j,
    decreases j - i,
{
    if i < j {
        lemma_find_from_at(s, c, i + 1, j);
    }
}

/// A text `key`, `c`, `rest` splits at its first `c` into `key` and `rest` when
/// `key` holds no `c`.
pub proof fn lemma_split_once_at(key: Seq<char>, c: char, rest: Seq<char>)
    requires
        forall|t: int| 0 <= t < key.len() ==> key[t] != c,
    ensures
        split_once(key + seq![c] + rest, c) == Some((key, rest)),
{
    let s = key + seq![c] + rest;
    assert forall|t: int| 0 <= t < key.len() implies s[t] != c by {
        assert(s[t] == key[t]);
    }
    lemma_find_from_at(s, c, 0, key.len() as int);
    assert(s.take(key.len() as int) =~= key);
    assert(s.skip(key.len() as int + 1) =~= rest);
}

pub proof fn lemma_rfind_range(s: Seq<char>, c: char, n: int)
    ensures
        rfind_below(s, c, n) == -1 || (0 <= rfind_below(s, c, n) < n && s[rfind_below(s, c, n)]
            == c),
    decreases n,
{
    if 0 < n <= s.len() && s[n - 1] != c {
        lemma_rfind_range(s, c, n - 1);
    }
}

/// The first index of `c` in `s`, if any (std's `str::find` with a char).
pub fn find_char(s: &[char], c: char) -> (r: Option<usize>)
    ensures
        match r {
            Some(i) => i == find_first(s@, c) && i < s@.len() && s@[i as int] == c,
            None => find_first(s@, c) == -1,
        },
{
    let mut i: usize = 0;
    while i < s.len()
        invariant
            i <= s.len(),
            find_first(s@, c) == find_from(s@, c, i as int),
        decreases s.len() - i,
    {
        if s[i] == c {
            return Some(i);
        }
        i += 1;
    }
    None
}

/// The last index of `c` in `s`, if any (std's `str::rfind` with a char).
pub fn rfind_char(s: &[char], c: char) -> (r: Option<usize>)
    ensures
        match r {
            Some(i) => i == find_last(s@, c) && i < s@.len() && s@[i as int] == c,
            None => find_last(s@, c) == -1,
        },
{
    let mut n: usize = s.len();
    while n > 0
        invariant
            n <= s.len(),
            find_last(s@, c) == rfind_below(s@, c, n as int),
        decreases n,
    {
        if s[n - 1] == c {
            return Some(n - 1);
        }
        n -= 1;
    }
    None
}

/// The text before and after the first `c` (std's `str::split_once` with a char).
pub open spec fn split_once(s: Seq<char>, c: char) -> Option<(Seq<char>, Seq<char>)> {
    let i = find_first(s, c);
    if i < 0 {
        None
    } else {
        Some((s.take(i), s.skip(i + 1)))
    }
}

/// A decimal digit's character reads back as the digit.
proof fn lemma_digit_char(d: nat)
    requires
        d < 10,
    ensures
        digit_value(digit_char(d), 10) == d,
        !is_ws(digit_char(d)),
        digit_char(d) != '+',
{
    assert(((d + 0x30) as u32) as char as u32 == d + 0x30);
}

/// The decimal rendering of a number is a run of digits, without whitespace or
/// sign, that reads back as the number.
pub proof fn lemma_dec_reads_back(n: nat)
    ensures
        dec(n).len() > 0,
        all_digits(dec(n), 10),
        digits_value(dec(n), 10) == n,
        forall|i: int| 0 <= i < dec(n).len() ==> !is_ws(#[trigger] dec(n)[i]),
        dec(n)[0] != '+',
    decreases n,
{
    if n < 10 {
        lemma_digit_char(n);
        assert(dec(n).drop_last() =~= Seq::<char>::empty());
        assert(digits_value(Seq::<char>::empty(), 10) == 0);
        assert(dec(n).last() == digit_char(n));
    } else {
        lemma_dec_reads_back(n / 10);
        lemma_digit_char(n % 10);
        let s = dec(n);
        assert(s.drop_last() =~= dec(n / 10));
        assert(s.last() == digit_char(n % 10));
        assert(digits_value(s, 10) == digits_value(dec(n / 10), 10) * 10 + n % 10);
        assert(n == (n / 10) * 10 + n % 10);
        assert(s[0] == dec(n / 10)[0]);
        assert forall|i: int| 0 <= i < s.len() implies !is_ws(#[trigger] s[i]) && digit_value(s[i], 10) >= 0 by {
            if i < s.len() - 1 {
                assert(s[i] == dec(n / 10)[i]);
            }
        }
    }
}

/// `str::split_once` on a character sequence.
pub fn split_once_chars(s: &[char], c: char) -> (r: Option<(Vec<char>, Vec<char>)>)
    ensures
        match r {
            Some((a, b)) => split_once(s@, c) == Some((a@, b@)),
            None => split_once(s@, c) is None,
        },
{
    match find_char(s, c) {
        Some(i) => {
            assert(i < s.len());
            let a = slice_chars(s, 0, i);
            let b = slice_chars(s, i + 1, s.len());
            assert(a@ =~= s@.take(i as int));
            assert(b@ =~= s@.skip(i + 1));
            Some((a, b))
        },
        None => None,
    }
}

// ---------------------------------------------------------------------------
// Integers
// ---------------------------------------------------------------------------

/// The value of a digit in base 10 or 16, or -1 for a character that is none.
pub open spec fn digit_value(c: char, radix: nat) -> int {
    let u = c as u32;
    if 0x30 <= u <= 0x39 {
        u - 0x30
    } else if radix == 16 && 0x61 <= u <= 0x66 {
        u - 0x61 + 10
    } else if radix == 16 && 0x41 <= u <= 0x46 {
        u - 0x41 + 10
    } else {
        -1
    }
}

/// Whether every character is a digit.
pub open spec fn all_digits(s: Seq<char>, radix: nat) -> bool {
    forall|i: int| 0 <= i < s.len() ==> digit_value(#[trigger] s[i], radix) >= 0
}

/// The number spelled by digits, most significant first.
pub open spec fn digits_value(s: Seq<char>, radix: nat) -> nat
    decreases s.len(),
{
    if s.len() == 0 {
        0
    } else {
        let d = digit_value(s.last(), radix);
        let low: nat = if d >= 0 {
            d as nat
        } else {
            0
        };
        digits_value(s.drop_last(), radix) * radix + low
    }
}

/// The digits of a number after an optional leading `+`.
pub open spec fn unsigned_body(s: Seq<char>) -> Seq<char> {
    if s.len() > 0 && s[0] == '+' {
        s.drop_first()
    } else {
        s
    }
}

/// What std's `from_str_radix` gives for an unsigned type whose largest value is
/// `max`: an optional `+`, then at least one digit, and a value within range.
pub open spec fn parse_unsigned(s: Seq<char>, radix: nat, max: nat) -> Option<nat> {
    let body = unsigned_body(s);
    if body.len() > 0 && all_digits(body, radix) && digits_value(body, radix) <= max {
        Some(digits_value(body, radix))
    } else {
        None
    }
}

proof fn lemma_digits_value_grows(s: Seq<char>, radix: nat, i: int)
    requires
        radix == 10 || radix == 16,
        0 <= i < s.len(),
        digit_value(s[i], radix) >= 0,
    ensures
        digits_value(s.take(i + 1), radix) == digits_value(s.take(i), radix) * radix
            + digit_value(s[i], radix),
        digits_value(s.take(i + 1), radix) >= digits_value(s.take(i), radix),
{
    assert(s.take(i + 1).drop_last() =~= s.take(i));
}

/// std's `from_str_radix` for base 10 or 16 into a type whose largest value is `max`.
pub fn parse_unsigned_chars(s: &[char], radix: u32, max: u64) -> (r: Option<u64>)
    requires
        radix == 10 || radix == 16,
    ensures
        match r {
            Some(v) => parse_unsigned(s@, radix as nat, max as nat) == Some(v as nat),
            None => parse_unsigned(s@, radix as nat, max as nat) is None,
        },
{
    let start: usize = if s.len() > 0 && s[0] == '+' {
        1
    } else {
        0
    };
    let ghost body = unsigned_body(s@);
    assert(body =~= s@.skip(start as int));
    if start >= s.len() {
        return None;
    }
    let mut acc: u128 = 0;
    let mut over: bool = false;
    let mut i: usize = start;
    while i < s.len()
        invariant
            start <= i <= s.len(),
            body == unsigned_body(s@),
            body =~= s@.skip(start as int),
            radix == 10 || radix == 16,
            all_digits(body.take(i - start), radix as nat),
            !over ==> acc == digits_value(body.take(i - start), radix as nat) && acc <= max,
            over ==> digits_value(body.take(i - start), radix as nat) > max,
        decreases s.len() - i,
    {
        let c = s[i];
        let u = c as u32;
        let d: u128 = if 0x30 <= u && u <= 0x39 {
            (u - 0x30) as u128
        } else if radix == 16 && 0x61 <= u && u <= 0x66 {
            (u - 0x61 + 10) as u128
        } else if radix == 16 && 0x41 <= u && u <= 0x46 {
            (u - 0x41 + 10) as u128
        } else {
            16
        };
        let ghost k = (i - start) as int;
        assert(body[k] == c);
        if d == 16 {
            assert(!all_digits(body, radix as nat)) by {
                assert(digit_value(body[k], radix as nat) < 0);
            }
            return None;
        }
        proof {
            lemma_digits_value_grows(body, radix as nat, k);
            assert forall|j: int| 0 <= j < k + 1 implies digit_value(
                #[trigger] body.take(k + 1)[j],
                radix as nat,
            ) >= 0 by {
                if j < k {
                    assert(body.take(k + 1)[j] == body.take(k)[j]);
                }
            }
        }
        if !over {
            let next: u128 = if radix == 10 {
                acc * 10 + d
            } else {
                acc * 16 + d
            };
            if next > max as u128 {
                over = true;
            } else {
                acc = next;
            }
        }
        i += 1;
    }
    assert(body.take(i - start) =~= body);
    if over {
        None
    } else {
        Some(acc as u64)
    }
}

/// What std's `i32::from_str` gives: an optional sign, then at least one digit,
/// and a value within `i32`'s range.
pub open spec fn parse_i32_spec(s: Seq<char>) -> Option<int> {
    if s.len() > 0 && s[0] == '-' {
        let body = s.drop_first();
        if body.len() > 0 && all_digits(body, 10) && digits_value(body, 10) <= 0x8000_0000 {
            Some(-(digits_value(body, 10) as int))
        } else {
            None
        }
    } else {
        match parse_unsigned(s, 10, 0x7fff_ffff) {
            Some(v) => Some(v as int),
            None => None,
        }
    }
}

/// std's `i32::from_str`.
pub fn parse_i32_chars(s: &[char]) -> (r: Option<i32>)
    ensures
        match r {
            Some(v) => parse_i32_spec(s@) == Some(v as int),
            None => parse_i32_spec(s@) is None,
        },
{
    if s.len() > 0 && s[0] == '-' {
        let body = slice_chars(s, 1, s.len());
        assert(body@ =~= s@.drop_first());
        if body.len() == 0 || body[0] == '+' {
            assert(body@.len() > 0 ==> !all_digits(body@, 10)) by {
                if body@.len() > 0 {
                    assert(digit_value(body@[0], 10) < 0);
                }
            }
            return None;
        }
        assert(unsigned_body(body@) == body@);
        match parse_unsigned_chars(body.as_slice(), 10, 0x8000_0000) {
            Some(v) => {
                let r: i64 = 0 - (v as i64);
                Some(r as i32)
            },
            None => None,
        }
    } else {
        match parse_unsigned_chars(s, 10, 0x7fff_ffff) {
            Some(v) => Some(v as i32),
            None => None,
        }
    }
}

/// The decimal digit for `d < 10`.
pub open spec fn digit_char(d: nat) -> char {
    ((d + 0x30) as u32) as char
}

/// The decimal rendering of a number.
pub open spec fn dec(n: nat) -> Seq<char>
    decreases n,
{
    if n < 10 {
        seq![digit_char(n)]
    } else {
        dec(n / 10).push(digit_char(n % 10))
    }
}

/// The decimal digit for `d < 10`.
pub fn digit_to_char(d: u64) -> (c: char)
    requires
        d < 10,
    ensures
        c == digit_char(d as nat),
{
    let b: u8 = (d as u8) + 0x30;
    let c = b as char;
    assert(c as u32 == d + 0x30);
    c
}

/// Appends the decimal rendering of `n`.
pub fn push_dec(s: &mut String, n: u64)
    ensures
        final(s)@ == old(s)@ + dec(n as nat),
    decreases n,
{
    if n >= 10 {
        push_dec(s, n / 10);
    }
    push_char(s, digit_to_char(n % 10));
    assert(s@ =~= old(s)@ + dec(n as nat));
}

/// The decimal rendering of `n` (std's `to_string` on an unsigned integer).
pub fn dec_string(n: u64) -> (s: String)
    ensures
        s@ == dec(n as nat),
{
    let mut s = String::new();
    push_dec(&mut s, n);
    assert(s@ =~= dec(n as nat));
    s
}

} // verus!

verus! {

// ---------------------------------------------------------------------------
// Hexadecimal rendering of bytes
// ---------------------------------------------------------------------------

/// The lowercase hexadecimal digit for `d < 16`.
pub open spec fn hex_digit(d: nat) -> char {
    if d < 10 {
        ((d + 0x30) as u32) as char
    } else {
        ((d - 10 + 0x61) as u32) as char
    }
}

/// Two lowercase hexadecimal digits per byte (`format!("{byte:02x}")`, joined).
pub open spec fn hex_of(bytes: Seq<u8>) -> Seq<char>
    decreases bytes.len(),
{
    if bytes.len() == 0 {
        Seq::empty()
    } else {
        hex_of(bytes.drop_last()) + seq![
            hex_digit((bytes.last() / 16) as nat),
            hex_digit((bytes.last() % 16) as nat),
        ]
    }
}

/// The lowercase hexadecimal digit for `d < 16`.
pub fn hex_digit_char(d: u8) -> (c: char)
    requires
        d < 16,
    ensures
        c == hex_digit(d as nat),
{
    let b: u8 = if d < 10 {
        d + 0x30
    } else {
        d - 10 + 0x61
    };
    let c = b as char;
    assert(c as u32 == b);
    c
}

/// Lowercase hexadecimal text of raw bytes, two digits per byte.
pub fn bytes_hex(bytes: &[u8]) -> (s: String)
    ensures
        s@ == hex_of(bytes@),
{
    let mut s = String::new();
    let mut i: usize = 0;
    while i < bytes.len()
        invariant
            i <= bytes.len(),
            s@ == hex_of(bytes@.take(i as int)),
        decreases bytes.len() - i,
    {
        let b = bytes[i];
        push_char(&mut s, hex_digit_char(b / 16));
        push_char(&mut s, hex_digit_char(b % 16));
        assert(bytes@.take(i + 1).drop_last() =~= bytes@.take(i as int));
        i += 1;
        assert(s@ =~= hex_of(bytes@.take(i as int)));
    }
    assert(bytes@.take(i as int) =~= bytes@);
    s
}

} // verus!

verus! {

/// `a`, then `b`, then `c`, as one string.
pub fn concat3(a: &str, b: &String, c: &str) -> (s: String)
    ensures
        s@ == a@ + b@ + c@,
{
    let mut s = owned(a);
    push_str(&mut s, b.as_str());
    push_str(&mut s, c);
    s
}

/// `a`, `b`, `c` and `d`, as one string.
pub fn concat4(a: &str, b: &String, c: &str, d: &String) -> (s: String)
    ensures
        s@ == a@ + b@ + c@ + d@,
{
    let mut s = concat3(a, b, c);
    push_str(&mut s, d.as_str());
    s
}

} // verus!

verus! {

/// `a` followed by `b`, as one string.
pub fn concat2(a: &String, b: &str) -> (s: String)
    ensures
        s@ == a@ + b@,
{
    let mut s = copy_string(a);
    push_str(&mut s, b);
    s
}

} // verus!

verus! {

/// `a`, the characters `b`, then `c`, as one string.
pub fn text3(a: &str, b: &[char], c: &str) -> (s: String)
    ensures
        s@ == a@ + b@ + c@,
{
    let mut s = owned(a);
    push_chars(&mut s, b);
    push_str(&mut s, c);
    s
}

/// `a`, the characters `b`, `c`, the characters `d`, then `e`, as one string.
pub fn text5(a: &str, b: &[char], c: &str, d: &[char], e: &str) -> (s: String)
    ensures
        s@ == a@ + b@ + c@ + d@ + e@,
{
    let mut s = text3(a, b, c);
    push_chars(&mut s, d);
    push_str(&mut s, e);
    s
}

} // verus!

verus! {

/// The text std's `String::from_utf8_lossy` makes of raw bytes.
pub uninterp spec fn utf8_lossy(bytes: Seq<u8>) -> Seq<char>;

/// Decodes raw bytes as UTF-8, each invalid sequence replaced by U+FFFD (std's
/// `String::from_utf8_lossy`).
///
/// Trusted: the text is `utf8_lossy` of the bytes, and valid UTF-8 decodes to
/// the characters it encodes, as std documents.
#[verifier::external_body]
pub(crate) fn lossy_text(bytes: &[u8]) -> (s: String)
    ensures
        s@ == utf8_lossy(bytes@),
        forall|c: Seq<char>| vstd::utf8::encode_utf8(c) == bytes@ ==> s@ == c,
{
    String::from_utf8_lossy(bytes).into_owned()
}

/// Procfs and other kernel text read as raw bytes, decoded lossily so that a bad
/// byte never hides the rest: valid UTF-8 gives the characters it encodes.
pub fn decode_lossy(bytes: &[u8]) -> (s: String)
    ensures
        s@ == utf8_lossy(bytes@),
        forall|c: Seq<char>| vstd::utf8::encode_utf8(c) == bytes@ ==> s@ == c,
{
    lossy_text(bytes)
}

} // verus!

verus! {

/// The texts held by a sequence of strings.
pub open spec fn texts(v: Seq<String>) -> Seq<Seq<char>> {
    v.map_values(|s: String| s@)
}

/// `"true"` or `"false"`.
pub open spec fn bool_text(b: bool) -> Seq<char> {
    if b {
        "true"@
    } else {
        "false"@
    }
}

/// Appends `true` or `false`.
pub fn push_bool(s: &mut String, b: bool)
    ensures
        final(s)@ == old(s)@ + bool_text(b),
{
    if b {
        push_str(s, "true");
    } else {
        push_str(s, "false");
    }
}

} // verus!

verus! {

// ---------------------------------------------------------------------------
// The syntax of floating-point numbers
// ---------------------------------------------------------------------------

/// An ASCII decimal digit.
pub open spec fn is_digit(c: char) -> bool {
    '0' <= c && c <= '9'
}

/// All characters are decimal digits.
pub open spec fn digits_only(s: Seq<char>) -> bool {
    forall|i: int| 0 <= i < s.len() ==> is_digit(#[trigger] s[i])
}

/// The same letters, ignoring ASCII case.
pub open spec fn eq_ignore_case(s: Seq<char>, lower: Seq<char>) -> bool {
    s.len() == lower.len() && forall|i: int|
        0 <= i < s.len() ==> (#[trigger] s[i] == lower[i] || s[i] as u32 + 32 == lower[i] as u32)
}

/// `Digit+`, `Digit+ '.' Digit*` or `Digit* '.' Digit+`.
pub open spec fn mantissa_syntax(s: Seq<char>) -> bool {
    let dot = find_first(s, '.');
    if dot < 0 {
        s.len() > 0 && digits_only(s)
    } else {
        let a = s.take(dot);
        let b = s.skip(dot + 1);
        digits_only(a) && digits_only(b) && (a.len() > 0 || b.len() > 0)
    }
}

/// `Sign? Digit+` after the `e` of an exponent.
pub open spec fn exponent_syntax(s: Seq<char>) -> bool {
    let body = if s.len() > 0 && (s[0] == '+' || s[0] == '-') {
        s.drop_first()
    } else {
        s
    };
    body.len() > 0 && digits_only(body)
}

/// The position of the first `e` or `E`, or -1.
pub open spec fn find_exp(s: Seq<char>, i: int) -> int
    decreases s.len() - i,
{
    if i < 0 || i >= s.len() {
        -1
    } else if s[i] == 'e' || s[i] == 'E' {
        i
    } else {
        find_exp(s, i + 1)
    }
}

/// A number without sign: a mantissa and an optional exponent.
pub open spec fn number_syntax(s: Seq<char>) -> bool {
    let e = find_exp(s, 0);
    if e < 0 {
        mantissa_syntax(s)
    } else {
        mantissa_syntax(s.take(e)) && exponent_syntax(s.skip(e + 1))
    }
}

/// The texts std's `f64::from_str` accepts, by the grammar its documentation
/// gives: an optional sign, then `inf`, `infinity` or `nan` in any case, or a
/// decimal number with an optional exponent.
pub open spec fn float_syntax(s: Seq<char>) -> bool {
    let body = if s.len() > 0 && (s[0] == '+' || s[0] == '-') {
        s.drop_first()
    } else {
        s
    };
    eq_ignore_case(body, "inf"@) || eq_ignore_case(body, "infinity"@) || eq_ignore_case(body, "nan"@)
        || number_syntax(body)
}

fn all_digit_chars(s: &[char], from: usize, to: usize) -> (r: bool)
    requires
        from <= to <= s@.len(),
    ensures
        r == digits_only(s@.subrange(from as int, to as int)),
{
    let mut i: usize = from;
    while i < to
        invariant
            from <= i <= to <= s@.len(),
            forall|j: int| from <= j < i ==> is_digit(#[trigger] s@[j]),
        decreases to - i,
    {
        if !('0' <= s[i] && s[i] <= '9') {
            assert(!is_digit(s@.subrange(from as int, to as int)[i - from]));
            return false;
        }
        i += 1;
    }
    assert forall|j: int| 0 <= j < to - from implies is_digit(#[trigger] s@.subrange(from as int, to as int)[j]) by {
        assert(s@.subrange(from as int, to as int)[j] == s@[from + j]);
    }
    true
}

fn ignore_case_is(s: &[char], lower: &str) -> (r: bool)
    ensures
        r == eq_ignore_case(s@, lower@),
{
    let l = chars_of(lower);
    if s.len() != l.len() {
        return false;
    }
    let mut i: usize = 0;
    while i < s.len()
        invariant
            i <= s@.len(),
            s@.len() == l@.len(),
            l@ == lower@,
            forall|j: int| 0 <= j < i ==> (#[trigger] s@[j] == l@[j] || s@[j] as u32 + 32 == l@[j] as u32),
        decreases s.len() - i,
    {
        let a = s[i] as u32;
        let b = l[i] as u32;
        if !(s[i] == l[i] || (b >= 32 && a == b - 32)) {
            return false;
        }
        i += 1;
    }
    true
}

fn mantissa_ok(s: &[char]) -> (r: bool)
    ensures
        r == mantissa_syntax(s@),
{
    let found = find_char(s, '.');
    if found.is_none() {
        assert(s@.subrange(0, s@.len() as int) =~= s@);
        return s.len() > 0 && all_digit_chars(s, 0, s.len());
    }
    let d = found.unwrap();
    assert(d < s@.len());
    assert(d < s.len());
    let a = all_digit_chars(s, 0, d);
    let b = all_digit_chars(s, d + 1, s.len());
    assert(s@.subrange(0, d as int) =~= s@.take(d as int));
    assert(s@.subrange(d + 1, s@.len() as int) =~= s@.skip(d + 1));
    a && b && (d > 0 || d + 1 < s.len())
}

fn number_ok(s: &[char]) -> (r: bool)
    ensures
        r == number_syntax(s@),
{
    let mut e: usize = 0;
    while e < s.len() && !(s[e] == 'e' || s[e] == 'E')
        invariant
            e <= s@.len(),
            find_exp(s@, 0) == find_exp(s@, e as int),
        decreases s.len() - e,
    {
        e += 1;
    }
    if e == s.len() {
        return mantissa_ok(s);
    }
    let m = slice_chars(s, 0, e);
    let x = slice_chars(s, e + 1, s.len());
    assert(m@ =~= s@.take(e as int));
    assert(x@ =~= s@.skip(e + 1));
    if !mantissa_ok(m.as_slice()) {
        return false;
    }
    let start: usize = if x.len() > 0 && (x[0] == '+' || x[0] == '-') {
        1
    } else {
        0
    };
    let ok = start < x.len() && all_digit_chars(x.as_slice(), start, x.len());
    proof {
        if start == 1 {
            assert(x@.subrange(1, x@.len() as int) =~= x@.drop_first());
        } else {
            assert(x@.subrange(0, x@.len() as int) =~= x@);
        }
    }
    ok
}

/// Whether std's `f64::from_str` accepts a text.
pub fn is_float_text(s: &str) -> (r: bool)
    ensures
        r == float_syntax(s@),
{
    let v = chars_of(s);
    let start: usize = if v.len() > 0 && (v[0] == '+' || v[0] == '-') {
        1
    } else {
        0
    };
    let body = slice_chars(v.as_slice(), start, v.len());
    proof {
        if start == 1 {
            assert(body@ =~= v@.drop_first());
        } else {
            assert(body@ =~= v@);
        }
    }
    ignore_case_is(body.as_slice(), "inf") || ignore_case_is(body.as_slice(), "infinity") || ignore_case_is(
        body.as_slice(),
        "nan",
    ) || number_ok(body.as_slice())
}

} // verus!
