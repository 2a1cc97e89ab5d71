//! Human-facing renderings: byte sizes with binary units, shell quoting of paths
//! for suggested commands, and escaping of untrusted text for terminals.

use vstd::prelude::*;
use crate::text::{push_char, push_str, push_dec, dec, digit_char, digit_to_char, chars_of, hex_digit};

verus! {

// ---------------------------------------------------------------------------
// Byte sizes
// ---------------------------------------------------------------------------

/// `2^k`.
pub open spec fn p2(k: nat) -> nat
    decreases k,
{
    if k == 0 {
        1
    } else {
        2 * p2((k - 1) as nat)
    }
}

/// The first `k' >= k` with `b / 2^k' < 2^53`: how many low bits an `f64` drops
/// when it holds `b`.
pub open spec fn shift_from(b: nat, k: nat) -> nat
    decreases 64 - k,
{
    if k >= 64 || b / p2(k) < 0x20_0000_0000_0000 {
        k
    } else {
        shift_from(b, k + 1)
    }
}

/// `b` rounded to the nearest multiple of `2^k`, ties to the even multiple.
pub open spec fn round_to_multiple(b: nat, k: nat) -> nat {
    let p = p2(k);
    let low = b % p;
    let base = (b - low) as nat;
    if k == 0 {
        b
    } else if low * 2 > p || (low * 2 == p && (b / p) % 2 == 1) {
        base + p
    } else {
        base
    }
}

/// The value of `b as f64`: `b` rounded to 53 significant bits, ties to even.
pub open spec fn as_f64_value(b: nat) -> nat {
    round_to_multiple(b, shift_from(b, 0))
}

/// The binary unit `human_bytes` picks for a value: 0 for B up to 4 for TiB.
pub open spec fn unit_for(v: nat) -> nat {
    if v >= 0x100_0000_0000 {
        4
    } else if v >= 0x4000_0000 {
        3
    } else if v >= 0x10_0000 {
        2
    } else if v >= 0x400 {
        1
    } else {
        0
    }
}

/// `1024^u`.
pub open spec fn unit_size(u: nat) -> nat {
    if u == 4 {
        0x100_0000_0000
    } else if u == 3 {
        0x4000_0000
    } else if u == 2 {
        0x10_0000
    } else if u == 1 {
        0x400
    } else {
        1
    }
}

pub open spec fn unit_name(u: nat) -> Seq<char> {
    if u == 4 {
        "TiB"@
    } else if u == 3 {
        "GiB"@
    } else if u == 2 {
        "MiB"@
    } else if u == 1 {
        "KiB"@
    } else {
        "B"@
    }
}

/// `v / d` in tenths, rounded to nearest with ties to an even last digit (what
/// `{:.1}` prints for the exact value `v / d`).
pub open spec fn tenths(v: nat, d: nat) -> nat {
    let n = (10 * v) / d;
    let rem = (10 * v) % d;
    if rem * 2 > d || (rem * 2 == d && n % 2 == 1) {
        n + 1
    } else {
        n
    }
}

/// What `human_bytes` prints: plain bytes below 1 KiB, otherwise the value of
/// `bytes as f64` in the largest binary unit up to TiB that it reaches, with one
/// decimal.
pub open spec fn human_bytes_spec(bytes: u64) -> Seq<char> {
    let v = as_f64_value(bytes as nat);
    let u = unit_for(v);
    if u == 0 {
        dec(bytes as nat) + " B"@
    } else {
        let t = tenths(v, unit_size(u));
        dec(t / 10) + "."@ + seq![digit_char(t % 10)] + " "@ + unit_name(u)
    }
}

/// `bytes as f64`, as an integer.
fn f64_value(bytes: u64) -> (v: u128)
    ensures
        v == as_f64_value(bytes as nat),
        v <= 0x2_0000_0000_0000_0000,
{
    let b = bytes as u128;
    let mut k: u32 = 0;
    let mut p: u128 = 1;
    while k < 64 && b / p >= 0x20_0000_0000_0000
        invariant
            b == bytes as u128,
            k <= 64,
            p == p2(k as nat),
            1 <= p <= 0x1000,
            shift_from(b as nat, 0) == shift_from(b as nat, k as nat),
        decreases 64 - k,
    {
        assert(p * 0x20_0000_0000_0000 <= b) by (nonlinear_arith)
            requires
                b / p >= 0x20_0000_0000_0000,
                p >= 1,
        ;
        assert(p <= 0x800) by (nonlinear_arith)
            requires
                p * 0x20_0000_0000_0000 <= b,
                b < 0x1_0000_0000_0000_0000,
        ;
        p = p * 2;
        k = k + 1;
    }
    if k == 0 {
        assert(round_to_multiple(b as nat, 0) == b);
        return b;
    }
    let low = b % p;
    assert(low <= b && low < p) by (nonlinear_arith)
        requires
            low == b % p,
            p >= 1,
    ;
    let base = b - low;
    if low * 2 > p || (low * 2 == p && (b / p) % 2 == 1) {
        base + p
    } else {
        base
    }
}

/// Formats a byte count with binary units: `512 B`, `1.5 KiB`, `2.0 GiB`.
pub fn human_bytes(bytes: u64) -> (s: String)
    ensures
        s@ == human_bytes_spec(bytes),
{
    let v = f64_value(bytes);
    let mut s = String::new();
    if v < 0x400 {
        push_dec(&mut s, bytes);
        push_str(&mut s, " B");
        return s;
    }
    let (d, name): (u128, &str) = if v >= 0x100_0000_0000 {
        (0x100_0000_0000, "TiB")
    } else if v >= 0x4000_0000 {
        (0x4000_0000, "GiB")
    } else if v >= 0x10_0000 {
        (0x10_0000, "MiB")
    } else {
        (0x400, "KiB")
    };
    let n = (10 * v) / d;
    let rem = (10 * v) % d;
    let t: u128 = if rem * 2 > d || (rem * 2 == d && n % 2 == 1) {
        n + 1
    } else {
        n
    };
    assert(t <= 0x1000_0000_0000_0000) by (nonlinear_arith)
        requires
            n == (10 * v as int) / (d as int),
            d >= 0x400,
            v <= 0x2_0000_0000_0000_0000,
            t <= n + 1,
    ;
    push_dec(&mut s, (t / 10) as u64);
    push_char(&mut s, '.');
    push_char(&mut s, digit_to_char((t % 10) as u64));
    push_char(&mut s, ' ');
    push_str(&mut s, name);
    proof {
        reveal_strlit(".");
        reveal_strlit(" ");
        assert(s@ =~= human_bytes_spec(bytes));
    }
    s
}

/// `v / d` in tenths, rounded up to the next tenth.
pub open spec fn tenths_up(v: nat, d: nat) -> nat {
    let n = (10 * v) / d;
    if (10 * v) % d > 0 {
        n + 1
    } else {
        n
    }
}

/// The byte sizes of disk reports: plain bytes below 1 KiB, otherwise the byte
/// count in the largest binary unit up to TiB that it reaches, rounded up to one
/// decimal (1234567890 bytes is `1.2 GiB`).
pub open spec fn human_bytes_up_spec(bytes: u64) -> Seq<char> {
    let u = unit_for(bytes as nat);
    if u == 0 {
        dec(bytes as nat) + " B"@
    } else {
        let t = tenths_up(bytes as nat, unit_size(u));
        dec(t / 10) + "."@ + seq![digit_char(t % 10)] + " "@ + unit_name(u)
    }
}

/// Formats a byte count with binary units, rounding up to one decimal:
/// `512 B`, `1.5 KiB`, `1.2 GiB`.
pub fn human_bytes_up(bytes: u64) -> (s: String)
    ensures
        s@ == human_bytes_up_spec(bytes),
{
    let v = bytes as u128;
    let mut s = String::new();
    if v < 0x400 {
        push_dec(&mut s, bytes);
        push_str(&mut s, " B");
        return s;
    }
    let (d, name): (u128, &str) = if v >= 0x100_0000_0000 {
        (0x100_0000_0000, "TiB")
    } else if v >= 0x4000_0000 {
        (0x4000_0000, "GiB")
    } else if v >= 0x10_0000 {
        (0x10_0000, "MiB")
    } else {
        (0x400, "KiB")
    };
    let n = (10 * v) / d;
    let t: u128 = if (10 * v) % d > 0 {
        n + 1
    } else {
        n
    };
    assert(t <= 0x1000_0000_0000_0000) by (nonlinear_arith)
        requires
            n == (10 * v as int) / (d as int),
            d >= 0x400,
            v < 0x1_0000_0000_0000_0000,
            t <= n + 1,
    ;
    push_dec(&mut s, (t / 10) as u64);
    push_char(&mut s, '.');
    push_char(&mut s, digit_to_char((t % 10) as u64));
    push_char(&mut s, ' ');
    push_str(&mut s, name);
    proof {
        reveal_strlit(".");
        reveal_strlit(" ");
        assert(s@ =~= human_bytes_up_spec(bytes));
    }
    s
}

// ---------------------------------------------------------------------------
// Shell quoting
// ---------------------------------------------------------------------------

/// ASCII letters and digits.
pub open spec fn is_alnum(c: char) -> bool {
    let u = c as u32;
    (0x30 <= u <= 0x39) || (0x41 <= u <= 0x5A) || (0x61 <= u <= 0x7A)
}

/// Characters that path-like arguments may hold unquoted.
pub open spec fn path_safe(c: char) -> bool {
    is_alnum(c) || c == '/' || c == '.' || c == '_' || c == '-' || c == ':'
}

/// Characters that unit names may hold unquoted.
pub open spec fn unit_safe(c: char) -> bool {
    is_alnum(c) || c == '.' || c == '_' || c == '-' || c == '@'
}

/// Single quotes around the text, each `'` written as `'\''`.
pub open spec fn single_quoted(s: Seq<char>) -> Seq<char> {
    seq!['\''] + quote_body(s) + seq!['\'']
}

/// The text with each `'` written as `'\''`.
pub open spec fn quote_body(s: Seq<char>) -> Seq<char>
    decreases s.len(),
{
    if s.len() == 0 {
        Seq::empty()
    } else if s.last() == '\'' {
        quote_body(s.drop_last()) + seq!['\'', '\\', '\'', '\'']
    } else {
        quote_body(s.drop_last()).push(s.last())
    }
}

/// How a suggested command quotes a path: as is when every character is safe,
/// otherwise single-quoted.
pub open spec fn shell_quote_path(s: Seq<char>) -> Seq<char> {
    if forall|i: int| 0 <= i < s.len() ==> path_safe(#[trigger] s[i]) {
        s
    } else {
        single_quoted(s)
    }
}

/// How a suggested command quotes an argument: `''` when empty, else as a path.
pub open spec fn shell_quote_arg(s: Seq<char>) -> Seq<char> {
    if s.len() == 0 {
        "''"@
    } else {
        shell_quote_path(s)
    }
}

/// How a suggested command quotes a unit name.
pub open spec fn shell_quote_unit(s: Seq<char>) -> Seq<char> {
    if s.len() == 0 {
        "''"@
    } else if forall|i: int| 0 <= i < s.len() ==> unit_safe(#[trigger] s[i]) {
        s
    } else {
        single_quoted(s)
    }
}

/// Characters a POSIX shell reads literally in an unquoted word.
pub open spec fn shell_literal(c: char) -> bool {
    path_safe(c) || unit_safe(c)
}

/// `c` in front of the text that was read, if any.
pub open spec fn read_prepend(c: char, r: Option<Seq<char>>) -> Option<Seq<char>> {
    match r {
        Some(w) => Some(seq![c] + w),
        None => None,
    }
}

/// The single word a POSIX shell reads from `t`, if `t` is one word made of
/// literal characters, backslash-escaped characters and single-quoted parts;
/// `in_quote` says whether a single quote is open. `None` where `t` holds
/// anything else (a blank, an operator, an expansion, an unclosed quote).
pub open spec fn shell_read(t: Seq<char>, in_quote: bool) -> Option<Seq<char>>
    decreases t.len(),
{
    if t.len() == 0 {
        if in_quote {
            None
        } else {
            Some(Seq::empty())
        }
    } else if in_quote {
        if t[0] == '\'' {
            shell_read(t.skip(1), false)
        } else {
            read_prepend(t[0], shell_read(t.skip(1), true))
        }
    } else if t[0] == '\'' {
        shell_read(t.skip(1), true)
    } else if t[0] == '\\' {
        if t.len() < 2 || t[1] == '\n' {
            None
        } else {
            read_prepend(t[1], shell_read(t.skip(2), false))
        }
    } else if shell_literal(t[0]) {
        read_prepend(t[0], shell_read(t.skip(1), false))
    } else {
        None
    }
}

/// `s` in front of the text that was read, if any.
pub open spec fn read_prepend_all(s: Seq<char>, r: Option<Seq<char>>) -> Option<Seq<char>> {
    match r {
        Some(w) => Some(s + w),
        None => None,
    }
}

/// Inside single quotes, the quoted body of `s` reads as `s`.
proof fn lemma_read_quote_body(s: Seq<char>, tail: Seq<char>)
    ensures
        shell_read(quote_body(s) + tail, true) == read_prepend_all(s, shell_read(tail, true)),
    decreases s.len(),
{
    if s.len() == 0 {
        assert(quote_body(s) + tail =~= tail);
        match shell_read(tail, true) {
            Some(w) => assert(s + w =~= w),
            None => {},
        }
    } else {
        let c = s.last();
        let init = s.drop_last();
        let piece = if c == '\'' {
            seq!['\'', '\\', '\'', '\'']
        } else {
            seq![c]
        };
        assert(quote_body(s) == quote_body(init) + piece);
        assert(quote_body(s) + tail =~= quote_body(init) + (piece + tail));
        lemma_read_quote_body(init, piece + tail);
        let t = piece + tail;
        if c == '\'' {
            assert(t[0] == '\'');
            let u = t.skip(1);
            assert(u =~= seq!['\\', '\'', '\''] + tail);
            assert(shell_read(t, true) == shell_read(u, false));
            assert(u[0] == '\\' && u[1] == '\'' && u.len() >= 2);
            assert(shell_read(u, false) == read_prepend('\'', shell_read(u.skip(2), false)));
            let v = u.skip(2);
            assert(v =~= seq!['\''] + tail);
            assert(v[0] == '\'');
            assert(shell_read(v, false) == shell_read(v.skip(1), true));
            assert(v.skip(1) =~= tail);
            assert(shell_read(t, true) == read_prepend(c, shell_read(tail, true)));
        } else {
            assert(t.skip(1) =~= tail);
            assert(shell_read(t, true) == read_prepend(c, shell_read(tail, true)));
        }
        match shell_read(tail, true) {
            Some(w) => {
                assert(init + (seq![c] + w) =~= s + w);
            },
            None => {},
        }
    }
}

/// Text of literal characters reads as itself.
proof fn lemma_read_literal(s: Seq<char>)
    requires
        forall|i: int| 0 <= i < s.len() ==> shell_literal(#[trigger] s[i]),
    ensures
        shell_read(s, false) == Some(s),
    decreases s.len(),
{
    if s.len() > 0 {
        assert(shell_literal(s[0]));
        assert forall|i: int| 0 <= i < s.skip(1).len() implies shell_literal(#[trigger] s.skip(1)[i]) by {
            assert(s.skip(1)[i] == s[i + 1]);
        }
        lemma_read_literal(s.skip(1));
        assert(seq![s[0]] + s.skip(1) =~= s);
    }
}

/// A single-quoted text reads as the text.
proof fn lemma_read_single_quoted(s: Seq<char>)
    ensures
        shell_read(single_quoted(s), false) == Some(s),
{
    let q = single_quoted(s);
    assert(q[0] == '\'');
    assert(shell_read(q, false) == shell_read(q.skip(1), true));
    assert(q.skip(1) =~= quote_body(s) + seq!['\'']);
    lemma_read_quote_body(s, seq!['\'']);
    let e = seq!['\''];
    assert(e[0] == '\'');
    assert(shell_read(e, true) == shell_read(e.skip(1), false));
    assert(e.skip(1) =~= Seq::<char>::empty());
    assert(s + Seq::<char>::empty() =~= s);
}

/// A shell reads a quoted non-empty path as exactly one word, the path itself.
pub proof fn law_quoted_path_is_one_word(s: Seq<char>)
    requires
        s.len() > 0,
    ensures
        shell_quote_path(s).len() > 0,
        shell_read(shell_quote_path(s), false) == Some(s),
{
    if forall|i: int| 0 <= i < s.len() ==> path_safe(#[trigger] s[i]) {
        assert forall|i: int| 0 <= i < s.len() implies shell_literal(#[trigger] s[i]) by {
            assert(path_safe(s[i]));
        }
        lemma_read_literal(s);
    } else {
        lemma_read_single_quoted(s);
    }
}

/// A shell reads a quoted argument as exactly one word, the argument itself
/// (the empty argument as `''`).
pub proof fn law_quoted_arg_is_one_word(s: Seq<char>)
    ensures
        shell_quote_arg(s).len() > 0,
        shell_read(shell_quote_arg(s), false) == Some(s),
{
    if s.len() == 0 {
        reveal_strlit("''");
        let t = "''"@;
        assert(t.len() == 2 && t[0] == '\'' && t[1] == '\'');
        assert(shell_read(t, false) == shell_read(t.skip(1), true));
        let u = t.skip(1);
        assert(u[0] == '\'');
        assert(shell_read(u, true) == shell_read(u.skip(1), false));
        assert(u.skip(1) =~= Seq::<char>::empty());
        assert(s =~= Seq::<char>::empty());
    } else {
        law_quoted_path_is_one_word(s);
    }
}

/// A shell reads a quoted unit name as exactly one word, the name itself.
pub proof fn law_quoted_unit_is_one_word(s: Seq<char>)
    ensures
        shell_quote_unit(s).len() > 0,
        shell_read(shell_quote_unit(s), false) == Some(s),
{
    if s.len() == 0 {
        reveal_strlit("''");
        let t = "''"@;
        assert(t.len() == 2 && t[0] == '\'' && t[1] == '\'');
        assert(shell_read(t, false) == shell_read(t.skip(1), true));
        let u = t.skip(1);
        assert(u[0] == '\'');
        assert(shell_read(u, true) == shell_read(u.skip(1), false));
        assert(u.skip(1) =~= Seq::<char>::empty());
        assert(s =~= Seq::<char>::empty());
    } else if forall|i: int| 0 <= i < s.len() ==> unit_safe(#[trigger] s[i]) {
        assert forall|i: int| 0 <= i < s.len() implies shell_literal(#[trigger] s[i]) by {
            assert(unit_safe(s[i]));
        }
        lemma_read_literal(s);
    } else {
        lemma_read_single_quoted(s);
    }
}

fn char_is_alnum(c: char) -> (r: bool)
    ensures
        r == is_alnum(c),
{
    let u = c as u32;
    (0x30 <= u && u <= 0x39) || (0x41 <= u && u <= 0x5A) || (0x61 <= u && u <= 0x7A)
}

/// Quotes a path for a suggested command; the empty path stays empty.
pub fn quote_path(value: &str) -> (s: String)
    ensures
        s@ == shell_quote_path(value@),
{
    let v = chars_of(value);
    let mut all = true;
    let mut i: usize = 0;
    while i < v.len()
        invariant
            i <= v.len(),
            all == (forall|j: int| 0 <= j < i ==> path_safe(#[trigger] v@[j])),
        decreases v.len() - i,
    {
        let c = v[i];
        let ok = char_is_alnum(c) || c == '/' || c == '.' || c == '_' || c == '-' || c == ':';
        all = all && ok;
        i += 1;
    }
    if all {
        let mut s = String::new();
        crate::text::push_chars(&mut s, v.as_slice());
        s
    } else {
        quoted(v.as_slice())
    }
}

/// Quotes an argument for a suggested command; the empty argument becomes `''`.
pub fn quote_arg(value: &str) -> (s: String)
    ensures
        s@ == shell_quote_arg(value@),
{
    if value.is_empty() {
        crate::text::owned("''")
    } else {
        quote_path(value)
    }
}

/// Quotes a unit name for a suggested command; the empty name becomes `''`.
pub fn quote_unit(value: &str) -> (s: String)
    ensures
        s@ == shell_quote_unit(value@),
{
    let v = chars_of(value);
    if v.len() == 0 {
        let s = crate::text::owned("''");
        return s;
    }
    let mut all = true;
    let mut i: usize = 0;
    while i < v.len()
        invariant
            i <= v.len(),
            all == (forall|j: int| 0 <= j < i ==> unit_safe(#[trigger] v@[j])),
        decreases v.len() - i,
    {
        let c = v[i];
        let ok = char_is_alnum(c) || c == '.' || c == '_' || c == '-' || c == '@';
        all = all && ok;
        i += 1;
    }
    if all {
        let mut s = String::new();
        crate::text::push_chars(&mut s, v.as_slice());
        s
    } else {
        quoted(v.as_slice())
    }
}

/// Single-quotes text.
fn quoted(v: &[char]) -> (s: String)
    ensures
        s@ == single_quoted(v@),
{
    let mut s = String::new();
    push_char(&mut s, '\'');
    let mut i: usize = 0;
    while i < v.len()
        invariant
            i <= v.len(),
            s@ == seq!['\''] + quote_body(v@.take(i as int)),
        decreases v.len() - i,
    {
        assert(v@.take(i + 1).drop_last() =~= v@.take(i as int));
        if v[i] == '\'' {
            push_char(&mut s, '\'');
            push_char(&mut s, '\\');
            push_char(&mut s, '\'');
            push_char(&mut s, '\'');
        } else {
            push_char(&mut s, v[i]);
        }
        i += 1;
        assert(s@ =~= seq!['\''] + quote_body(v@.take(i as int)));
    }
    assert(v@.take(i as int) =~= v@);
    push_char(&mut s, '\'');
    assert(s@ =~= single_quoted(v@));
    s
}

// ---------------------------------------------------------------------------
// Escaping for terminals
// ---------------------------------------------------------------------------

/// Lowercase hexadecimal digits of `n`, without leading zeros.
pub open spec fn hex_min(n: nat) -> Seq<char>
    decreases n,
{
    if n < 16 {
        seq![hex_digit(n)]
    } else {
        hex_min(n / 16).push(hex_digit(n % 16))
    }
}

/// std's `char::escape_default` of one character.
pub open spec fn escape_char(c: char) -> Seq<char> {
    let u = c as u32;
    if c == '\t' {
        seq!['\\', 't']
    } else if c == '\r' {
        seq!['\\', 'r']
    } else if c == '\n' {
        seq!['\\', 'n']
    } else if c == '\\' || c == '\'' || c == '"' {
        seq!['\\', c]
    } else if 0x20 <= u <= 0x7e {
        seq![c]
    } else {
        seq!['\\', 'u', '{'] + hex_min(u as nat) + seq!['}']
    }
}

/// Every character escaped as `char::escape_default` does.
pub open spec fn escape_all(s: Seq<char>) -> Seq<char>
    decreases s.len(),
{
    if s.len() == 0 {
        Seq::empty()
    } else {
        escape_all(s.drop_last()) + escape_char(s.last())
    }
}

pub(crate) fn push_hex_min(s: &mut String, n: u32)
    ensures
        final(s)@ == old(s)@ + hex_min(n as nat),
    decreases n,
{
    if n >= 16 {
        push_hex_min(s, n / 16);
    }
    push_char(s, crate::text::hex_digit_char((n % 16) as u8));
    assert(s@ =~= old(s)@ + hex_min(n as nat));
}

fn push_escaped(s: &mut String, c: char)
    ensures
        final(s)@ == old(s)@ + escape_char(c),
{
    let u = c as u32;
    if c == '\t' {
        push_char(s, '\\');
        push_char(s, 't');
    } else if c == '\r' {
        push_char(s, '\\');
        push_char(s, 'r');
    } else if c == '\n' {
        push_char(s, '\\');
        push_char(s, 'n');
    } else if c == '\\' || c == '\'' || c == '"' {
        push_char(s, '\\');
        push_char(s, c);
    } else if 0x20 <= u && u <= 0x7e {
        push_char(s, c);
    } else {
        push_char(s, '\\');
        push_char(s, 'u');
        push_char(s, '{');
        push_hex_min(s, u);
        push_char(s, '}');
    }
    assert(s@ =~= old(s)@ + escape_char(c));
}

/// An argument for display: `""` when empty, else escaped.
pub open spec fn escape_argument(s: Seq<char>) -> Seq<char> {
    if s.len() == 0 {
        "\"\""@
    } else {
        escape_all(s)
    }
}

/// Escapes an argument for display; the empty argument shows as `""`.
pub fn escape_argument_text(value: &str) -> (s: String)
    ensures
        s@ == escape_argument(value@),
{
    if value.is_empty() {
        crate::text::owned("\"\"")
    } else {
        escape_text(value)
    }
}

/// Escapes control and non-ASCII characters so that untrusted text cannot drive
/// the terminal.
pub fn escape_text(value: &str) -> (s: String)
    ensures
        s@ == escape_all(value@),
{
    let v = chars_of(value);
    let mut s = String::new();
    let mut i: usize = 0;
    while i < v.len()
        invariant
            i <= v.len(),
            s@ == escape_all(v@.take(i as int)),
        decreases v.len() - i,
    {
        assert(v@.take(i + 1).drop_last() =~= v@.take(i as int));
        push_escaped(&mut s, v[i]);
        i += 1;
    }
    assert(v@.take(i as int) =~= v@);
    s
}

} // verus!
