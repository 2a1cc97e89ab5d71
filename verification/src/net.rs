//! Listening sockets: the rows of `/proc/net/{tcp,tcp6,udp,udp6}` in listening
//! state, their addresses in the usual text forms, the processes that hold
//! them, and the agent report.

use vstd::prelude::*;
use crate::text::{
    chars_of, eq_str, lines, words, split_lines, split_words, split_once, split_once_chars,
    parse_unsigned, parse_unsigned_chars, string_of, view_all, texts, dec, push_dec, push_str,
    owned, copy_string, starts_with, slice_chars, push_char,
};
use crate::units::{hex_min, push_hex_min, escape_text, escape_all};
use crate::order::{TotalOrder, sort_by_order, sorted_by_order, lex_le, lex_lt, lex_sign, lemma_lex_total, lemma_lex_le_trans, lemma_lex_lt_trans, compare_bytes_sign};
use vstd::utf8::encode_utf8;
use crate::agent::{AgentReport, FactValue, NextStep, Severity, Subject, fact_is, read_only_step, fact_with};
use vstd::string::StringSliceAdditionalSpecFns;

verus! {

// ---------------------------------------------------------------------------
// Addresses
// ---------------------------------------------------------------------------

/// The four bytes of a `u32` in little-endian order (`u32::to_le_bytes`).
pub open spec fn le_bytes(v: u32) -> Seq<u8> {
    seq![(v % 256) as u8, ((v / 256) % 256) as u8, ((v / 65536) % 256) as u8, ((v / 16777216) % 256) as u8]
}

/// Dotted-decimal text of four bytes.
pub open spec fn dotted(b: Seq<u8>) -> Seq<char> {
    dec(b[0] as nat) + "."@ + dec(b[1] as nat) + "."@ + dec(b[2] as nat) + "."@ + dec(b[3] as nat)
}

/// The sixteen bytes of an IPv6 address as `/proc/net` writes it: four groups of
/// eight hex digits, each a `u32` stored little-endian.
pub open spec fn ipv6_bytes(hex: Seq<char>) -> Option<Seq<u8>> {
    if hex.len() != 32 {
        None
    } else {
        let c0 = parse_unsigned(hex.subrange(0, 8), 16, u32::MAX as nat);
        let c1 = parse_unsigned(hex.subrange(8, 16), 16, u32::MAX as nat);
        let c2 = parse_unsigned(hex.subrange(16, 24), 16, u32::MAX as nat);
        let c3 = parse_unsigned(hex.subrange(24, 32), 16, u32::MAX as nat);
        if c0 is Some && c1 is Some && c2 is Some && c3 is Some {
            Some(
                le_bytes(c0->0 as u32) + le_bytes(c1->0 as u32) + le_bytes(c2->0 as u32) + le_bytes(
                    c3->0 as u32,
                ),
            )
        } else {
            None
        }
    }
}

/// The eight 16-bit groups of an IPv6 address, most significant byte first.
pub open spec fn segments(b: Seq<u8>) -> Seq<u16> {
    Seq::new(8, |i: int| (b[2 * i] as int * 256 + b[2 * i + 1] as int) as u16)
}

/// The longest run of zero groups, the first of equals, after reading `s`:
/// (start, length) of the longest and of the current run.
pub open spec fn run_fold(s: Seq<u16>) -> (int, int, int, int)
    decreases s.len(),
{
    if s.len() == 0 {
        (0, 0, 0, 0)
    } else {
        let (bs, bl, cs, cl) = run_fold(s.drop_last());
        let i = s.len() - 1;
        if s.last() == 0 {
            let ncs = if cl == 0 {
                i
            } else {
                cs
            };
            let ncl = cl + 1;
            if ncl > bl {
                (ncs, ncl, ncs, ncl)
            } else {
                (bs, bl, ncs, ncl)
            }
        } else {
            (bs, bl, 0, 0)
        }
    }
}

/// Groups in lowercase hexadecimal without leading zeros, joined by `:`.
pub open spec fn join_groups(s: Seq<u16>) -> Seq<char>
    decreases s.len(),
{
    if s.len() == 0 {
        Seq::empty()
    } else if s.len() == 1 {
        hex_min(s[0] as nat)
    } else {
        join_groups(s.drop_last()) + ":"@ + hex_min(s.last() as nat)
    }
}

/// The text of an IPv6 address as std's `Ipv6Addr` displays it: an IPv4-mapped
/// address as `::ffff:a.b.c.d`; otherwise the groups, the first longest run of
/// two or more zero groups written as `::`.
pub open spec fn ipv6_text(b: Seq<u8>) -> Seq<char> {
    let s = segments(b);
    if s[0] == 0 && s[1] == 0 && s[2] == 0 && s[3] == 0 && s[4] == 0 && s[5] == 0xffff {
        "::ffff:"@ + dotted(b.subrange(12, 16))
    } else {
        let (start, len, _, _) = run_fold(s);
        if len > 1 {
            join_groups(s.take(start)) + "::"@ + join_groups(s.skip(start + len))
        } else {
            join_groups(s)
        }
    }
}

/// The address and port of a `/proc/net` address field `ADDR:PORT`, both in
/// hexadecimal.
pub open spec fn addr_port(value: Seq<char>, ipv6: bool) -> Option<(Seq<char>, u16)> {
    match split_once(value, ':') {
        None => None,
        Some((addr, port)) => match parse_unsigned(port, 16, u16::MAX as nat) {
            None => None,
            Some(p) => if ipv6 {
                match ipv6_bytes(addr) {
                    Some(b) => Some((ipv6_text(b), p as u16)),
                    None => None,
                }
            } else {
                match parse_unsigned(addr, 16, u32::MAX as nat) {
                    Some(raw) => Some((dotted(le_bytes(raw as u32)), p as u16)),
                    None => None,
                }
            },
        },
    }
}

fn push_le_bytes(v: &mut Vec<u8>, x: u32)
    ensures
        final(v)@ == old(v)@ + le_bytes(x),
{
    v.push((x % 256) as u8);
    v.push(((x / 256) % 256) as u8);
    v.push(((x / 65536) % 256) as u8);
    v.push(((x / 16777216) % 256) as u8);
    assert(v@ =~= old(v)@ + le_bytes(x));
}

fn dotted_text(b: &[u8]) -> (s: String)
    requires
        b@.len() >= 4,
    ensures
        s@ == dotted(b@),
{
    let mut s = String::new();
    push_dec(&mut s, b[0] as u64);
    push_str(&mut s, ".");
    push_dec(&mut s, b[1] as u64);
    push_str(&mut s, ".");
    push_dec(&mut s, b[2] as u64);
    push_str(&mut s, ".");
    push_dec(&mut s, b[3] as u64);
    assert(s@ =~= dotted(b@));
    s
}

fn ipv6_bytes_exec(hex: &[char]) -> (r: Option<Vec<u8>>)
    ensures
        match r {
            Some(b) => ipv6_bytes(hex@) == Some(b@),
            None => ipv6_bytes(hex@) is None,
        },
{
    if hex.len() != 32 {
        return None;
    }
    let mut out: Vec<u8> = Vec::new();
    let mut k: usize = 0;
    let ghost chunks: Seq<Option<nat>> = Seq::new(
        4,
        |j: int| parse_unsigned(hex@.subrange(8 * j, 8 * j + 8), 16, u32::MAX as nat),
    );
    while k < 4
        invariant
            k <= 4,
            hex@.len() == 32,
            chunks == Seq::new(
                4,
                |j: int| parse_unsigned(hex@.subrange(8 * j, 8 * j + 8), 16, u32::MAX as nat),
            ),
            forall|j: int| 0 <= j < k ==> (#[trigger] chunks[j]) is Some,
            out@.len() == 4 * k,
            forall|j: int| 0 <= j < k ==> out@.subrange(4 * j, 4 * j + 4) == le_bytes(
                (#[trigger] chunks[j])->0 as u32,
            ),
        decreases 4 - k,
    {
        let chunk = slice_chars(hex, 8 * k, 8 * k + 8);
        assert(chunk@ == hex@.subrange(8 * k as int, 8 * k + 8));
        assert(chunks[k as int] == parse_unsigned(chunk@, 16, u32::MAX as nat));
        match parse_unsigned_chars(chunk.as_slice(), 16, 0xffff_ffff) {
            Some(v) => {
                let ghost before = out@;
                push_le_bytes(&mut out, v as u32);
                assert forall|j: int| 0 <= j < k + 1 implies out@.subrange(4 * j, 4 * j + 4)
                    == le_bytes((#[trigger] chunks[j])->0 as u32) by {
                    if j < k {
                        assert(out@.subrange(4 * j, 4 * j + 4) =~= before.subrange(4 * j, 4 * j + 4));
                    } else {
                        assert(out@.subrange(4 * j, 4 * j + 4) =~= le_bytes(v as u32));
                    }
                }
            },
            None => {
                return None;
            },
        }
        k += 1;
    }
    proof {
        assert(chunks[0] == parse_unsigned(hex@.subrange(0, 8), 16, u32::MAX as nat));
        assert(chunks[1] == parse_unsigned(hex@.subrange(8, 16), 16, u32::MAX as nat));
        assert(chunks[2] == parse_unsigned(hex@.subrange(16, 24), 16, u32::MAX as nat));
        assert(chunks[3] == parse_unsigned(hex@.subrange(24, 32), 16, u32::MAX as nat));
        assert(out@ =~= out@.subrange(0, 4) + out@.subrange(4, 8) + out@.subrange(8, 12) + out@.subrange(
            12,
            16,
        ));
    }
    Some(out)
}

fn ipv6_segments(b: &Vec<u8>) -> (s: Vec<u16>)
    requires
        b@.len() == 16,
    ensures
        s@ == segments(b@),
{
    let mut s: Vec<u16> = Vec::new();
    let mut i: usize = 0;
    while i < 8
        invariant
            i <= 8,
            b@.len() == 16,
            s@.len() == i,
            forall|j: int| 0 <= j < i ==> s@[j] == segments(b@)[j],
        decreases 8 - i,
    {
        let hi = b[2 * i] as u16;
        let lo = b[2 * i + 1] as u16;
        s.push(hi * 256 + lo);
        i += 1;
    }
    assert(s@ =~= segments(b@));
    s
}

fn push_groups(out: &mut String, s: &[u16], from: usize, to: usize)
    requires
        from <= to <= s@.len(),
    ensures
        final(out)@ == old(out)@ + join_groups(s@.subrange(from as int, to as int)),
{
    let ghost start = out@;
    let mut i: usize = from;
    assert(s@.subrange(from as int, from as int) =~= Seq::<u16>::empty());
    while i < to
        invariant
            from <= i <= to <= s@.len(),
            out@ == start + join_groups(s@.subrange(from as int, i as int)),
        decreases to - i,
    {
        let ghost pre = s@.subrange(from as int, i as int);
        let ghost next = s@.subrange(from as int, i + 1);
        assert(next.drop_last() =~= pre);
        if i > from {
            push_str(out, ":");
        }
        push_hex_min(out, s[i] as u32);
        if i == from {
            assert(next =~= seq![s@[i as int]]);
        } else {
            assert(next.last() == s@[i as int]);
        }
        assert(out@ =~= start + join_groups(next));
        i += 1;
    }
}

fn ipv6_display(b: &Vec<u8>) -> (t: String)
    requires
        b@.len() == 16,
    ensures
        t@ == ipv6_text(b@),
{
    let s = ipv6_segments(b);
    if s[0] == 0 && s[1] == 0 && s[2] == 0 && s[3] == 0 && s[4] == 0 && s[5] == 0xffff {
        let tail = slice_u8(b.as_slice(), 12, 16);
        let mut t = owned("::ffff:");
        let d = dotted_text(tail.as_slice());
        push_str(&mut t, d.as_str());
        return t;
    }
    let mut bs: i64 = 0;
    let mut bl: i64 = 0;
    let mut cs: i64 = 0;
    let mut cl: i64 = 0;
    let mut i: usize = 0;
    while i < 8
        invariant
            i <= 8,
            s@.len() == 8,
            (bs as int, bl as int, cs as int, cl as int) == run_fold(s@.take(i as int)),
            0 <= bl <= i && 0 <= cl <= i && 0 <= bs <= i && 0 <= cs <= i,
            bs + bl <= i,
        decreases 8 - i,
    {
        assert(s@.take(i + 1).drop_last() =~= s@.take(i as int));
        if s[i] == 0 {
            if cl == 0 {
                cs = i as i64;
            }
            cl = cl + 1;
            if cl > bl {
                bs = cs;
                bl = cl;
            }
        } else {
            cs = 0;
            cl = 0;
        }
        proof {
            lemma_run_fold_bounds(s@.take(i + 1));
        }
        i += 1;
    }
    assert(s@.take(8) =~= s@);
    let mut t = String::new();
    if bl > 1 {
        push_groups(&mut t, s.as_slice(), 0, bs as usize);
        push_str(&mut t, "::");
        push_groups(&mut t, s.as_slice(), (bs + bl) as usize, 8);
        assert(s@.subrange(0, bs as int) =~= s@.take(bs as int));
        assert(s@.subrange(bs + bl, 8) =~= s@.skip(bs + bl));
    } else {
        push_groups(&mut t, s.as_slice(), 0, 8);
        assert(s@.subrange(0, 8) =~= s@);
    }
    t
}

proof fn lemma_run_fold_bounds(s: Seq<u16>)
    ensures
        ({
            let (bs, bl, cs, cl) = run_fold(s);
            &&& 0 <= bl <= s.len() && 0 <= cl <= s.len() && 0 <= bs && 0 <= cs
            &&& bs + bl <= s.len() && cs + cl <= s.len()
            &&& cl > 0 ==> cs + cl == s.len()
        }),
    decreases s.len(),
{
    if s.len() > 0 {
        lemma_run_fold_bounds(s.drop_last());
    }
}

fn slice_u8(b: &[u8], from: usize, to: usize) -> (r: Vec<u8>)
    requires
        from <= to <= b@.len(),
    ensures
        r@ == b@.subrange(from as int, to as int),
{
    let mut r: Vec<u8> = Vec::new();
    let mut i: usize = from;
    while i < to
        invariant
            from <= i <= to <= b@.len(),
            r@ == b@.subrange(from as int, i as int),
        decreases to - i,
    {
        r.push(b[i]);
        i += 1;
        assert(r@ =~= b@.subrange(from as int, i as int));
    }
    r
}

fn ipv4_text(raw: u32) -> (s: String)
    ensures
        s@ == dotted(le_bytes(raw)),
{
    let mut b: Vec<u8> = Vec::new();
    push_le_bytes(&mut b, raw);
    assert(b@ =~= le_bytes(raw));
    dotted_text(b.as_slice())
}

/// The address text and port of a `/proc/net` address field `ADDR:PORT`.
pub fn parse_addr_port(value: &str, ipv6: bool) -> (r: Option<(String, u16)>)
    ensures
        match r {
            Some((a, p)) => addr_port(value@, ipv6) == Some((a@, p)),
            None => addr_port(value@, ipv6) is None,
        },
{
    let v = chars_of(value);
    let (addr, port) = match split_once_chars(v.as_slice(), ':') {
        Some(pair) => pair,
        None => return None,
    };
    let p = match parse_unsigned_chars(port.as_slice(), 16, 0xffff) {
        Some(p) => p as u16,
        None => return None,
    };
    if ipv6 {
        match ipv6_bytes_exec(addr.as_slice()) {
            Some(b) => {
                proof {
                    assert(b@.len() == 16);
                }
                Some((ipv6_display(&b), p))
            },
            None => None,
        }
    } else {
        match parse_unsigned_chars(addr.as_slice(), 16, 0xffff_ffff) {
            Some(raw) => Some((ipv4_text(raw as u32), p)),
            None => None,
        }
    }
}

/// Whether a listener is bound to a wildcard address.
pub open spec fn externally_bound(address: Seq<char>) -> bool {
    address == "0.0.0.0"@ || address == "::"@
}

/// Whether a listener is bound to a wildcard address, reachable from outside.
pub fn is_externally_bound(address: &str) -> (r: bool)
    ensures
        r == externally_bound(address@),
{
    let v = chars_of(address);
    eq_str(v.as_slice(), "0.0.0.0") || eq_str(v.as_slice(), "::")
}

/// Escapes text for human output (std's `char::escape_default` on every
/// character).
pub fn escape_human(value: &str) -> (s: String)
    ensures
        s@ == escape_all(value@),
{
    escape_text(value)
}

// ---------------------------------------------------------------------------
// Socket tables
// ---------------------------------------------------------------------------

/// A process holding a socket: the socket's inode, the pid, and the process name
/// when its status file could be read.
pub struct SocketOwner {
    pub inode: u64,
    pub pid: u32,
    pub name: Option<String>,
}

/// One listening socket.
pub struct Listener {
    pub protocol: String,
    pub address: String,
    pub port: u16,
    pub inode: Option<u64>,
    pub pids: Vec<u32>,
    pub processes: Vec<String>,
}

/// The listening sockets of the host.
pub struct ListenerReport {
    pub listeners: Vec<Listener>,
    pub listener_count: usize,
    pub warnings: Vec<String>,
}

/// The UTF-8 bytes of a text: the order of `String`s is the order of these.
pub open spec fn utf8(s: Seq<char>) -> Seq<u8> {
    encode_utf8(s)
}

/// The row a line of a socket table describes, if it is a listening socket:
/// address, port and inode. TCP rows count in state `0A` (LISTEN), UDP rows in
/// state `07` (unconnected).
pub open spec fn socket_row(line: Seq<char>, protocol: Seq<char>) -> Option<(Seq<char>, u16, Option<u64>)> {
    let f = words(line);
    if f.len() < 10 {
        None
    } else if protocol.len() >= 3 && protocol.take(3) == "tcp"@ && f[3] != "0A"@ {
        None
    } else if protocol.len() >= 3 && protocol.take(3) == "udp"@ && f[3] != "07"@ {
        None
    } else {
        match addr_port(f[1], protocol.len() > 0 && protocol.last() == '6') {
            None => None,
            Some((a, p)) => Some(
                (
                    a,
                    p,
                    match parse_unsigned(f[9], 10, u64::MAX as nat) {
                        Some(n) => Some(n as u64),
                        None => None,
                    },
                ),
            ),
        }
    }
}

/// UDP sockets are listed in state `07` as TCP sockets are in state `0A`: a UDP
/// row and a TCP row with the same fields, the first in state `07` (unconnected)
/// and the second in `0A` (LISTEN), give the same listener, over IPv4 and IPv6.
pub proof fn law_udp_unconnected_listed_like_tcp_listen(udp_line: Seq<char>, tcp_line: Seq<char>, ipv6: bool)
    requires
        words(tcp_line).len() >= 10,
        words(tcp_line)[3] == "0A"@,
        words(udp_line) == words(tcp_line).update(3, "07"@),
    ensures
        socket_row(udp_line, if ipv6 { "udp6"@ } else { "udp"@ }) == socket_row(
            tcp_line,
            if ipv6 { "tcp6"@ } else { "tcp"@ },
        ),
{
    reveal_strlit("udp");
    reveal_strlit("udp6");
    reveal_strlit("tcp");
    reveal_strlit("tcp6");
    let fu = words(udp_line);
    let ft = words(tcp_line);
    assert(fu[1] == ft[1] && fu[9] == ft[9] && fu[3] == "07"@);
    assert("udp6"@.take(3) =~= "udp"@);
    assert("tcp6"@.take(3) =~= "tcp"@);
    assert("udp"@.take(3) =~= "udp"@);
    assert("tcp"@.take(3) =~= "tcp"@);
    assert("udp"@ != "tcp"@) by {
        assert("udp"@[0] != "tcp"@[0]);
    }
    assert("udp6"@.last() == '6' && "tcp6"@.last() == '6');
    assert("udp"@.last() != '6' && "tcp"@.last() != '6');
}

/// A row that is not in the listening state of its protocol lists nothing: a TCP
/// row outside `0A`, a UDP row outside `07`.
pub proof fn law_other_states_not_listed(line: Seq<char>, ipv6: bool)
    ensures
        words(line).len() >= 4 && words(line)[3] != "0A"@ ==> socket_row(line, if ipv6 { "tcp6"@ } else { "tcp"@ }) is None,
        words(line).len() >= 4 && words(line)[3] != "07"@ ==> socket_row(line, if ipv6 { "udp6"@ } else { "udp"@ }) is None,
{
    reveal_strlit("udp");
    reveal_strlit("udp6");
    reveal_strlit("tcp");
    reveal_strlit("tcp6");
    assert("udp6"@.take(3) =~= "udp"@);
    assert("tcp6"@.take(3) =~= "tcp"@);
    assert("udp"@.take(3) =~= "udp"@);
    assert("tcp"@.take(3) =~= "tcp"@);
    assert("udp"@ != "tcp"@) by {
        assert("udp"@[0] != "tcp"@[0]);
    }
}

/// The listening rows of a table's lines (after the header line), in order.
pub open spec fn socket_rows(ls: Seq<Seq<char>>, protocol: Seq<char>) -> Seq<(Seq<char>, u16, Option<u64>)>
    decreases ls.len(),
{
    if ls.len() == 0 {
        Seq::empty()
    } else {
        let rest = socket_rows(ls.drop_last(), protocol);
        match socket_row(ls.last(), protocol) {
            Some(r) => rest.push(r),
            None => rest,
        }
    }
}

/// The pids holding socket `inode`.
pub open spec fn owner_pids(owners: Seq<SocketOwner>, inode: Option<u64>) -> Set<u32> {
    Set::new(|p: u32| exists|i: int| 0 <= i < owners.len() && inode == Some(owners[i].inode) && owners[i].pid == p)
}

/// Whether an owner's process is named `n`.
pub open spec fn named(o: SocketOwner, n: Seq<char>) -> bool {
    match o.name {
        Some(x) => x@ == n,
        None => false,
    }
}

/// The names of the processes holding socket `inode`.
pub open spec fn owner_names(owners: Seq<SocketOwner>, inode: Option<u64>) -> Set<Seq<char>> {
    Set::new(
        |n: Seq<char>|
            exists|i: int|
                0 <= i < owners.len() && inode == Some(owners[i].inode) && named(owners[i], n),
    )
}

/// Strictly ascending numbers.
pub open spec fn strictly_ascending(v: Seq<u32>) -> bool {
    forall|i: int, j: int| 0 <= i < j < v.len() ==> v[i] < v[j]
}

/// Texts in strictly ascending byte order.
pub open spec fn strictly_ascending_text(v: Seq<String>) -> bool {
    forall|i: int, j: int| 0 <= i < j < v.len() ==> lex_lt(utf8(#[trigger] v[i]@), utf8(#[trigger] v[j]@))
}

fn insert_pid(v: &mut Vec<u32>, p: u32)
    requires
        strictly_ascending(old(v)@),
    ensures
        strictly_ascending(final(v)@),
        final(v)@.to_set() == old(v)@.to_set().insert(p),
{
    let mut k: usize = 0;
    while k < v.len() && v[k] < p
        invariant
            k <= v@.len(),
            forall|i: int| 0 <= i < k ==> v@[i] < p,
        decreases v.len() - k,
    {
        k += 1;
    }
    if k < v.len() && v[k] == p {
        assert(v@.contains(p)) by {
            assert(v@[k as int] == p);
        }
        assert(v@.to_set() =~= v@.to_set().insert(p));
        return;
    }
    let ghost before = v@;
    v.insert(k, p);
    assert(v@ == before.insert(k as int, p));
    assert(v@.to_set() =~= before.to_set().insert(p)) by {
        assert forall|x: u32| #[trigger] v@.to_set().contains(x) <==> before.to_set().insert(p).contains(x) by {
            if v@.contains(x) {
                let i = choose|i: int| 0 <= i < v@.len() && v@[i] == x;
                if i < k {
                    assert(before[i] == x);
                } else if i > k {
                    assert(before[i - 1] == x);
                }
            }
            if before.contains(x) {
                let i = choose|i: int| 0 <= i < before.len() && before[i] == x;
                if i < k {
                    assert(v@[i] == x);
                } else {
                    assert(v@[i + 1] == x);
                }
            }
            if x == p {
                assert(v@[k as int] == p);
            }
        }
    }
}

proof fn lemma_utf8_injective(a: Seq<char>, b: Seq<char>)
    requires
        utf8(a) == utf8(b),
    ensures
        a == b,
{
    vstd::utf8::encode_utf8_decode_utf8(a);
    vstd::utf8::encode_utf8_decode_utf8(b);
}

fn insert_name(v: &mut Vec<String>, s: String)
    requires
        strictly_ascending_text(old(v)@),
    ensures
        strictly_ascending_text(final(v)@),
        texts(final(v)@).to_set() == texts(old(v)@).to_set().insert(s@),
{
    let mut k: usize = 0;
    let mut stop = false;
    let mut same = false;
    while !stop && k < v.len()
        invariant
            k <= v@.len(),
            forall|i: int| 0 <= i < k ==> lex_lt(utf8(#[trigger] v@[i]@), utf8(s@)),
            stop ==> k < v@.len() && !lex_lt(utf8(v@[k as int]@), utf8(s@)),
            stop ==> (same <==> v@[k as int]@ == s@),
        decreases v.len() - k + (if stop { 0int } else { 1int }),
    {
        let sign = compare_bytes_sign(v[k].as_str().as_bytes(), s.as_str().as_bytes());
        if sign < 0 {
            k += 1;
        } else {
            stop = true;
            same = sign == 0;
            proof {
                lemma_lex_total(utf8(v@[k as int]@), utf8(s@));
                if sign == 0 {
                    lemma_utf8_injective(v@[k as int]@, s@);
                }
            }
        }
    }
    let ghost before = v@;
    if stop && same {
        assert(texts(v@).to_set() =~= texts(v@).to_set().insert(s@)) by {
            assert(texts(v@)[k as int] == s@);
            assert(texts(v@).contains(s@));
        }
        return;
    }
    proof {
        if stop {
            lemma_lex_total(utf8(v@[k as int]@), utf8(s@));
            if utf8(v@[k as int]@) == utf8(s@) {
                lemma_utf8_injective(v@[k as int]@, s@);
            }
            assert(lex_lt(utf8(s@), utf8(v@[k as int]@)));
        }
    }
    let ghost sv = s@;
    v.insert(k, s);
    assert(v@ == before.insert(k as int, v@[k as int]));
    assert forall|i: int, j: int| 0 <= i < j < v@.len() implies lex_lt(utf8(#[trigger] v@[i]@), utf8(#[trigger] v@[j]@)) by {
        if j < k {
            assert(v@[i] == before[i] && v@[j] == before[j]);
        } else if j == k {
            assert(v@[i] == before[i]);
        } else if i < k {
            assert(v@[i] == before[i] && v@[j] == before[j - 1]);
            if k < j - 1 {
                lemma_lex_lt_trans(utf8(sv), utf8(before[k as int]@), utf8(before[j - 1]@));
            }
            lemma_lex_lt_trans(utf8(before[i]@), utf8(sv), utf8(before[j - 1]@));
        } else if i == k {
            assert(v@[j] == before[j - 1]);
            if k < j - 1 {
                lemma_lex_lt_trans(utf8(sv), utf8(before[k as int]@), utf8(before[j - 1]@));
            }
        } else {
            assert(v@[i] == before[i - 1] && v@[j] == before[j - 1]);
        }
    }
    assert(texts(v@).to_set() =~= texts(before).to_set().insert(sv)) by {
        assert forall|x: Seq<char>| #[trigger] texts(v@).to_set().contains(x) <==> texts(before).to_set().insert(sv).contains(x) by {
            if texts(v@).contains(x) {
                let i = choose|i: int| 0 <= i < texts(v@).len() && texts(v@)[i] == x;
                if i < k {
                    assert(texts(before)[i] == x);
                } else if i > k {
                    assert(texts(before)[i - 1] == x);
                }
            }
            if texts(before).contains(x) {
                let i = choose|i: int| 0 <= i < texts(before).len() && texts(before)[i] == x;
                if i < k {
                    assert(texts(v@)[i] == x);
                } else {
                    assert(texts(v@)[i + 1] == x);
                }
            }
            if x == sv {
                assert(texts(v@)[k as int] == sv);
            }
        }
    }
}

/// The pids and process names holding socket `inode`, each ascending and
/// without repeats.
fn owners_of(owners: &Vec<SocketOwner>, inode: Option<u64>) -> (r: (Vec<u32>, Vec<String>))
    ensures
        strictly_ascending(r.0@),
        r.0@.to_set() == owner_pids(owners@, inode),
        strictly_ascending_text(r.1@),
        texts(r.1@).to_set() == owner_names(owners@, inode),
{
    let mut pids: Vec<u32> = Vec::new();
    let mut names: Vec<String> = Vec::new();
    let mut i: usize = 0;
    assert(pids@.to_set() =~= Set::<u32>::empty());
    assert(texts(names@).to_set() =~= Set::<Seq<char>>::empty());
    while i < owners.len()
        invariant
            i <= owners.len(),
            strictly_ascending(pids@),
            strictly_ascending_text(names@),
            pids@.to_set() == owner_pids(owners@.take(i as int), inode),
            texts(names@).to_set() == owner_names(owners@.take(i as int), inode),
        decreases owners.len() - i,
    {
        let o = &owners[i];
        let ghost pre = owners@.take(i as int);
        let ghost post = owners@.take(i + 1);
        assert(post =~= pre.push(owners@[i as int]));
        if inode == Some(o.inode) {
            insert_pid(&mut pids, o.pid);
            match &o.name {
                Some(n) => insert_name(&mut names, copy_string(n)),
                None => {},
            }
        }
        assert(pids@.to_set() =~= owner_pids(post, inode)) by {
            assert forall|p: u32| pids@.to_set().contains(p) <==> owner_pids(post, inode).contains(p) by {
                if owner_pids(post, inode).contains(p) {
                    let j = choose|j: int| 0 <= j < post.len() && inode == Some(post[j].inode) && post[j].pid == p;
                    if j < i {
                        assert(pre[j] == post[j]);
                        assert(owner_pids(pre, inode).contains(p));
                    }
                }
                if owner_pids(pre, inode).contains(p) {
                    let j = choose|j: int| 0 <= j < pre.len() && inode == Some(pre[j].inode) && pre[j].pid == p;
                    assert(post[j] == pre[j]);
                }
                if inode == Some(o.inode) && p == o.pid {
                    assert(post[i as int] == owners@[i as int]);
                }
            }
        }
        assert(texts(names@).to_set() =~= owner_names(post, inode)) by {
            assert forall|n: Seq<char>| texts(names@).to_set().contains(n) <==> owner_names(post, inode).contains(n) by {
                if owner_names(post, inode).contains(n) {
                    let j = choose|j: int| 0 <= j < post.len() && inode == Some(post[j].inode) && named(post[j], n);
                    if j < i {
                        assert(pre[j] == post[j]);
                        assert(owner_names(pre, inode).contains(n));
                    }
                }
                if owner_names(pre, inode).contains(n) {
                    let j = choose|j: int| 0 <= j < pre.len() && inode == Some(pre[j].inode) && named(pre[j], n);
                    assert(post[j] == pre[j]);
                }
                if inode == Some(o.inode) && named(*o, n) {
                    assert(post[i as int] == owners@[i as int]);
                }
            }
        }
        i += 1;
    }
    assert(owners@.take(i as int) =~= owners@);
    (pids, names)
}

/// The header line of a table dropped.
pub open spec fn without_header(ls: Seq<Seq<char>>) -> Seq<Seq<char>> {
    if ls.len() == 0 {
        ls
    } else {
        ls.skip(1)
    }
}

/// Whether a listener holds this protocol, row and the owners of its socket.
pub open spec fn listener_is(
    l: Listener,
    protocol: Seq<char>,
    row: (Seq<char>, u16, Option<u64>),
    owners: Seq<SocketOwner>,
) -> bool {
    &&& l.protocol@ == protocol
    &&& (l.address@, l.port, l.inode) == row
    &&& strictly_ascending(l.pids@)
    &&& l.pids@.to_set() == owner_pids(owners, l.inode)
    &&& strictly_ascending_text(l.processes@)
    &&& texts(l.processes@).to_set() == owner_names(owners, l.inode)
}

/// The listening sockets of one table of `/proc/net` (`protocol` is `tcp`,
/// `tcp6`, `udp` or `udp6`), in the table's order, each with the processes that
/// hold it.
pub fn table_listeners(content: &str, protocol: &str, owners: &Vec<SocketOwner>) -> (r: Vec<Listener>)
    ensures
        ({
            let rows = socket_rows(without_header(lines(content@)), protocol@);
            &&& r@.len() == rows.len()
            &&& forall|i: int| 0 <= i < r@.len() ==> listener_is(#[trigger] r@[i], protocol@, rows[i], owners@)
        }),
{
    let p = chars_of(protocol);
    proof {
        reveal_strlit("tcp");
        reveal_strlit("udp");
    }
    let is_tcp = p.len() >= 3 && starts_with(p.as_slice(), chars_of("tcp").as_slice());
    let is_udp = p.len() >= 3 && starts_with(p.as_slice(), chars_of("udp").as_slice());
    let ipv6 = p.len() > 0 && p[p.len() - 1] == '6';
    let chars = chars_of(content);
    let ls = split_lines(chars.as_slice());
    let ghost lv = view_all(ls@);
    let ghost body = without_header(lv);
    let mut out: Vec<Listener> = Vec::new();
    if ls.len() == 0 {
        return out;
    }
    let mut i: usize = 1;
    assert(body.take(0) =~= Seq::<Seq<char>>::empty());
    while i < ls.len()
        invariant
            1 <= i <= ls.len(),
            lv == view_all(ls@),
            lv.len() == ls@.len(),
            body == lv.skip(1),
            p@ == protocol@,
            is_tcp == (protocol@.len() >= 3 && protocol@.take(3) == "tcp"@),
            is_udp == (protocol@.len() >= 3 && protocol@.take(3) == "udp"@),
            ipv6 == (protocol@.len() > 0 && protocol@.last() == '6'),
            out@.len() == socket_rows(body.take(i - 1), protocol@).len(),
            forall|j: int| 0 <= j < out@.len() ==> listener_is(#[trigger] out@[j], protocol@, socket_rows(body.take(i - 1), protocol@)[j], owners@),
        decreases ls.len() - i,
    {
        let ghost pre = body.take(i - 1);
        assert(body.take(i as int).drop_last() =~= pre);
        assert(body.take(i as int).last() == lv[i as int]);
        assert(lv[i as int] == ls@[i as int]@);
        let f = split_words(ls[i].as_slice());
        let ghost fv = view_all(f@);
        let mut row: Option<(String, u16, Option<u64>)> = None;
        if f.len() >= 10 {
            assert(fv[3] == f@[3]@ && fv[1] == f@[1]@ && fv[9] == f@[9]@);
            let state = f[3].as_slice();
            let skip = (is_tcp && !eq_str(state, "0A")) || (is_udp && !eq_str(state, "07"));
            if !skip {
                let field = string_of(f[1].as_slice());
                match parse_addr_port(field.as_str(), ipv6) {
                    Some((a, port)) => {
                        let inode = parse_unsigned_chars(f[9].as_slice(), 10, u64::MAX);
                        row = Some((a, port, inode));
                    },
                    None => {},
                }
            }
        }
        let ghost rows_pre = socket_rows(pre, protocol@);
        match row {
            Some((address, port, inode)) => {
                let (pids, processes) = owners_of(owners, inode);
                let l = Listener { protocol: string_of(p.as_slice()), address, port, inode, pids, processes };
                assert(socket_row(lv[i as int], protocol@) == Some((l.address@, l.port, l.inode)));
                out.push(l);
                assert(socket_rows(body.take(i as int), protocol@) == rows_pre.push((l.address@, l.port, l.inode)));
                assert forall|j: int| 0 <= j < out@.len() implies listener_is(#[trigger] out@[j], protocol@, socket_rows(body.take(i as int), protocol@)[j], owners@) by {
                    if j < out@.len() - 1 {
                        assert(out@[j] == old_out_at(out@, j));
                    }
                }
            },
            None => {
                assert(socket_row(lv[i as int], protocol@) is None);
                assert(socket_rows(body.take(i as int), protocol@) == rows_pre);
            },
        }
        i += 1;
    }
    assert(body.take(i - 1) =~= body);
    out
}

spec fn old_out_at(v: Seq<Listener>, j: int) -> Listener {
    v[j]
}

/// The order of listeners: by protocol, then port, then address.
pub open spec fn listener_le(a: Listener, b: Listener) -> bool {
    ||| lex_lt(utf8(a.protocol@), utf8(b.protocol@))
    ||| a.protocol@ == b.protocol@ && a.port < b.port
    ||| a.protocol@ == b.protocol@ && a.port == b.port && lex_le(utf8(a.address@), utf8(b.address@))
}

impl TotalOrder for Listener {
    open spec fn ordered_le(&self, other: &Self) -> bool {
        listener_le(*self, *other)
    }

    proof fn ordered_total(a: Self, b: Self) {
        lemma_lex_total(utf8(a.protocol@), utf8(b.protocol@));
        lemma_lex_total(utf8(a.address@), utf8(b.address@));
        if utf8(a.protocol@) == utf8(b.protocol@) {
            lemma_utf8_injective(a.protocol@, b.protocol@);
        }
    }

    proof fn ordered_trans(a: Self, b: Self, c: Self) {
        lemma_lex_total(utf8(a.protocol@), utf8(b.protocol@));
        lemma_lex_total(utf8(b.protocol@), utf8(c.protocol@));
        if lex_lt(utf8(a.protocol@), utf8(b.protocol@)) && lex_lt(utf8(b.protocol@), utf8(c.protocol@)) {
            lemma_lex_lt_trans(utf8(a.protocol@), utf8(b.protocol@), utf8(c.protocol@));
        }
        if lex_le(utf8(a.address@), utf8(b.address@)) && lex_le(utf8(b.address@), utf8(c.address@)) {
            lemma_lex_le_trans(utf8(a.address@), utf8(b.address@), utf8(c.address@));
        }
    }

    fn goes_before(&self, other: &Self) -> (r: bool) {
        let ps = compare_bytes_sign(self.protocol.as_str().as_bytes(), other.protocol.as_str().as_bytes());
        proof {
            lemma_lex_total(utf8(self.protocol@), utf8(other.protocol@));
            lemma_lex_total(utf8(self.address@), utf8(other.address@));
            if utf8(self.protocol@) == utf8(other.protocol@) {
                lemma_utf8_injective(self.protocol@, other.protocol@);
            }
        }
        if ps != 0 {
            return ps < 0;
        }
        if self.port != other.port {
            return self.port < other.port;
        }
        compare_bytes_sign(self.address.as_str().as_bytes(), other.address.as_str().as_bytes()) < 0
    }
}

/// The warning for a socket table that could not be read.
pub open spec fn table_warning_text(path: Seq<char>, error: Seq<char>) -> Seq<char> {
    path + " unavailable: "@ + error
}

/// The warning for a socket table that could not be read.
pub fn table_warning(path: &str, error: &String) -> (s: String)
    ensures
        s@ == table_warning_text(path@, error@),
{
    let mut s = owned(path);
    push_str(&mut s, " unavailable: ");
    push_str(&mut s, error.as_str());
    s
}

/// The listener report: the listeners of every table, in protocol, port and
/// address order, their count, and the warnings of collection.
pub fn listener_report(listeners: Vec<Listener>, warnings: Vec<String>) -> (r: ListenerReport)
    ensures
        r.listeners@.to_multiset() == listeners@.to_multiset(),
        r.listeners@.len() == listeners@.len(),
        sorted_by_order(r.listeners@),
        exists|p: Seq<int>| #[trigger] crate::order::stable_arrangement(listeners@, r.listeners@, p),
        r.listener_count == listeners@.len(),
        r.warnings == warnings,
{
    let listeners = sort_by_order(listeners);
    let listener_count = listeners.len();
    ListenerReport { listeners, listener_count, warnings }
}

/// The socket inode a `/proc/<pid>/fd` link names (`socket:[INODE]`).
pub open spec fn link_inode(t: Seq<char>) -> Option<u64> {
    if t.len() >= 9 && t.take(8) == "socket:["@ && t.last() == ']' {
        match parse_unsigned(t.subrange(8, t.len() - 1), 10, u64::MAX as nat) {
            Some(n) => Some(n as u64),
            None => None,
        }
    } else {
        None
    }
}

/// The socket inode a file-descriptor link target names, if it is a socket.
pub fn socket_inode(link: &str) -> (r: Option<u64>)
    ensures
        r == link_inode(link@),
{
    let t = chars_of(link);
    let prefix = chars_of("socket:[");
    proof {
        reveal_strlit("socket:[");
    }
    if t.len() >= 9 && starts_with(t.as_slice(), prefix.as_slice()) && t[t.len() - 1] == ']' {
        let body = slice_chars(t.as_slice(), 8, t.len() - 1);
        parse_unsigned_chars(body.as_slice(), 10, u64::MAX)
    } else {
        None
    }
}

/// The process name a status text gives: the rest of the first line that starts
/// with `Name:` and a tab.
pub open spec fn status_name_of(ls: Seq<Seq<char>>) -> Option<Seq<char>>
    decreases ls.len(),
{
    if ls.len() == 0 {
        None
    } else if ls[0].len() >= 6 && ls[0].take(6) == "Name:\t"@ {
        Some(ls[0].skip(6))
    } else {
        status_name_of(ls.drop_first())
    }
}

/// The process name in a status text.
pub fn status_name(content: &str) -> (r: Option<String>)
    ensures
        match r {
            Some(n) => status_name_of(lines(content@)) == Some(n@),
            None => status_name_of(lines(content@)) is None,
        },
{
    let chars = chars_of(content);
    let ls = split_lines(chars.as_slice());
    let ghost lv = view_all(ls@);
    let prefix = chars_of("Name:\t");
    proof {
        reveal_strlit("Name:\t");
    }
    let mut i: usize = 0;
    assert(lv.skip(0) =~= lv);
    while i < ls.len()
        invariant
            i <= ls.len(),
            lv == view_all(ls@),
            lv == lines(content@),
            lv.len() == ls@.len(),
            prefix@ == "Name:\t"@,
            prefix@.len() == 6,
            status_name_of(lv) == status_name_of(lv.skip(i as int)),
        decreases ls.len() - i,
    {
        assert(lv.skip(i as int)[0] == ls@[i as int]@);
        assert(lv.skip(i as int).drop_first() =~= lv.skip(i + 1));
        if ls[i].len() >= 6 && starts_with(ls[i].as_slice(), prefix.as_slice()) {
            let rest = slice_chars(ls[i].as_slice(), 6, ls[i].len());
            assert(rest@ =~= ls@[i as int]@.skip(6));
            assert(ls@[i as int]@.take(6) == "Name:\t"@);
            assert(status_name_of(lv.skip(i as int)) == Some(rest@));
            return Some(string_of(rest.as_slice()));
        }
        i += 1;
    }
    None
}

// ---------------------------------------------------------------------------
// Agent report
// ---------------------------------------------------------------------------

/// How many listeners are bound to a wildcard address.
pub open spec fn count_external(s: Seq<Listener>) -> nat
    decreases s.len(),
{
    if s.len() == 0 {
        0
    } else {
        count_external(s.drop_last()) + if externally_bound(s.last().address@) {
            1nat
        } else {
            0nat
        }
    }
}

/// How many listeners use a port below 1024.
pub open spec fn count_privileged(s: Seq<Listener>) -> nat
    decreases s.len(),
{
    if s.len() == 0 {
        0
    } else {
        count_privileged(s.drop_last()) + if s.last().port < 1024 {
            1nat
        } else {
            0nat
        }
    }
}

/// How many listeners no visible process holds.
pub open spec fn count_unattributed(s: Seq<Listener>) -> nat
    decreases s.len(),
{
    if s.len() == 0 {
        0
    } else {
        count_unattributed(s.drop_last()) + if s.last().pids@.len() == 0 {
            1nat
        } else {
            0nat
        }
    }
}

fn listener_counts(ls: &Vec<Listener>) -> (r: (u64, u64, u64))
    ensures
        r.0 == count_external(ls@),
        r.1 == count_privileged(ls@),
        r.2 == count_unattributed(ls@),
{
    let mut ext: u64 = 0;
    let mut pri: u64 = 0;
    let mut una: u64 = 0;
    let mut i: usize = 0;
    while i < ls.len()
        invariant
            i <= ls.len(),
            ext == count_external(ls@.take(i as int)),
            pri == count_privileged(ls@.take(i as int)),
            una == count_unattributed(ls@.take(i as int)),
            ext <= i && pri <= i && una <= i,
        decreases ls.len() - i,
    {
        assert(ls@.take(i + 1).drop_last() =~= ls@.take(i as int));
        assert(ls@.take(i + 1).last() == ls@[i as int]);
        let l = &ls[i];
        if is_externally_bound(l.address.as_str()) {
            ext += 1;
        }
        if l.port < 1024 {
            pri += 1;
        }
        if l.pids.len() == 0 {
            una += 1;
        }
        i += 1;
    }
    assert(ls@.take(i as int) =~= ls@);
    (ext, pri, una)
}

fn any_attributed(ls: &Vec<Listener>) -> (r: bool)
    ensures
        r == exists|i: int| 0 <= i < ls@.len() && (#[trigger] ls@[i]).pids@.len() > 0,
{
    let mut i: usize = 0;
    while i < ls.len()
        invariant
            i <= ls.len(),
            forall|j: int| 0 <= j < i ==> (#[trigger] ls@[j]).pids@.len() == 0,
        decreases ls.len() - i,
    {
        if ls[i].pids.len() > 0 {
            return true;
        }
        i += 1;
    }
    false
}

/// The agent report of the listening sockets.
pub fn agent_report(report: &ListenerReport, generated_at: String) -> (r: AgentReport)
    ensures
        r.generated_at == generated_at,
        r.subject.domain@ == "net"@ && r.subject.command@ == "listeners"@,
        r.subject.target matches Some(t) && t@ == "local"@,
        r.summary@ == "Observed "@ + dec(report.listener_count as nat) + " local listening sockets."@,
        r.severity == if report.warnings@.len() == 0 { Severity::Normal } else { Severity::Info },
        r.facts@.len() == 5,
        fact_is(r.facts@[0], "listener_count"@, Severity::Info, seq!["parsed /proc/net/{tcp,tcp6,udp,udp6} entries in listener state"@]),
        r.facts@[0].value == FactValue::Number(report.listener_count as u64),
        fact_is(r.facts@[1], "socket_owner_mapping_available"@, Severity::Info, seq!["scanned visible /proc/<pid>/fd symlinks for socket inodes"@]),
        r.facts@[1].value == FactValue::Bool(
            exists|i: int| 0 <= i < report.listeners@.len() && (#[trigger] report.listeners@[i]).pids@.len() > 0,
        ),
        fact_is(
            r.facts@[2],
            "externally_bound_listener_count"@,
            if count_external(report.listeners@) > 0 { Severity::Warning } else { Severity::Info },
            seq!["counted listeners bound to wildcard addresses 0.0.0.0 or ::"@],
        ),
        r.facts@[2].value == FactValue::Number(count_external(report.listeners@) as u64),
        fact_is(
            r.facts@[3],
            "privileged_listener_count"@,
            if count_privileged(report.listeners@) > 0 { Severity::Warning } else { Severity::Info },
            seq!["counted listeners with local port below 1024"@],
        ),
        r.facts@[3].value == FactValue::Number(count_privileged(report.listeners@) as u64),
        fact_is(r.facts@[4], "unattributed_listener_count"@, Severity::Info, seq!["counted listeners without visible process attribution"@]),
        r.facts@[4].value == FactValue::Number(count_unattributed(report.listeners@) as u64),
        texts(r.interpretation@) == if report.warnings@.len() == 0 {
            Seq::<Seq<char>>::empty()
        } else {
            seq![dec(report.warnings@.len() as nat)
                + " listener collection warnings occurred; permissions or kernel support may limit process attribution."@]
        },
        r.safe_next_steps@.len() == 2,
        read_only_step(r.safe_next_steps@[0], "bbt --json net listeners"@, "Fetch complete structured listener inventory"@),
        read_only_step(r.safe_next_steps@[1], "bbt --agent proc list"@, "Correlate listeners with the local process inventory"@),
        r.risky_next_steps@.len() == 0,
{
    let severity = if report.warnings.len() == 0 {
        Severity::Normal
    } else {
        Severity::Info
    };
    let (ext, pri, una) = listener_counts(&report.listeners);
    let mapped = any_attributed(&report.listeners);
    let mut summary = owned("Observed ");
    push_dec(&mut summary, report.listener_count as u64);
    push_str(&mut summary, " local listening sockets.");
    let mut agent = AgentReport::new(generated_at, Subject::new("net", "listeners", Some("local")), summary, severity)
        .with_fact(
            fact_with(
                "listener_count",
                FactValue::Number(report.listener_count as u64),
                Severity::Info,
                "parsed /proc/net/{tcp,tcp6,udp,udp6} entries in listener state",
            ),
        )
        .with_fact(
            fact_with(
                "socket_owner_mapping_available",
                FactValue::Bool(mapped),
                Severity::Info,
                "scanned visible /proc/<pid>/fd symlinks for socket inodes",
            ),
        )
        .with_fact(
            fact_with(
                "externally_bound_listener_count",
                FactValue::Number(ext),
                if ext > 0 {
                    Severity::Warning
                } else {
                    Severity::Info
                },
                "counted listeners bound to wildcard addresses 0.0.0.0 or ::",
            ),
        )
        .with_fact(
            fact_with(
                "privileged_listener_count",
                FactValue::Number(pri),
                if pri > 0 {
                    Severity::Warning
                } else {
                    Severity::Info
                },
                "counted listeners with local port below 1024",
            ),
        )
        .with_fact(
            fact_with(
                "unattributed_listener_count",
                FactValue::Number(una),
                Severity::Info,
                "counted listeners without visible process attribution",
            ),
        );
    if report.warnings.len() > 0 {
        let mut t = crate::text::dec_string(report.warnings.len() as u64);
        push_str(
            &mut t,
            " listener collection warnings occurred; permissions or kernel support may limit process attribution.",
        );
        agent = agent.with_interpretation(t);
    }
    let agent = agent.with_safe_next_step(
        NextStep::read_only("bbt --json net listeners", "Fetch complete structured listener inventory"),
    ).with_safe_next_step(
        NextStep::read_only("bbt --agent proc list", "Correlate listeners with the local process inventory"),
    );
    assert(texts(agent.interpretation@) =~= if report.warnings@.len() == 0 {
        Seq::<Seq<char>>::empty()
    } else {
        seq![dec(report.warnings@.len() as nat)
            + " listener collection warnings occurred; permissions or kernel support may limit process attribution."@]
    });
    agent
}

} // verus!
