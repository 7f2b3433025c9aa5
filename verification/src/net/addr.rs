//! IP addresses and their texts.
use crate::decimal::{all_digits, decimal, digits_value, is_digit, parse_digits, render_u64};
use crate::error::{failure, EngineError, ErrorCode, ErrorView};
use crate::outside::hex_digit;
use crate::split::{split_on, split_text};
use crate::text::{cat2, cat3, chars_of, string_of, texts};
use vstd::prelude::*;

verus! {

/// An address of either family, as a number.
#[derive(Clone, Copy, PartialEq, Eq, Structural, Debug)]
pub enum IpAddr {
    V4(u32),
    V6(u128),
}

/// The number an octet's text stands for: one to three digits without a leading
/// zero, at most 255.
pub open spec fn octet(s: Seq<char>) -> Option<nat> {
    if 1 <= s.len() <= 3 && all_digits(s) && (s.len() == 1 || s[0] != '0') && digits_value(s) <= 255 {
        Some(digits_value(s))
    } else {
        None
    }
}

/// The address that a dotted text stands for.
pub open spec fn read_v4(s: Seq<char>) -> Option<nat> {
    let parts = split_on(s, '.');
    if parts.len() != 4 {
        None
    } else {
        match (octet(parts[0]), octet(parts[1]), octet(parts[2]), octet(parts[3])) {
            (Some(a), Some(b), Some(c), Some(d)) => Some(((a * 256 + b) * 256 + c) * 256 + d),
            _ => None,
        }
    }
}

/// The dotted text of an address.
pub open spec fn v4_text(a: nat) -> Seq<char> {
    decimal(a / 16777216) + seq!['.'] + decimal(a / 65536 % 256) + seq!['.'] + decimal(a / 256 % 256) + seq!['.']
        + decimal(a % 256)
}

fn parse_octet(s: &str) -> (r: Option<u32>)
    ensures
        match r {
            Some(v) => octet(s@) == Some(v as nat),
            None => octet(s@) is None,
        },
        r matches Some(v) ==> v <= 255,
{
    let chars = chars_of(s);
    let n = chars.len();
    if n < 1 || n > 3 || chars[0] == '+' || (n > 1 && chars[0] == '0') {
        return None;
    }
    assert(s@.subrange(0, n as int) =~= s@);
    match parse_digits(&chars, 0, n, 255) {
        Some(v) => Some(v as u32),
        None => None,
    }
}

fn parse_v4(s: &str) -> (r: Option<u32>)
    ensures
        match r {
            Some(v) => read_v4(s@) == Some(v as nat),
            None => read_v4(s@) is None,
        },
{
    let parts = split_text(s, '.');
    assert(texts(parts@).len() == parts@.len());
    if parts.len() != 4 {
        return None;
    }
    assert(forall|i: int| 0 <= i < 4 ==> texts(parts@)[i] == (#[trigger] parts@[i])@);
    match (
        parse_octet(parts[0].as_str()),
        parse_octet(parts[1].as_str()),
        parse_octet(parts[2].as_str()),
        parse_octet(parts[3].as_str()),
    ) {
        (Some(a), Some(b), Some(c), Some(d)) => Some(((a * 256 + b) * 256 + c) * 256 + d),
        _ => None,
    }
}

/// The dotted text of an address.
pub fn render_v4(a: u32) -> (r: String)
    ensures
        r@ == v4_text(a as nat),
{
    let mut out = render_u64((a / 16777216) as u64);
    out.push('.');
    out.append(render_u64((a / 65536 % 256) as u64).as_str());
    out.push('.');
    out.append(render_u64((a / 256 % 256) as u64).as_str());
    out.push('.');
    out.append(render_u64((a % 256) as u64).as_str());
    assert(out@ =~= v4_text(a as nat));
    out
}

pub proof fn lemma_split_push(x: Seq<char>, y: Seq<char>, sep: char)
    requires
        !y.contains(sep),
    ensures
        split_on(x + seq![sep] + y, sep) == split_on(x, sep).push(y),
    decreases y.len(),
{
    let s = x + seq![sep] + y;
    if y.len() == 0 {
        assert(s.drop_last() =~= x);
        assert(y =~= Seq::empty());
    } else {
        let z = y.drop_last();
        assert(s.drop_last() =~= x + seq![sep] + z);
        assert(!z.contains(sep)) by {
            if z.contains(sep) {
                let j = choose|j: int| 0 <= j < z.len() && z[j] == sep;
                assert(y[j] == sep);
            }
        }
        lemma_split_push(x, z, sep);
        assert(y[y.len() - 1] == y.last());
        assert(s.last() == y.last());
        assert(z.push(y.last()) =~= y);
        assert(split_on(x, sep).push(z).drop_last() =~= split_on(x, sep));
    }
}

pub proof fn lemma_split_single(y: Seq<char>, sep: char)
    requires
        !y.contains(sep),
    ensures
        split_on(y, sep) == seq![y],
    decreases y.len(),
{
    if y.len() == 0 {
        assert(y =~= Seq::empty());
    } else {
        let z = y.drop_last();
        assert(!z.contains(sep)) by {
            if z.contains(sep) {
                let j = choose|j: int| 0 <= j < z.len() && z[j] == sep;
                assert(y[j] == sep);
            }
        }
        lemma_split_single(z, sep);
        assert(y[y.len() - 1] == y.last());
        assert(z.push(y.last()) =~= y);
        assert(seq![z].drop_last().push(y) =~= seq![y]);
    }
}

pub proof fn lemma_octet_text(n: nat)
    requires
        n <= 255,
    ensures
        octet(decimal(n)) == Some(n),
        !decimal(n).contains('.'),
        !decimal(n).contains('/'),
        !decimal(n).contains(':'),
{
    reveal_with_fuel(decimal, 4);
    reveal_with_fuel(digits_value, 4);
    let s = decimal(n);
    if n < 10 {
        assert(s.len() == 1 && s[0] == ('0' as int + n) as char);
        assert(s.drop_last() =~= Seq::empty());
    } else if n < 100 {
        let h = n / 10;
        assert(s.len() == 2 && s[0] == ('0' as int + h) as char && s[1] == ('0' as int + n % 10) as char);
        assert(s.drop_last() =~= decimal(h));
        assert(decimal(h).drop_last() =~= Seq::empty());
    } else {
        let t = n / 10;
        let h = n / 100;
        assert(t / 10 == h);
        assert(s.len() == 3 && s[0] == ('0' as int + h) as char && s[1] == ('0' as int + t % 10) as char && s[2] == (
        '0' as int + n % 10) as char);
        assert(s.drop_last() =~= decimal(t));
        assert(decimal(t).drop_last() =~= decimal(h));
        assert(decimal(h).drop_last() =~= Seq::empty());
    }
    assert(forall|i: int| 0 <= i < s.len() ==> is_digit(#[trigger] s[i]));
}

/// The bytes of an address make it up.
proof fn lemma_v4_bytes(n: nat)
    requires
        n <= u32::MAX,
    ensures
        n / 16777216 <= 255,
        ((n / 16777216 * 256 + n / 65536 % 256) * 256 + n / 256 % 256) * 256 + n % 256 == n,
{
}

proof fn lemma_v4_parts(p: Seq<char>, q: Seq<char>, u: Seq<char>, v: Seq<char>)
    requires
        !p.contains('.') && !q.contains('.') && !u.contains('.') && !v.contains('.'),
    ensures
        split_on(p + seq!['.'] + q + seq!['.'] + u + seq!['.'] + v, '.') == seq![p, q, u, v],
{
    lemma_split_single(p, '.');
    lemma_split_push(p, q, '.');
    lemma_split_push(p + seq!['.'] + q, u, '.');
    lemma_split_push(p + seq!['.'] + q + seq!['.'] + u, v, '.');
    assert(seq![p].push(q).push(u).push(v) =~= seq![p, q, u, v]);
}

proof fn lemma_joined_lacks(p: Seq<char>, q: Seq<char>, u: Seq<char>, v: Seq<char>, c: char)
    requires
        c != '.',
        !p.contains(c) && !q.contains(c) && !u.contains(c) && !v.contains(c),
    ensures
        !(p + seq!['.'] + q + seq!['.'] + u + seq!['.'] + v).contains(c),
{
    let s = p + seq!['.'] + q + seq!['.'] + u + seq!['.'] + v;
    if s.contains(c) {
        let j = choose|j: int| 0 <= j < s.len() && s[j] == c;
        let (a1, a2, a3) = (p.len() as int, p.len() + 1 + q.len(), p.len() + q.len() + u.len() + 2);
        if j < a1 {
            assert(p[j] == c);
        } else if a1 < j < a2 {
            assert(q[j - a1 - 1] == c);
        } else if a2 < j < a3 {
            assert(u[j - a2 - 1] == c);
        } else if a3 < j {
            assert(v[j - a3 - 1] == c);
        }
    }
}

/// Reading an address back from its dotted text gives the address.
pub proof fn law_v4_reads_back(a: u32)
    ensures
        read_v4(v4_text(a as nat)) == Some(a as nat),
        !v4_text(a as nat).contains('/'),
        v4_text(a as nat).len() > 0,
        is_digit(v4_text(a as nat)[0]),
        is_digit(v4_text(a as nat).last()),
{
    let n = a as nat;
    let p = decimal(n / 16777216);
    let q = decimal(n / 65536 % 256);
    let u = decimal(n / 256 % 256);
    let v = decimal(n % 256);
    lemma_v4_bytes(n);
    lemma_octet_text(n / 16777216);
    lemma_octet_text(n / 65536 % 256);
    lemma_octet_text(n / 256 % 256);
    lemma_octet_text(n % 256);
    lemma_v4_parts(p, q, u, v);
    lemma_joined_lacks(p, q, u, v, '/');
    let s = v4_text(n);
    assert(s == p + seq!['.'] + q + seq!['.'] + u + seq!['.'] + v);
    assert(p.len() > 0 && v.len() > 0);
    assert(s[0] == p[0]);
    assert(s.last() == v.last());
    crate::decimal::lemma_decimal_digits(n / 16777216);
    crate::decimal::lemma_decimal_digits(n % 256);
}

/// The number a hexadecimal digit of either case stands for.
pub open spec fn hex_value(c: char) -> Option<nat> {
    if '0' <= c <= '9' {
        Some((c as int - '0' as int) as nat)
    } else if 'a' <= c <= 'f' {
        Some((c as int - 'a' as int + 10) as nat)
    } else if 'A' <= c <= 'F' {
        Some((c as int - 'A' as int + 10) as nat)
    } else {
        None
    }
}

/// The number hexadecimal digits spell.
pub open spec fn hex_number(s: Seq<char>) -> Option<nat>
    decreases s.len(),
{
    if s.len() == 0 {
        Some(0)
    } else {
        match (hex_number(s.drop_last()), hex_value(s.last())) {
            (Some(n), Some(d)) => Some(n * 16 + d),
            _ => None,
        }
    }
}

/// The number that the text of one group of sixteen bits stands for: one to four
/// hexadecimal digits.
pub open spec fn read_group(s: Seq<char>) -> Option<nat> {
    if 1 <= s.len() <= 4 {
        hex_number(s)
    } else {
        None
    }
}

pub fn hex_digit_value(c: char) -> (r: Option<u32>)
    ensures
        match r {
            Some(v) => hex_value(c) == Some(v as nat) && v < 16,
            None => hex_value(c) is None,
        },
{
    if '0' <= c && c <= '9' {
        Some(c as u32 - 48)
    } else if 'a' <= c && c <= 'f' {
        Some(c as u32 - 97 + 10)
    } else if 'A' <= c && c <= 'F' {
        Some(c as u32 - 65 + 10)
    } else {
        None
    }
}

proof fn lemma_hex_prefix(s: Seq<char>, n: int)
    requires
        0 <= n <= s.len(),
        hex_number(s.take(n)) is None,
    ensures
        hex_number(s) is None,
    decreases s.len(),
{
    if n == s.len() {
        assert(s.take(n) =~= s);
    } else {
        assert(s.drop_last().take(n) =~= s.take(n));
        lemma_hex_prefix(s.drop_last(), n);
    }
}

fn parse_group(s: &str) -> (r: Option<u16>)
    ensures
        match r {
            Some(v) => read_group(s@) == Some(v as nat),
            None => read_group(s@) is None,
        },
{
    let chars = chars_of(s);
    let n = chars.len();
    if n < 1 || n > 4 {
        return None;
    }
    let ghost all = s@;
    let mut value: u32 = 0;
    let mut bound: u32 = 1;
    let mut i: usize = 0;
    assert(all.take(0) =~= Seq::empty());
    while i < n
        invariant
            i <= n <= 4,
            1 <= n == chars@.len(),
            chars@ == all,
            all == s@,
            hex_number(all.take(i as int)) == Some(value as nat),
            value < bound,
            i == 0 ==> bound == 1,
            i == 1 ==> bound == 16,
            i == 2 ==> bound == 256,
            i == 3 ==> bound == 4096,
            i == 4 ==> bound == 65536,
        decreases n - i,
    {
        proof {
            assert(all.take(i + 1).drop_last() =~= all.take(i as int));
            assert(all.take(i + 1).last() == all[i as int]);
        }
        match hex_digit_value(chars[i]) {
            Some(d) => {
                value = value * 16 + d;
                bound = bound * 16;
            },
            None => {
                proof {
                    lemma_hex_prefix(all, i + 1);
                }
                return None;
            },
        }
        i = i + 1;
    }
    assert(all.take(i as int) =~= all);
    Some(value as u16)
}

/// The groups of hexadecimal texts, each of one group.
pub open spec fn hex_groups(parts: Seq<Seq<char>>) -> Option<Seq<u16>>
    decreases parts.len(),
{
    if parts.len() == 0 {
        Some(Seq::empty())
    } else {
        match (hex_groups(parts.drop_last()), read_group(parts.last())) {
            (Some(g), Some(v)) => Some(g.push(v as u16)),
            _ => None,
        }
    }
}

/// The groups of a text of groups between colons. Where `dotted` holds, a dotted
/// text may stand for the last two.
pub open spec fn read_groups(s: Seq<char>, dotted: bool) -> Option<Seq<u16>> {
    if s.len() == 0 {
        Some(Seq::empty())
    } else {
        let parts = split_on(s, ':');
        match hex_groups(parts.drop_last()) {
            None => None,
            Some(front) => match read_group(parts.last()) {
                Some(v) => Some(front.push(v as u16)),
                None => match read_v4(parts.last()) {
                    Some(a) if dotted => Some(front.push((a / 65536) as u16).push((a % 65536) as u16)),
                    _ => None,
                },
            },
        }
    }
}

proof fn lemma_hex_groups_prefix(parts: Seq<Seq<char>>, n: int)
    requires
        0 <= n <= parts.len(),
        hex_groups(parts.take(n)) is None,
    ensures
        hex_groups(parts) is None,
    decreases parts.len(),
{
    if n == parts.len() {
        assert(parts.take(n) =~= parts);
    } else {
        assert(parts.drop_last().take(n) =~= parts.take(n));
        lemma_hex_groups_prefix(parts.drop_last(), n);
    }
}

fn parse_groups(s: &str, dotted: bool) -> (r: Option<Vec<u16>>)
    ensures
        match r {
            Some(v) => read_groups(s@, dotted) == Some(v@),
            None => read_groups(s@, dotted) is None,
        },
{
    let mut out: Vec<u16> = Vec::new();
    if s.is_empty() {
        assert(out@ =~= Seq::empty());
        return Some(out);
    }
    let parts = split_text(s, ':');
    let ghost all = texts(parts@);
    let ghost front = all.drop_last();
    let last = parts.len() - 1;
    let mut i: usize = 0;
    assert(front.take(0) =~= Seq::empty());
    assert(out@ =~= Seq::empty());
    while i < last
        invariant
            i <= last,
            last == parts@.len() - 1,
            all == texts(parts@),
            front == all.drop_last(),
            all == split_on(s@, ':'),
            s@.len() > 0,
            hex_groups(front.take(i as int)) == Some(out@),
        decreases last - i,
    {
        proof {
            assert(front.take(i + 1).drop_last() =~= front.take(i as int));
            assert(front.take(i + 1).last() == parts@[i as int]@);
        }
        match parse_group(parts[i].as_str()) {
            Some(v) => {
                out.push(v);
            },
            None => {
                proof {
                    lemma_hex_groups_prefix(front, i + 1);
                }
                return None;
            },
        }
        i = i + 1;
    }
    assert(front.take(i as int) =~= front);
    assert(all.last() == parts@[last as int]@);
    match parse_group(parts[last].as_str()) {
        Some(v) => {
            out.push(v);
            Some(out)
        },
        None => {
            if !dotted {
                return None;
            }
            match parse_v4(parts[last].as_str()) {
                Some(a) => {
                    out.push((a / 65536) as u16);
                    out.push((a % 65536) as u16);
                    Some(out)
                },
                None => None,
            }
        },
    }
}

/// What stands before and after the first two colons in a row.
pub open spec fn halves_at_gap(s: Seq<char>) -> Option<(Seq<char>, Seq<char>)>
    decreases s.len(),
{
    if s.len() < 2 {
        None
    } else if s[0] == ':' && s[1] == ':' {
        Some((Seq::empty(), s.skip(2)))
    } else {
        match halves_at_gap(s.drop_first()) {
            Some((a, b)) => Some((seq![s[0]] + a, b)),
            None => None,
        }
    }
}

pub proof fn lemma_gap(s: Seq<char>, at: int)
    requires
        0 <= at,
        at + 1 < s.len(),
        s[at] == ':' && s[at + 1] == ':',
        forall|j: int| 0 <= j < at ==> !(#[trigger] s[j] == ':' && s[j + 1] == ':'),
    ensures
        halves_at_gap(s) == Some((s.take(at), s.skip(at + 2))),
    decreases s.len(),
{
    if at == 0 {
        assert(s.take(0) =~= Seq::empty());
    } else {
        let t = s.drop_first();
        assert(!(s[0] == ':' && s[1] == ':'));
        assert forall|j: int| 0 <= j < at - 1 implies !(#[trigger] t[j] == ':' && t[j + 1] == ':') by {
            assert(!(s[j + 1] == ':' && s[j + 1 + 1] == ':'));
        }
        lemma_gap(t, at - 1);
        assert(seq![s[0]] + t.take(at - 1) =~= s.take(at));
        assert(t.skip(at + 1) =~= s.skip(at + 2));
    }
}

pub proof fn lemma_no_gap(s: Seq<char>)
    requires
        forall|j: int| 0 <= j < s.len() - 1 ==> !(#[trigger] s[j] == ':' && s[j + 1] == ':'),
    ensures
        halves_at_gap(s) is None,
    decreases s.len(),
{
    if s.len() >= 2 {
        let t = s.drop_first();
        assert(!(s[0] == ':' && s[1] == ':'));
        assert forall|j: int| 0 <= j < t.len() - 1 implies !(#[trigger] t[j] == ':' && t[j + 1] == ':') by {
            assert(!(s[j + 1] == ':' && s[j + 1 + 1] == ':'));
        }
        lemma_no_gap(t);
    }
}

fn split_gap(s: &str) -> (r: Option<(String, String)>)
    ensures
        match r {
            Some((a, b)) => halves_at_gap(s@) == Some((a@, b@)),
            None => halves_at_gap(s@) is None,
        },
{
    let chars = chars_of(s);
    let n = chars.len();
    let mut at: usize = 0;
    while at < n && n - at >= 2 && !(chars[at] == ':' && chars[at + 1] == ':')
        invariant
            at <= n == chars@.len(),
            forall|j: int| 0 <= j < at ==> !(#[trigger] chars@[j] == ':' && chars@[j + 1] == ':'),
        decreases n - at,
    {
        at = at + 1;
    }
    if n - at < 2 {
        proof {
            assert forall|j: int| 0 <= j < s@.len() - 1 implies !(#[trigger] s@[j] == ':' && s@[j + 1] == ':') by {
                assert(s@[j] == chars@[j]);
            }
            lemma_no_gap(s@);
        }
        return None;
    }
    let a = string_of(&chars, 0, at);
    let b = string_of(&chars, at + 2, n);
    proof {
        assert forall|j: int| 0 <= j < at implies !(#[trigger] s@[j] == ':' && s@[j + 1] == ':') by {
            assert(s@[j] == chars@[j]);
        }
        lemma_gap(s@, at as int);
        assert(a@ =~= s@.take(at as int));
        assert(b@ =~= s@.skip(at + 2));
    }
    Some((a, b))
}

/// `n` groups of zero bits.
pub open spec fn zero_groups(n: int) -> Seq<u16> {
    Seq::new(n as nat, |i: int| 0u16)
}

/// The eight groups that a text stands for. Two colons in a row stand for one or
/// more groups of zero bits.
pub open spec fn read_v6(s: Seq<char>) -> Option<Seq<u16>> {
    match halves_at_gap(s) {
        Some((h, t)) => match (read_groups(h, false), read_groups(t, true)) {
            (Some(head), Some(tail)) => if head.len() + tail.len() <= 7 {
                Some(head + zero_groups(8 - head.len() - tail.len()) + tail)
            } else {
                None
            },
            _ => None,
        },
        None => match read_groups(s, true) {
            Some(g) if g.len() == 8 => Some(g),
            _ => None,
        },
    }
}

/// The number that groups of sixteen bits make, the highest first.
pub open spec fn groups_value(g: Seq<u16>) -> nat
    decreases g.len(),
{
    if g.len() == 0 {
        0
    } else {
        groups_value(g.drop_last()) * 65536 + g.last() as nat
    }
}

/// The number of values that `n` groups of sixteen bits have.
pub open spec fn group_span(n: nat) -> nat
    decreases n,
{
    if n == 0 {
        1
    } else {
        group_span((n - 1) as nat) * 65536
    }
}

proof fn lemma_group_span()
    ensures
        group_span(8) == 0x1_0000_0000_0000_0000_0000_0000_0000_0000,
        forall|n: nat| n <= 8 ==> #[trigger] group_span(n) <= 0x1_0000_0000_0000_0000_0000_0000_0000_0000,
{
    reveal_with_fuel(group_span, 9);
    assert forall|n: nat| n <= 8 implies #[trigger] group_span(n)
        <= 0x1_0000_0000_0000_0000_0000_0000_0000_0000 by {
        if n == 0 {
        } else if n == 1 {
        } else if n == 2 {
        } else if n == 3 {
        } else if n == 4 {
        } else if n == 5 {
        } else if n == 6 {
        } else if n == 7 {
        }
    }
}

proof fn lemma_groups_bound(g: Seq<u16>)
    ensures
        groups_value(g) < group_span(g.len()),
    decreases g.len(),
{
    if g.len() > 0 {
        lemma_groups_bound(g.drop_last());
    }
}

fn groups_number(g: &Vec<u16>) -> (r: u128)
    requires
        g@.len() == 8,
    ensures
        r as nat == groups_value(g@),
{
    let mut value: u128 = 0;
    let mut i: usize = 0;
    assert(g@.take(0) =~= Seq::empty());
    while i < 8
        invariant
            i <= 8,
            g@.len() == 8,
            value as nat == groups_value(g@.take(i as int)),
        decreases 8 - i,
    {
        proof {
            assert(g@.take(i + 1).drop_last() =~= g@.take(i as int));
            assert(g@.take(i + 1).last() == g@[i as int]);
            lemma_groups_bound(g@.take(i + 1));
            lemma_group_span();
        }
        value = value * 65536 + g[i] as u128;
        i = i + 1;
    }
    assert(g@.take(8) =~= g@);
    value
}

fn parse_v6(s: &str) -> (r: Option<u128>)
    ensures
        match r {
            Some(v) => read_v6(s@) matches Some(g) && g.len() == 8 && groups_value(g) == v as nat,
            None => read_v6(s@) is None,
        },
{
    match split_gap(s) {
        Some((h, t)) => match (parse_groups(h.as_str(), false), parse_groups(t.as_str(), true)) {
            (Some(head), Some(tail)) => {
                let n = head.len();
                let m = tail.len();
                if n > 7 || m > 7 || n + m > 7 {
                    return None;
                }
                let mut g: Vec<u16> = head;
                let ghost front = g@;
                while g.len() < 8 - m
                    invariant
                        m <= 7,
                        front.len() <= g@.len() <= 8 - m,
                        g@ =~= front + zero_groups(g@.len() - front.len()),
                    decreases 8 - g@.len(),
                {
                    g.push(0);
                }
                let ghost filled = g@;
                let mut i: usize = 0;
                while i < m
                    invariant
                        i <= m,
                        m == tail@.len(),
                        m <= 7,
                        filled.len() == 8 - m,
                        g@ =~= filled + tail@.take(i as int),
                    decreases m - i,
                {
                    g.push(tail[i]);
                    i = i + 1;
                }
                assert(tail@.take(m as int) =~= tail@);
                Some(groups_number(&g))
            },
            _ => None,
        },
        None => match parse_groups(s, true) {
            Some(g) => if g.len() == 8 {
                Some(groups_number(&g))
            } else {
                None
            },
            None => None,
        },
    }
}

/// The address that a text stands for.
pub open spec fn read_ip(s: Seq<char>) -> Option<IpAddr> {
    match read_v4(s) {
        Some(a) => Some(IpAddr::V4(a as u32)),
        None => match read_v6(s) {
            Some(g) => Some(IpAddr::V6(groups_value(g) as u128)),
            None => None,
        },
    }
}

pub open spec fn bad_address(value: Seq<char>) -> Seq<char> {
    "invalid IP address "@ + value
}

pub open spec fn invalid_input(message: Seq<char>) -> ErrorView {
    failure(ErrorCode::Invalid, message)
}

/// The address that `value` spells.
pub fn parse_ip(value: &str) -> (r: Result<IpAddr, EngineError>)
    ensures
        match r {
            Ok(a) => read_ip(value@) == Some(a),
            Err(e) => read_ip(value@) is None && e@ == invalid_input(bad_address(value@)),
        },
{
    match parse_v4(value) {
        Some(a) => Ok(IpAddr::V4(a)),
        None => match parse_v6(value) {
            Some(a) => Ok(IpAddr::V6(a)),
            None => Err(EngineError::invalid(cat2("invalid IP address ", value))),
        },
    }
}

/// The hexadecimal digits of `n`, without leading zeros.
pub open spec fn hex_of(n: nat) -> Seq<char>
    decreases n,
{
    if n < 16 {
        seq![hex_digit(n as int)]
    } else {
        hex_of(n / 16).push(hex_digit((n % 16) as int))
    }
}

fn hex_char(n: u16) -> (r: char)
    requires
        n < 16,
    ensures
        r == hex_digit(n as int),
{
    if n < 10 {
        (48u8 + n as u8) as char
    } else {
        (97u8 + (n as u8 - 10u8)) as char
    }
}

fn render_hex(n: u16) -> (r: String)
    ensures
        r@ == hex_of(n as nat),
    decreases n,
{
    if n < 16 {
        let mut out = String::new();
        out.push(hex_char(n));
        out
    } else {
        let mut out = render_hex(n / 16);
        out.push(hex_char(n % 16));
        out
    }
}

/// Groups between colons.
pub open spec fn groups_text(g: Seq<u16>) -> Seq<char>
    decreases g.len(),
{
    if g.len() == 0 {
        Seq::empty()
    } else if g.len() == 1 {
        hex_of(g[0] as nat)
    } else {
        groups_text(g.drop_last()) + seq![':'] + hex_of(g.last() as nat)
    }
}

fn render_groups(g: &Vec<u16>, from: usize, to: usize) -> (r: String)
    requires
        from <= to <= g@.len(),
    ensures
        r@ == groups_text(g@.subrange(from as int, to as int)),
    decreases to - from,
{
    let ghost part = g@.subrange(from as int, to as int);
    if from == to {
        let out = String::new();
        assert(out@ =~= Seq::empty());
        out
    } else if to - from == 1 {
        render_hex(g[from])
    } else {
        let mut out = render_groups(g, from, to - 1);
        assert(part.drop_last() =~= g@.subrange(from as int, to - 1));
        out.push(':');
        out.append(render_hex(g[to - 1]).as_str());
        assert(out@ =~= groups_text(part));
        out
    }
}

/// How many groups of zero bits stand from `i` on.
pub open spec fn zeros_from(g: Seq<u16>, i: int) -> nat
    decreases g.len() - i,
{
    if 0 <= i < g.len() && g[i] == 0 {
        1 + zeros_from(g, i + 1)
    } else {
        0
    }
}

/// Where, before `n`, the longest run of groups of zero bits starts: the first of
/// those of one length.
pub open spec fn longest_run(g: Seq<u16>, n: nat) -> nat
    decreases n,
{
    if n <= 1 {
        0
    } else {
        let best = longest_run(g, (n - 1) as nat);
        if zeros_from(g, n - 1) > zeros_from(g, best as int) {
            (n - 1) as nat
        } else {
            best
        }
    }
}

fn count_zeros(g: &Vec<u16>, i: usize) -> (r: usize)
    requires
        i <= g@.len(),
    ensures
        r == zeros_from(g@, i as int),
        i + r <= g@.len(),
    decreases g@.len() - i,
{
    if i < g.len() && g[i] == 0 {
        1 + count_zeros(g, i + 1)
    } else {
        0
    }
}

/// The eight groups of an address, the highest first.
pub open spec fn groups_of(a: nat) -> Seq<u16> {
    Seq::new(8, |i: int| (a / group_span((7 - i) as nat) % 65536) as u16)
}

/// The text of an address: a mapped one ends in a dotted text, of another the
/// first of its longest runs of at least two groups of zero bits is left out.
pub open spec fn v6_text(a: nat) -> Seq<char> {
    let g = groups_of(a);
    let start = longest_run(g, 8);
    let run = zeros_from(g, start as int);
    if a / 0x1_0000_0000 == 0xffff {
        "::ffff:"@ + v4_text(a % 0x1_0000_0000)
    } else if run > 1 {
        groups_text(g.take(start as int)) + "::"@ + groups_text(g.skip((start + run) as int))
    } else {
        groups_text(g)
    }
}

fn split_groups(a: u128) -> (r: Vec<u16>)
    ensures
        r@ == groups_of(a as nat),
{
    proof {
        reveal_with_fuel(group_span, 9);
        assert(group_span(0) == 1);
        assert(group_span(1) == 0x1_0000);
        assert(group_span(2) == 0x1_0000_0000);
        assert(group_span(3) == 0x1_0000_0000_0000);
        assert(group_span(4) == 0x1_0000_0000_0000_0000);
        assert(group_span(5) == 0x1_0000_0000_0000_0000_0000);
        assert(group_span(6) == 0x1_0000_0000_0000_0000_0000_0000);
        assert(group_span(7) == 0x1_0000_0000_0000_0000_0000_0000_0000);
    }
    let mut g: Vec<u16> = Vec::new();
    g.push((a / 0x1_0000_0000_0000_0000_0000_0000_0000 % 65536) as u16);
    g.push((a / 0x1_0000_0000_0000_0000_0000_0000 % 65536) as u16);
    g.push((a / 0x1_0000_0000_0000_0000_0000 % 65536) as u16);
    g.push((a / 0x1_0000_0000_0000_0000 % 65536) as u16);
    g.push((a / 0x1_0000_0000_0000 % 65536) as u16);
    g.push((a / 0x1_0000_0000 % 65536) as u16);
    g.push((a / 0x1_0000 % 65536) as u16);
    g.push((a % 65536) as u16);
    proof {
        let e = groups_of(a as nat);
        assert(e[0] == (a as nat / group_span(7) % 65536) as u16);
        assert(g@[0] == e[0]);
        assert(e[1] == (a as nat / group_span(6) % 65536) as u16);
        assert(g@[1] == e[1]);
        assert(e[2] == (a as nat / group_span(5) % 65536) as u16);
        assert(g@[2] == e[2]);
        assert(e[3] == (a as nat / group_span(4) % 65536) as u16);
        assert(g@[3] == e[3]);
        assert(e[4] == (a as nat / group_span(3) % 65536) as u16);
        assert(g@[4] == e[4]);
        assert(e[5] == (a as nat / group_span(2) % 65536) as u16);
        assert(g@[5] == e[5]);
        assert(e[6] == (a as nat / group_span(1) % 65536) as u16);
        assert(g@[6] == e[6]);
        assert(e[7] == (a as nat / group_span(0) % 65536) as u16);
        assert(g@[7] == e[7]);
        assert(g@ =~= e);
    }
    g
}

/// The text of an address.
pub fn render_v6(a: u128) -> (r: String)
    ensures
        r@ == v6_text(a as nat),
{
    if a / 0x1_0000_0000 == 0xffff {
        let tail = render_v4((a % 0x1_0000_0000) as u32);
        return cat2("::ffff:", tail.as_str());
    }
    let g = split_groups(a);
    let mut start: usize = 0;
    let mut run = count_zeros(&g, 0);
    let mut n: usize = 1;
    while n < 8
        invariant
            1 <= n <= 8,
            g@.len() == 8,
            start == longest_run(g@, n as nat),
            run == zeros_from(g@, start as int),
            start + run <= 8,
        decreases 8 - n,
    {
        let count = count_zeros(&g, n);
        if count > run {
            start = n;
            run = count;
        }
        n = n + 1;
    }
    if run > 1 {
        let head = render_groups(&g, 0, start);
        let tail = render_groups(&g, start + run, 8);
        assert(g@.subrange(0, start as int) =~= g@.take(start as int));
        assert(g@.subrange(start + run, 8) =~= g@.skip((start + run) as int));
        cat3(head.as_str(), "::", tail.as_str())
    } else {
        assert(g@.subrange(0, 8) =~= g@);
        render_groups(&g, 0, 8)
    }
}

} // verus!
