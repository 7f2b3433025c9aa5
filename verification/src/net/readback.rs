//! Addresses of sixteen bytes, and blocks of them, read back from their texts.
use super::addr::{
    group_span, groups_of, groups_text, groups_value, hex_groups, hex_number, hex_of, hex_value,
    law_v4_reads_back, lemma_gap, lemma_no_gap, lemma_octet_text, lemma_split_push, lemma_split_single, longest_run,
    octet, read_group, read_groups, read_ip, read_v4, read_v6, v4_text, v6_text, zero_groups, zeros_from, IpAddr,
};
use super::cidr::{block_of, read_cidr, CidrNet};
use crate::decimal::{decimal, is_digit, law_decimal_reads_back, lemma_decimal_digits};
use crate::outside::{hex_digit, is_lower_hex};
use crate::split::{lemma_first_halves, split_on};
use crate::text::{is_space, trimmed};
use vstd::arithmetic::div_mod::{lemma_div_denominator, lemma_fundamental_div_mod};
use vstd::prelude::*;

verus! {

proof fn lemma_hex_digit(n: int)
    requires
        0 <= n < 16,
    ensures
        hex_value(hex_digit(n)) == Some(n as nat),
        is_lower_hex(hex_digit(n)),
{
}

proof fn lemma_hex_number(n: nat)
    ensures
        hex_number(hex_of(n)) == Some(n),
        hex_of(n).len() > 0,
        forall|i: int| 0 <= i < hex_of(n).len() ==> is_lower_hex(#[trigger] hex_of(n)[i]),
    decreases n,
{
    let s = hex_of(n);
    if n < 16 {
        lemma_hex_digit(n as int);
        assert(s.drop_last() =~= Seq::empty());
        assert(hex_number(s.drop_last()) == Some(0nat));
        assert(s.last() == hex_digit(n as int));
    } else {
        lemma_hex_number(n / 16);
        lemma_hex_digit((n % 16) as int);
        assert(s.drop_last() =~= hex_of(n / 16));
        assert(s.last() == hex_digit((n % 16) as int));
        assert forall|i: int| 0 <= i < s.len() implies is_lower_hex(#[trigger] s[i]) by {
            if i < s.len() - 1 {
                assert(s[i] == hex_of(n / 16)[i]);
            }
        }
    }
}

/// The text of one group reads back as the group.
proof fn lemma_group(v: u16)
    ensures
        read_group(hex_of(v as nat)) == Some(v as nat),
        hex_of(v as nat).len() > 0,
        forall|i: int| 0 <= i < hex_of(v as nat).len() ==> is_lower_hex(#[trigger] hex_of(v as nat)[i]),
        !hex_of(v as nat).contains(':'),
{
    let n = v as nat;
    lemma_hex_number(n);
    reveal_with_fuel(hex_of, 5);
    assert(hex_of(n).len() <= 4);
    if hex_of(n).contains(':') {
        let j = choose|j: int| 0 <= j < hex_of(n).len() && hex_of(n)[j] == ':';
        assert(is_lower_hex(hex_of(n)[j]));
    }
}

spec fn group_texts(g: Seq<u16>) -> Seq<Seq<char>> {
    Seq::new(g.len(), |i: int| hex_of(g[i] as nat))
}

proof fn lemma_hex_groups(g: Seq<u16>)
    ensures
        hex_groups(group_texts(g)) == Some(g),
    decreases g.len(),
{
    if g.len() == 0 {
        assert(g =~= Seq::empty());
    } else {
        lemma_hex_groups(g.drop_last());
        lemma_group(g.last());
        assert(group_texts(g).drop_last() =~= group_texts(g.drop_last()));
        assert(group_texts(g).last() == hex_of(g.last() as nat));
        assert(g.drop_last().push(g.last()) =~= g);
    }
}

/// Whether a text holds lower-case hexadecimal digits and single colons only, and
/// neither begins nor ends with a colon.
spec fn grouped(s: Seq<char>) -> bool {
    &&& s.len() > 0
    &&& is_lower_hex(s[0])
    &&& is_lower_hex(s.last())
    &&& forall|i: int| 0 <= i < s.len() ==> is_lower_hex(#[trigger] s[i]) || s[i] == ':'
    &&& forall|j: int| 0 <= j < s.len() - 1 ==> !(#[trigger] s[j] == ':' && s[j + 1] == ':')
}

proof fn lemma_groups_text(g: Seq<u16>)
    requires
        g.len() > 0,
    ensures
        split_on(groups_text(g), ':') == group_texts(g),
        grouped(groups_text(g)),
        g.len() > 1 ==> groups_text(g).contains(':'),
    decreases g.len(),
{
    let s = groups_text(g);
    let last = hex_of(g.last() as nat);
    lemma_group(g.last());
    if g.len() == 1 {
        assert(s == last);
        lemma_split_single(last, ':');
        assert(group_texts(g) =~= seq![last]);
        assert(is_lower_hex(s[0]));
        assert(is_lower_hex(s[s.len() - 1]));
        assert forall|j: int| 0 <= j < s.len() - 1 implies !(#[trigger] s[j] == ':' && s[j + 1] == ':') by {
            assert(is_lower_hex(s[j]));
        }
    } else {
        let front = groups_text(g.drop_last());
        lemma_groups_text(g.drop_last());
        lemma_split_push(front, last, ':');
        assert(s == front + seq![':'] + last);
        assert(group_texts(g.drop_last()).push(last) =~= group_texts(g));
        assert(s[front.len() as int] == ':');
        assert(s[0] == front[0]);
        assert(s.last() == last[last.len() - 1]);
        assert forall|i: int| 0 <= i < s.len() implies is_lower_hex(#[trigger] s[i]) || s[i] == ':' by {
            if i < front.len() {
                assert(s[i] == front[i]);
            } else if i > front.len() {
                assert(s[i] == last[i - front.len() - 1]);
            }
        }
        assert forall|j: int| 0 <= j < s.len() - 1 implies !(#[trigger] s[j] == ':' && s[j + 1] == ':') by {
            if j < front.len() - 1 {
                assert(s[j] == front[j]);
                assert(s[j + 1] == front[j + 1]);
            } else if j == front.len() - 1 {
                assert(s[j] == front.last());
            } else if j == front.len() {
                assert(s[j + 1] == last[0]);
            } else {
                assert(s[j] == last[j - front.len() - 1]);
            }
        }
    }
}

/// Groups between colons read back as the groups.
proof fn lemma_read_groups(g: Seq<u16>, dotted: bool)
    ensures
        read_groups(groups_text(g), dotted) == Some(g),
{
    if g.len() == 0 {
        assert(g =~= Seq::empty());
    } else {
        lemma_groups_text(g);
        lemma_hex_groups(g.drop_last());
        lemma_group(g.last());
        let parts = split_on(groups_text(g), ':');
        assert(parts.drop_last() =~= group_texts(g.drop_last()));
        assert(parts.last() == hex_of(g.last() as nat));
        assert(g.drop_last().push(g.last()) =~= g);
    }
}

proof fn lemma_zeros_from(g: Seq<u16>, i: int)
    requires
        0 <= i <= g.len(),
    ensures
        i + zeros_from(g, i) <= g.len(),
        forall|j: int| i <= j < i + zeros_from(g, i) ==> #[trigger] g[j] == 0,
    decreases g.len() - i,
{
    if i < g.len() && g[i] == 0 {
        lemma_zeros_from(g, i + 1);
    }
}

proof fn lemma_longest_run(g: Seq<u16>, n: nat)
    ensures
        longest_run(g, n) <= n,
    decreases n,
{
    if n > 1 {
        lemma_longest_run(g, (n - 1) as nat);
    }
}

/// A text with a run of groups left out reads back as the groups.
proof fn lemma_gapped(g: Seq<u16>, start: nat, run: nat)
    requires
        g.len() == 8,
        start + run <= 8,
        run > 1,
        forall|j: int| start <= j < start + run ==> #[trigger] g[j] == 0,
    ensures
        read_v6(groups_text(g.take(start as int)) + "::"@ + groups_text(g.skip((start + run) as int))) == Some(g),
{
    let head = g.take(start as int);
    let tail = g.skip((start + run) as int);
    let h = groups_text(head);
    let t = groups_text(tail);
    reveal_strlit("::");
    let s = h + "::"@ + t;
    let at = h.len() as int;
    if head.len() > 0 {
        lemma_groups_text(head);
    }
    assert(s[at] == ':' && s[at + 1] == ':');
    assert forall|j: int| 0 <= j < at implies !(#[trigger] s[j] == ':' && s[j + 1] == ':') by {
        if j < at - 1 {
            assert(s[j] == h[j]);
            assert(s[j + 1] == h[j + 1]);
        } else {
            assert(s[j] == h.last());
        }
    }
    lemma_gap(s, at);
    assert(s.take(at) =~= h);
    assert(s.skip(at + 2) =~= t);
    lemma_read_groups(head, false);
    lemma_read_groups(tail, true);
    assert(head + zero_groups(8 - head.len() - tail.len()) + tail =~= g);
}

/// What a dotted text is made of.
proof fn lemma_v4_text(a: u32)
    ensures
        v4_text(a as nat).len() >= 7,
        !v4_text(a as nat).contains(':'),
{
    let n = a as nat;
    let p = decimal(n / 16777216);
    let q = decimal(n / 65536 % 256);
    let u = decimal(n / 256 % 256);
    let v = decimal(n % 256);
    lemma_octet_text(n / 16777216);
    lemma_octet_text(n / 65536 % 256);
    lemma_octet_text(n / 256 % 256);
    lemma_octet_text(n % 256);
    let s = v4_text(n);
    if s.contains(':') {
        let j = choose|j: int| 0 <= j < s.len() && s[j] == ':';
        let (a1, a2, a3) = (p.len() as int, p.len() + 1 + q.len(), p.len() + q.len() + u.len() + 2);
        if j < a1 {
            assert(p[j] == ':');
        } else if a1 < j < a2 {
            assert(q[j - a1 - 1] == ':');
        } else if a2 < j < a3 {
            assert(u[j - a2 - 1] == ':');
        } else if a3 < j {
            assert(v[j - a3 - 1] == ':');
        }
    }
}

proof fn lemma_spans()
    ensures
        group_span(0) == 1,
        group_span(1) == 0x1_0000,
        group_span(2) == 0x1_0000_0000,
        group_span(3) == 0x1_0000_0000_0000,
        group_span(4) == 0x1_0000_0000_0000_0000,
        group_span(5) == 0x1_0000_0000_0000_0000_0000,
        group_span(6) == 0x1_0000_0000_0000_0000_0000_0000,
        group_span(7) == 0x1_0000_0000_0000_0000_0000_0000_0000,
        group_span(8) == 0x1_0000_0000_0000_0000_0000_0000_0000_0000,
{
    reveal_with_fuel(group_span, 9);
}

proof fn lemma_mapped_groups(a: nat)
    requires
        a / 0x1_0000_0000 == 0xffff,
    ensures
        groups_of(a) == seq![
            0u16,
            0u16,
            0u16,
            0u16,
            0u16,
            0xffffu16,
            (a % 0x1_0000_0000 / 65536) as u16,
            (a % 0x1_0000_0000 % 65536) as u16,
        ],
{
    lemma_spans();
    let g = groups_of(a);
    assert(g[0] == (a / group_span(7) % 65536) as u16);
    assert(g[1] == (a / group_span(6) % 65536) as u16);
    assert(g[2] == (a / group_span(5) % 65536) as u16);
    assert(g[3] == (a / group_span(4) % 65536) as u16);
    assert(g[4] == (a / group_span(3) % 65536) as u16);
    assert(g[5] == (a / group_span(2) % 65536) as u16);
    assert(g[6] == (a / group_span(1) % 65536) as u16);
    assert(g[7] == (a / group_span(0) % 65536) as u16);
    assert(g =~= seq![
        0u16,
        0u16,
        0u16,
        0u16,
        0u16,
        0xffffu16,
        (a % 0x1_0000_0000 / 65536) as u16,
        (a % 0x1_0000_0000 % 65536) as u16,
    ]);
}

/// The group that marks a mapped address.
proof fn lemma_marker_group()
    ensures
        hex_groups(seq![seq!['f', 'f', 'f', 'f']]) == Some(seq![0xffffu16]),
{
    let marker = seq!['f', 'f', 'f', 'f'];
    reveal_with_fuel(hex_number, 5);
    assert(marker.drop_last() =~= seq!['f', 'f', 'f']);
    assert(marker.drop_last().drop_last() =~= seq!['f', 'f']);
    assert(marker.drop_last().drop_last().drop_last() =~= seq!['f']);
    assert(marker.drop_last().drop_last().drop_last().drop_last() =~= Seq::empty());
    assert(read_group(marker) == Some(0xffffnat));
    assert(seq![marker].drop_last() =~= Seq::empty());
    assert(hex_groups(seq![marker].drop_last()) == Some(Seq::<u16>::empty()));
    assert(Seq::<u16>::empty().push(0xffffu16) =~= seq![0xffffu16]);
}

/// The text of a mapped address reads back as its groups.
proof fn lemma_mapped(a: nat)
    requires
        a / 0x1_0000_0000 == 0xffff,
    ensures
        read_v6("::ffff:"@ + v4_text(a % 0x1_0000_0000)) == Some(groups_of(a)),
{
    let low = (a % 0x1_0000_0000) as u32;
    let dotted = v4_text(low as nat);
    reveal_strlit("::ffff:");
    let s = "::ffff:"@ + dotted;
    let marker = seq!['f', 'f', 'f', 'f'];
    law_v4_reads_back(low);
    lemma_v4_text(low);
    assert(s[0] == ':' && s[1] == ':');
    lemma_gap(s, 0);
    assert(s.take(0) =~= Seq::empty());
    let rest = s.skip(2);
    assert(rest =~= marker + seq![':'] + dotted);
    assert(!marker.contains(':'));
    assert(split_on(rest, ':') == seq![marker, dotted]) by {
        lemma_split_single(marker, ':');
        lemma_split_push(marker, dotted, ':');
        assert(seq![marker].push(dotted) =~= seq![marker, dotted]);
    }
    let parts = split_on(rest, ':');
    assert(parts.drop_last() =~= seq![marker]);
    lemma_marker_group();
    assert(read_group(dotted) is None);
    let tail = seq![0xffffu16, (low as nat / 65536) as u16, (low as nat % 65536) as u16];
    assert(seq![0xffffu16].push((low as nat / 65536) as u16).push((low as nat % 65536) as u16) =~= tail);
    assert(read_groups(rest, true) == Some(tail));
    assert(read_groups(Seq::<char>::empty(), false) == Some(Seq::<u16>::empty()));
    lemma_mapped_groups(a);
    assert(Seq::<u16>::empty() + zero_groups(5) + tail =~= groups_of(a));
}

proof fn lemma_span_positive(n: nat)
    ensures
        group_span(n) > 0,
    decreases n,
{
    if n > 0 {
        lemma_span_positive((n - 1) as nat);
    }
}

proof fn lemma_groups_prefix(a: nat, n: nat)
    requires
        n <= 8,
        a < group_span(8),
    ensures
        groups_value(groups_of(a).take(n as int)) == a / group_span((8 - n) as nat),
    decreases n,
{
    lemma_span_positive((8 - n) as nat);
    if n == 0 {
        assert(groups_of(a).take(0) =~= Seq::empty());
        assert(a / group_span(8) == 0) by (nonlinear_arith)
            requires
                a < group_span(8),
        ;
    } else {
        lemma_groups_prefix(a, (n - 1) as nat);
        let g = groups_of(a).take(n as int);
        let span = group_span((8 - n) as nat);
        assert(g.drop_last() =~= groups_of(a).take(n - 1));
        assert(g.last() == (a / span % 65536) as u16);
        assert(group_span((8 - n + 1) as nat) == span * 65536);
        lemma_div_denominator(a as int, span as int, 65536);
        lemma_fundamental_div_mod((a / span) as int, 65536);
        assert(a / span == a / (span * 65536) * 65536 + a / span % 65536);
    }
}

/// The groups of an address make the address.
proof fn lemma_groups_value(a: u128)
    ensures
        groups_value(groups_of(a as nat)) == a,
{
    lemma_spans();
    lemma_groups_prefix(a as nat, 8);
    assert(groups_of(a as nat).take(8) =~= groups_of(a as nat));
    assert(group_span((8 - 8) as nat) == 1);
    assert(a as nat / 1 == a as nat);
}

proof fn lemma_split_keeps(s: Seq<char>, sep: char, c: char)
    requires
        s.contains(c),
        c != sep,
    ensures
        exists|i: int| 0 <= i < split_on(s, sep).len() && (#[trigger] split_on(s, sep)[i]).contains(c),
    decreases s.len(),
{
    let rest = split_on(s.drop_last(), sep);
    let parts = split_on(s, sep);
    lemma_split_some(s.drop_last(), sep);
    if s.last() == c {
        let part = parts[parts.len() - 1];
        assert(part[part.len() - 1] == c);
        assert(part.contains(c));
    } else {
        let j = choose|j: int| 0 <= j < s.len() && s[j] == c;
        assert(s.drop_last()[j] == c);
        lemma_split_keeps(s.drop_last(), sep, c);
        let i = choose|i: int| 0 <= i < rest.len() && (#[trigger] rest[i]).contains(c);
        if s.last() == sep || i < rest.len() - 1 {
            assert(parts[i] == rest[i]);
        } else {
            let k = choose|k: int| 0 <= k < rest[i].len() && rest[i][k] == c;
            assert(parts[i] == rest[i].push(s.last()));
            assert(parts[i][k] == c);
        }
        assert(parts[i].contains(c));
    }
}

proof fn lemma_split_some(s: Seq<char>, sep: char)
    ensures
        split_on(s, sep).len() > 0,
    decreases s.len(),
{
    if s.len() > 0 {
        lemma_split_some(s.drop_last(), sep);
    }
}

/// A text with a colon is no dotted text.
proof fn lemma_colon_is_not_dotted(s: Seq<char>)
    requires
        s.contains(':'),
    ensures
        read_v4(s) is None,
{
    lemma_split_keeps(s, '.', ':');
    let parts = split_on(s, '.');
    let i = choose|i: int| 0 <= i < parts.len() && (#[trigger] parts[i]).contains(':');
    let k = choose|k: int| 0 <= k < parts[i].len() && parts[i][k] == ':';
    assert(!is_digit(parts[i][k]));
    assert(octet(parts[i]) is None);
}

/// Which characters the text of an address has.
proof fn lemma_v6_text(a: u128)
    ensures
        v6_text(a as nat).contains(':'),
        !v6_text(a as nat).contains('/'),
        v6_text(a as nat).len() > 0,
        !is_space(v6_text(a as nat)[0]),
{
    let n = a as nat;
    let s = v6_text(n);
    let g = groups_of(n);
    let start = longest_run(g, 8);
    let run = zeros_from(g, start as int);
    reveal_strlit("::");
    reveal_strlit("::ffff:");
    if n / 0x1_0000_0000 == 0xffff {
        let low = (n % 0x1_0000_0000) as u32;
        law_v4_reads_back(low);
        assert(s[0] == ':');
        if s.contains('/') {
            let j = choose|j: int| 0 <= j < s.len() && s[j] == '/';
            assert(j >= 7);
            assert(v4_text(low as nat)[j - 7] == '/');
        }
    } else if run > 1 {
        lemma_longest_run(g, 8);
        lemma_zeros_from(g, start as int);
        let head = g.take(start as int);
        let tail = g.skip((start + run) as int);
        let h = groups_text(head);
        let t = groups_text(tail);
        if head.len() > 0 {
            lemma_groups_text(head);
            assert(s[0] == h[0]);
        } else {
            assert(s[0] == ':');
        }
        if tail.len() > 0 {
            lemma_groups_text(tail);
        }
        assert(s[h.len() as int] == ':');
        if s.contains('/') {
            let j = choose|j: int| 0 <= j < s.len() && s[j] == '/';
            if j < h.len() {
                assert(h[j] == '/');
            } else if j >= h.len() + 2 {
                assert(t[j - h.len() - 2] == '/');
            }
        }
    } else {
        lemma_groups_text(g);
        if s.contains('/') {
            let j = choose|j: int| 0 <= j < s.len() && s[j] == '/';
            assert(is_lower_hex(s[j]) || s[j] == ':');
        }
    }
}

/// Reading an address of sixteen bytes back from its text gives the address.
pub proof fn law_v6_reads_back(a: u128)
    ensures
        read_v6(v6_text(a as nat)) == Some(groups_of(a as nat)),
        groups_value(groups_of(a as nat)) == a,
        read_ip(v6_text(a as nat)) == Some(IpAddr::V6(a)),
{
    let n = a as nat;
    let g = groups_of(n);
    let start = longest_run(g, 8);
    let run = zeros_from(g, start as int);
    lemma_groups_value(a);
    lemma_v6_text(a);
    lemma_colon_is_not_dotted(v6_text(n));
    if n / 0x1_0000_0000 == 0xffff {
        lemma_mapped(n);
    } else if run > 1 {
        lemma_longest_run(g, 8);
        lemma_zeros_from(g, start as int);
        lemma_gapped(g, start, run);
    } else {
        lemma_groups_text(g);
        lemma_no_gap(groups_text(g));
        lemma_read_groups(g, true);
    }
}

/// The text of a block of sixteen-byte addresses reads back as that block.
pub proof fn law_v6_block_reads_back(network: u128, prefix: u8)
    requires
        prefix <= 128,
        block_of(network as nat, 128, prefix as nat) == network,
    ensures
        ({
            let net = CidrNet::V6 { network, prefix };
            read_cidr(net.text()) == Ok::<CidrNet, Seq<char>>(net)
        }),
{
    let net = CidrNet::V6 { network, prefix };
    let a = v6_text(network as nat);
    let p = decimal(prefix as nat);
    let s = net.text();
    reveal(read_cidr);
    reveal_strlit("/");
    law_v6_reads_back(network);
    lemma_v6_text(network);
    law_decimal_reads_back(prefix as nat, 128);
    lemma_decimal_digits(prefix as nat);
    assert("/"@ =~= seq!['/']);
    assert(s =~= a + seq!['/'] + p);
    assert(s[0] == a[0]);
    assert(s.last() == p.last());
    assert(is_digit(p[p.len() - 1]));
    assert(trimmed(s) == s) by {
        assert(!is_space(s[0]));
        assert(!is_space(s.last()));
    }
    assert forall|j: int| 0 <= j < a.len() implies s[j] != '/' by {
        assert(s[j] == a[j]);
        assert(a.contains(a[j]));
    }
    lemma_first_halves(s, '/', a.len() as int);
    assert(s.take(a.len() as int) =~= a);
    assert(s.skip(a.len() as int + 1) =~= p);
}

} // verus!
